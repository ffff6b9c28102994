use vminspect::cmdline::ProcCmd;
use vminspect::common::{draw_line, percentage};
use vminspect::mem::{Inspector, MemInspector};
use vminspect::smaps::ProcSmaps;
use vminspect::status::ProcStatus;

#[test]
fn percentage_half() {
    assert_eq!(percentage(50, 100), 50);
}

#[test]
fn percentage_saturates_at_100() {
    assert_eq!(percentage(150, 100), 100);
}

#[test]
fn percentage_zero_over_zero() {
    assert_eq!(percentage(0, 0), 0);
}

#[test]
fn percentage_truncates() {
    assert_eq!(percentage(1, 3), 33);
    assert_eq!(percentage(2, 3), 66);
}

#[test]
fn draw_line_centers_title() {
    let r = draw_line(b'-', b"Command Line", 30).unwrap();
    assert_eq!(r, b"---------Command Line---------".to_vec());
}

#[test]
fn draw_line_odd_padding_favors_right() {
    let r = draw_line(b'.', b"abc", 6).unwrap();
    assert_eq!(r, b".abc..".to_vec());
}

#[test]
fn draw_line_title_too_wide() {
    assert!(draw_line(b'-', b"a long title", 4).is_none());
}

#[test]
fn render_status_section() {
    let text = b"Pid: 42\nVmRSS: 100 kB\nRssAnon: 50 kB\nRssFile: 10 kB\nRssShmem: 5 kB\n";
    let st = ProcStatus::parse(text).unwrap();
    let out = String::from_utf8(st.render()).unwrap();
    let mut expected = String::new();
    expected.push_str("--------Process Status--------\n");
    expected.push_str("Pid:            42\n");
    expected.push_str("VmRSS:          100 KB\n");
    expected.push_str(" -> RssAnon:    50 KB   (50%)\n");
    expected.push_str(" -> RssFile:    10 KB\n");
    expected.push_str(" -> RssShmem:   5 KB\n");
    expected.push_str("HugetlbPages:   0 KB");
    assert_eq!(out, expected);
}

#[test]
fn render_vma_line() {
    let lines: Vec<Vec<u8>> = vec![
        b"00007f000000-0000ff000000 rw-p 00000000 00:00 0          /tmp/x".to_vec(),
        b"Rss: 4 kB".to_vec(),
    ];
    let vma = vminspect::smaps::SmapsVma::from(&lines).unwrap();
    let out = String::from_utf8(vma.render()).unwrap();
    assert_eq!(out, "7F000000 -> FF000000 RSS:          4 KB /tmp/x");
}

#[test]
fn render_vma_line_without_label() {
    let lines: Vec<Vec<u8>> = vec![
        b"00007f000000-0000ff000000 rw-p 00000000 00:00 0".to_vec(),
        b"Rss: 12345678901 kB".to_vec(),
    ];
    let vma = vminspect::smaps::SmapsVma::from(&lines).unwrap();
    let out = String::from_utf8(vma.render()).unwrap();
    // a resident size wider than ten digits is not truncated
    assert_eq!(out, "7F000000 -> FF000000 RSS: 12345678901 KB ");
}

#[test]
fn render_smaps_section() {
    let text = "7f0000000000-7f0000001000 r-xp 00000000 08:02 11      /usr/lib64/liba.so\n\
Rss: 100 kB\n\
7f0000002000-7f0000003000 rw-p 00000000 00:00 0\n\
Rss: 50 kB\n";
    let sm = ProcSmaps::parse(text.as_bytes()).unwrap();
    let out = String::from_utf8(sm.render()).unwrap();
    let expected = "---------Process VMAs---------\n\
RSS (Shared Libs): 100 KB\n\
1 VMAs with RSS usage > 0:\n\
7F0000002000 -> 7F0000003000 RSS:         50 KB \n";
    assert_eq!(out, expected);
}

#[test]
fn render_cmd_section() {
    let cmd = ProcCmd::parse(b"prog\0-v\0-file x.txt\0");
    let out = String::from_utf8(cmd.render()).unwrap();
    assert_eq!(
        out,
        "---------Command Line---------\nprog -v -file 'x.txt'"
    );
}

#[test]
fn inspect_concatenates_present_sections() {
    let cmd = ProcCmd::parse(b"prog\0");
    let st = ProcStatus::parse(b"Pid: 7\n").unwrap();
    let insp = MemInspector::new(Some(cmd), Some(st), None);
    let out = String::from_utf8(insp.inspect()).unwrap();
    let mut expected = String::new();
    expected.push_str("---------Command Line---------\n");
    expected.push_str("prog  \n");
    expected.push_str("--------Process Status--------\n");
    expected.push_str("Pid:            7\n");
    expected.push_str("VmRSS:          0 KB\n");
    expected.push_str(" -> RssAnon:    0 KB   (0%)\n");
    expected.push_str(" -> RssFile:    0 KB\n");
    expected.push_str(" -> RssShmem:   0 KB\n");
    expected.push_str("HugetlbPages:   0 KB\n");
    assert_eq!(out, expected);
}

#[test]
fn inspect_nothing_requested_prints_nothing() {
    let insp = MemInspector::new(None, None, None);
    assert!(insp.inspect().is_empty());
}
