use vminspect::common::Error;
use vminspect::smaps::{ProcSmaps, SmapsVma};

fn block(header: &str, details: &[&str]) -> String {
    let mut s = String::new();
    s.push_str(header);
    s.push('\n');
    for d in details {
        s.push_str(d);
        s.push('\n');
    }
    s
}

#[test]
fn boundary_fifty_chars_hex_prefix_is_header() {
    // 12 hex digits, then malformed filler up to 50 characters
    let mut line = b"7f0000000000".to_vec();
    line.extend(std::iter::repeat(b'.').take(38));
    assert_eq!(line.len(), 50);
    assert!(SmapsVma::is_another_vma(&line));
}

#[test]
fn boundary_needs_more_than_45_chars() {
    let mut line = b"7f0000000000".to_vec();
    line.extend(std::iter::repeat(b'.').take(33));
    assert_eq!(line.len(), 45);
    assert!(!SmapsVma::is_another_vma(&line));
    line.push(b'.');
    assert!(SmapsVma::is_another_vma(&line));
}

#[test]
fn boundary_detail_line_is_no_header() {
    let line = b"Rss:                 100 kB";
    assert!(!SmapsVma::is_another_vma(line));
    // long enough, but the prefix is not all hex digits
    let mut line2 = b"Rss:".to_vec();
    line2.extend(std::iter::repeat(b' ').take(46));
    assert_eq!(line2.len(), 50);
    assert!(!SmapsVma::is_another_vma(&line2));
}

#[test]
fn boundary_short_line_is_no_header() {
    let line = b"7f0000000000-7f0000001000";
    assert!(!SmapsVma::is_another_vma(line));
}

#[test]
fn vma_from_block() {
    let lines: Vec<Vec<u8>> = vec![
        b"7f0000000000-7f0000001000 r-xp 00001000 08:02 173521      /usr/bin/tool".to_vec(),
        b"Size:                  4 kB".to_vec(),
        b"Rss:                 100 kB".to_vec(),
        b"Pss:                  60 kB".to_vec(),
        b"Shared_Clean:         96 kB".to_vec(),
        b"Shared_Dirty:          0 kB".to_vec(),
        b"Private_Clean:         4 kB".to_vec(),
        b"Private_Dirty:         1 kB".to_vec(),
        b"Locked:                2 kB".to_vec(),
    ];
    let vma = SmapsVma::from(&lines).unwrap();
    assert_eq!(vma.start, 0x7f0000000000);
    assert_eq!(vma.end, 0x7f0000001000);
    assert_eq!(vma.perm, b"r-xp".to_vec());
    assert_eq!(vma.offset, 0x1000);
    assert_eq!(vma.device, b"08:02".to_vec());
    assert_eq!(vma.inode, 173521);
    assert_eq!(vma.notion, Some(b"/usr/bin/tool".to_vec()));
    assert_eq!(vma.rss, 100);
    assert_eq!(vma.pss, 60);
    assert_eq!(vma.shared_clean, 96);
    assert_eq!(vma.shared_dirty, 0);
    assert_eq!(vma.private_clean, 4);
    assert_eq!(vma.private_dirty, 1);
    assert_eq!(vma.locked, 2);
}

#[test]
fn vma_from_block_without_path() {
    let lines: Vec<Vec<u8>> = vec![
        b"7f0000000000-7f0000001000 rw-p 00000000 00:00 0".to_vec(),
        b"Rss:                   8 kB".to_vec(),
    ];
    let vma = SmapsVma::from(&lines).unwrap();
    assert_eq!(vma.notion, None);
    assert_eq!(vma.rss, 8);
}

#[test]
fn vma_from_bad_hex_fails() {
    let lines: Vec<Vec<u8>> = vec![
        b"7f00000000zz-7f0000001000 rw-p 00000000 00:00 0".to_vec(),
    ];
    match SmapsVma::from(&lines) {
        Err(Error::ParseError(_)) => {}
        _ => panic!("expected a parse error"),
    }
}

#[test]
fn vma_from_missing_tokens_fails() {
    let lines: Vec<Vec<u8>> = vec![b"7f0000000000-7f0000001000 rw-p".to_vec()];
    assert!(SmapsVma::from(&lines).is_err());
}

#[test]
fn vma_from_bad_detail_number_fails() {
    let lines: Vec<Vec<u8>> = vec![
        b"7f0000000000-7f0000001000 rw-p 00000000 00:00 0".to_vec(),
        b"Rss: x kB".to_vec(),
    ];
    assert!(SmapsVma::from(&lines).is_err());
}

#[test]
fn parse_routes_and_orders() {
    // one shared-library block, one unlabeled block, one labeled block,
    // the last two with equal resident sizes
    let text = block(
        "7f0000000000-7f0000001000 r-xp 00000000 08:02 11      /usr/lib64/libfoo.so",
        &["Rss:                 100 kB"],
    ) + &block(
        "7f0000002000-7f0000003000 rw-p 00000000 00:00 0",
        &["Rss:                  50 kB"],
    ) + &block(
        "7f0000004000-7f0000005000 rw-p 00000000 08:02 12      /tmp/data",
        &["Rss:                  50 kB"],
    );
    let sm = ProcSmaps::parse(text.as_bytes()).unwrap();
    assert_eq!(sm.libs_rss, 100);
    assert_eq!(sm.libs, vec![b"/usr/lib64/libfoo.so".to_vec()]);
    assert_eq!(sm.vmas.len(), 2);
    // the labeled region of equal size comes first
    assert_eq!(sm.vmas[0].notion, Some(b"/tmp/data".to_vec()));
    assert_eq!(sm.vmas[0].rss, 50);
    assert_eq!(sm.vmas[1].notion, None);
    assert_eq!(sm.vmas[1].rss, 50);
}

#[test]
fn parse_drops_zero_rss_regions() {
    let text = block(
        "7f0000000000-7f0000001000 rw-p 00000000 00:00 0",
        &["Rss:                   0 kB"],
    ) + &block(
        "7f0000002000-7f0000003000 r-xp 00000000 08:02 13      /usr/lib64/libbar.so",
        &["Rss:                   0 kB"],
    );
    let sm = ProcSmaps::parse(text.as_bytes()).unwrap();
    assert!(sm.vmas.is_empty());
    assert_eq!(sm.libs_rss, 0);
    assert!(sm.libs.is_empty());
}

#[test]
fn parse_orders_by_descending_rss() {
    let text = block(
        "7f0000000000-7f0000001000 rw-p 00000000 00:00 0",
        &["Rss: 10 kB"],
    ) + &block(
        "7f0000002000-7f0000003000 rw-p 00000000 00:00 0",
        &["Rss: 30 kB"],
    ) + &block(
        "7f0000004000-7f0000005000 rw-p 00000000 00:00 0",
        &["Rss: 20 kB"],
    );
    let sm = ProcSmaps::parse(text.as_bytes()).unwrap();
    let sizes: Vec<u64> = sm.vmas.iter().map(|v| v.rss).collect();
    assert_eq!(sizes, vec![30, 20, 10]);
}

#[test]
fn parse_empty_text() {
    let sm = ProcSmaps::parse(b"").unwrap();
    assert!(sm.vmas.is_empty());
    assert_eq!(sm.libs_rss, 0);
    assert!(sm.libs.is_empty());
}

#[test]
fn parse_bad_block_fails_whole_parse() {
    let text = block(
        "7f0000000000-7f0000001000 rw-p 00000000 00:00 0",
        &["Rss: nonsense kB"],
    );
    match ProcSmaps::parse(text.as_bytes()) {
        Err(Error::ParseError(_)) => {}
        _ => panic!("expected a parse error"),
    }
}

#[test]
fn parse_aggregates_several_library_regions() {
    let text = block(
        "7f0000000000-7f0000001000 r-xp 00000000 08:02 11      /usr/lib64/liba.so",
        &["Rss: 40 kB"],
    ) + &block(
        "7f0000002000-7f0000003000 r--p 00000000 08:02 12      /usr/lib64/libb.so",
        &["Rss: 2 kB"],
    );
    let sm = ProcSmaps::parse(text.as_bytes()).unwrap();
    assert_eq!(sm.libs_rss, 42);
    assert_eq!(
        sm.libs,
        vec![b"/usr/lib64/liba.so".to_vec(), b"/usr/lib64/libb.so".to_vec()]
    );
    assert!(sm.vmas.is_empty());
}

#[test]
fn add_keeps_region_unchanged_and_reclassifies_same() {
    let lines: Vec<Vec<u8>> = vec![
        b"7f0000000000-7f0000001000 rw-p 00000000 08:02 12      /tmp/data".to_vec(),
        b"Rss: 50 kB".to_vec(),
    ];
    let vma = SmapsVma::from(&lines).unwrap();
    let mut sm = ProcSmaps {
        vmas: Vec::new(),
        libs_rss: 0,
        libs: Vec::new(),
    };
    sm.add(vma);
    assert_eq!(sm.vmas.len(), 1);
    // the stored region is the region that was classified, unchanged
    let stored = sm.vmas[0].clone();
    assert_eq!(stored.rss, 50);
    assert_eq!(stored.notion, Some(b"/tmp/data".to_vec()));
    // classifying the stored region again lands in the same bucket
    let mut sm2 = ProcSmaps {
        vmas: Vec::new(),
        libs_rss: 0,
        libs: Vec::new(),
    };
    sm2.add(stored);
    assert_eq!(sm2.vmas.len(), 1);
    assert_eq!(sm2.libs_rss, 0);
    assert!(sm2.libs.is_empty());
}

#[test]
fn add_library_region_reclassifies_same() {
    let lines: Vec<Vec<u8>> = vec![
        b"7f0000000000-7f0000001000 r-xp 00000000 08:02 11      /usr/lib64/liba.so".to_vec(),
        b"Rss: 7 kB".to_vec(),
    ];
    let vma = SmapsVma::from(&lines).unwrap();
    let mut sm = ProcSmaps {
        vmas: Vec::new(),
        libs_rss: 0,
        libs: Vec::new(),
    };
    sm.add(vma.clone());
    assert!(sm.vmas.is_empty());
    assert_eq!(sm.libs_rss, 7);
    assert_eq!(sm.libs, vec![b"/usr/lib64/liba.so".to_vec()]);
    let mut sm2 = ProcSmaps {
        vmas: Vec::new(),
        libs_rss: 0,
        libs: Vec::new(),
    };
    sm2.add(vma);
    assert_eq!(sm2.libs_rss, 7);
}

#[test]
fn add_zero_rss_region_enters_neither_bucket() {
    let lines: Vec<Vec<u8>> = vec![
        b"7f0000000000-7f0000001000 r-xp 00000000 08:02 11      /usr/lib64/liba.so".to_vec(),
    ];
    let vma = SmapsVma::from(&lines).unwrap();
    let mut sm = ProcSmaps {
        vmas: Vec::new(),
        libs_rss: 0,
        libs: Vec::new(),
    };
    sm.add(vma);
    assert!(sm.vmas.is_empty());
    assert_eq!(sm.libs_rss, 0);
    assert!(sm.libs.is_empty());
}
