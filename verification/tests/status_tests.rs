use vminspect::common::Error;
use vminspect::status::ProcStatus;

#[test]
fn status_recognized_keys_once() {
    let text = b"Pid:\t42\nVmRSS:\t  100 kB\nSomeFutureKey:   7 kB\n";
    let st = ProcStatus::parse(text).unwrap();
    assert_eq!(st.pid, 42);
    assert_eq!(st.vm_rss, 100);
    // every absent key stays zero
    assert_eq!(st.vm_peak, 0);
    assert_eq!(st.vm_size, 0);
    assert_eq!(st.vm_hwm, 0);
    assert_eq!(st.rss_anon, 0);
    assert_eq!(st.rss_file, 0);
    assert_eq!(st.rss_shmem, 0);
    assert_eq!(st.vm_data, 0);
    assert_eq!(st.vm_stk, 0);
    assert_eq!(st.vm_exe, 0);
    assert_eq!(st.vm_lib, 0);
    assert_eq!(st.vm_pte, 0);
    assert_eq!(st.hugetlb_pages, 0);
    assert_eq!(st.threads, 0);
}

#[test]
fn status_all_fields() {
    let text = b"Pid:\t1\n\
VmPeak:\t2 kB\n\
VmSize:\t3 kB\n\
VmHWM:\t4 kB\n\
VmRSS:\t5 kB\n\
RssAnon:\t6 kB\n\
RssFile:\t7 kB\n\
RssShmem:\t8 kB\n\
VmData:\t9 kB\n\
VmStk:\t10 kB\n\
VmExe:\t11 kB\n\
VmLib:\t12 kB\n\
VmPTE:\t13 kB\n\
HugetlbPages:\t14 kB\n\
Threads:\t15\n";
    let st = ProcStatus::parse(text).unwrap();
    assert_eq!(st.pid, 1);
    assert_eq!(st.vm_peak, 2);
    assert_eq!(st.vm_size, 3);
    assert_eq!(st.vm_hwm, 4);
    assert_eq!(st.vm_rss, 5);
    assert_eq!(st.rss_anon, 6);
    assert_eq!(st.rss_file, 7);
    assert_eq!(st.rss_shmem, 8);
    assert_eq!(st.vm_data, 9);
    assert_eq!(st.vm_stk, 10);
    assert_eq!(st.vm_exe, 11);
    assert_eq!(st.vm_lib, 12);
    assert_eq!(st.vm_pte, 13);
    assert_eq!(st.hugetlb_pages, 14);
    assert_eq!(st.threads, 15);
}

#[test]
fn status_last_occurrence_wins() {
    let text = b"VmRSS: 1 kB\nVmRSS: 2 kB\n";
    let st = ProcStatus::parse(text).unwrap();
    assert_eq!(st.vm_rss, 2);
}

#[test]
fn status_bad_number_fails() {
    let text = b"VmRSS:\tabc kB\n";
    match ProcStatus::parse(text) {
        Err(Error::ParseError(_)) => {}
        _ => panic!("expected a parse error"),
    }
}

#[test]
fn status_recognized_key_without_value_fails() {
    let text = b"VmRSS:\n";
    match ProcStatus::parse(text) {
        Err(Error::ParseError(_)) => {}
        _ => panic!("expected a parse error"),
    }
}

#[test]
fn status_unrecognized_key_without_value_ignored() {
    let text = b"Name\nVmRSS: 9 kB\n";
    let st = ProcStatus::parse(text).unwrap();
    assert_eq!(st.vm_rss, 9);
}

#[test]
fn status_empty_line_fails() {
    let text = b"Pid: 1\n\nThreads: 2\n";
    match ProcStatus::parse(text) {
        Err(Error::ParseError(_)) => {}
        _ => panic!("expected a parse error"),
    }
}

#[test]
fn status_u32_field_width() {
    let ok = b"VmStk: 4294967295\n";
    let st = ProcStatus::parse(ok).unwrap();
    assert_eq!(st.vm_stk, u32::MAX);
    let too_big = b"VmStk: 4294967296\n";
    assert!(ProcStatus::parse(too_big).is_err());
}

#[test]
fn status_u64_field_width() {
    let ok = b"VmRSS: 18446744073709551615\n";
    let st = ProcStatus::parse(ok).unwrap();
    assert_eq!(st.vm_rss, u64::MAX);
    let too_big = b"VmRSS: 18446744073709551616\n";
    assert!(ProcStatus::parse(too_big).is_err());
}

#[test]
fn status_empty_text_is_all_zero() {
    let st = ProcStatus::parse(b"").unwrap();
    assert_eq!(st, ProcStatus::default());
}
