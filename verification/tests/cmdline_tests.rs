use vminspect::cmdline::ProcCmd;

#[test]
fn cmdline_flag_with_value_quoted() {
    let cmd = ProcCmd::parse(b"prog\0-v\0-file x.txt\0");
    assert_eq!(cmd.name, b"prog".to_vec());
    assert_eq!(
        cmd.args,
        vec![b"-v".to_vec(), b"-file 'x.txt'".to_vec()]
    );
}

#[test]
fn cmdline_no_flags() {
    let cmd = ProcCmd::parse(b"prog\0");
    // the trailing NUL reads as a space and stays on the name
    assert_eq!(cmd.name, b"prog ".to_vec());
    assert!(cmd.args.is_empty());
}

#[test]
fn cmdline_empty() {
    let cmd = ProcCmd::parse(b"");
    assert_eq!(cmd.name, b"".to_vec());
    assert!(cmd.args.is_empty());
}

#[test]
fn cmdline_bare_flags() {
    let cmd = ProcCmd::parse(b"/usr/bin/tool\0-a\0--long\0");
    assert_eq!(cmd.name, b"/usr/bin/tool".to_vec());
    // the trailing NUL reads as a space, so the last flag carries an
    // empty quoted value
    assert_eq!(cmd.args, vec![b"-a".to_vec(), b"--long ''".to_vec()]);
}

#[test]
fn cmdline_value_keeps_inner_spaces() {
    let cmd = ProcCmd::parse(b"p\0-m a b c\0");
    assert_eq!(cmd.name, b"p".to_vec());
    assert_eq!(cmd.args, vec![b"-m 'a b c'".to_vec()]);
}

#[test]
fn cmdline_value_trailing_whitespace_trimmed() {
    let cmd = ProcCmd::parse(b"p\0-o out.txt \t\0");
    assert_eq!(cmd.args, vec![b"-o 'out.txt'".to_vec()]);
}

#[test]
fn cmdline_argument_not_led_by_hyphen_merges() {
    // the flag heuristic keeps a plain argument glued to the name
    let cmd = ProcCmd::parse(b"prog\0input.txt\0");
    assert_eq!(cmd.name, b"prog input.txt ".to_vec());
    assert!(cmd.args.is_empty());
}

#[test]
fn cmdline_parse_arg_bare() {
    assert_eq!(ProcCmd::parse_arg(b"v"), b"-v".to_vec());
}

#[test]
fn cmdline_parse_arg_with_value() {
    assert_eq!(ProcCmd::parse_arg(b"file x.txt "), b"-file 'x.txt'".to_vec());
}
