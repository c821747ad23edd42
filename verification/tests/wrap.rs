use g2mirror::wrap::{
    command_line, exit_code, headless_args, invocation, parse_size, parse_wrap_args,
    startup_step, usable_size, Arg, Invocation, Startup, WrapOpts, STARTUP_LIMIT_MS,
};

fn args(list: &[&str]) -> Vec<Arg> {
    list.iter().map(|a| Arg { text: a.to_string(), exact: true }).collect()
}

fn parse(list: &[&str]) -> WrapOpts {
    parse_wrap_args(&args(list)).ok().unwrap()
}

fn fault(list: &[&str]) -> Option<String> {
    parse_wrap_args(&args(list)).err().unwrap()
}

#[test]
fn the_first_argument_selects_what_to_do() {
    assert!(matches!(invocation(&args(&["--list"])), Ok(Invocation::List)));
    assert!(matches!(invocation(&args(&["-l"])), Ok(Invocation::List)));
    assert_eq!(
        invocation(&args(&["-l", "x"])).err().unwrap(),
        "--list takes no further arguments"
    );
    assert!(matches!(invocation(&args(&["-a", "x"])), Ok(Invocation::Attach)));
    assert!(matches!(invocation(&args(&["--attach"])), Ok(Invocation::Attach)));
    assert!(matches!(invocation(&args(&["ls", "-l"])), Ok(Invocation::Wrap)));
    assert!(matches!(invocation(&args(&[])), Ok(Invocation::Wrap)));
}

#[test]
fn wrap_options_parse() {
    let o = parse(&["ls", "--title", "x"]);
    assert_eq!((o.program, o.title, o.readonly), (0, None, false));
    assert_eq!((o.scrollback, o.initial_size), (10_000, (24, 80)));
    let o = parse(&[
        "--title", "a", "--readonly", "--scrollback", "7", "--headless", "--detached",
        "--initial-size", "100x30", "--launched", "p", "--", "-x",
    ]);
    assert_eq!(o.title.as_deref(), Some("a"));
    assert_eq!(o.launched.as_deref(), Some("p"));
    assert_eq!((o.readonly, o.headless, o.detached), (true, true, true));
    assert_eq!((o.scrollback, o.initial_size, o.program), (7, (30, 100), 12));
    assert_eq!(parse(&["--title=b c", "-"]).title.as_deref(), Some("b c"));
    assert_eq!(parse(&["--title=", "x"]).title.as_deref(), Some(""));
    // An argument that is not valid UTF-8 is the program.
    let mut list = args(&["--readonly", "-\u{fffd}"]);
    list[1].exact = false;
    assert_eq!(parse_wrap_args(&list).ok().unwrap().program, 1);
}

#[test]
fn wrap_option_errors_say_what_is_wrong() {
    assert_eq!(fault(&[]), None);
    assert_eq!(fault(&["--"]), None);
    assert_eq!(fault(&["--title"]).unwrap(), "--title requires a value");
    assert_eq!(fault(&["--launched"]).unwrap(), "--launched requires a preset name");
    for value in ["x", "-1", ""] {
        assert_eq!(
            fault(&["--scrollback", value, "ls"]).unwrap(),
            "--scrollback requires a number of lines"
        );
    }
    assert_eq!(
        fault(&["--initial-size", "0x5", "ls"]).unwrap(),
        "--initial-size requires <cols>x<rows>, e.g. 80x24"
    );
    assert_eq!(fault(&["--nope", "ls"]).unwrap(), "unknown option --nope");
}

#[test]
fn sizes_parse_as_columns_by_rows() {
    assert_eq!(parse_size("80x24"), Some((24, 80)));
    assert_eq!(parse_size("+80x024"), Some((24, 80)));
    for bad in ["", "80", "x", "80x", "x24", "0x24", "80x0", "65536x1", "80x24x1", "8 x2"] {
        assert_eq!(parse_size(bad), None, "{bad}");
    }
    assert_eq!(parse_size("65535x1"), Some((1, 65535)));
    assert_eq!(usable_size(30, 100), (30, 100));
    assert_eq!(usable_size(0, 0), (24, 80));
    assert_eq!(usable_size(0, 80), (24, 80));
    assert_eq!(usable_size(24, 0), (24, 80));
    assert_eq!(usable_size(1, 1), (1, 1));
    assert_eq!(usable_size(1, 65535), (1, 65535));
}

#[test]
fn headless_copies_get_the_same_options() {
    for list in [
        vec!["--title", "--odd", "--readonly", "--scrollback", "7", "--initial-size", "9x8",
             "--launched", "p", "--detached", "sh"],
        vec!["--detached", "sh"],
    ] {
        let o = parse(&list);
        let mut copy = headless_args(&o);
        copy.push("sh".into());
        let refs: Vec<&str> = copy.iter().map(String::as_str).collect();
        let c = parse(&refs);
        assert_eq!((c.title, c.launched), (o.title, o.launched));
        assert_eq!((c.readonly, c.scrollback), (o.readonly, o.scrollback));
        assert_eq!(c.initial_size, o.initial_size);
        assert_eq!((c.headless, c.detached), (true, false));
        assert_eq!(c.program, copy.len() - 1);
    }
}

#[test]
fn a_headless_copy_is_waited_for() {
    assert_eq!(startup_step(false, false, 0), Startup::Wait);
    assert_eq!(startup_step(false, false, STARTUP_LIMIT_MS - 1), Startup::Wait);
    assert_eq!(startup_step(false, false, 5_000), Startup::TimedOut);
    assert_eq!(startup_step(false, true, 9_000), Startup::Exited);
    assert_eq!(startup_step(true, true, 9_000), Startup::Ready);
}

#[test]
fn exit_codes_follow_the_child() {
    assert_eq!(exit_code(Some(3), None), 3);
    assert_eq!(exit_code(None, Some(9)), 137);
    assert_eq!(exit_code(None, None), 1);
    assert_eq!(command_line(&vec!["a".into(), "b c".into()]), "a b c");
    assert_eq!(command_line(&Vec::new()), "");
}
