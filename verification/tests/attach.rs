use g2mirror::attach::{
    align_left, align_right, describe, find_candidates, list_sessions, parse_attach_args,
    parse_detach_key, pick_keys, picker_screen, probe_matches, sort_probes, tilde, uptime,
    AttachOpts, Picked, Probe, DEFAULT_DETACH_KEY,
};
use g2mirror::keys::{parse_list_keys, ListKey};
use g2mirror::wrap::Arg;

fn arg(text: &str) -> Arg {
    Arg { text: text.to_string(), exact: true }
}

fn probe(pid: u32, headless: bool, detached: bool) -> Probe {
    Probe {
        path: format!("/tmp/{pid}"),
        pid,
        command: "sh".into(),
        cwd: "/home/u/x".into(),
        title: None,
        headless,
        detached,
        launched: None,
        age: None,
    }
}

fn home() -> Option<String> {
    Some("/home/u".to_string())
}

#[test]
fn detach_keys_parse() {
    assert_eq!(parse_detach_key("none").unwrap(), None);
    assert_eq!(parse_detach_key("ctrl-\\").unwrap(), Some(0x1c));
    assert_eq!(parse_detach_key("^\\").unwrap(), Some(0x1c));
    assert_eq!(parse_detach_key("C-g").unwrap(), Some(0x07));
    assert_eq!(parse_detach_key("ctrl-A").unwrap(), Some(0x01));
    assert_eq!(parse_detach_key("ctrl+_").unwrap(), Some(0x1f));
    assert!(parse_detach_key("x").is_err());
    assert!(parse_detach_key("ctrl-").is_err());
    assert!(parse_detach_key("ctrl-!").is_err());
    assert!(parse_detach_key("ctrl-xy").is_err());
}

#[test]
fn detach_key_errors_say_what_is_wrong() {
    assert_eq!(
        parse_detach_key("x\"").unwrap_err(),
        "cannot parse detach key \"x\\\"\" (want e.g. ctrl-\\ or none)"
    );
    assert_eq!(
        parse_detach_key("ctrl-xy").unwrap_err(),
        "cannot parse detach key \"ctrl-xy\": want a single character after the prefix"
    );
    assert_eq!(
        parse_detach_key("^\u{e9}").unwrap_err(),
        "cannot parse detach key \"^\u{e9}\": want a single character after the prefix"
    );
    assert_eq!(
        parse_detach_key("ctrl-!").unwrap_err(),
        "\"ctrl-!\" does not name a control character"
    );
    assert_eq!(parse_detach_key("NoNe").unwrap(), None);
    assert_eq!(parse_detach_key("^@").unwrap(), Some(0));
}

#[test]
fn attach_args_parse() {
    let opts = parse_attach_args(&Vec::new()).unwrap();
    assert_eq!(opts.pattern, None);
    assert!(!opts.force);
    assert_eq!(opts.detach_key, Some(DEFAULT_DETACH_KEY));

    let args: Vec<Arg> = ["4321", "--force", "--detach-key", "none"].iter().map(|a| arg(a)).collect();
    let opts = parse_attach_args(&args).unwrap();
    assert_eq!(opts.pattern.as_deref(), Some("4321"));
    assert!(opts.force);
    assert_eq!(opts.detach_key, None);

    let args: Vec<Arg> = ["a", "b"].iter().map(|a| arg(a)).collect();
    assert!(parse_attach_args(&args).is_err(), "two patterns must be rejected");
}

#[test]
fn attach_arg_errors_say_what_is_wrong() {
    let args: Vec<Arg> = ["a", "b"].iter().map(|a| arg(a)).collect();
    assert_eq!(parse_attach_args(&args).err().unwrap(), "unexpected --attach argument \"b\"");
    let args = vec![arg("--detach-key")];
    assert_eq!(
        parse_attach_args(&args).err().unwrap(),
        "--detach-key requires a value (e.g. ctrl-\\, ctrl-g, none)"
    );
    let args = vec![arg("--wat")];
    assert_eq!(parse_attach_args(&args).err().unwrap(), "unexpected --attach argument \"--wat\"");
    // An argument that is not valid UTF-8 is no pattern.
    let args = vec![Arg { text: "x\u{fffd}".into(), exact: false }];
    assert!(parse_attach_args(&args).is_err());
}

#[test]
fn probe_matching_is_case_insensitive_across_fields() {
    let probe = Probe {
        path: "/tmp/x".into(),
        pid: 4321,
        command: "agent --continue".into(),
        cwd: "/Users/jim/repositories/g2mirror".into(),
        title: Some("Fixing the Frobnicator".into()),
        headless: true,
        detached: true,
        launched: Some("shell".into()),
        age: None,
    };
    for pat in ["4321", "g2mirror", "frobnicator", "SHELL", "agent"] {
        assert!(probe_matches(&probe, pat), "{pat}");
    }
    assert!(!probe_matches(&probe, "htop"));
}

#[test]
fn probes_are_listed_detached_first() {
    let sorted = sort_probes(vec![
        probe(5, false, false),
        probe(9, true, false),
        probe(7, true, true),
        probe(3, true, true),
        probe(4, false, false),
    ]);
    let pids: Vec<u32> = sorted.iter().map(|p| p.pid).collect();
    assert_eq!(pids, vec![3, 7, 9, 4, 5]);
    assert!(sort_probes(Vec::new()).is_empty());
}

#[test]
fn sessions_are_described() {
    let mut p = probe(42, true, true);
    p.age = Some(75);
    assert_eq!(describe(&p, &home()), "DETACHED      42  ~/x  sh  up 75s");
    p.detached = false;
    p.launched = Some("build".into());
    p.age = Some(100);
    assert_eq!(describe(&p, &home()), "attached      42  ~/x  [build]  up 1m");
    p.headless = false;
    p.title = Some("T".into());
    p.age = Some(7200);
    assert_eq!(describe(&p, &None), "              42  /home/u/x  T  up 2h");
    assert_eq!(tilde("/home/user", &home()), "~ser");
    assert_eq!(tilde("/else", &home()), "/else");
    assert_eq!(uptime(None), "");
    assert_eq!(uptime(Some(5999)), "up 99m");
    assert_eq!(uptime(Some(6000)), "up 1h");
    assert_eq!(align_right("1234567", 6), "1234567");
    assert_eq!(align_left("12", 4), "12  ");
}

#[test]
fn the_list_ends_with_a_hint_for_detached_sessions() {
    assert_eq!(list_sessions(&Vec::new(), &home()), "no live g2mirror sessions");
    assert_eq!(
        list_sessions(&vec![probe(1, false, false)], &home()),
        "               1  ~/x  sh"
    );
    assert_eq!(
        list_sessions(&vec![probe(1, true, true), probe(2, false, false)], &home()),
        "DETACHED       1  ~/x  sh\n               2  ~/x  sh\n\nclaim a DETACHED session with: g2mirror -a [pid or pattern]"
    );
}

fn opts(pattern: Option<&str>, force: bool) -> AttachOpts {
    AttachOpts { pattern: pattern.map(str::to_string), force, detach_key: None }
}

#[test]
fn only_claimable_sessions_are_candidates() {
    let probes = vec![probe(10, true, true), probe(11, true, false), probe(12, false, false)];
    assert_eq!(find_candidates(&probes, &opts(None, false), &home()), Ok(vec![0]));
    assert_eq!(find_candidates(&probes, &opts(None, true), &home()), Ok(vec![0, 1]));
    assert_eq!(find_candidates(&probes, &opts(Some("11"), true), &home()), Ok(vec![1]));
    assert_eq!(
        find_candidates(&probes, &opts(Some("11"), false), &home()).unwrap_err(),
        "no detached session matches \"11\" (1 already attached; --force takes one over)\nlive sessions:\n  DETACHED      10  ~/x  sh\n  attached      11  ~/x  sh\n                12  ~/x  sh"
    );
    assert_eq!(
        find_candidates(&Vec::new(), &opts(None, false), &home()).unwrap_err(),
        "no detached sessions; start one with: g2mirror --detached <command>"
    );
}

#[test]
fn the_picker_moves_and_decides() {
    assert_eq!(pick_keys(b"jj", 0, 2), (1, Picked::Undecided));
    assert_eq!(pick_keys(b"\x1b[A", 0, 2), (0, Picked::Undecided));
    assert_eq!(pick_keys(b"j\rk", 0, 3), (0, Picked::Chosen(1)));
    assert_eq!(pick_keys(b"\rq", 0, 3), (0, Picked::Cancelled));
    assert_eq!(pick_keys(b"r", 1, 3), (1, Picked::Undecided));
    let probes = vec![probe(10, true, true), probe(11, true, false)];
    let screen = picker_screen(&probes, &vec![0, 1], &home(), 1);
    assert_eq!(
        screen,
        "\x1b[H\x1b[2Jg2mirror \u{2014} pick a session to attach\r\n\r\n  DETACHED      10  ~/x  sh\r\n\x1b[7m> attached      11  ~/x  sh\x1b[0m\r\n\r\n  \u{2191}/\u{2193} select \u{00b7} enter attach \u{00b7} q cancel"
    );
}

#[test]
fn escape_sequences_are_taken_whole() {
    assert_eq!(parse_list_keys(b"\x1bOA\x1b[C"), vec![ListKey::Up]);
    // Too short for a sequence: the bytes stand for themselves.
    assert_eq!(parse_list_keys(b"\x1b["), Vec::<ListKey>::new());
    assert_eq!(parse_list_keys(b"\x1b[q\n"), vec![ListKey::Enter]);
    assert_eq!(parse_list_keys(b"x\x1bq"), vec![ListKey::Quit]);
}
