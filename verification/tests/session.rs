use g2mirror::protocol::{
    decode_terminal_bytes, encode_terminal_bytes, FromSession, InputDelay, Role, ToSession,
};
use g2mirror::session::Session;
use g2mirror::session_model::{Action, BELL_DEBOUNCE};

fn session(headless: bool, readonly: bool) -> Session {
    Session::new(24, 80, headless, readonly, 100, None).0
}

fn init(width: u16, height: u16, rank: Option<u32>, host: Option<u32>) -> ToSession {
    ToSession::Init {
        version: 1,
        device: "dev".into(),
        width,
        height,
        size_rank: rank,
        host_size_rank: host,
        role: Role::Viewer,
        force: false,
    }
}

fn claim(force: bool) -> ToSession {
    ToSession::Init {
        version: 1,
        device: "term".into(),
        width: 100,
        height: 30,
        size_rank: None,
        host_size_rank: None,
        role: Role::Host,
        force,
    }
}

fn show(msg: &FromSession) -> String {
    match msg {
        FromSession::Connect { .. } => "connect".into(),
        FromSession::Snapshot { width, height, history_next, .. } => {
            format!("snapshot {width}x{height} {history_next}")
        }
        FromSession::Output { .. } => "output".into(),
        FromSession::Bell { at } => format!("bell {at}"),
        FromSession::Title { title } => format!("title {title}"),
        FromSession::Exit { status } => format!("exit {status:?}"),
        FromSession::HostChanged { attached } => format!("host_changed {attached}"),
        FromSession::HistoryLines { start, oldest, next, lines } => {
            format!("lines {start} {oldest} {next} {}", lines.len())
        }
        FromSession::Error { message } => format!("error {message}"),
    }
}

/// Actions as text, host output left out.
fn log(actions: &[Action]) -> Vec<String> {
    let mut out = Vec::new();
    for a in actions {
        match a {
            Action::WritePty(b) => out.push(format!("pty {:?}", String::from_utf8_lossy(b))),
            Action::ResizePty { rows, cols } => out.push(format!("resize {rows}x{cols}")),
            Action::WriteHost(_) => {}
            Action::Send { to, msg } => out.push(format!("{to:?} {}", show(msg))),
            Action::Close(ids) => {
                if !ids.is_empty() {
                    out.push(format!("close {ids:?}"));
                }
            }
            Action::PumpInput => out.push("pump".into()),
            Action::Sweep => out.push("sweep".into()),
        }
    }
    out
}

fn host_bytes(actions: &[Action]) -> Vec<u8> {
    let mut out = Vec::new();
    for a in actions {
        if let Action::WriteHost(b) = a {
            out.extend_from_slice(b);
        }
    }
    out
}

fn sweep(s: &mut Session) -> Vec<String> {
    let mut out = log(&s.sweep_begin());
    out.extend(log(&s.sweep_finish()));
    out
}

#[test]
fn clients_are_classified_by_their_first_message() {
    let mut s = session(false, false);
    assert_eq!(s.accept(), 0);
    assert_eq!(s.accept(), 1);
    assert_eq!(log(&s.on_first_message(0, init(96, 24, None, None))), vec!["sweep"]);
    assert_eq!(
        log(&s.on_first_message(1, ToSession::View)),
        vec!["[1] error first message must be init or monitor", "close [1]"]
    );
    assert_eq!(
        log(&s.on_first_message(2, init(0, 24, None, None))),
        vec!["[2] error invalid device dimensions", "close [2]", "sweep"]
    );
    assert_eq!(
        log(&s.on_first_message(3, ToSession::Monitor { version: 2 })),
        vec!["[3] error unsupported protocol version 2", "close [3]"]
    );
    assert!(log(&s.on_first_message(4, ToSession::Monitor { version: 1 })).is_empty());
    // A new monitor replaces the previous one.
    assert_eq!(log(&s.on_first_message(5, ToSession::Monitor { version: 1 })), vec!["close [4]"]);
    assert_eq!(
        log(&s.on_first_message(6, claim(false))),
        vec![
            "[6] error this session has a real host terminal; use g2mirror-view to watch it",
            "close [6]",
            "sweep"
        ]
    );
    let bad = ToSession::Init {
        version: 9,
        device: String::new(),
        width: 1,
        height: 1,
        size_rank: None,
        host_size_rank: None,
        role: Role::Viewer,
        force: false,
    };
    assert_eq!(
        log(&s.on_first_message(7, bad))[0],
        "[7] error unsupported protocol version 9 (expected 1)"
    );
}

#[test]
fn every_positive_device_size_is_taken() {
    for (width, height) in [(1, 24), (96, 1), (1, 1), (65535, 1)] {
        let mut s = session(false, false);
        s.on_child_output("a\r\nb\u{4e16}".as_bytes(), 0, 0);
        assert_eq!(log(&s.on_first_message(0, init(width, height, None, None))), vec!["sweep"]);
        // The two rows above the fold of a one-row device are archived.
        let next = if height == 1 { 2 } else { 0 };
        assert_eq!(
            log(&s.on_viewer_message(0, ToSession::View)),
            vec![
                format!("resize {height}x{width}"),
                format!("[0] snapshot {width}x{height} {next}"),
                "sweep".to_string(),
            ]
        );
        let actions = s.on_child_output("one\r\ntwo \u{4e16}\u{754c}\t!".as_bytes(), 0, 0);
        assert!(log(&actions).contains(&"[0] output".to_string()));
        assert_eq!(
            log(&s.on_viewer_message(0, ToSession::Resize { width: 2, height: 1 }))[0],
            "resize 1x2"
        );
    }
    for (width, height) in [(0, 24), (96, 0)] {
        let mut s = session(false, false);
        assert_eq!(
            log(&s.on_first_message(0, init(width, height, None, None)))[0],
            "[0] error invalid device dimensions"
        );
    }
}

#[test]
fn viewing_resizes_the_app_and_unviewing_restores_it() {
    let mut s = session(false, false);
    s.on_first_message(0, init(96, 24, None, None));
    assert_eq!(
        log(&s.on_viewer_message(0, ToSession::View)),
        vec!["resize 24x96", "[0] snapshot 96x24 0", "sweep"]
    );
    assert!(sweep(&mut s).is_empty(), "a settled view stays as it is");
    // Output is streamed to the viewer and decodes to something.
    let actions = s.on_child_output(b"hello", 0, 0);
    assert_eq!(log(&actions), vec!["[0] output"]);
    for a in &actions {
        if let Action::Send { msg: FromSession::Output { data }, .. } = a {
            let bytes = decode_terminal_bytes(data).unwrap();
            assert!(String::from_utf8_lossy(&bytes).contains("hello"));
        }
    }
    assert_eq!(log(&s.on_viewer_message(0, ToSession::Unview)), vec!["resize 24x80", "sweep"]);
    assert_eq!(log(&s.on_viewer_message(0, ToSession::Unview)), vec!["sweep"]);
    // Pass-through again.
    let actions = s.on_child_output(b"plain", 0, 0);
    assert!(log(&actions).is_empty());
    assert_eq!(host_bytes(&actions), b"plain".to_vec());
}

#[test]
fn the_best_ranked_viewer_sets_the_size() {
    let mut s = session(false, false);
    s.on_first_message(0, init(96, 24, Some(2), Some(1)));
    s.on_first_message(1, init(60, 20, Some(0), Some(1)));
    // Outranked by the host: the stream runs at its size.
    assert_eq!(
        log(&s.on_viewer_message(0, ToSession::View)),
        vec!["resize 24x80", "[0] snapshot 80x24 0", "sweep"]
    );
    // A better-ranked viewer takes the size over; everyone gets a snapshot.
    assert_eq!(
        log(&s.on_viewer_message(1, ToSession::View)),
        vec!["resize 20x60", "[0, 1] snapshot 60x20 0", "sweep"]
    );
    // A re-sent view snapshots just that client.
    assert_eq!(
        log(&s.on_viewer_message(0, ToSession::View)),
        vec!["resize 20x60", "[0] snapshot 60x20 0", "sweep"]
    );
    assert_eq!(
        log(&s.on_viewer_message(1, ToSession::Resize { width: 50, height: 10 })),
        vec!["resize 10x50", "[0, 1] snapshot 50x10 0", "sweep"]
    );
    // It vanishes: the size falls back, and the sweep closes it.
    s.client_lost(1);
    assert!(s.needs_sweep());
    assert_eq!(
        sweep(&mut s),
        vec!["close [1]", "resize 24x80", "[0] snapshot 80x24 0"]
    );
    assert!(!s.needs_sweep());
    s.client_lost(0);
    assert_eq!(sweep(&mut s), vec!["close [0]", "resize 24x80"]);
}

#[test]
fn headless_sessions_keep_the_last_size_and_have_one_host() {
    let mut s = session(true, false);
    s.on_first_message(9, ToSession::Monitor { version: 1 });
    assert_eq!(log(&s.on_first_message(0, claim(false))), vec!["sweep"]);
    assert_eq!(sweep(&mut s), vec!["[9, 0] host_changed true"]);
    let view = log(&s.on_viewer_message(0, ToSession::View));
    assert_eq!(view, vec!["resize 30x100", "[0] snapshot 100x30 0", "sweep"]);
    assert_eq!(
        log(&s.on_first_message(1, claim(false)))[0],
        "[1] error session is already attached; g2mirror --attach --force takes it over"
    );
    // A forced claim displaces the holder.
    assert_eq!(
        log(&s.on_first_message(2, claim(true))),
        vec!["[0] error host role taken over by another attach client", "sweep"]
    );
    assert_eq!(sweep(&mut s), vec!["close [0]"]);
    s.client_lost(2);
    // Nobody left: the detached state flips, the size stays.
    assert_eq!(sweep(&mut s), vec!["[9] host_changed false", "close [2]"]);
    match s.greeting(7, "cmd".into(), "/w".into(), (1, 2), Some("p".into())) {
        FromSession::Connect { host_width, host_height, headless, detached, pid, .. } => {
            assert_eq!((host_width, host_height), (80, 24));
            assert_eq!((headless, detached, pid), (true, true, 7));
        }
        _ => panic!("expected a greeting"),
    }
}

#[test]
fn greetings_carry_the_terminal_size_title_and_history() {
    let (mut s, shown) = Session::new(4, 20, false, true, 100, Some("a\x07b".into()));
    assert_eq!(host_bytes(&shown), b"\x1b]2;ab\x07".to_vec());
    s.on_child_output(b"1\r\n2\r\n3\r\n4\r\n5\r\n6", 0, 0);
    match s.greeting(7, "cmd".into(), "/w".into(), (50, 120), None) {
        FromSession::Connect { host_width, host_height, readonly, history, title, detached, .. } => {
            assert_eq!((host_width, host_height), (120, 50));
            assert!(readonly && !detached);
            assert_eq!((history.next, history.oldest), (2, 0));
            assert_eq!(title.as_deref(), Some("ab"));
        }
        _ => panic!("expected a greeting"),
    }
    assert_eq!(log(&s.on_first_message(3, init(96, 24, None, None)))[0], "[3] title ab");
}

#[test]
fn input_is_decoded_queued_and_checked() {
    let mut s = session(false, false);
    s.on_first_message(0, init(96, 24, None, None));
    let input = |data: &str, delays: Vec<InputDelay>| ToSession::Input { data: data.into(), delays };
    assert_eq!(
        log(&s.on_viewer_message(0, input(&encode_terminal_bytes(b"hi"), Vec::new()))),
        vec!["pump", "sweep"]
    );
    assert_eq!(s.next_input(0), Some(b"hi".to_vec()));
    assert_eq!(s.next_input(0), None);
    assert_eq!(s.input_deadline(), None);
    let many: Vec<InputDelay> = (0..33).map(|_| InputDelay { at: 0, ms: 1 }).collect();
    for (message, data, delays) in [
        ("invalid input encoding: Invalid symbol 33, offset 0.", "!", Vec::new()),
        ("too many input delays (max 32)", "", many),
        (
            "input delay offsets must be non-decreasing and within the data",
            "",
            vec![InputDelay { at: 1, ms: 1 }],
        ),
    ] {
        let mut s = session(false, false);
        s.on_first_message(0, init(96, 24, None, None));
        let got = log(&s.on_viewer_message(0, input(data, delays)));
        assert_eq!(got, vec![format!("[0] error {message}"), "sweep".to_string()]);
        assert!(s.needs_sweep(), "the viewer is dropped");
    }
    // Read-only: refused without dropping the connection.
    let mut s = session(false, true);
    s.on_first_message(0, init(96, 24, None, None));
    assert_eq!(
        log(&s.on_viewer_message(0, input("aGk=", Vec::new()))),
        vec!["[0] error session is read-only", "sweep"]
    );
    assert!(!s.needs_sweep());
    assert_eq!(s.next_input(0), None);
}

#[test]
fn protocol_violations_drop_the_viewer() {
    for (msg, message) in [
        (init(96, 24, None, None), "duplicate init"),
        (ToSession::Monitor { version: 1 }, "already initialized as a viewer"),
        (ToSession::Resize { width: 0, height: 5 }, "invalid resize dimensions"),
    ] {
        let mut s = session(false, false);
        s.on_first_message(0, init(96, 24, None, None));
        assert_eq!(
            log(&s.on_viewer_message(0, msg)),
            vec![format!("[0] error {message}"), "sweep".to_string()]
        );
        assert_eq!(sweep(&mut s), vec!["close [0]"]);
        assert!(log(&s.on_viewer_message(0, ToSession::View)).is_empty(), "gone");
    }
}

#[test]
fn history_requests_are_paged() {
    let (mut s, _) = Session::new(4, 20, false, false, 100, None);
    s.on_first_message(0, init(96, 24, None, None));
    for i in 0..20 {
        s.on_child_output(format!("L{i}\r\n").as_bytes(), 0, 0);
    }
    let ask = |s: &mut Session, before: u64, limit: Option<u32>| {
        log(&s.on_viewer_message(0, ToSession::History { before, limit }))[0].clone()
    };
    assert_eq!(ask(&mut s, 17, Some(5)), "[0] lines 12 0 17 5");
    assert_eq!(ask(&mut s, 12, None), "[0] lines 0 0 17 12");
    assert_eq!(ask(&mut s, 0, None), "[0] lines 0 0 17 0");
    for a in s.on_viewer_message(0, ToSession::History { before: 1, limit: None }) {
        if let Action::Send { msg: FromSession::HistoryLines { lines, .. }, .. } = a {
            assert_eq!(decode_terminal_bytes(&lines[0].data).unwrap(), b"L0".to_vec());
            assert_eq!((lines[0].width, lines[0].wrapped), (20, false));
        }
    }
}

#[test]
fn bells_and_titles_are_reported() {
    let mut s = session(false, false);
    s.on_first_message(0, init(96, 24, None, None));
    // Nobody listens to bells.
    assert!(log(&s.on_child_output(b"\x07", 0, 1)).is_empty());
    s.on_first_message(5, ToSession::Monitor { version: 1 });
    assert_eq!(log(&s.on_child_output(b"\x07", 0, 2)), vec!["[5] bell 2"]);
    assert!(log(&s.on_child_output(b"\x07", 1, 3)).is_empty());
    assert_eq!(s.bell_deadline(), Some(BELL_DEBOUNCE));
    assert_eq!(log(&s.on_bell_due(BELL_DEBOUNCE)), vec!["[5] bell 3"]);
    assert_eq!(s.bell_deadline(), None);
    assert_eq!(log(&s.on_child_output(b"\x1b]2;t\x07", 9, 4)), vec!["[5, 0] title t"]);
    assert!(log(&s.on_child_output(b"\x1b]2;t\x07", 9, 4)).is_empty());
    s.client_lost(5);
    assert!(log(&s.on_child_output(b"\x07", u64::MAX / 2, 5)).is_empty());
}

#[test]
fn the_hotkey_toggles_the_simulated_view() {
    let mut s = session(false, false);
    assert_eq!(
        log(&s.on_stdin(b"ab\x07cd\x07\x07e")),
        vec![
            "pty \"ab\"", "resize 24x96", "pty \"cd\"", "resize 24x80", "resize 24x96", "pty \"e\""
        ]
    );
    // Ctrl+L is forwarded, and repaints while viewing.
    let actions = s.on_stdin(b"\x0c");
    assert_eq!(log(&actions), vec!["pty \"\\u{c}\""]);
    assert!(!host_bytes(&actions).is_empty());
    // A simulated view is not a client's to end; a real one replaces it.
    assert!(sweep(&mut s).is_empty());
    s.on_first_message(0, init(60, 20, None, None));
    assert_eq!(
        log(&s.on_viewer_message(0, ToSession::View))[0],
        "resize 20x60"
    );
    assert_eq!(log(&s.on_stdin(b"x\x07y")), vec!["pty \"x\"", "pty \"y\""]);
}

#[test]
fn host_resizes_reach_the_child_only_without_a_view() {
    let mut s = session(false, false);
    assert_eq!(log(&s.on_host_resized(30, 90)), vec!["resize 30x90", "sweep"]);
    s.on_first_message(0, init(60, 20, None, None));
    s.on_viewer_message(0, ToSession::View);
    let actions = s.on_host_resized(40, 100);
    assert_eq!(log(&actions), vec!["sweep"]);
    assert!(!host_bytes(&actions).is_empty());
    assert!(s.has_room());
}

#[test]
fn exits_are_announced_and_the_terminal_restored() {
    let mut s = session(false, false);
    s.on_first_message(0, init(60, 20, None, None));
    s.on_viewer_message(0, ToSession::View);
    let actions = s.on_final_output(b"bye");
    assert_eq!(log(&actions), vec!["[0] output"]);
    let actions = s.on_exit(Some(3));
    assert_eq!(log(&actions), vec!["[0] exit Some(3)"]);
    assert!(host_bytes(&actions).ends_with(b"\r\n"));
    let s = session(true, false);
    assert!(host_bytes(&s.on_exit(None)).is_empty());
}

#[test]
fn connections_are_pending_until_they_speak() {
    let mut s = session(false, false);
    for id in 0..4 {
        assert_eq!(s.accept(), id);
        s.on_greeted(id, id != 3);
    }
    assert_eq!(log(&s.on_message(0, Some(ToSession::Monitor { version: 1 }))), Vec::<String>::new());
    assert!(s.is_monitor(0) && !s.is_viewer(0));
    assert_eq!(log(&s.on_message(1, Some(init(96, 24, None, None)))), vec!["sweep"]);
    assert!(s.is_viewer(1));
    // A pending connection that ends is closed; one never greeted is unknown.
    assert_eq!(log(&s.on_message(2, None)), vec!["close [2]"]);
    assert!(log(&s.on_message(3, Some(ToSession::View))).is_empty());
    assert_eq!(
        log(&s.on_message(1, Some(ToSession::View))),
        vec!["resize 24x96", "[1] snapshot 96x24 0", "sweep"]
    );
    // A monitor is not listened to, but its hangup is noticed.
    assert!(log(&s.on_message(0, Some(ToSession::View))).is_empty());
    assert_eq!(log(&s.on_message(0, None)), vec!["close [0]"]);
    assert!(!s.is_monitor(0));
    assert_eq!(log(&s.on_message(1, None)), vec!["sweep"]);
    assert_eq!(sweep(&mut s), vec!["close [1]", "resize 24x80"]);
}
