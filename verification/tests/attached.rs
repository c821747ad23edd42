use g2mirror::attached::{claim, title_sequence, Attached, Step};
use g2mirror::protocol::{encode_terminal_bytes, FromSession, HistoryLine, Role, ToSession};

fn written(steps: &[Step]) -> Vec<u8> {
    let mut out = Vec::new();
    for s in steps {
        if let Step::Write(b) = s {
            out.extend_from_slice(b);
        }
    }
    out
}

fn sent(steps: &[Step]) -> Vec<String> {
    let mut out = Vec::new();
    for s in steps {
        if let Step::Send(m) = s {
            out.push(match m {
                ToSession::History { before, limit } => format!("history {before} {limit:?}"),
                ToSession::Input { data, delays } => format!("input {data} {}", delays.len()),
                ToSession::Unview => "unview".into(),
                ToSession::Resize { width, height } => format!("resize {width}x{height}"),
                _ => "other".into(),
            });
        }
    }
    out
}

fn snapshot(next: u64) -> FromSession {
    FromSession::Snapshot {
        data: encode_terminal_bytes(b"\x1b[1;1Hsnap"),
        width: 20,
        height: 5,
        history_next: next,
    }
}

fn line(text: &[u8], wrapped: bool) -> HistoryLine {
    HistoryLine { data: encode_terminal_bytes(text), width: 20, wrapped }
}

fn ok(r: Result<Vec<Step>, String>) -> Vec<Step> {
    match r {
        Ok(steps) => steps,
        Err(e) => panic!("{e}"),
    }
}

#[test]
fn claims_declare_the_host_role() {
    match claim(30, 100, true) {
        ToSession::Init { version, width, height, role, force, size_rank, .. } => {
            assert_eq!((version, width, height), (1, 100, 30));
            assert_eq!((role, force, size_rank), (Role::Host, true, None));
        }
        _ => panic!("expected an init"),
    }
    assert_eq!(title_sequence("a\x1bb\u{9f}"), b"\x1b]2;ab\x07".to_vec());
}

#[test]
fn history_is_printed_before_the_live_view() {
    let mut a = Attached::new(24, 80, 0, Some(0x1c));
    let mut host = vt100::Parser::new(24, 80, 100);
    assert_eq!(sent(&ok(a.on_message(snapshot(2)))), vec!["history 2 None"]);
    assert!(ok(a.on_message(FromSession::Output { data: encode_terminal_bytes(b"\x1b[2;1Hmore") }))
        .is_empty());
    let steps = ok(a.on_message(FromSession::HistoryLines {
        start: 0,
        oldest: 0,
        next: 2,
        lines: vec![line(b"one", true), line(b"two", false), line(b"three", false)],
    }));
    host.process(&written(&steps));
    let contents = host.screen().contents();
    assert!(contents.contains("onetwo\nthree"), "{contents}");
    assert!(contents.contains("snap\nmore"), "{contents}");
    // A later reply changes nothing.
    assert!(ok(a.on_message(FromSession::HistoryLines {
        start: 0,
        oldest: 0,
        next: 2,
        lines: Vec::new()
    }))
    .is_empty());
    assert!(a.has_room());
}

fn live() -> Attached {
    let mut a = Attached::new(24, 80, 5, Some(0x1c));
    assert!(!written(&ok(a.on_message(snapshot(5)))).is_empty());
    a
}

#[test]
fn errors_are_fatal_only_before_the_view_is_up() {
    let mut a = Attached::new(24, 80, 0, None);
    assert_eq!(
        a.on_message(FromSession::Error { message: "no".into() }).err().unwrap(),
        "no"
    );
    assert_eq!(a.on_closed().unwrap_err(), "session closed unexpectedly");
    let mut a = live();
    assert!(ok(a.on_message(FromSession::Error { message: "taken".into() })).is_empty());
    assert_eq!(a.on_closed().unwrap_err(), "session closed: taken");
    ok(a.on_message(FromSession::Exit { status: Some(-1) }));
    assert!(a.on_closed().is_ok());
    assert_eq!((a.ending(7).code, a.ending(7).message.as_str()),
        (-1, "g2mirror: session ended (exit status -1)"));
}

#[test]
fn keys_go_to_the_session_until_the_detach_key() {
    let mut a = live();
    assert_eq!(sent(&a.on_keys(b"ls")), vec![format!("input {} 0", encode_terminal_bytes(b"ls"))]);
    assert!(!a.detached());
    let steps = a.on_keys(b"\x0cx\x1cy");
    assert_eq!(
        sent(&steps),
        vec![format!("input {} 0", encode_terminal_bytes(b"\x0cx")), "unview".to_string()]
    );
    assert!(!written(&steps).is_empty(), "Ctrl+L repaints");
    assert!(a.detached());
    assert!(a.on_closed().is_ok());
    assert_eq!(a.ending(42).code, 0);
    assert!(a.ending(42).message.ends_with("reattach with: g2mirror -a 42"));
    // Without a detach key everything is forwarded.
    let mut a = Attached::new(24, 80, 0, None);
    assert_eq!(sent(&a.on_keys(b"\x1c")).len(), 1);
    assert!(!a.detached());
    assert_eq!((a.ending(1).code, a.ending(1).message.as_str()), (1, "g2mirror: session ended"));
}

#[test]
fn resizes_are_forwarded_and_repainted() {
    let mut a = live();
    let steps = a.on_winch(10, 40);
    assert_eq!(sent(&steps), vec!["resize 40x10"]);
    let mut host = vt100::Parser::new(10, 40, 100);
    host.process(&written(&steps));
    assert!(host.screen().contents().contains("snap"));
    // A snapshot at other dimensions restarts the view.
    let steps = ok(a.on_message(FromSession::Snapshot {
        data: encode_terminal_bytes(b"\x1b[1;1Hother"),
        width: 30,
        height: 4,
        history_next: 9,
    }));
    host.process(&written(&steps));
    assert!(host.screen().contents().contains("other"));
    assert!(sent(&steps).is_empty());
    let restored = a.restore();
    assert!(restored.ends_with(b"\r\n\x1b[0m\x1b[?25h"));
    let waiting = Attached::new(24, 80, 0, None);
    assert_eq!(waiting.restore(), b"\x1b[0m\x1b[?25h".to_vec());
}

#[test]
fn titles_bells_and_garbage() {
    let mut a = live();
    assert_eq!(
        written(&ok(a.on_message(FromSession::Title { title: "t".into() }))),
        b"\x1b]2;t\x07".to_vec()
    );
    let rung = ok(a.on_message(FromSession::Output { data: encode_terminal_bytes(b"\x07") }));
    assert!(written(&rung).ends_with(b"\x07"));
    assert!(ok(a.on_message(FromSession::Output { data: "!".into() })).is_empty());
    assert!(ok(a.on_message(FromSession::HostChanged { attached: true })).is_empty());
    ok(a.on_message(FromSession::Exit { status: None }));
    assert_eq!(a.ending(1).code, 1);
}
