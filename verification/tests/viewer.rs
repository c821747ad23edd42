use g2mirror::keys::{parse_list_keys, ListKey};
use g2mirror::protocol::{encode_terminal_bytes, SessionInfo};
use g2mirror::viewer::{
    ago, handshake, parse_connection_string, App, Step, ToServer, DEFAULT_PORT,
};

#[test]
fn connection_strings_parse() {
    assert_eq!(
        parse_connection_string("g2mirror://tok123@example.com:9000").unwrap(),
        ("tok123".into(), "ws://example.com:9000".into())
    );
    assert_eq!(
        parse_connection_string("g2mirror://tok@example.com").unwrap(),
        ("tok".into(), format!("ws://example.com:{DEFAULT_PORT}"))
    );
    assert_eq!(
        parse_connection_string("g2mirror://tok@[::1]").unwrap(),
        ("tok".into(), format!("ws://[::1]:{DEFAULT_PORT}"))
    );
    assert_eq!(
        parse_connection_string("g2mirror://tok@[::1]:9000").unwrap(),
        ("tok".into(), "ws://[::1]:9000".into())
    );
    // The TLS form, e.g. for a tailscale funnel hostname.
    assert_eq!(
        parse_connection_string("g2mirrors://tok@node.tail.ts.net").unwrap(),
        ("tok".into(), "wss://node.tail.ts.net:443".into())
    );
    assert_eq!(
        parse_connection_string("g2mirrors://tok@node.tail.ts.net:8443").unwrap(),
        ("tok".into(), "wss://node.tail.ts.net:8443".into())
    );
    assert!(parse_connection_string("ws://tok@host").is_err());
    assert!(parse_connection_string("g2mirror://hostonly").is_err());
    assert!(parse_connection_string("g2mirror://@host").is_err());
}

#[test]
fn connection_string_errors_say_what_is_wrong() {
    assert_eq!(
        parse_connection_string("ws://tok@host").unwrap_err(),
        "connection string must start with g2mirror:// or g2mirrors://"
    );
    assert_eq!(
        parse_connection_string("g2mirror://hostonly").unwrap_err(),
        "connection string must contain <token>@<host>"
    );
    assert_eq!(
        parse_connection_string("g2mirror://@host").unwrap_err(),
        "connection string has an empty token"
    );
    assert_eq!(
        parse_connection_string("g2mirror://tok@").unwrap_err(),
        "connection string has an empty host"
    );
    // The last at sign separates the token from the host.
    assert_eq!(
        parse_connection_string("g2mirror://a@b@c:1").unwrap(),
        ("a@b".into(), "ws://c:1".into())
    );
}

#[test]
fn list_keys_parse() {
    let keys = parse_list_keys(b"\x1b[A\x1b[Bjkr\rq\x03");
    let repr: Vec<&str> = keys
        .iter()
        .map(|k| match k {
            ListKey::Up => "up",
            ListKey::Down => "down",
            ListKey::Enter => "enter",
            ListKey::Refresh => "refresh",
            ListKey::Quit => "quit",
        })
        .collect();
    assert_eq!(
        repr,
        vec!["up", "down", "down", "up", "refresh", "enter", "quit", "quit"]
    );
}

#[test]
fn handshakes_tell_the_token_permission() {
    assert_eq!(handshake(r#"{"type": "init", "readonly": false}"#), Ok(false));
    assert_eq!(handshake(r#"{"type": "init", "readonly": true}"#), Ok(true));
    // Unstated or ill-typed: read-only.
    assert_eq!(handshake(r#"{"type": "init"}"#), Ok(true));
    assert_eq!(handshake(r#"{"type": "init", "readonly": 1}"#), Ok(true));
    assert_eq!(
        handshake(r#"{"type": "error", "message": "authentication failed"}"#).unwrap_err(),
        "server rejected the connection: authentication failed"
    );
    assert_eq!(
        handshake("[]").unwrap_err(),
        "server rejected the connection: unknown error"
    );
    assert!(handshake("{").unwrap_err().starts_with("bad handshake reply: EOF"));
}

#[test]
fn ages_are_shown_in_handy_units() {
    assert_eq!(ago(1_000, 13_999), "12s ago");
    assert_eq!(ago(0, 300_000), "5m ago");
    assert_eq!(ago(0, 7_200_000), "2h ago");
    assert_eq!(ago(5, 0), "0s ago");
}

fn session(socket: &str, pid: u32) -> SessionInfo {
    SessionInfo {
        socket: socket.into(),
        pid,
        cwd_hint: "_tmp".into(),
        last_bell_at: None,
        title: None,
        detached: false,
        launched: None,
    }
}

fn written(steps: &[Step]) -> String {
    let mut out = String::new();
    for s in steps {
        if let Step::Write(b) = s {
            out.push_str(&String::from_utf8_lossy(b));
        }
    }
    out
}

fn sent(steps: &[Step]) -> Vec<String> {
    let mut out = Vec::new();
    for s in steps {
        if let Step::Send(m) = s {
            out.push(match m {
                ToServer::List => "list".to_string(),
                ToServer::Connect { socket } => format!("connect {socket}"),
                ToServer::View => "view".to_string(),
                ToServer::History { before } => format!("history {before}"),
                ToServer::Input { data } => format!("input {data}"),
                ToServer::Unview => "unview".to_string(),
                ToServer::Disconnect => "disconnect".to_string(),
            });
        }
    }
    out
}

fn listed(readonly: bool) -> App {
    let mut app = App::new("ws://h:1".into(), 24, 80, readonly);
    let steps = app.on_ws_text(
        r#"{"type": "sessions", "sessions": []}"#,
        vec![session("1-a", 1), session("2-b", 2)],
        0,
    );
    assert!(written(&steps).contains("> 1        _tmp"));
    app
}

fn attached(readonly: bool) -> App {
    let mut app = listed(readonly);
    assert_eq!(sent(&app.on_keys(b"\r", 0)), vec!["connect 1-a"]);
    let steps = app.on_ws_text(
        r#"{"type": "connect", "readonly": false, "history": {"next": 3, "oldest": 1}}"#,
        Vec::new(),
        0,
    );
    assert_eq!(sent(&steps), vec!["view"]);
    assert!(written(&steps).contains("attaching..."));
    app
}

fn snapshot(next: u64) -> String {
    format!(
        r#"{{"type": "snapshot", "data": "{}", "width": 20, "height": 5, "history_next": {next}}}"#,
        encode_terminal_bytes(b"\x1b[1;1Hsnap")
    )
}

fn live(readonly: bool) -> (App, vt100::Parser) {
    let mut app = attached(readonly);
    let mut host = vt100::Parser::new(24, 80, 100);
    let steps = app.on_ws_text(&snapshot(1), Vec::new(), 0);
    assert!(sent(&steps).is_empty(), "no history to fetch");
    host.process(written(&steps).as_bytes());
    assert!(host.screen().contents().contains("snap"));
    (app, host)
}

#[test]
fn the_list_screen_shows_sessions_and_status() {
    let app = App::new("ws://h:1".into(), 24, 40, true);
    let text = written(&app.start(0));
    assert_eq!(
        text,
        "\x1b[?1049h\x1b[?25l\x1b[H\x1b[2Jg2mirror-view \u{2014} ws://h:1 (read-only)\r\n\r\n\r\n  no live terminals\r\n\r\n  \u{2191}/\u{2193} select \u{00b7} enter attach \u{00b7} r refresh \u{00b7} q quit \u{00b7} ^D detaches a view"
    );
    let mut app = App::new("ws://h:1".into(), 24, 24, false);
    let mut s = session("1-a", 1);
    s.title = Some("a long title".into());
    s.last_bell_at = Some(0);
    let text = written(&app.on_ws_text(r#"{"type": "sessions"}"#, vec![s], 5_000));
    assert!(text.contains("\x1b[7m> 1        _tmp  a long \x1b[0m\r\n"), "{text:?}");
}

#[test]
fn bells_and_titles_update_the_list() {
    let mut app = listed(false);
    let text = written(&app.on_ws_text(
        r#"{"type": "bell", "socket": "2-b", "last_bell_at": 1000}"#,
        Vec::new(),
        4_000,
    ));
    assert!(text.contains("  2        _tmp    [bell 3s ago]"), "{text:?}");
    let text = written(&app.on_ws_text(
        r#"{"type": "title", "socket": "2-b", "title": "new"}"#,
        Vec::new(),
        4_000,
    ));
    assert!(text.contains("  2        _tmp  new  [bell 3s ago]"), "{text:?}");
    // An unlisted socket changes nothing.
    let again = written(&app.on_ws_text(
        r#"{"type": "title", "socket": "9-z", "title": "other"}"#,
        Vec::new(),
        4_000,
    ));
    assert_eq!(again, text);
}

#[test]
fn list_navigation_and_quit() {
    let mut app = listed(false);
    assert_eq!(sent(&app.on_keys(b"jjj\r", 0)), vec!["connect 2-b"]);
    let mut app = listed(false);
    assert_eq!(sent(&app.on_keys(b"rq\r", 0)), vec!["list"]);
    assert!(app.quits());
    let app = listed(false);
    assert_eq!(sent(&app.on_tick()), vec!["list"]);
}

#[test]
fn history_is_fetched_and_output_buffered_until_live() {
    let mut app = attached(false);
    let mut host = vt100::Parser::new(24, 80, 100);
    assert_eq!(sent(&app.on_ws_text(&snapshot(3), Vec::new(), 0)), vec!["history 3"]);
    // A re-snapshot asks again; the first reply is then stale.
    assert_eq!(sent(&app.on_ws_text(&snapshot(3), Vec::new(), 0)), vec!["history 3"]);
    let output = format!(
        r#"{{"type": "output", "data": "{}"}}"#,
        encode_terminal_bytes(b"\x1b[2;1Hlater")
    );
    assert!(app.on_ws_text(&output, Vec::new(), 0).is_empty());
    let lines = format!(
        r#"{{"type": "history_lines", "lines": [
            {{"data": "{}", "wrapped": true}}, {{"data": "{}"}}, {{"data": "!"}}]}}"#,
        encode_terminal_bytes(b"old"),
        encode_terminal_bytes(b"er")
    );
    assert!(app.on_ws_text(&lines, Vec::new(), 0).is_empty(), "stale reply");
    let steps = app.on_ws_text(&lines, Vec::new(), 0);
    host.process(written(&steps).as_bytes());
    let contents = host.screen().contents();
    assert!(contents.contains("snap") && contents.contains("later"), "{contents}");
    assert!(written(&steps).contains("\r\nold\x1b[0mer\x1b[0m\r\n\x1b[0m"));
    // Live output is mirrored and the bell rung.
    let bell = format!(r#"{{"type": "output", "data": "{}"}}"#, encode_terminal_bytes(b"x\x07"));
    assert!(written(&app.on_ws_text(&bell, Vec::new(), 0)).ends_with('\x07'));
}

#[test]
fn snapshots_without_dimensions_use_our_own() {
    let mut app = attached(false);
    let text = format!(
        r#"{{"type": "snapshot", "data": "{}"}}"#,
        encode_terminal_bytes(b"\x1b[24;70Hcorner")
    );
    let mut host = vt100::Parser::new(24, 80, 100);
    host.process(written(&app.on_ws_text(&text, Vec::new(), 0)).as_bytes());
    assert_eq!(host.screen().contents_between(23, 69, 23, 75), "corner");
}

#[test]
fn live_keys_are_forwarded_up_to_the_detach_key() {
    let (mut app, _) = live(false);
    assert_eq!(
        sent(&app.on_keys(b"ls\n", 0)),
        vec![format!("input {}", encode_terminal_bytes(b"ls\n"))]
    );
    let steps = app.on_keys(b"x\x04y", 0);
    assert_eq!(
        sent(&steps),
        vec![
            format!("input {}", encode_terminal_bytes(b"x")),
            "unview".to_string(),
            "disconnect".to_string(),
            "list".to_string()
        ]
    );
    assert!(written(&steps).contains("detached"));
    // Read-only tokens send nothing.
    let (mut app, _) = live(true);
    assert!(sent(&app.on_keys(b"ls\n", 0)).is_empty());
}

#[test]
fn ctrl_l_repaints_a_live_view_and_is_forwarded() {
    let (mut app, mut host) = live(false);
    let steps = app.on_keys(b"\x0c", 0);
    assert_eq!(sent(&steps), vec![format!("input {}", encode_terminal_bytes(b"\x0c"))]);
    assert!(!written(&steps).is_empty());
    host.process(written(&steps).as_bytes());
    assert!(host.screen().contents().contains("snap"));
}

#[test]
fn session_ends_lead_back_to_the_list() {
    let (mut app, _) = live(false);
    assert!(app.on_ws_text(r#"{"type": "exit", "status": 3}"#, Vec::new(), 0).is_empty());
    let steps = app.on_ws_text(
        r#"{"type": "disconnected", "reason": "session closed"}"#,
        Vec::new(),
        0,
    );
    assert!(written(&steps).contains("session ended (exit status 3)"));
    assert_eq!(sent(&steps), vec!["list"]);
    let (mut app, _) = live(false);
    app.on_ws_text(r#"{"type": "exit", "status": null}"#, Vec::new(), 0);
    let steps = app.on_ws_text(r#"{"type": "disconnected"}"#, Vec::new(), 0);
    assert!(written(&steps).contains("session ended (killed by a signal)"));
    let (mut app, _) = live(false);
    let steps = app.on_ws_text(r#"{"type": "disconnected"}"#, Vec::new(), 0);
    assert!(written(&steps).contains("disconnected (unknown)"));
}

#[test]
fn errors_abort_an_attach_but_not_a_live_view() {
    let mut app = attached(false);
    let steps = app.on_ws_text(r#"{"type": "error", "message": "no"}"#, Vec::new(), 0);
    assert!(written(&steps).contains("error: no"));
    assert_eq!(sent(&steps), vec!["list"]);
    let (mut app, _) = live(false);
    assert!(app.on_ws_text(r#"{"type": "error", "message": "no"}"#, Vec::new(), 0).is_empty());
    let mut app = listed(false);
    let steps = app.on_ws_text(r#"{"type": "error"}"#, Vec::new(), 0);
    assert!(written(&steps).contains("error: unknown error"));
    assert!(sent(&steps).is_empty());
    assert!(app.on_ws_text("not json", Vec::new(), 0).is_empty());
}

#[test]
fn terminals_are_restored() {
    let (app, _) = live(false);
    assert!(String::from_utf8_lossy(&app.restore()).ends_with("\r\n\x1b[0m\x1b[?25h"));
    let app = listed(false);
    assert_eq!(app.restore(), b"\x1b[?25h\x1b[?1049l\x1b[0m\x1b[?25h".to_vec());
    let mut app = listed(false);
    assert!(written(&app.on_winch(10, 30, 0)).contains("g2mirror-view"));
    let (mut app, _) = live(false);
    let mut small = vt100::Parser::new(10, 30, 100);
    small.process(written(&app.on_winch(10, 30, 0)).as_bytes());
    assert!(small.screen().contents().contains("snap"));
}

#[test]
fn titles_of_the_attached_session_reach_the_terminal() {
    let (mut app, _) = live(false);
    let steps = app.on_ws_text(r#"{"type": "title", "title": "a\u0007b"}"#, Vec::new(), 0);
    assert_eq!(written(&steps), "\x1b]2;ab\x07");
    let mut app = attached(false);
    assert!(app.on_ws_text(r#"{"type": "title", "title": "ab"}"#, Vec::new(), 0).is_empty());
}
