use g2mirror::config::{
    default_token_readonly, Config, FilterRule, LaunchGrant, LaunchPreset, ListenAddrs,
    NamedPreset, TokenConfig,
};
use g2mirror::config_text::{config_template, insert_token_text, skip_string};
use g2mirror::filter::{compile_filter, filter_allows, CompiledRule};
use g2mirror::jsonc::strip_comments;
use g2mirror::protocol::{DeviceInit, ServerToDevice, ToSession};
use g2mirror::server::{
    added_token, authenticate, check_add_token, choose_launch, deliver, expand_tilde, filter_for,
    greeting, handle_device_message, is_live_session, launch_args, launch_reply, launched_socket,
    list_sessions, parse_add_token, revoked, session_allowed, session_init, unauthenticated_slot,
    Delivery, Request, MAX_UNAUTHENTICATED,
};
use g2mirror::terminals::Terminals;
use g2mirror::token::{constant_time_eq, generate_token, hash_token, hex, token_matches};
use serde_json::Value;

fn text(v: &Value, name: &str) -> Option<String> {
    v.get(name).and_then(|t| t.as_str()).map(str::to_string)
}

fn strings(v: Option<&Value>) -> Vec<String> {
    v.and_then(|l| l.as_array())
        .map(|l| l.iter().map(|s| s.as_str().unwrap().to_string()).collect())
        .unwrap_or_default()
}

fn grant(v: Option<&Value>) -> LaunchGrant {
    match v {
        Some(Value::Bool(all)) => LaunchGrant::Flag(*all),
        Some(list) => LaunchGrant::Named(strings(Some(list))),
        None => LaunchGrant::default(),
    }
}

fn token(v: &Value) -> Result<TokenConfig, String> {
    let mut filter = Vec::new();
    for rule in v.get("filter").and_then(|f| f.as_array()).unwrap_or(&Vec::new()) {
        for key in rule.as_object().unwrap().keys() {
            if key != "path" && key != "windowtitle" {
                return Err(format!("unknown field {key}"));
            }
        }
        filter.push(FilterRule { path: text(rule, "path"), windowtitle: text(rule, "windowtitle") });
    }
    Ok(TokenConfig {
        name: text(v, "name").unwrap(),
        token_hash: text(v, "token_hash").unwrap(),
        readonly: v
            .get("readonly")
            .and_then(|r| r.as_bool())
            .unwrap_or_else(default_token_readonly),
        filter,
        launch: grant(v.get("launch")),
    })
}

/// A config from its JSON, comments stripped.
fn parse_config(source: &str) -> Result<Config, String> {
    let v: Value = serde_json::from_str(&strip_comments(source)).map_err(|e| e.to_string())?;
    let mut auth_tokens = Vec::new();
    for t in v.get("auth_tokens").and_then(|t| t.as_array()).unwrap_or(&Vec::new()) {
        auth_tokens.push(token(t)?);
    }
    let mut launch = Vec::new();
    if let Some(map) = v.get("launch").and_then(|l| l.as_object()) {
        for (name, p) in map {
            launch.push(NamedPreset {
                name: name.clone(),
                preset: LaunchPreset {
                    argv: strings(p.get("argv")),
                    cwd: text(p, "cwd"),
                    title: text(p, "title"),
                    env: Vec::new(),
                    allow_cwd: p.get("allow_cwd").and_then(|a| a.as_bool()).unwrap_or(false),
                    scrollback: p.get("scrollback").and_then(|s| s.as_u64()).map(|s| s as u32),
                    readonly: p.get("readonly").and_then(|a| a.as_bool()).unwrap_or(false),
                    size: text(p, "size"),
                },
            });
        }
    }
    Ok(Config {
        listen_addr: ListenAddrs::One(text(&v, "listen_addr").unwrap()),
        port: v.get("port").unwrap().as_u64().unwrap() as u16,
        auth_tokens,
        size_precedence: strings(v.get("size_precedence")),
        launch,
        auth_token_hash: text(&v, "auth_token_hash"),
        readonly: v.get("readonly").and_then(|r| r.as_bool()),
    })
}

#[test]
fn legacy_single_token_config_still_works() {
    let config = parse_config(
        r#"{"listen_addr": "127.0.0.1", "port": 8737,
            "auth_token_hash": "abc123", "readonly": true}"#,
    )
    .unwrap();
    let tokens = config.tokens();
    assert_eq!(tokens.len(), 1);
    assert_eq!(tokens[0].name, "default");
    assert_eq!(tokens[0].token_hash, "abc123");
    assert!(tokens[0].readonly);
    // Without the legacy readonly flag, the legacy token is writable
    // (matching the old default).
    let config = parse_config(
        r#"{"listen_addr": "127.0.0.1", "port": 8737, "auth_token_hash": "abc123"}"#,
    )
    .unwrap();
    assert!(!config.tokens()[0].readonly);
    // No size_precedence: any viewer outranks the host.
    let (viewer, host) = config.size_ranks("default");
    assert!(viewer < host);
}

#[test]
fn token_readonly_defaults_to_true() {
    let config = parse_config(
        r#"{"listen_addr": "127.0.0.1", "port": 8737,
            "auth_tokens": [
              {"name": "glasses", "token_hash": "aa", "readonly": false},
              {"name": "spectator", "token_hash": "bb"}
            ]}"#,
    )
    .unwrap();
    let tokens = config.tokens();
    assert!(!tokens[0].readonly);
    assert!(tokens[1].readonly, "readonly must default to true");
}

fn allows(rules: &Vec<CompiledRule>, cwd: Option<&str>, title: Option<&str>) -> bool {
    filter_allows(rules, &cwd.map(str::to_string), &title.map(str::to_string))
}

#[test]
fn filters_parse_compile_and_match() {
    // The documented config shape: one key per rule, several rules.
    let config = parse_config(
        r#"{"listen_addr": "127.0.0.1", "port": 8737,
            "auth_tokens": [
              {"name": "robert", "token_hash": "aa", "filter": [
                {"path": "/Users/jb/repositories/lightcone-commons.*"},
                {"windowtitle": ".*SHARED.*"}
              ]},
              {"name": "glasses", "token_hash": "bb"}
            ]}"#,
    )
    .unwrap();
    let rules = compile_filter(&config.tokens()[0]).ok().unwrap();
    assert_eq!(rules.len(), 2);
    assert!(compile_filter(&config.tokens()[1]).ok().unwrap().is_empty());

    // Rules OR together; either the path or the title may admit.
    assert!(allows(&rules, Some("/Users/jb/repositories/lightcone-commons"), None));
    assert!(allows(&rules, Some("/Users/jb/repositories/lightcone-commons/sub"), None));
    assert!(allows(&rules, Some("/private"), Some("review SHARED with team")));
    assert!(!allows(&rules, Some("/private"), Some("secret notes")));
    // Unknown cwd/title fail closed.
    assert!(!allows(&rules, None, None));
    // Regexes are anchored: a partial match is not a match.
    assert!(!allows(&rules, Some("/mnt/Users/jb/repositories/lightcone-commonsx"), None));
    assert!(!allows(&rules, Some("/Users/jb"), None));

    // No filter at all: everything is visible.
    assert!(allows(&Vec::new(), None, None));

    // Within one rule, all present fields must match.
    let both = parse_config(
        r#"{"listen_addr": "a", "port": 1, "auth_tokens": [
              {"name": "t", "token_hash": "aa",
               "filter": [{"path": "/shared.*", "windowtitle": ".*SHARED.*"}]}
            ]}"#,
    )
    .unwrap();
    let rules = compile_filter(&both.tokens()[0]).ok().unwrap();
    assert!(allows(&rules, Some("/shared/x"), Some("a SHARED b")));
    assert!(!allows(&rules, Some("/shared/x"), Some("private")));
    assert!(!allows(&rules, Some("/other"), Some("a SHARED b")));
}

#[test]
fn bad_filters_fail_at_parse_or_compile_time() {
    // A typo'd key must not silently produce a match-all rule.
    let typo = parse_config(
        r#"{"listen_addr": "a", "port": 1, "auth_tokens": [
              {"name": "t", "token_hash": "aa", "filter": [{"windowtitel": "x"}]}
            ]}"#,
    );
    assert!(typo.is_err(), "unknown filter keys must be rejected");

    // An empty rule and a bad regex fail when the filter is compiled.
    for filter in [r#"[{}]"#, r#"[{"path": "("}]"#] {
        let config = parse_config(&format!(
            r#"{{"listen_addr": "a", "port": 1, "auth_tokens": [
                  {{"name": "t", "token_hash": "aa", "filter": {filter}}}
                ]}}"#,
        ))
        .unwrap();
        assert!(compile_filter(&config.tokens()[0]).is_err(), "{filter}");
    }
}

fn filtered(path: Option<&str>, title: Option<&str>) -> TokenConfig {
    TokenConfig {
        name: "t\"".into(),
        token_hash: "aa".into(),
        readonly: true,
        filter: vec![FilterRule {
            path: path.map(str::to_string),
            windowtitle: title.map(str::to_string),
        }],
        launch: LaunchGrant::Flag(false),
    }
}

#[test]
fn filter_errors_say_what_is_wrong() {
    assert_eq!(
        compile_filter(&filtered(None, None)).err().unwrap(),
        "token \"t\\\"\" has a filter rule with neither path nor windowtitle"
    );
    let e = compile_filter(&filtered(None, Some("("))).err().unwrap();
    assert!(e.starts_with("invalid filter regex \"(\": regex parse error"), "{e}");
    // Balanced only together with the anchors: not a regex by itself.
    assert!(compile_filter(&filtered(Some("a)|(b"), None)).is_err());
    // Alternatives stay inside the anchors.
    let rules = compile_filter(&filtered(Some("a|b"), None)).ok().unwrap();
    assert!(allows(&rules, Some("a"), None));
    assert!(!allows(&rules, Some("ab"), None));
    assert!(!allows(&rules, Some("xb"), None));
}

#[test]
fn configs_may_contain_comments() {
    let config = parse_config(
        r#"{
          // gateway address
          "listen_addr": "127.0.0.1", /* and port */ "port": 8737,
          "auth_tokens": [{"name": "t", "token_hash": "aa"}]
        }"#,
    )
    .unwrap();
    assert_eq!(config.port, 8737);
    assert_eq!(config.tokens()[0].name, "t");
}

/// A token's pretty-printed JSON.
fn entry() -> String {
    let v: Value = serde_json::from_str(
        r#"{"name": "rob", "token_hash": "bb", "readonly": false, "launch": ["shell"]}"#,
    )
    .unwrap();
    serde_json::to_string_pretty(&v).unwrap()
}

#[test]
fn add_token_splice_preserves_comments() {
    let token = entry();

    let text = r#"{
  // gateway
  "listen_addr": "127.0.0.1", "port": 1,
  /* tokens */
  "auth_tokens": [
    {"name": "glasses", "token_hash": "aa"} // mine
  ],
  "launch": {"shell": {"argv": ["sh"]}}
}
"#;
    let out = insert_token_text(text, &token).unwrap().unwrap();
    for comment in ["// gateway", "/* tokens */", "// mine"] {
        assert!(out.contains(comment), "{comment} lost:\n{out}");
    }
    let config = parse_config(&out).unwrap();
    assert_eq!(config.tokens().len(), 2);
    assert_eq!(config.tokens()[1].name, "rob");
    assert!(config.tokens()[1].launch.allows("shell"));
    config.validate_launch().unwrap();

    // An empty array gets the entry as its only element.
    let text = r#"{"listen_addr": "a", "port": 1, "auth_tokens": []}"#;
    let out = insert_token_text(text, &token).unwrap().unwrap();
    let config = parse_config(&out).unwrap();
    assert_eq!(config.tokens()[0].name, "rob");

    // Strings full of brackets, comment markers, and the key's own
    // name must not derail the scan.
    let text = r#"{
  "listen_addr": "a", "port": 1,
  "auth_tokens": [
    {"name": "g", "token_hash": "aa",
     "filter": [{"windowtitle": "x /* ] \" auth_tokens // ["}]}
  ]
}"#;
    let out = insert_token_text(text, &token).unwrap().unwrap();
    assert_eq!(parse_config(&out).unwrap().tokens().len(), 2);

    // Legacy configs without an auth_tokens array have no splice point.
    let text = r#"{"listen_addr": "a", "port": 1, "auth_token_hash": "aa"}"#;
    assert!(insert_token_text(text, &token).unwrap().is_none());
}

#[test]
fn splices_are_exact() {
    assert_eq!(
        insert_token_text("{\"auth_tokens\" : [ ]}", "{\n  1\n}").unwrap().unwrap(),
        "{\"auth_tokens\" : [\n    {\n      1\n    }\n   ]}"
    );
    assert_eq!(
        insert_token_text("{\"auth_tokens\":[1 /* \u{e9} */ ]}", "2").unwrap().unwrap(),
        "{\"auth_tokens\":[1,\n    2 /* \u{e9} */ ]}"
    );
    // Only the key at the top level counts.
    assert_eq!(
        insert_token_text("{\"x\":{\"auth_tokens\":[]},\"auth_tokens\":[[1],2]}", "3")
            .unwrap()
            .unwrap(),
        "{\"x\":{\"auth_tokens\":[]},\"auth_tokens\":[[1],2,\n    3]}"
    );
    assert_eq!(
        insert_token_text("{\"auth_tokens\": [", "3").unwrap_err(),
        "unterminated auth_tokens array"
    );
    assert_eq!(insert_token_text("{\"auth_tokens\": 1}", "3").unwrap(), None);
    assert_eq!(skip_string(b"\"a\\\"b\" c", 0), 6);
    assert_eq!(skip_string(b"\"open", 0), 5);
}

#[test]
fn an_added_token_is_the_last_of_the_same_document() {
    let entry = "{\n  \"name\": \"n // \u{e9}\",\n  \"list\": [\n    1,\n    {}\n  ]\n}";
    let texts = [
        "{\"auth_tokens\": []}",
        " {\"x\": \"auth_tokens\" , \"auth_tokens\" : [ 1 , \"]\" // last ]\n ] , \"y\": [[], {}]}\n",
        "/* [ */{\"a\":{\"auth_tokens\":[0]},\"auth_tokens\"/**/:/**/[{\"k\":[true]}/* \" */]}// \"",
        "{\"\\\"auth_tokens\\\"\": [\"\\\\\"], \"auth_tokens\": [\n  null\n  // none\n], \"z\": -1.5e3}",
    ];
    for text in texts {
        let mut wanted: Value = serde_json::from_str(&strip_comments(text)).unwrap();
        let list = wanted.get_mut("auth_tokens").unwrap().as_array_mut().unwrap();
        list.push(serde_json::from_str(entry).unwrap());
        let out = insert_token_text(text, entry).unwrap().unwrap();
        let found: Value = serde_json::from_str(&strip_comments(&out)).unwrap();
        assert_eq!(found, wanted, "{text}");
    }
    for text in ["{}", "[\"auth_tokens\"]", "{\"x\": \"auth_tokens\"}", "{\"auth_token\\u0073\": []}"] {
        assert_eq!(insert_token_text(text, entry).unwrap(), None, "{text}");
    }
}

#[test]
fn fresh_configs_are_plain_json_with_one_writable_token() {
    let out = config_template("abc", "/bin/s\"h");
    let v: Value = serde_json::from_str(&out).unwrap();
    assert_eq!(v["listen_addr"], "127.0.0.1");
    assert_eq!(v["port"], 8737);
    let config = parse_config(&out).unwrap();
    assert_eq!(config.size_precedence, vec!["glasses", "host"]);
    let tokens = config.tokens();
    assert_eq!(tokens.len(), 1);
    assert_eq!((tokens[0].name.as_str(), tokens[0].readonly), ("glasses", false));
    assert_eq!(tokens[0].token_hash, "abc");
    assert!(tokens[0].launch.allows("shell"));
    assert_eq!(config.launch[0].preset.argv, vec!["/bin/s\"h", "-l"]);
    config.validate_launch().unwrap();
}

#[test]
fn size_ranks_follow_the_precedence_list() {
    let config = parse_config(
        r#"{"listen_addr": "127.0.0.1", "port": 8737,
            "auth_tokens": [{"name": "glasses", "token_hash": "aa"}],
            "size_precedence": ["glasses", "host", "spectator"]}"#,
    )
    .unwrap();
    assert_eq!(config.size_ranks("glasses"), (0, 1));
    assert_eq!(config.size_ranks("spectator"), (2, 1));
    // Unlisted tokens rank after every listed entry.
    let (viewer, host) = config.size_ranks("other");
    assert_eq!((viewer, host), (3, 1));
    // Host unlisted: ranks after unlisted tokens.
    let config = parse_config(
        r#"{"listen_addr": "127.0.0.1", "port": 8737,
            "size_precedence": ["glasses"]}"#,
    )
    .unwrap();
    assert_eq!(config.size_ranks("glasses"), (0, 2));
    assert_eq!(config.size_ranks("other"), (1, 2));
}

#[test]
fn launch_configurations_are_validated() {
    let fault = |source: &str| parse_config(source).unwrap().validate_launch().unwrap_err();
    assert_eq!(
        fault(r#"{"listen_addr": "a", "port": 1, "launch": {"p": {"argv": []}}}"#),
        "launch preset \"p\" has an empty argv"
    );
    assert_eq!(
        fault(r#"{"listen_addr": "a", "port": 1, "launch": {"p": {"argv": ["x"], "size": "80"}}}"#),
        "launch preset \"p\" has a bad size \"80\" (want e.g. 80x24)"
    );
    assert_eq!(
        fault(
            r#"{"listen_addr": "a", "port": 1, "auth_tokens": [
                {"name": "t", "token_hash": "aa", "launch": true}]}"#
        ),
        "token \"t\" is read-only but has a launch grant; a token that can start shells it cannot type into is a contradiction \u{2014} make it writable or drop the grant"
    );
    assert_eq!(
        fault(
            r#"{"listen_addr": "a", "port": 1, "auth_tokens": [
                {"name": "t", "token_hash": "aa", "readonly": false, "launch": ["q"]}]}"#
        ),
        "token \"t\" may launch \"q\", but no such launch preset exists"
    );
    assert!(LaunchGrant::Named(Vec::new()).is_none());
    assert!(!LaunchGrant::Flag(true).is_none());
    let addrs = ListenAddrs::Many(vec!["a".into(), "b".into()]);
    assert_eq!(addrs.addresses(), vec!["a", "b"]);
}

#[test]
fn tokens_are_hashed_and_compared() {
    assert_eq!(hex(&[0x00, 0x0f, 0xa5]), "000fa5");
    assert_eq!(
        hash_token("abc"),
        "ba7816bf8f01cfea414140de5dae2223b00361a396177a9cb410ff61f20015ad"
    );
    assert!(token_matches(
        "abc",
        " BA7816BF8F01CFEA414140DE5DAE2223B00361A396177A9CB410FF61F20015AD\n"
    ));
    assert!(token_matches("t", &hash_token("t")));
    assert!(!token_matches("t", &hash_token("u")));
    assert!(!token_matches("t", ""));
    assert!(constant_time_eq(b"ab", b"ab"));
    assert!(!constant_time_eq(b"ab", b"aB"));
    assert!(!constant_time_eq(b"ab", b"abc"));
    let a = generate_token().unwrap();
    let b = generate_token().unwrap();
    assert_eq!(a.len(), 64);
    assert!(a.bytes().all(|c| c.is_ascii_hexdigit() && !c.is_ascii_uppercase()));
    assert_ne!(a, b);
}

fn init(token: &str) -> DeviceInit {
    DeviceInit {
        msg_type: "init".into(),
        version: 1,
        auth_token: token.into(),
        device: "dev".into(),
        width: 96,
        height: 24,
    }
}

fn two_tokens() -> Vec<TokenConfig> {
    let mut a = filtered(None, None);
    a.filter.clear();
    a.name = "a".into();
    a.token_hash = hash_token("ta");
    let mut b = filtered(Some("/shared.*"), None);
    b.name = "b".into();
    b.token_hash = hash_token("tb");
    b.readonly = false;
    vec![a, b]
}

#[test]
fn devices_authenticate_with_their_token() {
    let tokens = two_tokens();
    assert_eq!(authenticate(&tokens, &init("ta")), Ok(0));
    assert_eq!(authenticate(&tokens, &init("tb")), Ok(1));
    assert_eq!(authenticate(&tokens, &init("tc")).unwrap_err(), "authentication failed");
    let mut old = init("ta");
    old.version = 7;
    assert_eq!(authenticate(&tokens, &old).unwrap_err(), "unsupported protocol version 7");
    old.msg_type = "hello".into();
    assert_eq!(authenticate(&tokens, &old).unwrap_err(), "first message must be init");
    assert!(matches!(
        greeting(&Ok(1), &tokens),
        ServerToDevice::Init { version: 1, readonly: false }
    ));
    match greeting(&Err("no".into()), &tokens) {
        ServerToDevice::Error { message } => assert_eq!(message, "no"),
        _ => panic!("expected an error"),
    }
    match session_init(&init("ta"), 3, 4) {
        ToSession::Init { device, width, height, size_rank, host_size_rank, force, .. } => {
            assert_eq!((device.as_str(), width, height), ("dev", 96, 24));
            assert_eq!((size_rank, host_size_rank, force), (Some(3), Some(4), false));
        }
        _ => panic!("expected an init"),
    }
    assert_eq!(filter_for(&tokens, "b"), Some(1));
    assert_eq!(filter_for(&tokens, "z"), None);
    assert_eq!(unauthenticated_slot(MAX_UNAUTHENTICATED - 1), Some(MAX_UNAUTHENTICATED));
    assert_eq!(unauthenticated_slot(MAX_UNAUTHENTICATED), None);
}

fn known() -> Terminals {
    let mut t = Terminals::new();
    let fresh = t.scan(&vec!["1-_shared".to_string(), "2-_x".to_string()]);
    assert_eq!(fresh, vec!["1-_shared", "2-_x"]);
    t.on_monitor_line(
        "1-_shared",
        r#"{"type": "connect", "cwd": "/shared/x", "title": "T", "detached": true, "launched": "shell"}"#,
    );
    t.on_monitor_line("2-_x", r#"{"type": "connect", "cwd": "/x"}"#);
    t
}

#[test]
fn monitors_learn_and_report() {
    let mut t = known();
    let state = t.terminal("1-_shared");
    assert_eq!(state.cwd.as_deref(), Some("/shared/x"));
    assert_eq!(state.title.as_deref(), Some("T"));
    assert_eq!(state.launched.as_deref(), Some("shell"));
    assert!(state.detached);
    match t.on_monitor_line("1-_shared", r#"{"type": "host_changed", "attached": true}"#) {
        Some(ServerToDevice::Detached { socket, detached }) => {
            assert_eq!((socket.as_str(), detached), ("1-_shared", false));
        }
        _ => panic!("expected a detached event"),
    }
    match t.on_monitor_line("2-_x", r#"{"type": "bell", "at": 17}"#) {
        Some(ServerToDevice::Bell { socket, last_bell_at }) => {
            assert_eq!((socket.as_str(), last_bell_at), ("2-_x", 17));
        }
        _ => panic!("expected a bell"),
    }
    match t.on_monitor_line("2-_x", r#"{"type": "title", "title": "new"}"#) {
        Some(ServerToDevice::Title { title, .. }) => assert_eq!(title, "new"),
        _ => panic!("expected a title"),
    }
    assert_eq!(t.terminal("2-_x").last_bell_at, Some(17));
    assert!(t.on_monitor_line("2-_x", r#"{"type": "bell", "at": -1}"#).is_none());
    assert!(t.on_monitor_line("2-_x", r#"{"type": "bell", "at": 1.5}"#).is_none());
    assert!(t.on_monitor_line("2-_x", "garbage").is_none());
    assert!(t.on_monitor_line("2-_x", r#"{"type": "output"}"#).is_none());
    // A scan forgets what is gone and monitors only what is new.
    assert_eq!(t.scan(&vec!["2-_x".to_string(), "3-_y".to_string()]), vec!["3-_y"]);
    assert_eq!(t.terminal("1-_shared").cwd, None);
    assert_eq!(t.terminal("2-_x").title.as_deref(), Some("new"));
    t.release("2-_x");
    assert_eq!(t.scan(&vec!["2-_x".to_string(), "3-_y".to_string()]), vec!["2-_x"]);
}

#[test]
fn filters_govern_lists_connects_and_events() {
    let tokens = two_tokens();
    let rules = compile_filter(&tokens[1]).ok().unwrap();
    let none = compile_filter(&tokens[0]).ok().unwrap();
    let mut t = known();
    let live = vec!["1-_shared".to_string(), "2-_x".to_string(), "9-new".to_string()];
    let seen = list_sessions(&live, &t, &rules);
    assert_eq!(seen.len(), 1);
    assert_eq!(seen[0].socket, "1-_shared");
    assert_eq!((seen[0].pid, seen[0].cwd_hint.as_str()), (1, "_shared"));
    assert_eq!(seen[0].title.as_deref(), Some("T"));
    assert!(seen[0].detached);
    assert_eq!(list_sessions(&live, &t, &none).len(), 3);
    assert!(session_allowed(&none, &t, "9-new"));
    assert!(!session_allowed(&rules, &t, "9-new"), "unknown directories fail closed");

    let event = t.on_monitor_line("2-_x", r#"{"type": "bell", "at": 1}"#).unwrap();
    assert_eq!(deliver(&event, &rules, &t, &None), Delivery::Nothing);
    assert_eq!(deliver(&event, &rules, &t, &Some("2-_x".into())), Delivery::Revoked);
    assert_eq!(deliver(&event, &none, &t, &None), Delivery::Event);
    match revoked() {
        ServerToDevice::Disconnected { reason } => {
            assert_eq!(reason, "terminal no longer matches your token's filter");
        }
        _ => panic!("expected a disconnect"),
    }
    assert!(is_live_session("1-x", true));
    assert!(!is_live_session("1-x", false));
    assert!(!is_live_session("../1-x", true));
}

fn message(r: Request) -> String {
    match r {
        Request::Reply(ServerToDevice::Error { message }) => format!("error: {message}"),
        Request::Reply(_) => "reply".into(),
        Request::List => "list".into(),
        Request::Connect { socket, size_rank, host_size_rank } => {
            format!("connect {socket} {size_rank} {host_size_rank}")
        }
        Request::Launch { preset, cwd } => format!("launch {preset} {cwd:?}"),
        Request::Disconnect => "disconnect".into(),
        Request::Forward => "forward".into(),
    }
}

#[test]
fn device_messages_are_dispatched() {
    let tokens = two_tokens();
    let config = parse_config(
        r#"{"listen_addr": "a", "port": 1, "size_precedence": ["b", "host"]}"#,
    )
    .unwrap();
    let t = known();
    let ask = |i: usize, connected: bool, text: &str| {
        let rules = compile_filter(&tokens[i]).ok().unwrap();
        message(handle_device_message(text, connected, &config, &tokens[i], &rules, &t))
    };
    assert_eq!(ask(0, false, r#"{"type": "list"}"#), "list");
    assert_eq!(ask(0, false, r#"{"type": "connect", "socket": "2-_x"}"#), "connect 2-_x 2 1");
    assert_eq!(
        ask(1, false, r#"{"type": "connect", "socket": "1-_shared"}"#),
        "connect 1-_shared 0 1"
    );
    assert_eq!(
        ask(1, false, r#"{"type": "connect", "socket": "2-_x"}"#),
        "error: terminal does not match your token's filter"
    );
    assert_eq!(
        ask(0, false, r#"{"type": "connect", "socket": "../2-_x"}"#),
        "error: invalid socket name"
    );
    assert_eq!(ask(0, false, r#"{"type": "connect"}"#), "error: connect requires a socket name");
    assert_eq!(ask(1, false, r#"{"type": "launch"}"#), "launch shell None");
    assert_eq!(
        ask(1, false, r#"{"type": "launch", "command": "x", "cwd": "/y"}"#),
        "launch x Some(\"/y\")"
    );
    assert_eq!(ask(0, true, r#"{"type": "disconnect"}"#), "disconnect");
    assert_eq!(ask(0, true, r#"{"type": "input", "data": ""}"#), "error: server is read-only");
    assert_eq!(ask(1, true, r#"{"type": "input", "data": ""}"#), "forward");
    assert_eq!(ask(0, true, r#"{"type": "view"}"#), "forward");
    assert_eq!(ask(0, false, r#"{"type": "view"}"#), "error: not connected to a session");
    assert_eq!(ask(0, true, "{}"), "error: message has no type");
    assert!(ask(0, true, "{").starts_with("error: invalid JSON: EOF"));
}

#[test]
fn launches_are_checked_and_assembled() {
    let config = parse_config(
        r#"{"listen_addr": "a", "port": 1, "launch": {
            "shell": {"argv": ["zsh", "-l"], "allow_cwd": true},
            "watch": {"argv": ["top"], "cwd": "~/w", "title": "W", "readonly": true,
                      "scrollback": 50, "size": "90x30"}}}"#,
    )
    .unwrap();
    let mut token = two_tokens().remove(1);
    token.launch = LaunchGrant::Named(vec!["shell".into(), "watch".into(), "gone".into()]);
    let choose = |token: &TokenConfig, name: &str, cwd: Option<&str>| {
        choose_launch(&config, token, name, &cwd.map(str::to_string))
    };
    assert_eq!(choose(&token, "shell", None), Ok((0, "~".to_string())));
    assert_eq!(choose(&token, "shell", Some("/t")), Ok((0, "/t".to_string())));
    assert_eq!(choose(&token, "watch", None), Ok((1, "~/w".to_string())));
    assert_eq!(
        choose(&token, "watch", Some("/t")).unwrap_err(),
        "preset \"watch\" does not allow overriding the working directory"
    );
    assert_eq!(choose(&token, "gone", None).unwrap_err(), "no launch preset named \"gone\"");
    assert_eq!(choose(&token, "other", None).unwrap_err(), "your token may not launch \"other\"");
    let mut readonly = two_tokens().remove(0);
    readonly.launch = LaunchGrant::Flag(true);
    assert_eq!(choose(&readonly, "shell", None).unwrap_err(), "your token may not launch \"shell\"");

    let rules = compile_filter(&token).ok().unwrap();
    let cwd = Some("/shared/y".to_string());
    assert_eq!(
        launch_args(&config.launch[1].preset, "watch", &rules, &cwd).unwrap(),
        vec![
            "--detached", "--launched", "watch", "--title", "W", "--readonly", "--scrollback",
            "50", "--initial-size", "90x30", "--", "top"
        ]
    );
    assert_eq!(
        launch_args(&config.launch[0].preset, "shell", &rules, &cwd).unwrap(),
        vec!["--detached", "--launched", "shell", "--title", "shell", "--", "zsh", "-l"]
    );
    assert_eq!(
        launch_args(&config.launch[0].preset, "shell", &rules, &Some("/".into())).unwrap_err(),
        "your token's filter would hide the launched session"
    );
    // The wrapper understands the launch as it was meant.
    let launch = launch_args(&config.launch[1].preset, "watch", &rules, &cwd).unwrap();
    let list: Vec<g2mirror::wrap::Arg> = launch
        .iter()
        .map(|a| g2mirror::wrap::Arg { text: a.clone(), exact: true })
        .collect();
    let opts = g2mirror::wrap::parse_wrap_args(&list).ok().unwrap();
    assert!(opts.detached && opts.readonly && !opts.headless);
    assert_eq!((opts.title.as_deref(), opts.launched.as_deref()), (Some("W"), Some("watch")));
    assert_eq!((opts.scrollback, opts.initial_size, opts.program), (50, (30, 90), 11));
    assert_eq!(launched_socket(true, b" 12-_x\n", b""), Ok("12-_x".to_string()));
    assert_eq!(
        launched_socket(true, b"no socket", b"").unwrap_err(),
        "g2mirror --detached printed an unexpected socket name \"no socket\""
    );
    assert_eq!(
        launched_socket(false, b"", b" boom \n").unwrap_err(),
        "g2mirror --detached failed: boom"
    );
    match launch_reply(Err("boom".into())) {
        ServerToDevice::Error { message } => assert_eq!(message, "launch failed: boom"),
        _ => panic!("expected an error"),
    }
    assert!(matches!(launch_reply(Ok("1-a".into())), ServerToDevice::Launched { .. }));
    let home = Some("/home/u".to_string());
    assert_eq!(expand_tilde("~", &home), "/home/u");
    assert_eq!(expand_tilde("~/x", &home), "/home/u/x");
    assert_eq!(expand_tilde("~x", &home), "~x");
    assert_eq!(expand_tilde("~/x", &None), "~/x");
}

fn args(list: &[&str]) -> Vec<String> {
    list.iter().map(|a| a.to_string()).collect()
}

#[test]
fn tokens_are_added_read_only_unless_asked() {
    let config = parse_config(
        r#"{"listen_addr": "a", "port": 1, "auth_token_hash": "aa",
            "auth_tokens": [{"name": "glasses", "token_hash": "aa"}],
            "launch": {"shell": {"argv": ["sh"]}}}"#,
    )
    .unwrap();
    let token = parse_add_token(&args(&["coworker"])).ok().unwrap();
    check_add_token(&config, &token).unwrap();
    let added = added_token(token, "hash".into());
    assert!(added.readonly && added.launch.is_none());
    assert_eq!((added.name.as_str(), added.token_hash.as_str()), ("coworker", "hash"));

    let token =
        parse_add_token(&args(&["--writable", "me", "--launch", "shell"])).ok().unwrap();
    check_add_token(&config, &token).unwrap();
    let added = added_token(token, "hash".into());
    assert!(!added.readonly && added.launch.allows("shell") && !added.launch.allows("x"));
    let token = parse_add_token(&args(&["me", "--writable", "--launch-all"])).ok().unwrap();
    assert!(added_token(token, "h".into()).launch.allows("anything"));

    let fault = |list: &[&str]| parse_add_token(&args(list)).err().unwrap();
    assert_eq!(
        fault(&[]),
        "usage: g2mirror-server --add-token <name> [--writable] [--launch <preset>]... [--launch-all]"
    );
    assert_eq!(fault(&["a", "b"]), "unexpected argument: b");
    assert_eq!(fault(&["a", "--launch"]), "--launch requires a preset name");
    assert_eq!(
        fault(&["host"]),
        "\"host\" is reserved (it stands for the host terminal in size_precedence)"
    );
    assert_eq!(
        fault(&["a", "--launch-all"]),
        "a launch grant requires --writable (a read-only token cannot type into the shells it starts)"
    );
    for taken in ["glasses", "default"] {
        let token = parse_add_token(&args(&[taken])).ok().unwrap();
        assert_eq!(
            check_add_token(&config, &token).unwrap_err(),
            format!("a token named \"{taken}\" already exists")
        );
    }
    let token = parse_add_token(&args(&["a", "--writable", "--launch", "nope"])).ok().unwrap();
    assert_eq!(
        check_add_token(&config, &token).unwrap_err(),
        "no launch preset named \"nope\" in the config"
    );
}
