//! The websocket gateway between device drivers (e.g. the smart-glasses driver)
//! and session sockets: who may connect, what a device's messages ask for, and
//! what it gets to see.

use crate::config::{
    find_preset, token_views, Config, ConfigView, LaunchGrant, LaunchPreset, PresetView,
    TokenConfig, TokenView,
};
use crate::filter::{admits, compiled_views, filter_allows, CompiledRule};
use crate::json::{json_parsed, parse_json, text_field, Json};
use crate::paths::{is_valid_socket_name, name_pid, socket_pid, valid_socket_text};
use crate::protocol::{
    ClientMsg, DeviceInit, InfoView, Role, ServerMsg, ServerToDevice, SessionInfo, ToSession,
    PROTOCOL_VERSION,
};
use crate::terminals::{Terminals, TerminalsView};
use crate::text::{
    chars_of, debug_string, debug_text, decimal, decimal_string, find, find_char, lossy_string,
    lossy_text, opt_text, push_decimal, text_eq, text_of, trim, trimmed_end, trimmed_start,
};
use crate::token::{is_token, token_matches};
use crate::session_model::{best_client_is_outranked_by_none, is_viewing, outranks, SessionView};
use crate::wrap::{
    as_args, is_flag, no_flags, step_detached, step_end, step_launched, step_readonly,
    step_scrollback, step_size, step_title, texts, wrap_opts, WrapView,
};
use vstd::prelude::*;
use vstd::string::*;

verus! {

/// How often to scan the runtime directory for new session sockets to monitor,
/// in milliseconds.
pub const MONITOR_SCAN_INTERVAL_MS: u64 = 2_000;

/// A connection must complete the websocket handshake and authenticate within
/// this many milliseconds, so half-open connections to a public (e.g.
/// tailscale funnel) endpoint can't linger.
pub const AUTH_DEADLINE_MS: u64 = 10_000;

/// Cap on connections that have not authenticated yet, across all listeners.
/// Authenticated device connections are not counted.
pub const MAX_UNAUTHENTICATED: usize = 32;

/// Idle keepalive: websocket pings at this interval, in milliseconds, stop
/// NAT/proxy middleboxes (e.g. on the funnel path) from reaping quiet
/// connections.
pub const PING_INTERVAL_MS: u64 = 30_000;

/// The number of unauthenticated connections after one more, if there is room
/// for it.
pub fn unauthenticated_slot(current: usize) -> (r: Option<usize>)
    ensures
        r == (if current < MAX_UNAUTHENTICATED {
            Some((current + 1) as usize)
        } else {
            None
        }),
{
    if current >= MAX_UNAUTHENTICATED {
        None
    } else {
        Some(current + 1)
    }
}

/// The first token, from index `from` on, that a device's token is.
pub open spec fn find_token(tokens: Seq<TokenView>, given: Seq<char>, from: int) -> Option<int>
    decreases tokens.len() - from,
{
    if from >= tokens.len() {
        None
    } else if is_token(given, tokens[from].token_hash) {
        Some(from)
    } else {
        find_token(tokens, given, from + 1)
    }
}

/// What a device's first message comes to: the index of its token, or why it is
/// refused.
pub open spec fn admission(
    tokens: Seq<TokenView>,
    msg_type: Seq<char>,
    version: u32,
    auth_token: Seq<char>,
) -> Result<int, Seq<char>> {
    if msg_type != "init"@ {
        Err("first message must be init"@)
    } else if version != PROTOCOL_VERSION {
        Err("unsupported protocol version "@ + decimal(version as nat))
    } else {
        match find_token(tokens, auth_token, 0) {
            Some(i) => Ok(i),
            None => Err("authentication failed"@),
        }
    }
}

/// A device's first message: the index of the token it authenticates with, or
/// why it is refused.
pub fn authenticate(tokens: &Vec<TokenConfig>, init: &DeviceInit) -> (r: Result<usize, String>)
    ensures
        match admission(
            token_views(tokens@),
            init.msg_type@,
            init.version,
            init.auth_token@,
        ) {
            Ok(i) => r matches Ok(k) && k == i && k < tokens@.len(),
            Err(message) => r matches Err(m) && m@ == message,
        },
{
    if !text_eq(init.msg_type.as_str(), "init") {
        return Err("first message must be init".to_owned());
    }
    if init.version != PROTOCOL_VERSION {
        let mut message = "unsupported protocol version ".to_owned();
        push_decimal(&mut message, init.version as u64);
        return Err(message);
    }
    let ghost views = token_views(tokens@);
    let mut i: usize = 0;
    while i < tokens.len()
        invariant
            i <= tokens@.len() == views.len(),
            views == token_views(tokens@),
            init.msg_type@ == "init"@,
            init.version == PROTOCOL_VERSION,
            find_token(views, init.auth_token@, i as int) == find_token(
                views,
                init.auth_token@,
                0,
            ),
        decreases tokens@.len() - i,
    {
        assert(views[i as int] == tokens@[i as int]@);
        if token_matches(init.auth_token.as_str(), tokens[i].token_hash.as_str()) {
            return Ok(i);
        }
        i += 1;
    }
    Err("authentication failed".to_owned())
}

/// The reply to a device's first message.
pub fn greeting(outcome: &Result<usize, String>, tokens: &Vec<TokenConfig>) -> (r: ServerToDevice)
    requires
        outcome matches Ok(i) ==> i < tokens@.len(),
    ensures
        r@ == match *outcome {
            Ok(i) => ServerMsg::Init {
                version: PROTOCOL_VERSION,
                readonly: tokens@[i as int].readonly,
            },
            Err(message) => ServerMsg::Error { message: message@ },
        },
{
    match outcome {
        Ok(i) => ServerToDevice::Init {
            version: PROTOCOL_VERSION,
            readonly: tokens[*i].readonly,
        },
        Err(message) => ServerToDevice::Error { message: message.clone() },
    }
}

/// The init a device's connection sends to a session: the device's own, with
/// the size-precedence ranks of its token and of the host terminal.
pub fn session_init(init: &DeviceInit, size_rank: u32, host_size_rank: u32) -> (r: ToSession)
    ensures
        r@ == (ClientMsg::Init {
            version: PROTOCOL_VERSION,
            device: init.device@,
            width: init.width,
            height: init.height,
            size_rank: Some(size_rank),
            host_size_rank: Some(host_size_rank),
            role: Role::Viewer,
            force: false,
        }),
{
    ToSession::Init {
        version: PROTOCOL_VERSION,
        device: init.device.clone(),
        width: init.width,
        height: init.height,
        size_rank: Some(size_rank),
        host_size_rank: Some(host_size_rank),
        role: Role::Viewer,
        force: false,
    }
}

/// Whether a terminal is visible through a compiled filter, per what is known
/// of it.
pub open spec fn visible(
    rules: Seq<crate::config::RuleView>,
    t: TerminalsView,
    socket: Seq<char>,
) -> bool {
    admits(rules, t.terminal(socket).cwd, t.terminal(socket).title)
}

/// Whether `socket` is visible through a filter, per the monitored state.
pub fn session_allowed(rules: &Vec<CompiledRule>, terminals: &Terminals, socket: &str) -> (r: bool)
    requires
        terminals.wf(),
    ensures
        r == visible(compiled_views(rules@), terminals@, socket@),
{
    let terminal = terminals.terminal(socket);
    filter_allows(rules, &terminal.cwd, &terminal.title)
}

/// Whether a directory entry is a live session's socket: its name looks valid
/// and its wrapper's PID is alive.
pub fn is_live_session(name: &str, pid_alive: bool) -> (r: bool)
    ensures
        r == (valid_socket_text(name@) && pid_alive),
{
    is_valid_socket_name(name) && pid_alive
}

/// What follows the first dash of a socket name.
pub open spec fn cwd_hint(name: Seq<char>) -> Seq<char> {
    let dash = find(name, '-');
    if dash < name.len() {
        name.skip(dash + 1)
    } else {
        Seq::empty()
    }
}

/// A session's entry in the list a device gets.
pub open spec fn session_info(t: TerminalsView, name: Seq<char>) -> InfoView {
    let terminal = t.terminal(name);
    InfoView {
        socket: name,
        pid: match name_pid(name) {
            Some(pid) => pid as u32,
            None => 0,
        },
        cwd_hint: cwd_hint(name),
        last_bell_at: terminal.last_bell_at,
        title: terminal.title,
        detached: terminal.detached,
        launched: terminal.launched,
    }
}

/// The sessions a device gets to see: the live ones that its filter admits, in
/// order.
pub open spec fn listed(
    live: Seq<Seq<char>>,
    t: TerminalsView,
    rules: Seq<crate::config::RuleView>,
) -> Seq<InfoView>
    decreases live.len(),
{
    if live.len() == 0 {
        Seq::empty()
    } else {
        let before = listed(live.drop_last(), t, rules);
        if visible(rules, t, live.last()) {
            before.push(session_info(t, live.last()))
        } else {
            before
        }
    }
}

fn info_of(terminals: &Terminals, name: &str) -> (r: SessionInfo)
    requires
        terminals.wf(),
    ensures
        r@ == session_info(terminals@, name@),
{
    let terminal = terminals.terminal(name);
    let pid: u32 = match socket_pid(name) {
        Some(pid) => pid,
        None => 0,
    };
    let chars = chars_of(name);
    let len: usize = chars.len();
    let dash: usize = find_char(&chars, '-', 0);
    let hint = if dash < len {
        assert(chars@.subrange(dash + 1, len as int) =~= name@.skip(dash + 1));
        text_of(&chars, dash + 1, len)
    } else {
        String::new()
    };
    SessionInfo {
        socket: name.to_owned(),
        pid,
        cwd_hint: hint,
        last_bell_at: terminal.last_bell_at,
        title: terminal.title,
        detached: terminal.detached,
        launched: terminal.launched,
    }
}

/// The sessions a device gets to see.
pub fn list_sessions(live: &Vec<String>, terminals: &Terminals, rules: &Vec<CompiledRule>) -> (r: Vec<
    SessionInfo,
>)
    requires
        terminals.wf(),
    ensures
        r@.map_values(|s: SessionInfo| s@) == listed(
            texts(live@),
            terminals@,
            compiled_views(rules@),
        ),
{
    let ghost names = texts(live@);
    let ghost views = compiled_views(rules@);
    let mut out: Vec<SessionInfo> = Vec::new();
    let mut i: usize = 0;
    assert(out@.map_values(|s: SessionInfo| s@) =~= listed(names.take(0), terminals@, views));
    while i < live.len()
        invariant
            i <= live@.len() == names.len(),
            names == texts(live@),
            views == compiled_views(rules@),
            terminals.wf(),
            out@.map_values(|s: SessionInfo| s@) == listed(
                names.take(i as int),
                terminals@,
                views,
            ),
        decreases live@.len() - i,
    {
        let name = &live[i];
        let ghost before = out@.map_values(|s: SessionInfo| s@);
        proof {
            assert(names.take(i + 1).drop_last() =~= names.take(i as int));
            assert(names.take(i + 1).last() == name@);
        }
        if session_allowed(rules, terminals, name.as_str()) {
            out.push(info_of(terminals, name.as_str()));
            assert(out@.map_values(|s: SessionInfo| s@) =~= before.push(
                session_info(terminals@, name@),
            ));
        }
        i += 1;
    }
    assert(names.take(i as int) =~= names);
    out
}

/// What a device's message asks for.
pub enum Request {
    /// Answer it.
    Reply(ServerToDevice),
    /// Send the session list.
    List,
    /// Connect to a session, with these ranks.
    Connect { socket: String, size_rank: u32, host_size_rank: u32 },
    /// Launch a preset, in this directory where one is asked for.
    Launch { preset: String, cwd: Option<String> },
    /// Drop the session connection, and say so.
    Disconnect,
    /// Forward the message verbatim to the connected session.
    Forward,
}

pub ghost enum RequestView {
    Reply(ServerMsg),
    List,
    Connect { socket: Seq<char>, size_rank: int, host_size_rank: int },
    Launch { preset: Seq<char>, cwd: Option<Seq<char>> },
    Disconnect,
    Forward,
}

impl View for Request {
    type V = RequestView;

    open spec fn view(&self) -> RequestView {
        match *self {
            Request::Reply(msg) => RequestView::Reply(msg@),
            Request::List => RequestView::List,
            Request::Connect { socket, size_rank, host_size_rank } => RequestView::Connect {
                socket: socket@,
                size_rank: size_rank as int,
                host_size_rank: host_size_rank as int,
            },
            Request::Launch { preset, cwd } => RequestView::Launch {
                preset: preset@,
                cwd: opt_text(cwd),
            },
            Request::Disconnect => RequestView::Disconnect,
            Request::Forward => RequestView::Forward,
        }
    }
}

/// An error answer.
pub open spec fn refused(message: Seq<char>) -> RequestView {
    RequestView::Reply(ServerMsg::Error { message })
}

fn refuse(message: &str) -> (r: Request)
    ensures
        r@ == refused(message@),
{
    Request::Reply(ServerToDevice::Error { message: message.to_owned() })
}

/// What a connect request comes to.
pub open spec fn connect_request(
    msg: Json,
    c: ConfigView,
    token: TokenView,
    rules: Seq<crate::config::RuleView>,
    t: TerminalsView,
) -> RequestView {
    match msg.text_field("socket"@) {
        None => refused("connect requires a socket name"@),
        Some(name) => if !valid_socket_text(name) {
            refused("invalid socket name"@)
        } else if !visible(rules, t, name) {
            refused("terminal does not match your token's filter"@)
        } else {
            RequestView::Connect {
                socket: name,
                size_rank: c.size_ranks(token.name).0,
                host_size_rank: c.size_ranks(token.name).1,
            }
        },
    }
}

/// What a device's message asks for. Server-scoped requests are answered here;
/// anything else goes verbatim to the connected session, except that input
/// with a read-only token is refused.
pub open spec fn request(
    text: Seq<char>,
    connected: bool,
    c: ConfigView,
    token: TokenView,
    rules: Seq<crate::config::RuleView>,
    t: TerminalsView,
) -> RequestView {
    match json_parsed(text) {
        Err(e) => refused("invalid JSON: "@ + e),
        Ok(msg) => match msg.text_field("type"@) {
            None => refused("message has no type"@),
            Some(kind) => if kind == "list"@ {
                RequestView::List
            } else if kind == "connect"@ {
                connect_request(msg, c, token, rules, t)
            } else if kind == "launch"@ {
                RequestView::Launch {
                    preset: match msg.text_field("command"@) {
                        Some(preset) => preset,
                        None => "shell"@,
                    },
                    cwd: msg.text_field("cwd"@),
                }
            } else if kind == "disconnect"@ {
                RequestView::Disconnect
            } else if kind == "input"@ && token.readonly {
                refused("server is read-only"@)
            } else if connected {
                RequestView::Forward
            } else {
                refused("not connected to a session"@)
            },
        },
    }
}

/// A message from a device.
pub fn handle_device_message(
    text: &str,
    connected: bool,
    config: &Config,
    token: &TokenConfig,
    rules: &Vec<CompiledRule>,
    terminals: &Terminals,
) -> (r: Request)
    requires
        config@.size_precedence.len() < u32::MAX,
        terminals.wf(),
    ensures
        r@ == request(
            text@,
            connected,
            config@,
            token@,
            compiled_views(rules@),
            terminals@,
        ),
{
    let msg = match parse_json(text) {
        Ok(msg) => msg,
        Err(e) => {
            let mut message = "invalid JSON: ".to_owned();
            message.append(e.as_str());
            return Request::Reply(ServerToDevice::Error { message });
        },
    };
    let kind = match text_field(&msg, "type") {
        Some(kind) => kind,
        None => return refuse("message has no type"),
    };
    if text_eq(kind.as_str(), "list") {
        Request::List
    } else if text_eq(kind.as_str(), "connect") {
        match text_field(&msg, "socket") {
            None => refuse("connect requires a socket name"),
            Some(name) => {
                if !is_valid_socket_name(name.as_str()) {
                    refuse("invalid socket name")
                } else if !session_allowed(rules, terminals, name.as_str()) {
                    refuse("terminal does not match your token's filter")
                } else {
                    let (size_rank, host_size_rank) = config.size_ranks(token.name.as_str());
                    Request::Connect { socket: name, size_rank, host_size_rank }
                }
            },
        }
    } else if text_eq(kind.as_str(), "launch") {
        let preset = match text_field(&msg, "command") {
            Some(preset) => preset,
            None => "shell".to_owned(),
        };
        Request::Launch { preset, cwd: text_field(&msg, "cwd") }
    } else if text_eq(kind.as_str(), "disconnect") {
        Request::Disconnect
    } else if text_eq(kind.as_str(), "input") && token.readonly {
        // Input is normally forwarded like any other message, but a read-only
        // token is refused here (sessions can independently refuse via their
        // own --readonly flag).
        refuse("server is read-only")
    } else if connected {
        // Anything else is forwarded verbatim to the connected session (view,
        // unview, future message types).
        Request::Forward
    } else {
        refuse("not connected to a session")
    }
}

/// Whether an event is about a terminal, and which.
pub open spec fn event_socket(event: ServerMsg) -> Option<Seq<char>> {
    match event {
        ServerMsg::Bell { socket, .. } => Some(socket),
        ServerMsg::Title { socket, .. } => Some(socket),
        ServerMsg::Detached { socket, .. } => Some(socket),
        _ => None,
    }
}

/// What a device gets of an event.
#[derive(Clone, Copy, PartialEq, Eq, Structural, Debug)]
pub enum Delivery {
    /// The event.
    Event,
    /// Nothing: the token's filter hides the terminal.
    Nothing,
    /// The terminal it is attached to stopped matching: it is disconnected.
    Revoked,
}

/// What a device gets of an event, being attached to `attached`.
pub open spec fn delivery(
    event: ServerMsg,
    rules: Seq<crate::config::RuleView>,
    t: TerminalsView,
    attached: Option<Seq<char>>,
) -> Delivery {
    match event_socket(event) {
        Some(socket) => if visible(rules, t, socket) {
            Delivery::Event
        } else if attached == Some(socket) {
            Delivery::Revoked
        } else {
            Delivery::Nothing
        },
        None => Delivery::Event,
    }
}

/// A terminal rang its bell or changed its title (viewed or not): the device is
/// notified, unless the token's filter hides that terminal. A title change can
/// also revoke visibility of the terminal the device is attached to.
pub fn deliver(
    event: &ServerToDevice,
    rules: &Vec<CompiledRule>,
    terminals: &Terminals,
    attached: &Option<String>,
) -> (r: Delivery)
    requires
        terminals.wf(),
    ensures
        r == delivery(event@, compiled_views(rules@), terminals@, opt_text(*attached)),
{
    let socket = match event {
        ServerToDevice::Bell { socket, .. } => socket,
        ServerToDevice::Title { socket, .. } => socket,
        ServerToDevice::Detached { socket, .. } => socket,
        _ => return Delivery::Event,
    };
    if session_allowed(rules, terminals, socket.as_str()) {
        return Delivery::Event;
    }
    match attached {
        Some(name) => {
            if text_eq(name.as_str(), socket.as_str()) {
                Delivery::Revoked
            } else {
                Delivery::Nothing
            }
        },
        None => Delivery::Nothing,
    }
}

/// What a device is told when its terminal stopped matching its filter.
pub fn revoked() -> (r: ServerToDevice)
    ensures
        r@ == (ServerMsg::Disconnected {
            reason: "terminal no longer matches your token's filter"@,
        }),
{
    ServerToDevice::Disconnected {
        reason: "terminal no longer matches your token's filter".to_owned(),
    }
}

/// `path` with a leading `~` expanded to the home directory.
pub open spec fn expanded(path: Seq<char>, home: Option<Seq<char>>) -> Seq<char> {
    match home {
        Some(h) => if path.len() > 0 && path[0] == '~' && (path.len() == 1 || path[1] == '/') {
            h + path.skip(1)
        } else {
            path
        },
        None => path,
    }
}

/// Expand a leading `~` to the home directory.
pub fn expand_tilde(path: &str, home: &Option<String>) -> (r: String)
    ensures
        r@ == expanded(path@, opt_text(*home)),
{
    let chars = chars_of(path);
    let len: usize = chars.len();
    match home {
        Some(h) => {
            if len > 0 && chars[0] == '~' && (len == 1 || chars[1] == '/') {
                let mut out = h.clone();
                out.append(text_of(&chars, 1, len).as_str());
                assert(chars@.subrange(1, len as int) =~= path@.skip(1));
                out
            } else {
                path.to_owned()
            }
        },
        None => path.to_owned(),
    }
}

/// What a launch request comes to: the preset's index and the directory to
/// start in, or why it is refused.
pub open spec fn launch_choice(
    c: ConfigView,
    token: TokenView,
    preset: Seq<char>,
    cwd: Option<Seq<char>>,
) -> Result<(int, Seq<char>), Seq<char>> {
    if token.readonly || !token.launch.allows(preset) {
        Err("your token may not launch "@ + debug_text(preset))
    } else {
        match find_preset(c.launch, preset, 0) {
            None => Err("no launch preset named "@ + debug_text(preset)),
            Some(i) => match cwd {
                Some(dir) => if c.launch[i].preset.allow_cwd {
                    Ok((i, dir))
                } else {
                    Err(
                        "preset "@ + debug_text(preset)
                            + " does not allow overriding the working directory"@,
                    )
                },
                None => match c.launch[i].preset.cwd {
                    Some(dir) => Ok((i, dir)),
                    None => Ok((i, "~"@)),
                },
            },
        }
    }
}

/// A launch request: the preset's index and the directory to start in (a
/// leading `~` still to be expanded), or why it is refused.
pub fn choose_launch(
    config: &Config,
    token: &TokenConfig,
    preset: &str,
    cwd: &Option<String>,
) -> (r: Result<(usize, String), String>)
    ensures
        match launch_choice(config@, token@, preset@, opt_text(*cwd)) {
            Ok((i, dir)) => r matches Ok(p) && p.0 == i && p.0 < config.launch@.len() && p.1@
                == dir,
            Err(message) => r matches Err(m) && m@ == message,
        },
{
    if token.readonly || !token.launch.allows(preset) {
        let mut message = "your token may not launch ".to_owned();
        message.append(debug_string(preset).as_str());
        return Err(message);
    }
    let i: usize = match config.preset(preset) {
        Some(i) => i,
        None => {
            let mut message = "no launch preset named ".to_owned();
            message.append(debug_string(preset).as_str());
            return Err(message);
        },
    };
    let chosen = &config.launch[i].preset;
    assert(config@.launch[i as int] == config.launch@[i as int]@);
    match cwd {
        Some(dir) => {
            if chosen.allow_cwd {
                Ok((i, dir.clone()))
            } else {
                let mut message = "preset ".to_owned();
                message.append(debug_string(preset).as_str());
                message.append(" does not allow overriding the working directory");
                Err(message)
            }
        },
        None => match &chosen.cwd {
            Some(dir) => Ok((i, dir.clone())),
            None => Ok((i, "~".to_owned())),
        },
    }
}

/// The title a launched session starts with.
pub open spec fn launch_title(p: PresetView, name: Seq<char>) -> Seq<char> {
    match p.title {
        Some(t) => t,
        None => name,
    }
}

/// The arguments that launch a preset: those of the wrapper, then the preset's
/// own command.
pub open spec fn launch_flags(p: PresetView, name: Seq<char>) -> Seq<Seq<char>> {
    seq!["--detached"@, "--launched"@, name, "--title"@, launch_title(p, name)] + (if p.readonly {
        seq!["--readonly"@]
    } else {
        Seq::empty()
    }) + (match p.scrollback {
        Some(lines) => seq!["--scrollback"@, decimal(lines as nat)],
        None => Seq::empty(),
    }) + (match p.size {
        Some(size) => seq!["--initial-size"@, size],
        None => Seq::empty(),
    }) + seq!["--"@] + p.argv
}

fn push_owned(out: &mut Vec<String>, text: String)
    ensures
        texts(final(out)@) == texts(old(out)@).push(text@),
{
    out.push(text);
    assert(texts(out@) =~= texts(old(out)@).push(text@));
}

/// The arguments that launch a preset in a directory (in its canonical form, as
/// the wrapper will report it), unless the token's own filter would hide the
/// session.
pub fn launch_args(
    preset: &LaunchPreset,
    name: &str,
    rules: &Vec<CompiledRule>,
    cwd: &Option<String>,
) -> (r: Result<Vec<String>, String>)
    ensures
        if admits(compiled_views(rules@), opt_text(*cwd), Some(launch_title(preset@, name@))) {
            r matches Ok(args) && texts(args@) == launch_flags(preset@, name@)
        } else {
            r matches Err(m) && m@ == "your token's filter would hide the launched session"@
        },
{
    let title = match &preset.title {
        Some(t) => t.clone(),
        None => name.to_owned(),
    };
    let shown = Some(title.clone());
    if !filter_allows(rules, cwd, &shown) {
        return Err("your token's filter would hide the launched session".to_owned());
    }
    let mut out: Vec<String> = Vec::new();
    assert(texts(out@) =~= Seq::<Seq<char>>::empty());
    push_owned(&mut out, "--detached".to_owned());
    push_owned(&mut out, "--launched".to_owned());
    push_owned(&mut out, name.to_owned());
    push_owned(&mut out, "--title".to_owned());
    push_owned(&mut out, title);
    if preset.readonly {
        push_owned(&mut out, "--readonly".to_owned());
    }
    if let Some(lines) = preset.scrollback {
        push_owned(&mut out, "--scrollback".to_owned());
        push_owned(&mut out, decimal_string(lines as u64));
    }
    if let Some(size) = &preset.size {
        push_owned(&mut out, "--initial-size".to_owned());
        push_owned(&mut out, size.clone());
    }
    push_owned(&mut out, "--".to_owned());
    let ghost flags = texts(out@);
    let ghost argv = texts(preset.argv@);
    let mut i: usize = 0;
    assert(flags + argv.take(0) =~= flags);
    while i < preset.argv.len()
        invariant
            i <= preset.argv@.len() == argv.len(),
            argv == texts(preset.argv@),
            texts(out@) == flags + argv.take(i as int),
        decreases preset.argv@.len() - i,
    {
        push_owned(&mut out, preset.argv[i].clone());
        assert(argv[i as int] == preset.argv@[i as int]@);
        assert(texts(out@) =~= flags + argv.take(i + 1));
        i += 1;
    }
    assert(argv.take(i as int) =~= argv);
    assert(texts(out@) =~= launch_flags(preset@, name@));
    Ok(out)
}

/// What a launch printed: the session's socket name, or what went wrong.
pub open spec fn launch_outcome(success: bool, stdout: Seq<u8>, stderr: Seq<u8>) -> Result<
    Seq<char>,
    Seq<char>,
> {
    let socket = trimmed_start(trimmed_end(lossy_text(stdout)));
    if !success {
        Err(
            "g2mirror --detached failed: "@ + trimmed_start(trimmed_end(lossy_text(stderr))),
        )
    } else if !valid_socket_text(socket) {
        Err("g2mirror --detached printed an unexpected socket name "@ + debug_text(socket))
    } else {
        Ok(socket)
    }
}

/// What a launch printed: the session's socket name, or what went wrong.
pub fn launched_socket(success: bool, stdout: &[u8], stderr: &[u8]) -> (r: Result<String, String>)
    ensures
        match launch_outcome(success, stdout@, stderr@) {
            Ok(socket) => r matches Ok(s) && s@ == socket,
            Err(message) => r matches Err(m) && m@ == message,
        },
{
    if !success {
        let mut message = "g2mirror --detached failed: ".to_owned();
        message.append(trim(lossy_string(stderr).as_str()).as_str());
        return Err(message);
    }
    let socket = trim(lossy_string(stdout).as_str());
    if !is_valid_socket_name(socket.as_str()) {
        let mut message = "g2mirror --detached printed an unexpected socket name ".to_owned();
        message.append(debug_string(socket.as_str()).as_str());
        return Err(message);
    }
    Ok(socket)
}

/// What a launch is answered with.
pub fn launch_reply(outcome: Result<String, String>) -> (r: ServerToDevice)
    ensures
        r@ == match outcome {
            Ok(socket) => ServerMsg::Launched { socket: socket@ },
            Err(message) => ServerMsg::Error { message: "launch failed: "@ + message@ },
        },
{
    match outcome {
        Ok(socket) => ServerToDevice::Launched { socket },
        Err(message) => {
            let mut text = "launch failed: ".to_owned();
            text.append(message.as_str());
            ServerToDevice::Error { message: text }
        },
    }
}

/// What adding a token asks for.
pub struct AddToken {
    pub name: String,
    pub writable: bool,
    pub launch: LaunchGrant,
}

pub ghost struct AddView {
    pub name: Option<Seq<char>>,
    pub writable: bool,
    pub launch_all: bool,
    pub presets: Seq<Seq<char>>,
}

/// What the arguments from `i` on ask for, on top of `so_far`.
pub open spec fn add_args(args: Seq<Seq<char>>, i: nat, so_far: AddView) -> Result<
    AddView,
    Seq<char>,
>
    decreases args.len() - i,
{
    if i >= args.len() {
        Ok(so_far)
    } else {
        let arg = args[i as int];
        if arg == "--writable"@ {
            add_args(args, i + 1, AddView { writable: true, ..so_far })
        } else if arg == "--launch-all"@ {
            add_args(args, i + 1, AddView { launch_all: true, ..so_far })
        } else if arg == "--launch"@ {
            if i + 1 < args.len() {
                add_args(
                    args,
                    i + 2,
                    AddView { presets: so_far.presets.push(args[i as int + 1]), ..so_far },
                )
            } else {
                Err("--launch requires a preset name"@)
            }
        } else if !(arg.len() > 0 && arg[0] == '-') && so_far.name is None {
            add_args(args, i + 1, AddView { name: Some(arg), ..so_far })
        } else {
            Err("unexpected argument: "@ + arg)
        }
    }
}

/// The grant that arguments ask for.
pub open spec fn asked_grant(a: AddView) -> crate::config::GrantView {
    if a.launch_all {
        crate::config::GrantView::Flag(true)
    } else {
        crate::config::GrantView::Named(a.presets)
    }
}

/// What is wrong with what the arguments ask for, whatever the config says.
pub open spec fn add_fault(a: AddView) -> Option<Seq<char>> {
    match a.name {
        None => Some(
            "usage: g2mirror-server --add-token <name> [--writable] [--launch <preset>]... [--launch-all]"@,
        ),
        Some(name) => if name == "host"@ {
            Some("\"host\" is reserved (it stands for the host terminal in size_precedence)"@)
        } else if !asked_grant(a).is_none() && !a.writable {
            Some(
                "a launch grant requires --writable (a read-only token cannot type into the shells it starts)"@,
            )
        } else {
            None
        },
    }
}

/// What adding a token comes to.
pub open spec fn add_request(args: Seq<Seq<char>>) -> Result<AddView, Seq<char>> {
    let start = AddView { name: None, writable: false, launch_all: false, presets: Seq::empty() };
    match add_args(args, 0, start) {
        Err(message) => Err(message),
        Ok(a) => match add_fault(a) {
            Some(message) => Err(message),
            None => Ok(a),
        },
    }
}

/// The arguments of `--add-token`.
pub fn parse_add_token(args: &Vec<String>) -> (r: Result<AddToken, String>)
    ensures
        match add_request(texts(args@)) {
            Ok(a) => r matches Ok(t) && Some(t.name@) == a.name && t.writable == a.writable
                && t.launch@ == asked_grant(a),
            Err(message) => r matches Err(m) && m@ == message,
        },
{
    let ghost views = texts(args@);
    let ghost start = AddView {
        name: None,
        writable: false,
        launch_all: false,
        presets: Seq::empty(),
    };
    let ghost whole = add_args(views, 0, start);
    let mut name: Option<String> = None;
    let mut writable = false;
    let mut launch_all = false;
    let mut presets: Vec<String> = Vec::new();
    let mut i: usize = 0;
    assert(texts(presets@) =~= Seq::<Seq<char>>::empty());
    while i < args.len()
        invariant
            i <= args@.len() == views.len(),
            views == texts(args@),
            whole == add_args(views, 0, start),
            start == (AddView {
                name: None,
                writable: false,
                launch_all: false,
                presets: Seq::empty(),
            }),
            add_args(
                views,
                i as nat,
                AddView {
                    name: opt_text(name),
                    writable,
                    launch_all,
                    presets: texts(presets@),
                },
            ) == whole,
        decreases args@.len() - i,
    {
        let arg = &args[i];
        assert(views[i as int] == arg@);
        let chars = chars_of(arg.as_str());
        if text_eq(arg.as_str(), "--writable") {
            writable = true;
            i += 1;
        } else if text_eq(arg.as_str(), "--launch-all") {
            launch_all = true;
            i += 1;
        } else if text_eq(arg.as_str(), "--launch") {
            if i + 1 < args.len() {
                assert(views[i + 1] == args@[i + 1]@);
                push_owned(&mut presets, args[i + 1].clone());
                i += 2;
            } else {
                return Err("--launch requires a preset name".to_owned());
            }
        } else if !(chars.len() > 0 && chars[0] == '-') && name.is_none() {
            name = Some(arg.clone());
            i += 1;
        } else {
            let mut message = "unexpected argument: ".to_owned();
            message.append(arg.as_str());
            return Err(message);
        }
    }
    let launch = if launch_all {
        LaunchGrant::Flag(true)
    } else {
        LaunchGrant::Named(presets)
    };
    match name {
        None => Err(
            "usage: g2mirror-server --add-token <name> [--writable] [--launch <preset>]... [--launch-all]".to_owned(),
        ),
        Some(name) => {
            if text_eq(name.as_str(), "host") {
                Err(
                    "\"host\" is reserved (it stands for the host terminal in size_precedence)".to_owned(),
                )
            } else if !launch.is_none() && !writable {
                Err(
                    "a launch grant requires --writable (a read-only token cannot type into the shells it starts)".to_owned(),
                )
            } else {
                Ok(AddToken { name, writable, launch })
            }
        },
    }
}

/// Whether some token has this name.
pub open spec fn name_taken(tokens: Seq<TokenView>, name: Seq<char>) -> bool {
    exists|i: int| 0 <= i < tokens.len() && (#[trigger] tokens[i]).name == name
}

/// The first name, from index `i` on, of no preset.
pub open spec fn missing_preset(c: ConfigView, names: Seq<Seq<char>>, i: int) -> Option<Seq<char>>
    decreases names.len() - i,
{
    if i >= names.len() {
        None
    } else if find_preset(c.launch, names[i], 0) is None {
        Some(names[i])
    } else {
        missing_preset(c, names, i + 1)
    }
}

/// Why a token cannot be added to a config, if it cannot.
pub open spec fn clash(c: ConfigView, name: Seq<char>, grant: crate::config::GrantView) -> Option<
    Seq<char>,
> {
    if name_taken(c.tokens(), name) {
        Some("a token named \""@ + name + "\" already exists"@)
    } else {
        match grant {
            crate::config::GrantView::Named(names) => match missing_preset(c, names, 0) {
                Some(preset) => Some(
                    "no launch preset named "@ + debug_text(preset) + " in the config"@,
                ),
                None => None,
            },
            crate::config::GrantView::Flag(_) => None,
        }
    }
}

/// Checks a token that is to be added against the config.
pub fn check_add_token(config: &Config, token: &AddToken) -> (r: Result<(), String>)
    ensures
        match clash(config@, token.name@, token.launch@) {
            Some(message) => r matches Err(m) && m@ == message,
            None => r is Ok,
        },
{
    let tokens = config.tokens();
    let ghost views = config@.tokens();
    let mut i: usize = 0;
    while i < tokens.len()
        invariant
            i <= tokens@.len() == views.len(),
            views == token_views(tokens@),
            views == config@.tokens(),
            forall|k: int| 0 <= k < i ==> (#[trigger] views[k]).name != token.name@,
        decreases tokens@.len() - i,
    {
        assert(views[i as int] == tokens@[i as int]@);
        if text_eq(tokens[i].name.as_str(), token.name.as_str()) {
            let mut message = "a token named \"".to_owned();
            message.append(token.name.as_str());
            message.append("\" already exists");
            return Err(message);
        }
        i += 1;
    }
    if let LaunchGrant::Named(names) = &token.launch {
        let ghost all = texts(names@);
        let mut k: usize = 0;
        while k < names.len()
            invariant
                k <= names@.len() == all.len(),
                all == texts(names@),
                token.launch@ == crate::config::GrantView::Named(all),
                !name_taken(config@.tokens(), token.name@),
                missing_preset(config@, all, k as int) == missing_preset(config@, all, 0),
            decreases names@.len() - k,
        {
            assert(all[k as int] == names@[k as int]@);
            if config.preset(names[k].as_str()).is_none() {
                let mut message = "no launch preset named ".to_owned();
                message.append(debug_string(names[k].as_str()).as_str());
                message.append(" in the config");
                return Err(message);
            }
            k += 1;
        }
    }
    Ok(())
}

/// The token that is added: read-only unless asked otherwise.
pub fn added_token(token: AddToken, hash: String) -> (r: TokenConfig)
    ensures
        r.name@ == token.name@,
        r.token_hash@ == hash@,
        r.readonly == !token.writable,
        r.filter@.len() == 0,
        r.launch@ == token.launch@,
{
    TokenConfig {
        name: token.name,
        token_hash: hash,
        readonly: !token.writable,
        filter: Vec::new(),
        launch: token.launch,
    }
}

/// Which compiled filter a token's connections use: that of the last token with
/// its name.
pub open spec fn filter_index(tokens: Seq<TokenView>, name: Seq<char>) -> Option<int>
    decreases tokens.len(),
{
    if tokens.len() == 0 {
        None
    } else if tokens.last().name == name {
        Some(tokens.len() - 1)
    } else {
        filter_index(tokens.drop_last(), name)
    }
}

/// Which of the tokens' compiled filters a token's connections use.
pub fn filter_for(tokens: &Vec<TokenConfig>, name: &str) -> (r: Option<usize>)
    ensures
        match filter_index(token_views(tokens@), name@) {
            Some(i) => r matches Some(k) && k == i && k < tokens@.len(),
            None => r is None,
        },
{
    let ghost views = token_views(tokens@);
    let mut end: usize = tokens.len();
    assert(views.take(end as int) =~= views);
    while end > 0
        invariant
            end <= tokens@.len() == views.len(),
            views == token_views(tokens@),
            filter_index(views.take(end as int), name@) == filter_index(views, name@),
        decreases end,
    {
        proof {
            assert(views.take(end as int).drop_last() =~= views.take(end - 1));
            assert(views.take(end as int).last() == tokens@[end - 1]@);
        }
        if text_eq(tokens[end - 1].name.as_str(), name) {
            return Some(end - 1);
        }
        end -= 1;
    }
    None
}

/// A read-only token never gets input through: it is refused, or is no input.
pub proof fn readonly_tokens_forward_no_input(
    text: Seq<char>,
    connected: bool,
    c: ConfigView,
    token: TokenView,
    rules: Seq<crate::config::RuleView>,
    t: TerminalsView,
)
    requires
        token.readonly,
        json_parsed(text) matches Ok(msg) && msg.text_field("type"@) == Some("input"@),
    ensures
        request(text, connected, c, token, rules, t) == refused("server is read-only"@),
{
    reveal_strlit("input");
    reveal_strlit("list");
    reveal_strlit("connect");
    reveal_strlit("launch");
    reveal_strlit("disconnect");
    assert("input"@.len() == 5);
    assert("list"@.len() == 4);
    assert("connect"@.len() == 7);
    assert("launch"@.len() == 6);
    assert("disconnect"@.len() == 10);
}

/// Filters govern everything: a hidden terminal is neither listed, nor
/// connected to, nor heard of; and whoever is attached to one that stops
/// matching is disconnected.
pub proof fn hidden_terminals_stay_hidden(
    text: Seq<char>,
    connected: bool,
    c: ConfigView,
    token: TokenView,
    rules: Seq<crate::config::RuleView>,
    t: TerminalsView,
    live: Seq<Seq<char>>,
    socket: Seq<char>,
    event: ServerMsg,
)
    requires
        !visible(rules, t, socket),
    ensures
        forall|i: int|
            0 <= i < listed(live, t, rules).len() ==> (#[trigger] listed(live, t, rules)[i]).socket
                != socket,
        request(text, connected, c, token, rules, t) matches RequestView::Connect {
            socket: name,
            ..
        } ==> name != socket,
        event_socket(event) == Some(socket) ==> delivery(event, rules, t, None) == Delivery::Nothing
            && delivery(event, rules, t, Some(socket)) == Delivery::Revoked,
    decreases live.len(),
{
    if live.len() > 0 {
        hidden_terminals_stay_hidden(
            text,
            connected,
            c,
            token,
            rules,
            t,
            live.drop_last(),
            socket,
            event,
        );
    }
}

/// Every session that is live and visible is listed, in the order found.
pub proof fn visible_terminals_are_listed(
    live: Seq<Seq<char>>,
    t: TerminalsView,
    rules: Seq<crate::config::RuleView>,
    k: int,
)
    requires
        0 <= k < live.len(),
        visible(rules, t, live[k]),
    ensures
        listed(live, t, rules).contains(session_info(t, live[k])),
    decreases live.len(),
{
    let all = listed(live, t, rules);
    if k == live.len() - 1 {
        assert(all.last() == session_info(t, live[k]));
    } else {
        let rest = live.drop_last();
        assert(rest[k] == live[k]);
        visible_terminals_are_listed(rest, t, rules, k);
        let before = listed(rest, t, rules);
        let j = choose|j: int| 0 <= j < before.len() && before[j] == session_info(t, live[k]);
        assert(all[j] == session_info(t, live[k]));
    }
}

/// Only presets of the config can be launched, by tokens that are writable and
/// granted them.
pub proof fn launches_are_granted(
    c: ConfigView,
    token: TokenView,
    preset: Seq<char>,
    cwd: Option<Seq<char>>,
)
    requires
        launch_choice(c, token, preset, cwd) is Ok,
    ensures
        !token.readonly,
        token.launch.allows(preset),
        find_preset(c.launch, preset, 0) is Some,
        cwd is Some ==> c.launch[find_preset(c.launch, preset, 0)->0].preset.allow_cwd,
{
}

/// A token that was added can be authenticated with, read-only unless it was
/// added writable.
pub proof fn added_tokens_authenticate(tokens: Seq<TokenView>, added: TokenView, given: Seq<char>)
    requires
        added.token_hash == crate::token::token_hash(given),
        find_token(tokens, given, 0) is None,
    ensures
        admission(tokens.push(added), "init"@, PROTOCOL_VERSION, given) == Ok::<int, Seq<char>>(
            tokens.len() as int,
        ),
{
    crate::token::stored_hash_accepts_token(given);
    find_token_push(tokens, added, given, 0);
}

proof fn find_token_push(tokens: Seq<TokenView>, added: TokenView, given: Seq<char>, from: int)
    requires
        is_token(given, added.token_hash),
        find_token(tokens, given, from) is None,
        0 <= from <= tokens.len(),
    ensures
        find_token(tokens.push(added), given, from) == Some(tokens.len() as int),
    decreases tokens.len() - from,
{
    if from < tokens.len() {
        assert(tokens.push(added)[from] == tokens[from]);
        find_token_push(tokens, added, given, from + 1);
    } else {
        assert(tokens.push(added)[from] == added);
        assert(find_token(tokens.push(added), given, from) == Some(from));
    }
}

/// Where the flags of a launch stand.
proof fn launch_positions(p: PresetView, name: Seq<char>, r: int, l: int, z: int)
    requires
        r == if p.readonly {
            1int
        } else {
            0
        },
        l == if p.scrollback is Some {
            2int
        } else {
            0
        },
        z == if p.size is Some {
            2int
        } else {
            0
        },
    ensures
        ({
            let flags = launch_flags(p, name);
            &&& flags.len() == 6 + r + l + z + p.argv.len()
            &&& flags[0] == "--detached"@
            &&& flags[1] == "--launched"@
            &&& flags[2] == name
            &&& flags[3] == "--title"@
            &&& flags[4] == launch_title(p, name)
            &&& p.readonly ==> flags[5] == "--readonly"@
            &&& p.scrollback matches Some(n) ==> flags[5 + r] == "--scrollback"@ && flags[6 + r]
                == decimal(n as nat)
            &&& p.size matches Some(size) ==> flags[5 + r + l] == "--initial-size"@ && flags[6 + r
                + l] == size
            &&& flags[5 + r + l + z] == "--"@
        }),
{
}

/// The wrapper understands a launch as it was meant: parsing the arguments
/// gives the preset's options, detached, with the preset's command behind.
pub proof fn launches_are_understood(p: PresetView, name: Seq<char>)
    requires
        p.argv.len() > 0,
        p.size matches Some(size) ==> crate::wrap::size_of(size) is Some,
    ensures
        wrap_opts(as_args(launch_flags(p, name)), 0, no_flags()) == (Ok::<
            WrapView,
            Option<Seq<char>>,
        >(
            WrapView {
                title: Some(launch_title(p, name)),
                readonly: p.readonly,
                scrollback: match p.scrollback {
                    Some(n) => n as nat,
                    None => no_flags().scrollback,
                },
                headless: false,
                detached: true,
                initial_size: match p.size {
                    Some(size) => crate::wrap::size_of(size)->0,
                    None => no_flags().initial_size,
                },
                launched: Some(name),
                program: (launch_flags(p, name).len() - p.argv.len()) as nat,
            },
        )),
{
    let flags = launch_flags(p, name);
    let args = as_args(flags);
    let r: nat = if p.readonly {
        1
    } else {
        0
    };
    let l: nat = if p.scrollback is Some {
        2
    } else {
        0
    };
    let z: nat = if p.size is Some {
        2
    } else {
        0
    };
    launch_positions(p, name, r as int, l as int, z as int);
    assert forall|i: int| 0 <= i < flags.len() implies is_flag(#[trigger] args[i], flags[i]) by {}
    let o0 = no_flags();
    step_detached(args, 0, o0);
    let o1 = WrapView { detached: true, ..o0 };
    step_launched(args, 1, o1);
    let o2 = WrapView { launched: Some(name), ..o1 };
    step_title(args, 3, o2);
    let o3 = WrapView { title: Some(launch_title(p, name)), ..o2 };
    assert(wrap_opts(args, 0, o0) == wrap_opts(args, 5, o3));
    if p.readonly {
        step_readonly(args, 5, o3);
    }
    let o4 = WrapView { readonly: p.readonly, ..o3 };
    assert(wrap_opts(args, 0, o0) == wrap_opts(args, 5 + r, o4));
    let lines: nat = match p.scrollback {
        Some(n) => n as nat,
        None => no_flags().scrollback,
    };
    if p.scrollback is Some {
        step_scrollback(args, 5 + r, o4, lines);
    }
    let o5 = WrapView { scrollback: lines, ..o4 };
    assert(wrap_opts(args, 0, o0) == wrap_opts(args, 5 + r + l, o5));
    let size: (u16, u16) = match p.size {
        Some(text) => crate::wrap::size_of(text)->0,
        None => no_flags().initial_size,
    };
    if p.size is Some {
        step_size(args, 5 + r + l, o5, size);
    }
    let o6 = WrapView { initial_size: size, ..o5 };
    assert(wrap_opts(args, 0, o0) == wrap_opts(args, 5 + r + l + z, o6));
    step_end(args, 5 + r + l + z, o6);
}

/// Whether a session's viewers and host rank as a config says, the viewers by
/// these token names.
pub open spec fn ranked_by(s: SessionView, c: ConfigView, names: Seq<Seq<char>>) -> bool {
    &&& s.viewers.len() == names.len()
    &&& forall|i: int|
        0 <= i < names.len() ==> (#[trigger] s.viewers[i]).role == Role::Viewer
            && s.viewers[i].size_rank == c.size_ranks(names[i]).0
    &&& s.host_rank == c.size_ranks("host"@).1
}

/// The app is sized to the earliest listed party that is currently viewing; the
/// host terminal always counts as present.
pub proof fn size_precedence_is_followed(s: SessionView, c: ConfigView, names: Seq<Seq<char>>)
    requires
        !s.headless,
        ranked_by(s, c, names),
    ensures
        match s.target() {
            Some((rows, cols)) => {
                ||| exists|i: int|
                    #![trigger s.viewers[i]]
                    0 <= i < names.len() && is_viewing(s.viewers[i]) && (rows, cols) == (
                        s.viewers[i].height,
                        s.viewers[i].width,
                    ) && c.size_ranks(names[i]).0 <= c.size_ranks(names[i]).1 && forall|j: int|
                        0 <= j < names.len() && is_viewing(#[trigger] s.viewers[j])
                            ==> c.size_ranks(names[i]).0 <= c.size_ranks(names[j]).0
                ||| (rows, cols) == (s.mirror.host_rows, s.mirror.host_cols) && forall|j: int|
                    0 <= j < names.len() && is_viewing(#[trigger] s.viewers[j]) ==> c.size_ranks(
                        names[j],
                    ).1 < c.size_ranks(names[j]).0
            },
            None => forall|j: int| 0 <= j < names.len() ==> !is_viewing(#[trigger] s.viewers[j]),
        },
{
    best_client_is_outranked_by_none(s);
    if let Some(b) = s.best() {
        let i = b as int;
        assert(is_viewing(s.viewers[i]));
        assert forall|j: int| 0 <= j < names.len() && is_viewing(
            #[trigger] s.viewers[j],
        ) implies c.size_ranks(names[i]).0 <= c.size_ranks(names[j]).0 by {
            assert(!outranks(s.viewers[j], s.viewers[i], s.host_rank));
        }
    }
}

} // verus!
