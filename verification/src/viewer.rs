//! The terminal client of the server, for humans without smart glasses (e.g. a
//! coworker following a shared project's terminals): it shows the list of live
//! terminals, and mirrors the selected one into the local terminal: recent
//! scrollback history is printed into the local terminal's own scrollback,
//! followed by a live view of the current viewport. Ctrl+D detaches back to
//! the list; all other keys are forwarded to the wrapped app unless the token
//! or the session is read-only. Width mismatches are tolerated in both
//! directions: the stream arrives at the best-ranked viewer's size and is
//! cropped bottom-left to fit.

use crate::attach::{align_left, handy, handy_time, left_aligned};
use crate::attached::{push_signed, signed, title_bytes, title_sequence};
use crate::json::{
    bool_field, documents, elements_field, get_field, has_field, integer_field, json_of,
    json_parsed, parse_json, text_field, unsigned_field, Json,
};
use crate::keys::{keys_of, move_down, move_up, one_down, one_up, parse_list_keys, ListKey};
use crate::live::{
    refresh_bytes, shown_views, stream_dims, stream_view, Feed, FeedStep, FeedView, LocalScreen,
    ScreenView, ShownLine, ShownView, StepView, ENTER_ALT, LEAVE_ALT, MAX_MESSAGE,
};
use crate::protocol::{
    base64_bytes, base64_text, decode_terminal_bytes, encode_terminal_bytes, InfoView, SessionInfo,
};
use crate::render::SGR_RESET;
use crate::session_model::REFRESH_KEY;
use crate::terminal::positive;
use crate::text::{
    chars_of, decimal, decimal_string, has_prefix, opt_text, push_bytes, push_text, starts_with,
    text_eq, text_of,
};
use vstd::prelude::*;
use vstd::string::*;
use vstd::utf8::*;
use vstd::view::View as _;

verus! {

pub const DEFAULT_PORT: u16 = 8737;

/// How often the session list is refreshed while it is on screen, in
/// milliseconds.
pub const LIST_REFRESH_MS: u64 = 2_000;

/// Ctrl+D: detach.
pub const DETACH_KEY: u8 = 0x04;

/// Where `c` last occurs in `s`, if it does.
pub open spec fn last_of_char(s: Seq<char>, c: char) -> Option<int>
    decreases s.len(),
{
    if s.len() == 0 {
        None
    } else if s.last() == c {
        Some(s.len() - 1)
    } else {
        last_of_char(s.drop_last(), c)
    }
}

fn find_last(s: &Vec<char>, from: usize, c: char) -> (r: Option<usize>)
    requires
        from <= s@.len(),
    ensures
        match last_of_char(s@.skip(from as int), c) {
            Some(i) => r matches Some(k) && k == from + i && k < s@.len(),
            None => r is None,
        },
        r matches Some(k) ==> from <= k,
{
    let ghost rest = s@.skip(from as int);
    let mut end: usize = s.len();
    assert(rest.take(end - from) =~= rest);
    while end > from
        invariant
            from <= end <= s@.len(),
            rest == s@.skip(from as int),
            last_of_char(rest.take(end - from), c) == last_of_char(rest, c),
        decreases end,
    {
        proof {
            assert(rest.take(end - from).drop_last() =~= rest.take(end - from - 1));
            assert(rest.take(end - from).last() == s@[end - 1]);
        }
        if s[end - 1] == c {
            return Some(end - 1);
        }
        end -= 1;
    }
    None
}

/// What a connection string gives: the token and a websocket URL, or what is
/// wrong with it.
pub open spec fn connection(s: Seq<char>) -> Result<(Seq<char>, Seq<char>), Seq<char>> {
    let tls = has_prefix(s, "g2mirrors://"@);
    if !tls && !has_prefix(s, "g2mirror://"@) {
        Err("connection string must start with g2mirror:// or g2mirrors://"@)
    } else {
        let rest = if tls {
            s.skip(12)
        } else {
            s.skip(11)
        };
        match last_of_char(rest, '@') {
            None => Err("connection string must contain <token>@<host>"@),
            Some(at) => {
                let token = rest.take(at);
                let host = rest.skip(at + 1);
                if token.len() == 0 {
                    Err("connection string has an empty token"@)
                } else if host.len() == 0 {
                    Err("connection string has an empty host"@)
                } else {
                    let scheme = if tls {
                        "wss://"@
                    } else {
                        "ws://"@
                    };
                    let port = if tls {
                        ":443"@
                    } else {
                        ":"@ + decimal(DEFAULT_PORT as nat)
                    };
                    if has_port(host) {
                        Ok((token, scheme + host))
                    } else {
                        Ok((token, scheme + host + port))
                    }
                }
            },
        }
    }
}

/// Whether a host names its port: what follows its last colon is no part of a
/// bracketed address.
pub open spec fn has_port(host: Seq<char>) -> bool {
    match last_of_char(host, ':') {
        Some(i) => !host.skip(i).contains(']'),
        None => false,
    }
}

/// Split a `g2mirror[s]://<token>@<host>[:<port>]` connection string into
/// the token and a dialable websocket URL (`g2mirrors` means TLS, for
/// endpoints like a tailscale funnel hostname).
pub fn parse_connection_string(s: &str) -> (r: Result<(String, String), String>)
    ensures
        match connection(s@) {
            Ok((token, url)) => r matches Ok(p) && p.0@ == token && p.1@ == url,
            Err(message) => r matches Err(m) && m@ == message,
        },
{
    let chars = chars_of(s);
    let len: usize = chars.len();
    proof {
        reveal_strlit("g2mirrors://");
        reveal_strlit("g2mirror://");
    }
    let tls = starts_with(&chars, "g2mirrors://");
    if !tls && !starts_with(&chars, "g2mirror://") {
        return Err("connection string must start with g2mirror:// or g2mirrors://".to_owned());
    }
    let from: usize = if tls {
        12
    } else {
        11
    };
    let ghost rest = s@.skip(from as int);
    let at: usize = match find_last(&chars, from, '@') {
        None => {
            return Err("connection string must contain <token>@<host>".to_owned());
        },
        Some(at) => at,
    };
    let ghost host = rest.skip(at - from + 1);
    proof {
        assert(rest.take(at - from) =~= chars@.subrange(from as int, at as int));
        assert(host =~= chars@.subrange(at + 1, len as int));
        assert(host =~= chars@.skip(at + 1));
    }
    if at == from {
        return Err("connection string has an empty token".to_owned());
    }
    if at + 1 == len {
        return Err("connection string has an empty host".to_owned());
    }
    let token = text_of(&chars, from, at);
    let mut url = if tls {
        "wss://".to_owned()
    } else {
        "ws://".to_owned()
    };
    url.append(text_of(&chars, at + 1, len).as_str());
    // Append the default port unless one is present ("[::1]" has colons but
    // its last colon-suffix still contains the closing bracket).
    let port_given = match find_last(&chars, at + 1, ':') {
        None => false,
        Some(colon) => {
            let mut bracket = false;
            let mut i: usize = colon;
            let ghost suffix = host.skip(colon - at - 1);
            while i < len
                invariant
                    colon <= i <= len == chars@.len(),
                    at < colon,
                    host == chars@.skip(at + 1),
                    suffix == host.skip(colon - at - 1),
                    bracket == exists|k: int| 0 <= k < i - colon && #[trigger] suffix[k] == ']',
                decreases len - i,
            {
                assert(suffix[i - colon] == chars@[i as int]);
                if chars[i] == ']' {
                    bracket = true;
                }
                i += 1;
            }
            assert(bracket == suffix.contains(']'));
            !bracket
        },
    };
    if !port_given {
        if tls {
            url.append(":443");
        } else {
            let mut port = ":".to_owned();
            port.append(decimal_string(DEFAULT_PORT as u64).as_str());
            url.append(port.as_str());
        }
    }
    Ok((token, url))
}

/// What the handshake's reply says: whether the token is read-only, or why the
/// connection was refused.
pub open spec fn handshake_outcome(text: Seq<char>) -> Result<bool, Seq<char>> {
    match json_parsed(text) {
        Err(e) => Err("bad handshake reply: "@ + e),
        Ok(reply) => if reply.text_field("type"@) == Some("init"@) {
            Ok(
                match reply.bool_field("readonly"@) {
                    Some(b) => b,
                    None => true,
                },
            )
        } else {
            Err(
                "server rejected the connection: "@ + match reply.text_field("message"@) {
                    Some(m) => m,
                    None => "unknown error"@,
                },
            )
        },
    }
}

/// Whether a text field is exactly this text.
fn field_is(field: &Option<String>, text: &str) -> (r: bool)
    ensures
        r == (opt_text(*field) == Some(text@)),
{
    match field {
        Some(t) => text_eq(t.as_str(), text),
        None => false,
    }
}

/// The server's reply to our init: whether the token is read-only, or why the
/// connection was refused.
pub fn handshake(text: &str) -> (r: Result<bool, String>)
    ensures
        match handshake_outcome(text@) {
            Ok(readonly) => r matches Ok(b) && b == readonly,
            Err(message) => r matches Err(m) && m@ == message,
        },
{
    match parse_json(text) {
        Err(e) => {
            let mut message = "bad handshake reply: ".to_owned();
            message.append(e.as_str());
            Err(message)
        },
        Ok(reply) => {
            if field_is(&text_field(&reply, "type"), "init") {
                match bool_field(&reply, "readonly") {
                    Some(b) => Ok(b),
                    None => Ok(true),
                }
            } else {
                let mut message = "server rejected the connection: ".to_owned();
                match text_field(&reply, "message") {
                    Some(m) => {
                        message.append(m.as_str());
                    },
                    None => {
                        message.append("unknown error");
                    },
                }
                Err(message)
            }
        },
    }
}

/// Messages of a viewer to the server.
pub enum ToServer {
    List,
    Connect { socket: String },
    View,
    History { before: u64 },
    Input { data: String },
    Unview,
    Disconnect,
}

pub ghost enum ViewerMsg {
    List,
    Connect { socket: Seq<char> },
    View,
    History { before: u64 },
    Input { data: Seq<char> },
    Unview,
    Disconnect,
}

impl vstd::view::View for ToServer {
    type V = ViewerMsg;

    open spec fn view(&self) -> ViewerMsg {
        match *self {
            ToServer::List => ViewerMsg::List,
            ToServer::Connect { socket } => ViewerMsg::Connect { socket: socket@ },
            ToServer::View => ViewerMsg::View,
            ToServer::History { before } => ViewerMsg::History { before },
            ToServer::Input { data } => ViewerMsg::Input { data: data@ },
            ToServer::Unview => ViewerMsg::Unview,
            ToServer::Disconnect => ViewerMsg::Disconnect,
        }
    }
}

/// What the viewer is to do.
pub enum Step {
    /// Write bytes to the terminal.
    Write(Vec<u8>),
    /// Send a message to the server.
    Send(ToServer),
}

pub ghost enum StepAct {
    Write(Seq<u8>),
    Send(ViewerMsg),
}

impl vstd::view::View for Step {
    type V = StepAct;

    open spec fn view(&self) -> StepAct {
        match *self {
            Step::Write(bytes) => StepAct::Write(bytes@),
            Step::Send(msg) => StepAct::Send(msg@),
        }
    }
}

pub open spec fn step_acts(steps: Seq<Step>) -> Seq<StepAct> {
    steps.map_values(|s: Step| s@)
}

/// What is written: nothing where there is nothing to write.
pub open spec fn written(bytes: Seq<u8>) -> Seq<StepAct> {
    if bytes.len() > 0 {
        seq![StepAct::Write(bytes)]
    } else {
        Seq::empty()
    }
}

pub open spec fn sent(msg: ViewerMsg) -> Seq<StepAct> {
    seq![StepAct::Send(msg)]
}

fn push_write(out: &mut Vec<Step>, bytes: Vec<u8>)
    ensures
        step_acts(final(out)@) == step_acts(old(out)@) + written(bytes@),
{
    if bytes.len() > 0 {
        out.push(Step::Write(bytes));
    }
    assert(step_acts(out@) =~= step_acts(old(out)@) + written(bytes@));
}

fn push_msg(out: &mut Vec<Step>, msg: ToServer)
    ensures
        step_acts(final(out)@) == step_acts(old(out)@) + sent(msg@),
{
    out.push(Step::Send(msg));
    assert(step_acts(out@) =~= step_acts(old(out)@) + sent(msg@));
}

/// What the viewer is doing, i.e. which screen the user is looking at and
/// which protocol messages are expected next.
pub enum Mode {
    /// The session list (alternate screen).
    List,
    /// Sent `connect`, waiting for the session's `connect` greeting.
    Connecting,
    /// Sent `view`: waiting for the snapshot, then for the history, then
    /// mirroring to the local terminal (main screen).
    Attached(Feed),
}

pub ghost enum ModeView {
    List,
    Connecting,
    Attached(FeedView),
}

impl Mode {
    pub open spec fn state(&self) -> ModeView {
        match *self {
            Mode::List => ModeView::List,
            Mode::Connecting => ModeView::Connecting,
            Mode::Attached(feed) => ModeView::Attached(feed.state()),
        }
    }

    pub open spec fn wf(&self) -> bool {
        match *self {
            Mode::Attached(feed) => feed.wf(),
            _ => true,
        }
    }
}

impl ModeView {
    /// Whether the alternate screen with the list is shown.
    pub open spec fn lists(self) -> bool {
        self is List || self is Connecting || self == ModeView::Attached(FeedView::Waiting)
    }

    pub open spec fn is_live(self) -> bool {
        self matches ModeView::Attached(feed) && feed is Live
    }

    pub open spec fn has_room(self) -> bool {
        self matches ModeView::Attached(feed) ==> feed.has_room()
    }
}

pub ghost struct AppView {
    pub addr: Seq<char>,
    pub rows: u16,
    pub cols: u16,
    pub init_rows: u16,
    pub init_cols: u16,
    pub mode: ModeView,
    pub sessions: Seq<InfoView>,
    pub selected: nat,
    pub status: Seq<char>,
    pub token_readonly: bool,
    pub session_readonly: bool,
    pub history_oldest: u64,
    pub quit: bool,
}

pub open spec fn info_views(sessions: Seq<SessionInfo>) -> Seq<InfoView> {
    sessions.map_values(|s: SessionInfo| s@)
}

/// "12s"/"5m"/"2h" since a unix-ms timestamp.
pub open spec fn ago_text(at: u64, now: u64) -> Seq<char> {
    let elapsed: int = if now >= at {
        now - at
    } else {
        0
    };
    handy((elapsed / 1000) as u64) + " ago"@
}

/// "12s"/"5m"/"2h" since a unix-ms timestamp.
pub fn ago(at: u64, now: u64) -> (r: String)
    ensures
        r@ == ago_text(at, now),
{
    let elapsed: u64 = if now >= at {
        now - at
    } else {
        0
    };
    let mut out = handy_time(elapsed / 1000);
    out.append(" ago");
    out
}

/// A session's entry in the list, cut to the terminal's width.
pub open spec fn entry_text(s: InfoView, selected: bool, cols: u16, now: u64) -> Seq<char> {
    let line = (if selected {
        "> "@
    } else {
        "  "@
    }) + left_aligned(decimal(s.pid as nat), 8) + " "@ + s.cwd_hint + "  "@ + (match s.title {
        Some(t) => t,
        None => Seq::empty(),
    }) + (match s.last_bell_at {
        Some(at) => "  [bell "@ + ago_text(at, now) + "]"@,
        None => Seq::empty(),
    });
    let cut = if line.len() > cols {
        line.take(cols as int)
    } else {
        line
    };
    if selected {
        "\x1b[7m"@ + cut + "\x1b[0m"@
    } else {
        cut
    }
}

/// The entries of the list, each followed by a line break.
pub open spec fn entries_text(
    sessions: Seq<InfoView>,
    selected: nat,
    cols: u16,
    now: u64,
) -> Seq<char>
    decreases sessions.len(),
{
    if sessions.len() == 0 {
        Seq::empty()
    } else {
        entries_text(sessions.drop_last(), selected, cols, now) + entry_text(
            sessions.last(),
            sessions.len() - 1 == selected,
            cols,
            now,
        ) + "\r\n"@
    }
}

/// The list screen's text.
pub open spec fn list_screen(a: AppView, now: u64) -> Seq<char> {
    "\x1b[H\x1b[2Jg2mirror-view \u{2014} "@ + a.addr + (if a.token_readonly {
        " (read-only)"@
    } else {
        Seq::empty()
    }) + "\r\n"@ + a.status + "\r\n\r\n"@ + (if a.sessions.len() == 0 {
        "  no live terminals\r\n"@
    } else {
        Seq::empty()
    }) + entries_text(a.sessions, a.selected, a.cols, now)
        + "\r\n  \u{2191}/\u{2193} select \u{b7} enter attach \u{b7} r refresh \u{b7} q quit \u{b7} ^D detaches a view"@
}

/// How a step of the stream is carried out.
pub open spec fn feed_acts(step: StepView) -> Seq<StepAct> {
    (match step.request {
        Some(before) => sent(ViewerMsg::History { before }),
        None => Seq::empty(),
    }) + written(step.output)
}

/// A history line as the server relays it.
pub open spec fn shown_of(line: Json) -> ShownView {
    ShownView {
        data: line.text_field("data"@),
        wrapped: match line.bool_field("wrapped"@) {
            Some(b) => b,
            None => false,
        },
    }
}

/// The low 16 bits of a number; zero where there is none.
pub open spec fn low16(n: Option<u64>) -> u16 {
    match n {
        Some(n) => (n % 65536) as u16,
        None => 0,
    }
}

/// The first session with this socket, from index `from` on.
pub open spec fn find_socket(sessions: Seq<InfoView>, socket: Seq<char>, from: int) -> Option<int>
    decreases sessions.len() - from,
{
    if from >= sessions.len() {
        None
    } else if sessions[from].socket == socket {
        Some(from)
    } else {
        find_socket(sessions, socket, from + 1)
    }
}

/// The session a server event is about, if it is listed.
pub open spec fn event_session(sessions: Seq<InfoView>, msg: Json) -> Option<int> {
    match msg.text_field("socket"@) {
        Some(socket) => find_socket(sessions, socket, 0),
        None => None,
    }
}

impl AppView {
    pub open spec fn screen(self) -> ScreenView {
        ScreenView {
            rows: self.rows,
            cols: self.cols,
            lead: LEAVE_ALT@,
            history_oldest: self.history_oldest,
        }
    }

    /// The list redrawn, where it is on screen.
    pub open spec fn redraw(self, now: u64) -> Seq<StepAct> {
        if self.mode.lists() {
            seq![StepAct::Write(encode_utf8(list_screen(self, now)))]
        } else {
            Seq::empty()
        }
    }

    /// The list redrawn, where it is what the user is looking at.
    pub open spec fn redraw_list(self, now: u64) -> Seq<StepAct> {
        if self.mode is List {
            self.redraw(now)
        } else {
            Seq::empty()
        }
    }

    /// The state back at the list.
    pub open spec fn listed(self) -> AppView {
        AppView { mode: ModeView::List, session_readonly: false, ..self }
    }

    /// What going back to the list does: a live view is ended under the
    /// cursor, the list shown and asked for.
    pub open spec fn back_acts(self, now: u64) -> Seq<StepAct> {
        (match self.mode {
            ModeView::Attached(FeedView::Live(m)) => written(
                m.cleanup_bytes() + encode_utf8(ENTER_ALT@),
            ),
            _ => Seq::empty(),
        }) + self.listed().redraw(now) + sent(ViewerMsg::List)
    }

    /// The state after a step of the stream; going live clears the status.
    pub open spec fn fed(self, feed: FeedView, step: StepView) -> AppView {
        AppView {
            mode: ModeView::Attached(feed),
            status: if step.went_live {
                Seq::empty()
            } else {
                self.status
            },
            ..self
        }
    }

    /// The dimensions a snapshot message gives the stream.
    pub open spec fn snapshot_view(self, msg: Json) -> crate::mirror::View {
        stream_view(
            low16(msg.unsigned_field("height"@)),
            low16(msg.unsigned_field("width"@)),
            self.init_rows,
            self.init_cols,
        )
    }

    /// What a message says of its base64 `data`, if it can be decoded.
    pub open spec fn data_of(msg: Json) -> Option<Seq<u8>> {
        match msg.text_field("data"@) {
            Some(data) => match base64_bytes(data) {
                Ok(bytes) => Some(bytes),
                Err(_) => None,
            },
            None => None,
        }
    }

    pub open spec fn history_next(msg: Json) -> u64 {
        match msg.unsigned_field("history_next"@) {
            Some(n) => n,
            None => 0,
        }
    }

    pub open spec fn history_lines(msg: Json) -> Seq<ShownView> {
        match msg.elements_field("lines"@) {
            Some(list) => list.map_values(|l: Json| shown_of(l)),
            None => Seq::empty(),
        }
    }

    /// The state after the session list changed.
    pub open spec fn with_sessions(self, sessions: Seq<InfoView>) -> AppView {
        AppView {
            sessions,
            selected: if self.selected < sessions.len() {
                self.selected
            } else if sessions.len() > 0 {
                (sessions.len() - 1) as nat
            } else {
                0
            },
            ..self
        }
    }

    /// The state after a listed terminal rang its bell.
    pub open spec fn belled(self, msg: Json) -> AppView {
        match event_session(self.sessions, msg) {
            Some(i) => AppView {
                sessions: self.sessions.update(
                    i,
                    InfoView {
                        last_bell_at: msg.unsigned_field("last_bell_at"@),
                        ..self.sessions[i]
                    },
                ),
                ..self
            },
            None => self,
        }
    }

    /// The state after a listed terminal's title changed.
    pub open spec fn retitled(self, msg: Json) -> AppView {
        match event_session(self.sessions, msg) {
            Some(i) => AppView {
                sessions: self.sessions.update(
                    i,
                    InfoView { title: msg.text_field("title"@), ..self.sessions[i] },
                ),
                ..self
            },
            None => self,
        }
    }

    /// The state after the attached session greeted us.
    pub open spec fn greeted(self, msg: Json) -> AppView {
        AppView {
            session_readonly: msg.bool_field("readonly"@) == Some(true),
            history_oldest: match msg.field("history"@) {
                Some(history) => match history.unsigned_field("oldest"@) {
                    Some(n) => n,
                    None => 0,
                },
                None => 0,
            },
            mode: ModeView::Attached(FeedView::Waiting),
            status: "attaching..."@,
            ..self
        }
    }

    /// The status after the wrapped app exited.
    pub open spec fn exit_text(msg: Json) -> Seq<char> {
        "session ended ("@ + (match msg.integer_field("status"@) {
            Some(n) => "exit status "@ + signed(n as int),
            None => "killed by a signal"@,
        }) + ")"@
    }

    /// The status after the session connection ended.
    pub open spec fn disconnect_text(self, msg: Json) -> Seq<char> {
        if has_prefix(self.status, "session ended"@) {
            self.status
        } else {
            "disconnected ("@ + (match msg.text_field("reason"@) {
                Some(reason) => reason,
                None => "unknown"@,
            }) + ")"@
        }
    }

    pub open spec fn error_text(msg: Json) -> Seq<char> {
        "error: "@ + match msg.text_field("message"@) {
            Some(m) => m,
            None => "unknown error"@,
        }
    }

    /// The state after a message of the server, and what it does. `sessions`
    /// is the list a `sessions` message carries.
    pub open spec fn on_message(self, msg: Json, sessions: Seq<InfoView>, now: u64) -> (
        AppView,
        Seq<StepAct>,
    ) {
        let none = Seq::<StepAct>::empty();
        match msg.text_field("type"@) {
            None => (self, none),
            Some(kind) => if kind == "sessions"@ {
                let next = self.with_sessions(sessions);
                (next, next.redraw_list(now))
            } else if kind == "bell"@ && msg.field("socket"@) is Some {
                let next = self.belled(msg);
                (next, next.redraw_list(now))
            } else if kind == "title"@ && msg.field("socket"@) is Some {
                let next = self.retitled(msg);
                (next, next.redraw_list(now))
            } else if kind == "title"@ {
                match msg.text_field("title"@) {
                    Some(title) => if self.mode.is_live() {
                        (self, written(title_bytes(title)))
                    } else {
                        (self, none)
                    },
                    None => (self, none),
                }
            } else if kind == "connect"@ {
                if self.mode is Connecting {
                    let next = self.greeted(msg);
                    (next, sent(ViewerMsg::View) + next.redraw(now))
                } else {
                    (self, none)
                }
            } else if kind == "snapshot"@ {
                match (Self::data_of(msg), self.mode) {
                    (Some(snapshot), ModeView::Attached(feed)) => {
                        let view = self.snapshot_view(msg);
                        let before = Self::history_next(msg);
                        let step = feed.snapshot_step(view, snapshot, before, self.screen());
                        (
                            self.fed(
                                feed.after_snapshot(view, snapshot, before, self.screen()),
                                step,
                            ),
                            feed_acts(step),
                        )
                    },
                    _ => (self, none),
                }
            } else if kind == "output"@ {
                match (Self::data_of(msg), self.mode) {
                    (Some(bytes), ModeView::Attached(feed)) => (
                        self.fed(feed.after_output(bytes), feed.output_step(bytes)),
                        feed_acts(feed.output_step(bytes)),
                    ),
                    _ => (self, none),
                }
            } else if kind == "history_lines"@ {
                match self.mode {
                    ModeView::Attached(feed) => {
                        let lines = Self::history_lines(msg);
                        let step = feed.history_step(self.screen(), lines);
                        (
                            self.fed(feed.after_history(self.screen(), lines), step),
                            feed_acts(step),
                        )
                    },
                    _ => (self, none),
                }
            } else if kind == "exit"@ {
                (AppView { status: Self::exit_text(msg), ..self }, none)
            } else if kind == "disconnected"@ {
                let next = AppView { status: self.disconnect_text(msg), ..self };
                (next.listed(), next.back_acts(now))
            } else if kind == "error"@ {
                if self.mode.is_live() {
                    (self, none)
                } else {
                    let next = AppView { status: Self::error_text(msg), ..self };
                    if self.mode is List {
                        (next, next.redraw(now))
                    } else {
                        (next.listed(), next.back_acts(now))
                    }
                }
            } else {
                (self, none)
            },
        }
    }
}

pub struct App {
    addr: String,
    rows: u16,
    cols: u16,
    /// The dimensions declared in our init, fixed for the connection.
    /// Wrappers older than the snapshot width/height fields size the
    /// stream to exactly these.
    init_rows: u16,
    init_cols: u16,
    mode: Mode,
    sessions: Vec<SessionInfo>,
    selected: usize,
    /// One-line notice shown in the list header (errors, detach reasons).
    status: String,
    token_readonly: bool,
    session_readonly: bool,
    /// Oldest fetchable history index of the attached session.
    history_oldest: u64,
    quit: bool,
}

impl vstd::view::View for App {
    type V = AppView;

    closed spec fn view(&self) -> AppView {
        AppView {
            addr: self.addr@,
            rows: self.rows,
            cols: self.cols,
            init_rows: self.init_rows,
            init_cols: self.init_cols,
            mode: self.mode.state(),
            sessions: info_views(self.sessions@),
            selected: self.selected as nat,
            status: self.status@,
            token_readonly: self.token_readonly,
            session_readonly: self.session_readonly,
            history_oldest: self.history_oldest,
            quit: self.quit,
        }
    }
}

fn push_feed_step(out: &mut Vec<Step>, step: &FeedStep)
    ensures
        step_acts(final(out)@) == step_acts(old(out)@) + feed_acts(step@),
{
    if let Some(before) = step.request {
        push_msg(out, ToServer::History { before });
    }
    let mut bytes: Vec<u8> = Vec::new();
    push_bytes(&mut bytes, step.output.as_slice());
    assert(bytes@ =~= step.output@);
    push_write(out, bytes);
    assert(step_acts(out@) =~= step_acts(old(out)@) + feed_acts(step@));
}

/// A session's entry in the list, cut to the terminal's width.
fn entry(s: &SessionInfo, selected: bool, cols: u16, now: u64) -> (r: String)
    ensures
        r@ == entry_text(s@, selected, cols, now),
{
    let mut line = if selected {
        "> ".to_owned()
    } else {
        "  ".to_owned()
    };
    line.append(align_left(decimal_string(s.pid as u64).as_str(), 8).as_str());
    line.append(" ");
    line.append(s.cwd_hint.as_str());
    line.append("  ");
    let ghost head = line@;
    if let Some(title) = &s.title {
        line.append(title.as_str());
    }
    let ghost titled = line@;
    assert(titled =~= head + match s@.title {
        Some(t) => t,
        None => Seq::empty(),
    });
    if let Some(at) = s.last_bell_at {
        let mut bell = "  [bell ".to_owned();
        bell.append(ago(at, now).as_str());
        bell.append("]");
        line.append(bell.as_str());
    }
    assert(line@ =~= titled + match s@.last_bell_at {
        Some(at) => "  [bell "@ + ago_text(at, now) + "]"@,
        None => Seq::empty(),
    });
    let chars = chars_of(line.as_str());
    let cut = if chars.len() > cols as usize {
        assert(chars@.subrange(0, cols as int) =~= line@.take(cols as int));
        text_of(&chars, 0, cols as usize)
    } else {
        line
    };
    if selected {
        let mut out = "\x1b[7m".to_owned();
        out.append(cut.as_str());
        out.append("\x1b[0m");
        out
    } else {
        cut
    }
}

/// History lines as the server relays them.
fn relayed_lines(msg: &serde_json::Value) -> (r: Vec<ShownLine>)
    ensures
        shown_views(r@) == AppView::history_lines(json_of(*msg)),
{
    let mut out: Vec<ShownLine> = Vec::new();
    match elements_field(msg, "lines") {
        Some(list) => {
            let ghost docs = documents(list@);
            let mut i: usize = 0;
            while i < list.len()
                invariant
                    i <= list@.len(),
                    docs == documents(list@),
                    out@.len() == i,
                    forall|k: int| 0 <= k < i ==> #[trigger] out@[k]@ == shown_of(docs[k]),
                decreases list@.len() - i,
            {
                let line = &list[i];
                assert(docs[i as int] == json_of(list@[i as int]));
                let wrapped = match bool_field(line, "wrapped") {
                    Some(b) => b,
                    None => false,
                };
                out.push(ShownLine { data: text_field(line, "data"), wrapped });
                i += 1;
            }
            assert(shown_views(out@) =~= AppView::history_lines(json_of(*msg)));
        },
        None => {
            assert(shown_views(out@) =~= Seq::<ShownView>::empty());
        },
    }
    out
}

/// What a message's base64 `data` stands for, if it can be decoded.
fn message_data(msg: &serde_json::Value) -> (r: Option<Vec<u8>>)
    ensures
        crate::text::opt_bytes(r) == AppView::data_of(json_of(*msg)),
        r matches Some(bytes) ==> json_of(*msg).text_field("data"@) matches Some(d) && bytes@.len()
            <= d.len(),
{
    match text_field(msg, "data") {
        Some(data) => match decode_terminal_bytes(data.as_str()) {
            Ok(bytes) => Some(bytes),
            Err(_) => None,
        },
        None => None,
    }
}

fn low_bits(n: Option<u64>) -> (r: u16)
    ensures
        r == low16(n),
{
    match n {
        Some(n) => (n % 65536) as u16,
        None => 0,
    }
}

impl App {
    pub closed spec fn wf(&self) -> bool {
        &&& positive(self.rows, self.cols)
        &&& positive(self.init_rows, self.init_cols)
        &&& self.mode.wf()
        &&& self.selected < self.sessions@.len() || self.selected == 0
    }

    /// A viewer that just connected, from a terminal of this size; the list is
    /// shown.
    pub fn new(addr: String, rows: u16, cols: u16, token_readonly: bool) -> (r: Self)
        requires
            positive(rows, cols),
        ensures
            r.wf(),
            r@ == (AppView {
                addr: addr@,
                rows,
                cols,
                init_rows: rows,
                init_cols: cols,
                mode: ModeView::List,
                sessions: Seq::empty(),
                selected: 0,
                status: Seq::empty(),
                token_readonly,
                session_readonly: false,
                history_oldest: 0,
                quit: false,
            }),
    {
        let r = App {
            addr,
            rows,
            cols,
            init_rows: rows,
            init_cols: cols,
            mode: Mode::List,
            sessions: Vec::new(),
            selected: 0,
            status: String::new(),
            token_readonly,
            session_readonly: false,
            history_oldest: 0,
            quit: false,
        };
        assert(info_views(r.sessions@) =~= Seq::<InfoView>::empty());
        r
    }

    /// Whether one more message can be handled without overflowing a count.
    pub fn has_room(&self) -> (r: bool)
        requires
            self.wf(),
        ensures
            r == self@.mode.has_room(),
    {
        match &self.mode {
            Mode::Attached(feed) => feed.has_room(),
            _ => true,
        }
    }

    /// Whether the user asked to quit.
    pub fn quits(&self) -> (r: bool)
        ensures
            r == self@.quit,
    {
        self.quit
    }

    fn lists(&self) -> (r: bool)
        ensures
            r == self@.mode.lists(),
    {
        match &self.mode {
            Mode::List => true,
            Mode::Connecting => true,
            Mode::Attached(feed) => match feed {
                Feed::Waiting => true,
                _ => false,
            },
        }
    }

    fn is_list(&self) -> (r: bool)
        ensures
            r == (self@.mode is List),
    {
        match &self.mode {
            Mode::List => true,
            _ => false,
        }
    }

    fn is_live(&self) -> (r: bool)
        ensures
            r == self@.mode.is_live(),
    {
        match &self.mode {
            Mode::Attached(feed) => match feed {
                Feed::Live(_) => true,
                _ => false,
            },
            _ => false,
        }
    }

    /// Redraw the session list (alternate screen), where it is on screen.
    fn render_list(&self, out: &mut Vec<Step>, now: u64)
        ensures
            step_acts(final(out)@) == step_acts(old(out)@) + self@.redraw(now),
    {
        if !self.lists() {
            assert(step_acts(out@) =~= step_acts(old(out)@) + self@.redraw(now));
            return ;
        }
        let mut text = "\x1b[H\x1b[2Jg2mirror-view \u{2014} ".to_owned();
        text.append(self.addr.as_str());
        let ghost t0 = text@;
        if self.token_readonly {
            text.append(" (read-only)");
        } else {
            assert(text@ =~= t0 + Seq::<char>::empty());
        }
        text.append("\r\n");
        text.append(self.status.as_str());
        text.append("\r\n\r\n");
        let ghost t1 = text@;
        if self.sessions.len() == 0 {
            text.append("  no live terminals\r\n");
        } else {
            assert(text@ =~= t1 + Seq::<char>::empty());
        }
        let ghost views = info_views(self.sessions@);
        let ghost t2 = text@;
        let mut i: usize = 0;
        assert(text@ =~= t2 + entries_text(views.take(0), self.selected as nat, self.cols, now));
        while i < self.sessions.len()
            invariant
                i <= self.sessions@.len() == views.len(),
                views == info_views(self.sessions@),
                text@ == t2 + entries_text(
                    views.take(i as int),
                    self.selected as nat,
                    self.cols,
                    now,
                ),
            decreases self.sessions@.len() - i,
        {
            text.append(entry(&self.sessions[i], i == self.selected, self.cols, now).as_str());
            text.append("\r\n");
            proof {
                assert(views.take(i + 1).drop_last() =~= views.take(i as int));
                assert(views.take(i + 1).last() == self.sessions@[i as int]@);
                assert(text@ =~= t2 + entries_text(
                    views.take(i + 1),
                    self.selected as nat,
                    self.cols,
                    now,
                ));
            }
            i += 1;
        }
        assert(views.take(i as int) =~= views);
        text.append(
            "\r\n  \u{2191}/\u{2193} select \u{b7} enter attach \u{b7} r refresh \u{b7} q quit \u{b7} ^D detaches a view",
        );
        assert(text@ =~= list_screen(self@, now));
        let mut bytes: Vec<u8> = Vec::new();
        push_text(&mut bytes, text.as_str());
        assert(bytes@ =~= encode_utf8(text@));
        out.push(Step::Write(bytes));
        assert(step_acts(out@) =~= step_acts(old(out)@) + self@.redraw(now));
    }

    /// What is written when the viewer starts: the alternate screen is entered
    /// and the list shown.
    pub fn start(&self, now: u64) -> (r: Vec<Step>)
        ensures
            step_acts(r@) == seq![StepAct::Write(encode_utf8(ENTER_ALT@))] + self@.redraw(now),
    {
        let mut out: Vec<Step> = Vec::new();
        let mut bytes: Vec<u8> = Vec::new();
        push_text(&mut bytes, ENTER_ALT);
        assert(bytes@ =~= encode_utf8(ENTER_ALT@));
        out.push(Step::Write(bytes));
        assert(step_acts(out@) =~= seq![StepAct::Write(encode_utf8(ENTER_ALT@))]);
        self.render_list(&mut out, now);
        out
    }

    /// Bytes that restore the terminal, whatever happened: end a live view
    /// under the cursor, or leave the alternate screen.
    pub fn restore(&self) -> (r: Vec<u8>)
        requires
            self.wf(),
        ensures
            r@ == (match self@.mode {
                ModeView::Attached(FeedView::Live(m)) => m.cleanup_bytes(),
                _ => encode_utf8(LEAVE_ALT@),
            }) + encode_utf8(SGR_RESET@) + encode_utf8("\x1b[?25h"@),
    {
        let mut out: Vec<u8> = Vec::new();
        let mut live = false;
        if let Mode::Attached(feed) = &self.mode {
            if let Feed::Live(mirror) = feed {
                out = mirror.cleanup();
                live = true;
            }
        }
        if !live {
            push_text(&mut out, LEAVE_ALT);
            assert(out@ =~= encode_utf8(LEAVE_ALT@));
        }
        push_text(&mut out, SGR_RESET);
        push_text(&mut out, "\x1b[?25h");
        out
    }

    /// The list is due to be refreshed: it is asked for while it is on screen.
    pub fn on_tick(&self) -> (r: Vec<Step>)
        ensures
            step_acts(r@) == if self@.mode is List {
                sent(ViewerMsg::List)
            } else {
                Seq::empty()
            },
    {
        let mut out: Vec<Step> = Vec::new();
        assert(step_acts(out@) =~= Seq::<StepAct>::empty());
        if self.is_list() {
            push_msg(&mut out, ToServer::List);
            assert(step_acts(out@) =~= sent(ViewerMsg::List));
        }
        out
    }

    /// Detach (or finish being detached) and show the session list again.
    fn back_to_list(&mut self, out: &mut Vec<Step>, now: u64)
        requires
            old(self).wf(),
        ensures
            final(self).wf(),
            final(self)@ == old(self)@.listed(),
            step_acts(final(out)@) == step_acts(old(out)@) + old(self)@.back_acts(now),
    {
        let ghost start = step_acts(out@);
        if let Mode::Attached(feed) = &self.mode {
            if let Feed::Live(mirror) = feed {
                let mut bytes = mirror.cleanup();
                push_text(&mut bytes, ENTER_ALT);
                push_write(out, bytes);
            }
        }
        let ghost ended = match old(self)@.mode {
            ModeView::Attached(FeedView::Live(m)) => written(
                m.cleanup_bytes() + encode_utf8(ENTER_ALT@),
            ),
            _ => Seq::empty(),
        };
        assert(step_acts(out@) =~= start + ended);
        self.mode = Mode::List;
        self.session_readonly = false;
        self.render_list(out, now);
        push_msg(out, ToServer::List);
        assert(step_acts(out@) =~= start + old(self)@.back_acts(now));
    }

    fn screen(&self) -> (r: LocalScreen)
        ensures
            r@ == self@.screen(),
    {
        LocalScreen {
            rows: self.rows,
            cols: self.cols,
            lead: LEAVE_ALT.to_owned(),
            history_oldest: self.history_oldest,
        }
    }

    /// The listed session a server event is about, if it is listed.
    fn find_event(&self, msg: &serde_json::Value) -> (r: Option<usize>)
        ensures
            match event_session(self@.sessions, json_of(*msg)) {
                Some(i) => r matches Some(k) && k == i && k < self.sessions@.len(),
                None => r is None,
            },
    {
        let socket = match text_field(msg, "socket") {
            Some(s) => s,
            None => return None,
        };
        let mut i: usize = 0;
        while i < self.sessions.len()
            invariant
                i <= self.sessions@.len(),
                self@.sessions == info_views(self.sessions@),
                json_of(*msg).text_field("socket"@) == Some(socket@),
                find_socket(self@.sessions, socket@, i as int) == find_socket(
                    self@.sessions,
                    socket@,
                    0,
                ),
            decreases self.sessions@.len() - i,
        {
            assert(self@.sessions[i as int] == self.sessions@[i as int]@);
            if text_eq(self.sessions[i].socket.as_str(), socket.as_str()) {
                return Some(i);
            }
            i += 1;
        }
        None
    }

    /// Applies a step of the stream.
    fn apply(&mut self, out: &mut Vec<Step>, step: FeedStep)
        ensures
            final(self)@ == (AppView {
                status: if step.went_live {
                    Seq::empty()
                } else {
                    old(self)@.status
                },
                ..old(self)@
            }),
            final(self).wf() == old(self).wf(),
            step_acts(final(out)@) == step_acts(old(out)@) + feed_acts(step@),
    {
        push_feed_step(out, &step);
        if step.went_live {
            self.status = String::new();
        }
    }

    /// A message of the attached session's stream.
    fn on_stream(&mut self, out: &mut Vec<Step>, kind: &str, msg: &serde_json::Value)
        requires
            old(self).wf(),
            old(self)@.mode.has_room(),
            kind@ == "snapshot"@ || kind@ == "output"@ || kind@ == "history_lines"@,
            json_of(*msg).text_field("type"@) == Some(kind@),
            json_of(*msg).text_field("data"@) matches Some(d) ==> d.len() <= MAX_MESSAGE,
        ensures
            final(self).wf(),
            final(self)@ == old(self)@.on_message(json_of(*msg), Seq::empty(), 0).0,
            step_acts(final(out)@) == step_acts(old(out)@) + old(self)@.on_message(
                json_of(*msg),
                Seq::empty(),
                0,
            ).1,
    {
        proof {
            kinds_differ();
        }
        let ghost start = self@;
        let ghost before = step_acts(out@);
        let ghost doc = json_of(*msg);
        let screen = self.screen();
        if text_eq(kind, "history_lines") {
            if let Mode::Attached(feed) = &mut self.mode {
                let lines = relayed_lines(msg);
                let step = feed.on_history(&screen, &lines);
                self.apply(out, step);
            }
            assert(step_acts(out@) =~= before + start.on_message(doc, Seq::empty(), 0).1);
            return ;
        }
        let data = message_data(msg);
        match data {
            None => {},
            Some(bytes) => {
                let snapshot = text_eq(kind, "snapshot");
                let view = stream_dims(
                    low_bits(unsigned_field(msg, "height")),
                    low_bits(unsigned_field(msg, "width")),
                    self.init_rows,
                    self.init_cols,
                );
                let history_next: u64 = match unsigned_field(msg, "history_next") {
                    Some(n) => n,
                    None => 0,
                };
                if let Mode::Attached(feed) = &mut self.mode {
                    let step = if snapshot {
                        feed.on_snapshot(&screen, view, bytes, history_next)
                    } else {
                        feed.on_output(bytes)
                    };
                    self.apply(out, step);
                }
            },
        }
        assert(step_acts(out@) =~= before + start.on_message(doc, Seq::empty(), 0).1);
    }

    /// A server-scoped event about a listed terminal: its entry is updated.
    fn on_event(&mut self, out: &mut Vec<Step>, bell: bool, msg: &serde_json::Value, now: u64)
        requires
            old(self).wf(),
        ensures
            final(self).wf(),
            final(self)@ == if bell {
                old(self)@.belled(json_of(*msg))
            } else {
                old(self)@.retitled(json_of(*msg))
            },
            step_acts(final(out)@) == step_acts(old(out)@) + final(self)@.redraw_list(now),
    {
        if let Some(i) = self.find_event(msg) {
            if bell {
                let at = unsigned_field(msg, "last_bell_at");
                self.sessions[i].last_bell_at = at;
            } else {
                let title = text_field(msg, "title");
                self.sessions[i].title = title;
            }
            proof {
                let next = if bell {
                    old(self)@.belled(json_of(*msg))
                } else {
                    old(self)@.retitled(json_of(*msg))
                };
                assert(self@.sessions =~= next.sessions);
            }
        }
        if self.is_list() {
            self.render_list(out, now);
        } else {
            assert(step_acts(out@) =~= step_acts(old(out)@) + self@.redraw_list(now));
        }
    }

    /// Handle one message from the server (server-scoped or relayed from
    /// the attached session). `sessions` is the list that a `sessions` message
    /// carries, empty where it cannot be read; `now` the unix epoch in
    /// milliseconds.
    pub fn on_ws_text(&mut self, text: &str, sessions: Vec<SessionInfo>, now: u64) -> (r: Vec<Step>)
        requires
            old(self).wf(),
            old(self)@.mode.has_room(),
            text@.len() <= MAX_MESSAGE,
        ensures
            final(self).wf(),
            match json_parsed(text@) {
                Ok(msg) => {
                    &&& final(self)@ == old(self)@.on_message(msg, info_views(sessions@), now).0
                    &&& step_acts(r@) == old(self)@.on_message(msg, info_views(sessions@), now).1
                },
                Err(_) => final(self)@ == old(self)@ && r@.len() == 0,
            },
    {
        let mut out: Vec<Step> = Vec::new();
        assert(step_acts(out@) =~= Seq::<StepAct>::empty());
        let ghost start = self@;
        let msg = match parse_json(text) {
            Ok(msg) => msg,
            Err(_) => return out,
        };
        let kind = match text_field(&msg, "type") {
            Some(kind) => kind,
            None => return out,
        };
        let ghost doc = json_of(msg);
        let ghost list = info_views(sessions@);
        proof {
            kinds_differ();
        }
        if text_eq(kind.as_str(), "sessions") {
            self.sessions = sessions;
            if self.selected >= self.sessions.len() {
                self.selected = if self.sessions.len() > 0 {
                    self.sessions.len() - 1
                } else {
                    0
                };
            }
            if self.is_list() {
                self.render_list(&mut out, now);
            }
        } else if text_eq(kind.as_str(), "bell") && has_field(&msg, "socket") {
            // Server-scoped bell/title events carry a socket name; update the
            // list entry. (A `title` without one is the attached session's own
            // title change, mirrored to our terminal.)
            self.on_event(&mut out, true, &msg, now);
        } else if text_eq(kind.as_str(), "title") && has_field(&msg, "socket") {
            self.on_event(&mut out, false, &msg, now);
        } else if text_eq(kind.as_str(), "title") {
            if self.is_live() {
                if let Some(title) = text_field(&msg, "title") {
                    push_write(&mut out, title_sequence(title.as_str()));
                }
            }
        } else if text_eq(kind.as_str(), "connect") {
            let connecting = match &self.mode {
                Mode::Connecting => true,
                _ => false,
            };
            if connecting {
                self.session_readonly = match bool_field(&msg, "readonly") {
                    Some(b) => b,
                    None => false,
                };
                self.history_oldest = match get_field(&msg, "history") {
                    Some(history) => match unsigned_field(history, "oldest") {
                        Some(n) => n,
                        None => 0,
                    },
                    None => 0,
                };
                push_msg(&mut out, ToServer::View);
                self.mode = Mode::Attached(Feed::Waiting);
                self.status = "attaching...".to_owned();
                assert(self@ == start.greeted(doc));
                self.render_list(&mut out, now);
            }
        } else if text_eq(kind.as_str(), "snapshot") || text_eq(kind.as_str(), "output")
            || text_eq(kind.as_str(), "history_lines") {
            self.on_stream(&mut out, kind.as_str(), &msg);
        } else if text_eq(kind.as_str(), "exit") {
            let mut status = "session ended (".to_owned();
            match integer_field(&msg, "status") {
                Some(n) => {
                    let mut code = "exit status ".to_owned();
                    push_signed(&mut code, n);
                    status.append(code.as_str());
                },
                None => {
                    status.append("killed by a signal");
                },
            }
            status.append(")");
            // The wrapper closes the socket next; `disconnected` finishes the
            // detach.
            self.status = status;
        } else if text_eq(kind.as_str(), "disconnected") {
            let ended = starts_with(&chars_of(self.status.as_str()), "session ended");
            if !ended {
                let mut status = "disconnected (".to_owned();
                match text_field(&msg, "reason") {
                    Some(reason) => {
                        status.append(reason.as_str());
                    },
                    None => {
                        status.append("unknown");
                    },
                }
                status.append(")");
                self.status = status;
            }
            self.back_to_list(&mut out, now);
        } else if text_eq(kind.as_str(), "error") {
            // While live, errors (e.g. a rejected input) have no status bar to
            // land in; drop them. An error during attach setup aborts the
            // attach.
            if !self.is_live() {
                let mut status = "error: ".to_owned();
                match text_field(&msg, "message") {
                    Some(message) => {
                        status.append(message.as_str());
                    },
                    None => {
                        status.append("unknown error");
                    },
                }
                self.status = status;
                if self.is_list() {
                    self.render_list(&mut out, now);
                } else {
                    self.back_to_list(&mut out, now);
                }
            }
        }
        assert(self@ == start.on_message(doc, list, now).0);
        assert(step_acts(out@) =~= start.on_message(doc, list, now).1);
        out
    }

    /// Keys while the list is shown, up to a quit.
    fn on_list_keys(&mut self, out: &mut Vec<Step>, bytes: &[u8])
        requires
            old(self).wf(),
            !old(self)@.quit,
            old(self)@.mode is List,
        ensures
            final(self).wf(),
            final(self)@ == old(self)@.after_list_keys(keys_of(bytes@)),
            step_acts(final(out)@) == step_acts(old(out)@) + old(self)@.list_key_acts(
                keys_of(bytes@),
            ),
    {
        let keys = parse_list_keys(bytes);
        let ghost start = self@;
        let ghost before = step_acts(out@);
        let mut i: usize = 0;
        proof {
            assert(keys@.skip(0) =~= keys@);
        }
        while i < keys.len()
            invariant
                i <= keys@.len(),
                keys@ == keys_of(bytes@),
                start == old(self)@,
                before == step_acts(old(out)@),
                self.wf(),
                !self@.quit,
                self@.after_list_keys(keys@.skip(i as int)) == start.after_list_keys(keys@),
                step_acts(out@) + self@.list_key_acts(keys@.skip(i as int)) == before
                    + start.list_key_acts(keys@),
            decreases keys@.len() - i,
        {
            let ghost rest = keys@.skip(i as int);
            let ghost was = self@;
            let ghost so_far = step_acts(out@);
            proof {
                assert(rest.skip(1) =~= keys@.skip(i + 1));
                assert(rest[0] == keys@[i as int]);
            }
            match keys[i] {
                ListKey::Up => {
                    self.selected = move_up(self.selected);
                },
                ListKey::Down => {
                    self.selected = move_down(self.selected, self.sessions.len());
                },
                ListKey::Enter => {
                    if self.selected < self.sessions.len() {
                        let socket = self.sessions[self.selected].socket.clone();
                        assert(self@.sessions[self.selected as int]
                            == self.sessions@[self.selected as int]@);
                        let mut status = "connecting to ".to_owned();
                        status.append(socket.as_str());
                        status.append("...");
                        self.status = status;
                        push_msg(out, ToServer::Connect { socket });
                        self.mode = Mode::Connecting;
                    }
                },
                ListKey::Refresh => {
                    push_msg(out, ToServer::List);
                },
                ListKey::Quit => {
                    self.quit = true;
                    assert(step_acts(out@) =~= so_far + was.list_key_acts(rest));
                    return ;
                },
            }
            assert(self@ == was.after_list_key(rest[0]));
            assert(step_acts(out@) =~= so_far + was.list_key_act(rest[0]));
            assert(step_acts(out@) + self@.list_key_acts(rest.skip(1)) =~= so_far
                + was.list_key_acts(rest));
            i += 1;
        }
        proof {
            assert(keys@.skip(i as int) =~= Seq::<ListKey>::empty());
            assert(step_acts(out@) =~= before + start.list_key_acts(keys@));
        }
    }

    /// Input for a live session: the refresh key repaints, and everything is
    /// forwarded unless the token or the session is read-only.
    fn forward(&self, out: &mut Vec<Step>, input: &[u8])
        requires
            self.wf(),
            self@.mode.is_live(),
        ensures
            step_acts(final(out)@) == step_acts(old(out)@) + self@.input_acts(input@),
    {
        let ghost before = step_acts(out@);
        let mut refresh = false;
        let mut i: usize = 0;
        while i < input.len()
            invariant
                i <= input@.len(),
                refresh == exists|k: int| 0 <= k < i && #[trigger] input@[k] == REFRESH_KEY,
            decreases input@.len() - i,
        {
            if input[i] == REFRESH_KEY {
                refresh = true;
            }
            i += 1;
        }
        assert(refresh == input@.contains(REFRESH_KEY));
        // Ctrl+L: re-push hidden top rows into the local scrollback and
        // repaint; still forwarded, preserving the app's own ^L behavior.
        if refresh {
            if let Mode::Attached(feed) = &self.mode {
                let repaint = feed.refresh();
                push_write(out, repaint);
            }
        }
        if input.len() > 0 && !self.token_readonly && !self.session_readonly {
            push_msg(out, ToServer::Input { data: encode_terminal_bytes(input) });
        }
        assert(step_acts(out@) =~= before + self@.input_acts(input@));
    }

    /// Keys while a session is live: up to Ctrl+D they go to the session.
    fn on_live_keys(&mut self, out: &mut Vec<Step>, bytes: &[u8], now: u64)
        requires
            old(self).wf(),
            old(self)@.mode.is_live(),
        ensures
            final(self).wf(),
            final(self)@ == old(self)@.after_live_keys(bytes@),
            step_acts(final(out)@) == step_acts(old(out)@) + old(self)@.live_key_acts(bytes@, now),
    {
        let ghost start = self@;
        let ghost before = step_acts(out@);
        let len: usize = bytes.len();
        let mut at: usize = 0;
        while at < len && bytes[at] != DETACH_KEY
            invariant
                at <= len == bytes@.len(),
                detach_pos(bytes@, at as int) == detach_pos(bytes@, 0),
            ensures
                at <= len,
                at == detach_pos(bytes@, 0),
            decreases len - at,
        {
            at += 1;
        }
        let input = vstd::slice::slice_subrange(bytes, 0, at);
        assert(input@ =~= bytes@.take(at as int));
        self.forward(out, input);
        if at < len {
            self.status = "detached".to_owned();
            push_msg(out, ToServer::Unview);
            push_msg(out, ToServer::Disconnect);
            // `disconnected` will arrive and bring us back to the list; do it
            // eagerly so the UI doesn't hang on a stalled server.
            self.back_to_list(out, now);
            assert(step_acts(out@) =~= before + start.live_key_acts(bytes@, now));
        } else {
            assert(step_acts(out@) =~= before + start.live_key_acts(bytes@, now));
        }
    }

    /// Keyboard input, interpreted per mode.
    pub fn on_keys(&mut self, bytes: &[u8], now: u64) -> (r: Vec<Step>)
        requires
            old(self).wf(),
            !old(self)@.quit,
        ensures
            final(self).wf(),
            final(self)@ == old(self)@.after_keys(bytes@),
            step_acts(r@) == old(self)@.key_acts(bytes@, now),
    {
        let ghost start = self@;
        let mut out: Vec<Step> = Vec::new();
        assert(step_acts(out@) =~= Seq::<StepAct>::empty());
        if self.is_list() {
            self.on_list_keys(&mut out, bytes);
            if !self.quit {
                self.render_list(&mut out, now);
            }
        } else if self.is_live() {
            self.on_live_keys(&mut out, bytes, now);
        } else {
            // Mid-attach: only Ctrl+D (abort) is meaningful.
            let mut i: usize = 0;
            let mut found = false;
            while i < bytes.len()
                invariant
                    i <= bytes@.len(),
                    found == exists|k: int| 0 <= k < i && #[trigger] bytes@[k] == DETACH_KEY,
                decreases bytes@.len() - i,
            {
                if bytes[i] == DETACH_KEY {
                    found = true;
                }
                i += 1;
            }
            assert(found == bytes@.contains(DETACH_KEY));
            if found {
                self.status = "detached".to_owned();
                push_msg(&mut out, ToServer::Disconnect);
            }
        }
        assert(step_acts(out@) =~= start.key_acts(bytes@, now));
        out
    }

    /// The terminal was resized.
    pub fn on_winch(&mut self, rows: u16, cols: u16, now: u64) -> (r: Vec<Step>)
        requires
            old(self).wf(),
            old(self)@.mode.has_room(),
            positive(rows, cols),
        ensures
            final(self).wf(),
            final(self)@ == old(self)@.after_winch(rows, cols),
            step_acts(r@) == old(self)@.winch_acts(rows, cols, now),
    {
        let ghost start = self@;
        let mut out: Vec<Step> = Vec::new();
        assert(step_acts(out@) =~= Seq::<StepAct>::empty());
        self.rows = rows;
        self.cols = cols;
        if self.is_list() {
            self.render_list(&mut out, now);
        } else {
            if let Mode::Attached(feed) = &mut self.mode {
                let output = feed.on_resize(rows, cols);
                push_write(&mut out, output);
            }
        }
        assert(step_acts(out@) =~= start.winch_acts(rows, cols, now));
        out
    }
}

/// Where Ctrl+D first occurs, from `from` on; the length where it does not.
pub open spec fn detach_pos(bytes: Seq<u8>, from: int) -> int
    decreases bytes.len() - from,
{
    if from >= bytes.len() {
        bytes.len() as int
    } else if bytes[from] == DETACH_KEY {
        from
    } else {
        detach_pos(bytes, from + 1)
    }
}

impl AppView {
    /// The state after one key while the list was shown.
    pub open spec fn after_list_key(self, key: ListKey) -> AppView {
        match key {
            ListKey::Up => AppView { selected: one_up(self.selected), ..self },
            ListKey::Down => AppView {
                selected: one_down(self.selected, self.sessions.len()),
                ..self
            },
            ListKey::Enter => if self.selected < self.sessions.len() {
                AppView {
                    status: "connecting to "@ + self.sessions[self.selected as int].socket
                        + "..."@,
                    mode: ModeView::Connecting,
                    ..self
                }
            } else {
                self
            },
            ListKey::Refresh => self,
            ListKey::Quit => AppView { quit: true, ..self },
        }
    }

    /// What one key does while the list is shown.
    pub open spec fn list_key_act(self, key: ListKey) -> Seq<StepAct> {
        match key {
            ListKey::Enter => if self.selected < self.sessions.len() {
                sent(
                    ViewerMsg::Connect { socket: self.sessions[self.selected as int].socket },
                )
            } else {
                Seq::empty()
            },
            ListKey::Refresh => sent(ViewerMsg::List),
            _ => Seq::empty(),
        }
    }

    /// The state after keys while the list was shown; a quit ends them.
    pub open spec fn after_list_keys(self, keys: Seq<ListKey>) -> AppView
        decreases keys.len(),
    {
        if keys.len() == 0 {
            self
        } else if keys[0] == ListKey::Quit {
            self.after_list_key(keys[0])
        } else {
            self.after_list_key(keys[0]).after_list_keys(keys.skip(1))
        }
    }

    /// What keys do while the list is shown; a quit ends them.
    pub open spec fn list_key_acts(self, keys: Seq<ListKey>) -> Seq<StepAct>
        decreases keys.len(),
    {
        if keys.len() == 0 || keys[0] == ListKey::Quit {
            Seq::empty()
        } else {
            self.list_key_act(keys[0]) + self.after_list_key(keys[0]).list_key_acts(keys.skip(1))
        }
    }

    /// The state after keys while a session was live.
    pub open spec fn after_live_keys(self, bytes: Seq<u8>) -> AppView {
        if detach_pos(bytes, 0) < bytes.len() {
            AppView { status: "detached"@, ..self }.listed()
        } else {
            self
        }
    }

    /// What input for a live session does: the refresh key repaints, and
    /// everything goes to the session, unless the token or the session is
    /// read-only.
    pub open spec fn input_acts(self, input: Seq<u8>) -> Seq<StepAct> {
        (match self.mode {
            ModeView::Attached(feed) => if input.contains(REFRESH_KEY) {
                written(refresh_bytes(feed))
            } else {
                Seq::empty()
            },
            _ => Seq::empty(),
        }) + (if input.len() > 0 && !self.token_readonly && !self.session_readonly {
            sent(ViewerMsg::Input { data: base64_text(input) })
        } else {
            Seq::empty()
        })
    }

    /// What keys do while a session is live: up to Ctrl+D they are input for
    /// the session; Ctrl+D detaches.
    pub open spec fn live_key_acts(self, bytes: Seq<u8>, now: u64) -> Seq<StepAct> {
        let at = detach_pos(bytes, 0);
        self.input_acts(bytes.take(at)) + (if at < bytes.len() {
            sent(ViewerMsg::Unview) + sent(ViewerMsg::Disconnect) + AppView {
                status: "detached"@,
                ..self
            }.back_acts(now)
        } else {
            Seq::empty()
        })
    }

    /// The state after keyboard input.
    pub open spec fn after_keys(self, bytes: Seq<u8>) -> AppView {
        if self.mode is List {
            self.after_list_keys(keys_of(bytes))
        } else if self.mode.is_live() {
            self.after_live_keys(bytes)
        } else if bytes.contains(DETACH_KEY) {
            AppView { status: "detached"@, ..self }
        } else {
            self
        }
    }

    /// What keyboard input does.
    pub open spec fn key_acts(self, bytes: Seq<u8>, now: u64) -> Seq<StepAct> {
        if self.mode is List {
            let next = self.after_list_keys(keys_of(bytes));
            self.list_key_acts(keys_of(bytes)) + (if next.quit {
                Seq::empty()
            } else {
                next.redraw(now)
            })
        } else if self.mode.is_live() {
            self.live_key_acts(bytes, now)
        } else if bytes.contains(DETACH_KEY) {
            sent(ViewerMsg::Disconnect)
        } else {
            Seq::empty()
        }
    }

    /// The state after the terminal was resized.
    pub open spec fn after_winch(self, rows: u16, cols: u16) -> AppView {
        AppView {
            rows,
            cols,
            mode: match self.mode {
                ModeView::Attached(FeedView::Live(m)) => ModeView::Attached(
                    FeedView::Live(m.resized(rows, cols)),
                ),
                other => other,
            },
            ..self
        }
    }

    /// What a resize of the terminal does.
    pub open spec fn winch_acts(self, rows: u16, cols: u16, now: u64) -> Seq<StepAct> {
        match self.mode {
            ModeView::List => self.after_winch(rows, cols).redraw(now),
            ModeView::Attached(FeedView::Live(m)) => match m.view {
                None => Seq::empty(),
                Some(_) => written(m.reframe_bytes(rows, cols)),
            },
            _ => Seq::empty(),
        }
    }
}

/// With a read-only token, or on a read-only session, no keystroke is ever sent
/// as input.
pub proof fn readonly_viewers_send_no_input(a: AppView, bytes: Seq<u8>, now: u64)
    requires
        a.token_readonly || a.session_readonly,
    ensures
        forall|i: int|
            0 <= i < a.key_acts(bytes, now).len() ==> !(#[trigger] a.key_acts(bytes, now)[i]
                matches StepAct::Send(ViewerMsg::Input { .. })),
    decreases bytes.len(),
{
    if a.mode is List {
        list_keys_send_no_input(a, keys_of(bytes));
    }
}

proof fn list_keys_send_no_input(a: AppView, keys: Seq<ListKey>)
    ensures
        forall|i: int|
            0 <= i < a.list_key_acts(keys).len() ==> !(#[trigger] a.list_key_acts(keys)[i]
                matches StepAct::Send(ViewerMsg::Input { .. })),
    decreases keys.len(),
{
    if keys.len() > 0 && keys[0] != ListKey::Quit {
        list_keys_send_no_input(a.after_list_key(keys[0]), keys.skip(1));
    }
}

/// Detaching always leads back to the list, whatever the server does.
pub proof fn detaching_shows_the_list(a: AppView, bytes: Seq<u8>)
    requires
        a.mode.is_live(),
        bytes.contains(DETACH_KEY),
    ensures
        a.after_keys(bytes).mode is List,
{
    let k = choose|k: int| 0 <= k < bytes.len() && bytes[k] == DETACH_KEY;
    detach_is_found(bytes, 0, k);
}

proof fn detach_is_found(bytes: Seq<u8>, from: int, k: int)
    requires
        0 <= from <= k < bytes.len(),
        bytes[k] == DETACH_KEY,
    ensures
        detach_pos(bytes, from) <= k,
    decreases k - from,
{
    if bytes[from] != DETACH_KEY {
        detach_is_found(bytes, from + 1, k);
    }
}

proof fn kinds_differ()
    ensures
        "sessions"@ != "snapshot"@,
        "sessions"@ != "output"@,
        "sessions"@ != "history_lines"@,
        "bell"@ != "snapshot"@,
        "bell"@ != "output"@,
        "bell"@ != "history_lines"@,
        "title"@ != "snapshot"@,
        "title"@ != "output"@,
        "title"@ != "history_lines"@,
        "connect"@ != "snapshot"@,
        "connect"@ != "output"@,
        "connect"@ != "history_lines"@,
        "snapshot"@ != "output"@,
        "snapshot"@ != "history_lines"@,
        "output"@ != "history_lines"@,
{
    reveal_strlit("sessions");
    reveal_strlit("bell");
    reveal_strlit("title");
    reveal_strlit("connect");
    reveal_strlit("snapshot");
    reveal_strlit("output");
    reveal_strlit("history_lines");
    assert("sessions"@.len() == 8);
    assert("snapshot"@.len() == 8);
    assert("sessions"@[1] == 'e');
    assert("snapshot"@[1] == 'n');
    assert("bell"@.len() == 4);
    assert("title"@.len() == 5);
    assert("connect"@.len() == 7);
    assert("output"@.len() == 6);
    assert("history_lines"@.len() == 13);
}

} // verus!
