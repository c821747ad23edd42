//! Message types for the two protocols:
//!
//! 1. The **session protocol**: newline-delimited JSON over a unix domain
//!    socket between a command-wrapper process and a client (normally the
//!    server relaying for a remote device).
//! 2. The **server protocol**: JSON text frames over a websocket between the
//!    server and a device driver. Server-scoped messages are defined here;
//!    anything else the device sends is forwarded verbatim to the connected
//!    session, and all session messages are forwarded verbatim to the device.

use crate::text::opt_text;
use base64::Engine as _;
use vstd::prelude::*;
use vstd::string::*;

verus! {

pub const PROTOCOL_VERSION: u32 = 1;

/// A session client's role, declared in `init`.
#[derive(Debug, Clone, Copy, PartialEq, Eq, Structural)]
pub enum Role {
    /// A device or human viewer; its size ranks by its token.
    Viewer,
    /// The claimant of a detached session's host slot (`g2mirror --attach`).
    Host,
}

impl Default for Role {
    fn default() -> (r: Self)
        ensures
            r == Role::Viewer,
    {
        Role::Viewer
    }
}

impl Role {
    /// Whether this is the default role, which is omitted on the wire.
    pub fn is_viewer(&self) -> (r: bool)
        ensures
            r == (*self == Role::Viewer),
    {
        *self == Role::Viewer
    }
}

/// Session protocol: client -> wrapper.
#[derive(Debug, Clone)]
pub enum ToSession {
    /// Must be the first message on the connection.
    Init {
        version: u32,
        /// Free-text device description, e.g. "Jim's G2 glasses".
        device: String,
        /// Device terminal size in character cells.
        width: u16,
        height: u16,
        /// Size-precedence rank of this viewer (lower wins), computed by the
        /// server from the `size_precedence` config list. When several clients
        /// view at once, the wrapped app is sized to the best-ranked one.
        /// Absent (direct connections): rank 0.
        size_rank: Option<u32>,
        /// Rank of the host terminal in the same ordering. Absent: the
        /// host ranks below every viewer.
        host_size_rank: Option<u32>,
        /// `host` claims the host role on a headless (detached) session:
        /// this client's size ranks as `"host"` in the size precedence
        /// instead of by token, and the session stops counting as
        /// detached. At most one client holds the role; refused on
        /// sessions with a real host terminal.
        role: Role,
        /// With `role: host`: take the role over from a client that
        /// already holds it (which is disconnected) instead of being
        /// refused.
        force: bool,
    },
    /// Alternative first message: this connection is a monitor (normally
    /// the server). It receives bell notifications and does not count as a
    /// viewer: it cannot send view/unview and does not block one.
    Monitor { version: u32 },
    /// Start viewing: the wrapped app is resized to the device dimensions
    /// (SIGWINCH), a snapshot is sent immediately, then output streams.
    View,
    /// Stop viewing: the app is resized back to the host terminal and
    /// output streaming stops.
    Unview,
    /// Keyboard/voice input for the wrapped app: base64 of the bytes to
    /// write to its terminal, exactly as a terminal emulator would encode
    /// them (the device driver is responsible for honoring the input modes
    /// mirrored in the output stream, e.g. bracketed paste). Rejected with
    /// an `error` message, without closing the connection, when the session
    /// is read-only.
    Input {
        data: String,
        /// Pauses the wrapper inserts while writing the decoded bytes, so
        /// apps that infer pasting from bytes arriving together (and would
        /// e.g. treat a trailing newline as a pasted soft newline rather
        /// than a submit) see distinct keystrokes. Wrapper-side timing is
        /// immune to network jitter, unlike a client sleeping between two
        /// `input` messages. Offsets must be non-decreasing; the wrapper
        /// caps each pause and the entry count.
        delays: Vec<InputDelay>,
    },
    /// Request scrollback history: up to `limit` lines (default 500,
    /// additionally capped by a reply byte budget) ending just before line
    /// index `before`. Paginate backwards by passing the previous reply's
    /// `start` as the next `before`.
    History { before: u64, limit: Option<u32> },
    /// This client's terminal was resized: update the dimensions it
    /// declared in `init` (host-role clients forward SIGWINCH this way).
    /// If the client currently controls the view size, the stream restarts
    /// at the new dimensions and every viewer gets a fresh snapshot.
    Resize { width: u16, height: u16 },
}

/// Session protocol: wrapper -> client.
#[derive(Debug, Clone)]
pub enum FromSession {
    /// Sent immediately when a connection is accepted.
    Connect {
        version: u32,
        pid: u32,
        command: String,
        cwd: String,
        host_width: u16,
        host_height: u16,
        /// True when the wrapper was started with --readonly; input
        /// messages will be rejected.
        readonly: bool,
        /// Extent of the scrollback history archive.
        history: HistoryExtent,
        /// Current window title, if one is set (also pushed as a `title`
        /// message on change; carried here so a one-shot probe of the
        /// socket sees it).
        title: Option<String>,
        /// True for a wrapper running without a host terminal
        /// (`--headless`/`--detached`). Only headless sessions accept
        /// host-role inits.
        headless: bool,
        /// True when the session is headless and no client currently holds
        /// the host role, i.e. it is claimable with `g2mirror --attach`.
        detached: bool,
        /// The server launch preset this session was started from, if any.
        launched: Option<String>,
    },
    /// Full repaint of the mirrored screen; sent on view, and re-sent to
    /// every viewing client whenever the stream's dimensions change (a
    /// better-ranked viewer attached or detached). `data` is base64 of
    /// terminal bytes (escape sequences) to feed a fresh emulator of
    /// exactly `width` x `height` cells, which is the size of the
    /// best-ranked viewer, not necessarily yours. Every history line with
    /// index < `history_next` is fetchable; lines the client witnesses
    /// scrolling off its emulator after this snapshot continue from that
    /// index.
    Snapshot { data: String, width: u16, height: u16, history_next: u64 },
    /// Incremental terminal output while viewing; base64, same encoding.
    Output { data: String },
    /// Sent to monitor connections when the app rings the terminal bell.
    /// `at` is unix epoch milliseconds; debounced to at most one message
    /// per 3 seconds (a bell suppressed by the debounce window is reported
    /// when the window expires, so the latest timestamp is not lost).
    Bell { at: u64 },
    /// The app set the window title (xterm OSC 0/2). Sent to the monitor
    /// and the viewer on change, and once on attach if a title is set.
    Title { title: String },
    /// The wrapped app exited. The connection closes after this.
    Exit { status: Option<i32> },
    /// A headless session's host role was claimed or released (sent to the
    /// monitor and viewers, like `title`): its detached state flipped.
    HostChanged { attached: bool },
    /// Reply to a history request: lines `start..start+lines.len()` in
    /// oldest-to-newest order, plus the current archive extent.
    HistoryLines { start: u64, oldest: u64, next: u64, lines: Vec<HistoryLine> },
    Error { message: String },
}

/// A pause inside an `input` message: after writing the first `at` bytes of
/// the decoded data, the wrapper waits `ms` milliseconds before writing the
/// rest. `at` == data length pauses after everything, holding back any
/// subsequently queued input.
#[derive(Debug, Clone, Copy)]
pub struct InputDelay {
    /// Byte offset into the decoded `data` (not a character index).
    pub at: u64,
    pub ms: u64,
}

/// Extent of the history archive: line indices `oldest..next` are fetchable.
#[derive(Debug, Clone, Copy)]
pub struct HistoryExtent {
    pub next: u64,
    pub oldest: u64,
}

/// One archived line. `data` is base64 of self-contained styled text:
/// printable characters and SGR sequences only, starting from default
/// attributes (reset before rendering elsewhere). `width` is the column
/// count the line was laid out at; `wrapped` means the line soft-wraps, so
/// it and the following record form one logical line and may be re-wrapped
/// at a different width.
#[derive(Debug, Clone)]
pub struct HistoryLine {
    pub data: String,
    pub width: u16,
    pub wrapped: bool,
}

/// Server protocol: the device's first websocket message.
#[derive(Debug, Clone)]
pub struct DeviceInit {
    /// Must be "init".
    pub msg_type: String,
    pub version: u32,
    pub auth_token: String,
    pub device: String,
    pub width: u16,
    pub height: u16,
}

/// Server protocol: server-originated messages to the device.
#[derive(Debug, Clone)]
pub enum ServerToDevice {
    /// Reply to a successful init. `readonly` reflects the server's config:
    /// when true the server rejects all input messages. (A session may
    /// additionally be read-only via the wrapper's --readonly flag,
    /// reported in its connect message; input works only when neither is
    /// set.)
    Init { version: u32, readonly: bool },
    /// Reply to `list`.
    Sessions { sessions: Vec<SessionInfo> },
    /// Reply to `launch`: the new session's socket name; follow with a
    /// normal `connect` to attach to it.
    Launched { socket: String },
    /// A terminal's detached state changed (host role claimed or released;
    /// sent to every connected device, like `title`).
    Detached { socket: String, detached: bool },
    /// The session connection ended (wrapper exited, `disconnect` requested,
    /// or an I/O error occurred).
    Disconnected { reason: String },
    /// A terminal rang its bell (sent to every connected device, whether or
    /// not it is viewing that terminal). `last_bell_at` is unix epoch ms.
    Bell { socket: String, last_bell_at: u64 },
    /// A terminal's window title changed (sent to every connected device,
    /// whether or not it is viewing that terminal).
    Title { socket: String, title: String },
    Error { message: String },
}

#[derive(Debug, Clone)]
pub struct SessionInfo {
    /// Socket file name; pass to `connect`.
    pub socket: String,
    pub pid: u32,
    /// Sanitized working directory from the socket name.
    pub cwd_hint: String,
    /// When this terminal's bell last rang (unix epoch ms), if it has rung
    /// since the server started monitoring the terminal.
    pub last_bell_at: Option<u64>,
    /// The terminal's window title, if the app has set one.
    pub title: Option<String>,
    /// True when the session is headless with no host-role client: it can
    /// be claimed with `g2mirror --attach`.
    pub detached: bool,
    /// The server launch preset the session was started from, if any.
    pub launched: Option<String>,
}

/// One archived line as a mathematical value.
pub ghost struct LineView {
    pub data: Seq<char>,
    pub width: u16,
    pub wrapped: bool,
}

impl View for HistoryLine {
    type V = LineView;

    open spec fn view(&self) -> LineView {
        LineView { data: self.data@, width: self.width, wrapped: self.wrapped }
    }
}

/// A message of a session as a mathematical value.
pub ghost enum SessionMsg {
    Connect {
        version: u32,
        pid: u32,
        command: Seq<char>,
        cwd: Seq<char>,
        host_width: u16,
        host_height: u16,
        readonly: bool,
        history: HistoryExtent,
        title: Option<Seq<char>>,
        headless: bool,
        detached: bool,
        launched: Option<Seq<char>>,
    },
    Snapshot { data: Seq<char>, width: u16, height: u16, history_next: u64 },
    Output { data: Seq<char> },
    Bell { at: u64 },
    Title { title: Seq<char> },
    Exit { status: Option<i32> },
    HostChanged { attached: bool },
    HistoryLines { start: u64, oldest: u64, next: u64, lines: Seq<LineView> },
    Error { message: Seq<char> },
}

impl View for FromSession {
    type V = SessionMsg;

    open spec fn view(&self) -> SessionMsg {
        match *self {
            FromSession::Connect {
                version,
                pid,
                command,
                cwd,
                host_width,
                host_height,
                readonly,
                history,
                title,
                headless,
                detached,
                launched,
            } => SessionMsg::Connect {
                version,
                pid,
                command: command@,
                cwd: cwd@,
                host_width,
                host_height,
                readonly,
                history,
                title: opt_text(title),
                headless,
                detached,
                launched: opt_text(launched),
            },
            FromSession::Snapshot { data, width, height, history_next } => SessionMsg::Snapshot {
                data: data@,
                width,
                height,
                history_next,
            },
            FromSession::Output { data } => SessionMsg::Output { data: data@ },
            FromSession::Bell { at } => SessionMsg::Bell { at },
            FromSession::Title { title } => SessionMsg::Title { title: title@ },
            FromSession::Exit { status } => SessionMsg::Exit { status },
            FromSession::HostChanged { attached } => SessionMsg::HostChanged { attached },
            FromSession::HistoryLines { start, oldest, next, lines } => SessionMsg::HistoryLines {
                start,
                oldest,
                next,
                lines: lines@.map_values(|l: HistoryLine| l@),
            },
            FromSession::Error { message } => SessionMsg::Error { message: message@ },
        }
    }
}

/// A message to a session as a mathematical value.
pub ghost enum ClientMsg {
    Init {
        version: u32,
        device: Seq<char>,
        width: u16,
        height: u16,
        size_rank: Option<u32>,
        host_size_rank: Option<u32>,
        role: Role,
        force: bool,
    },
    Monitor { version: u32 },
    View,
    Unview,
    Input { data: Seq<char>, delays: Seq<InputDelay> },
    History { before: u64, limit: Option<u32> },
    Resize { width: u16, height: u16 },
}

impl View for ToSession {
    type V = ClientMsg;

    open spec fn view(&self) -> ClientMsg {
        match *self {
            ToSession::Init {
                version,
                device,
                width,
                height,
                size_rank,
                host_size_rank,
                role,
                force,
            } => ClientMsg::Init {
                version,
                device: device@,
                width,
                height,
                size_rank,
                host_size_rank,
                role,
                force,
            },
            ToSession::Monitor { version } => ClientMsg::Monitor { version },
            ToSession::View => ClientMsg::View,
            ToSession::Unview => ClientMsg::Unview,
            ToSession::Input { data, delays } => ClientMsg::Input { data: data@, delays: delays@ },
            ToSession::History { before, limit } => ClientMsg::History { before, limit },
            ToSession::Resize { width, height } => ClientMsg::Resize { width, height },
        }
    }
}

/// A listed session as a mathematical value.
pub ghost struct InfoView {
    pub socket: Seq<char>,
    pub pid: u32,
    pub cwd_hint: Seq<char>,
    pub last_bell_at: Option<u64>,
    pub title: Option<Seq<char>>,
    pub detached: bool,
    pub launched: Option<Seq<char>>,
}

impl View for SessionInfo {
    type V = InfoView;

    open spec fn view(&self) -> InfoView {
        InfoView {
            socket: self.socket@,
            pid: self.pid,
            cwd_hint: self.cwd_hint@,
            last_bell_at: self.last_bell_at,
            title: opt_text(self.title),
            detached: self.detached,
            launched: opt_text(self.launched),
        }
    }
}

/// A message of the server as a mathematical value.
pub ghost enum ServerMsg {
    Init { version: u32, readonly: bool },
    Sessions { sessions: Seq<InfoView> },
    Launched { socket: Seq<char> },
    Detached { socket: Seq<char>, detached: bool },
    Disconnected { reason: Seq<char> },
    Bell { socket: Seq<char>, last_bell_at: u64 },
    Title { socket: Seq<char>, title: Seq<char> },
    Error { message: Seq<char> },
}

impl View for ServerToDevice {
    type V = ServerMsg;

    open spec fn view(&self) -> ServerMsg {
        match *self {
            ServerToDevice::Init { version, readonly } => ServerMsg::Init { version, readonly },
            ServerToDevice::Sessions { sessions } => ServerMsg::Sessions {
                sessions: sessions@.map_values(|s: SessionInfo| s@),
            },
            ServerToDevice::Launched { socket } => ServerMsg::Launched { socket: socket@ },
            ServerToDevice::Detached { socket, detached } => ServerMsg::Detached {
                socket: socket@,
                detached,
            },
            ServerToDevice::Disconnected { reason } => ServerMsg::Disconnected { reason: reason@ },
            ServerToDevice::Bell { socket, last_bell_at } => ServerMsg::Bell {
                socket: socket@,
                last_bell_at,
            },
            ServerToDevice::Title { socket, title } => ServerMsg::Title {
                socket: socket@,
                title: title@,
            },
            ServerToDevice::Error { message } => ServerMsg::Error { message: message@ },
        }
    }
}

/// What base64's standard alphabet, with padding, makes of a byte string.
pub uninterp spec fn base64_text(bytes: Seq<u8>) -> Seq<char>;

/// What a base64 text stands for, in the standard alphabet with padding, or
/// how the decoder describes what is wrong with it.
pub uninterp spec fn base64_bytes(text: Seq<char>) -> Result<Seq<u8>, Seq<char>>;

/// The outcome of decoding a text that stands for `bytes`.
pub open spec fn decodes_to(bytes: Seq<u8>) -> Result<Seq<u8>, Seq<char>> {
    Ok(bytes)
}

/// Wraps `base64::Engine::encode` of the standard engine, whose result is a
/// function of the bytes that decoding undoes.
#[verifier::external_body]
fn base64_encode(bytes: &[u8]) -> (r: String)
    ensures
        r@ == base64_text(bytes@),
        base64_bytes(r@) == decodes_to(bytes@),
{
    base64::engine::general_purpose::STANDARD.encode(bytes)
}

/// Wraps `base64::Engine::decode` of the standard engine; the error is given by
/// its description. Both are functions of the text. Every four symbols stand
/// for at most three bytes, so what comes out is not longer than the text.
#[verifier::external_body]
fn base64_decode(data: &str) -> (r: Result<Vec<u8>, String>)
    ensures
        match base64_bytes(data@) {
            Ok(bytes) => r matches Ok(b) && b@ == bytes,
            Err(message) => r matches Err(m) && m@ == message,
        },
        r matches Ok(b) ==> b@.len() <= data@.len(),
{
    base64::engine::general_purpose::STANDARD.decode(data).map_err(|e| e.to_string())
}

/// Base64 of terminal bytes, as messages carry them; decoding gives the bytes
/// back.
pub fn encode_terminal_bytes(bytes: &[u8]) -> (r: String)
    ensures
        r@ == base64_text(bytes@),
        base64_bytes(r@) == decodes_to(bytes@),
{
    base64_encode(bytes)
}

/// The terminal bytes a message carries, or what is wrong with its encoding.
pub fn decode_terminal_bytes(data: &str) -> (r: Result<Vec<u8>, String>)
    ensures
        match base64_bytes(data@) {
            Ok(bytes) => r matches Ok(b) && b@ == bytes,
            Err(message) => r matches Err(m) && m@ == message,
        },
        r matches Ok(b) ==> b@.len() <= data@.len(),
{
    base64_decode(data)
}

} // verus!
