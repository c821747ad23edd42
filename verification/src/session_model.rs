//! The model of a mirrored session: what its state is, and what each event of
//! the wrapper's loop does to it and asks for. The laws of the session are
//! proved here.

use crate::control::{bell_step, BellEvent, BellView, ClientState};
use crate::history::{page_start, HistoryView, RecordView, DEFAULT_FETCH_LIMIT};
use crate::input::{delays_fit, split_at_delays, QueueView, MAX_INPUT_DELAYS};
use crate::mirror::{MirrorView, View, RESET_INPUT_MODES, SIM_COLS, SIM_ROWS, VIEW_HOST_PRELUDE};
use crate::protocol::{
    base64_bytes, base64_text, FromSession, LineView, Role, SessionMsg, ToSession, PROTOCOL_VERSION,
};
use crate::render::CLEAR;
use crate::terminal::{positive, vt_state_diff};
use crate::text::decimal;
use vstd::prelude::*;
use vstd::string::*;
use vstd::utf8::*;
use vstd::view::View as _;

verus! {

/// Ctrl+G: simulate a device connect/disconnect.
pub const HOTKEY: u8 = 0x07;

/// Ctrl+L (also forwarded to the child): while a view taller than the host
/// terminal is active, re-push the hidden top rows into the host's native
/// scrollback and repaint.
pub const REFRESH_KEY: u8 = 0x0c;

/// Bell notifications are debounced to at most one per this window, in
/// nanoseconds.
pub const BELL_DEBOUNCE: u64 = 3_000_000_000;

/// The largest chunk of child output or keyboard input handled at once.
pub const MAX_CHUNK: usize = 65_536;

/// More lines than any session archives: up to here the archive's line count
/// cannot overflow in one step.
pub const HISTORY_CEILING: u64 = 0x7fff_ffff_ffff_ffff;

/// A client that is past its init.
pub struct Client {
    pub state: ClientState,
    /// Device description and dimensions from the init message.
    pub device: String,
    pub width: u16,
    pub height: u16,
    /// Size-precedence rank from the init message (lower wins the size).
    pub size_rank: u32,
    /// A host-role client stands in for the host terminal.
    pub role: Role,
    /// Arrival order, the tie-break between equally ranked viewers.
    pub id: u64,
    /// Marked when a send fails; swept out of the viewer list at safe points.
    pub dead: bool,
}

pub ghost struct ClientView {
    pub state: ClientState,
    pub device: Seq<char>,
    pub width: u16,
    pub height: u16,
    pub size_rank: u32,
    pub role: Role,
    pub id: u64,
    pub dead: bool,
}

impl vstd::view::View for Client {
    type V = ClientView;

    open spec fn view(&self) -> ClientView {
        ClientView {
            state: self.state,
            device: self.device@,
            width: self.width,
            height: self.height,
            size_rank: self.size_rank,
            role: self.role,
            id: self.id,
            dead: self.dead,
        }
    }
}

/// What the wrapper's loop is to do.
pub enum Action {
    /// Write bytes to the child's terminal.
    WritePty(Vec<u8>),
    /// Resize the child's terminal (delivers SIGWINCH to the child).
    ResizePty { rows: u16, cols: u16 },
    /// Write bytes to the host terminal.
    WriteHost(Vec<u8>),
    /// Send a message to each of these clients.
    Send { to: Vec<u64>, msg: FromSession },
    /// Close the connections of these clients.
    Close(Vec<u64>),
    /// Write the queued input that is due.
    PumpInput,
    /// Sweep out dead clients and re-decide the view, until none dies.
    Sweep,
}

pub ghost enum Act {
    WritePty(Seq<u8>),
    ResizePty { rows: u16, cols: u16 },
    WriteHost(Seq<u8>),
    Send { to: Seq<u64>, msg: SessionMsg },
    Close(Seq<u64>),
    PumpInput,
    Sweep,
}

impl vstd::view::View for Action {
    type V = Act;

    open spec fn view(&self) -> Act {
        match *self {
            Action::WritePty(bytes) => Act::WritePty(bytes@),
            Action::ResizePty { rows, cols } => Act::ResizePty { rows, cols },
            Action::WriteHost(bytes) => Act::WriteHost(bytes@),
            Action::Send { to, msg } => Act::Send { to: to@, msg: msg@ },
            Action::Close(ids) => Act::Close(ids@),
            Action::PumpInput => Act::PumpInput,
            Action::Sweep => Act::Sweep,
        }
    }
}

/// The views of a list of actions.
pub open spec fn acts(actions: Seq<Action>) -> Seq<Act> {
    actions.map_values(|a: Action| a@)
}

/// The views of a list of clients.
pub open spec fn client_views(clients: Seq<Client>) -> Seq<ClientView> {
    clients.map_values(|c: Client| c@)
}

/// A client's rank in the size-precedence order: host-role clients stand in
/// for the host terminal.
pub open spec fn rank_of(c: ClientView, host_rank: u32) -> u32 {
    match c.role {
        Role::Host => host_rank,
        Role::Viewer => c.size_rank,
    }
}

/// Whether `a` comes before `b` in the size precedence.
pub open spec fn outranks(a: ClientView, b: ClientView, host_rank: u32) -> bool {
    rank_of(a, host_rank) < rank_of(b, host_rank) || (rank_of(a, host_rank) == rank_of(b, host_rank)
        && a.id < b.id)
}

/// Whether a client gets the stream.
pub open spec fn is_viewing(c: ClientView) -> bool {
    !c.dead && c.state == ClientState::Viewing
}

/// The viewing client, among the first `n`, that comes first in the size
/// precedence.
pub open spec fn best_of(viewers: Seq<ClientView>, host_rank: u32, n: nat) -> Option<nat>
    decreases n,
{
    if n == 0 {
        None
    } else {
        let last = (n - 1) as nat;
        let best = best_of(viewers, host_rank, last);
        if !is_viewing(viewers[last as int]) {
            best
        } else {
            match best {
                Some(i) => if outranks(viewers[last as int], viewers[i as int], host_rank) {
                    Some(last)
                } else {
                    best
                },
                None => Some(last),
            }
        }
    }
}

/// The ids of the clients, among the first `n`, that `chosen` says.
pub open spec fn ids_where(
    viewers: Seq<ClientView>,
    chosen: spec_fn(int, ClientView) -> bool,
    n: nat,
) -> Seq<u64>
    decreases n,
{
    if n == 0 {
        Seq::empty()
    } else {
        let before = ids_where(viewers, chosen, (n - 1) as nat);
        if chosen(n - 1, viewers[n - 1]) {
            before.push(viewers[n - 1].id)
        } else {
            before
        }
    }
}

/// A choice among the clients.
#[derive(Clone, Copy, PartialEq, Eq, Structural)]
pub enum Pick {
    All,
    Alive,
    Dead,
    HostRole,
    Viewing,
}

/// Whether a choice takes a client.
pub open spec fn takes(pick: Pick, c: ClientView) -> bool {
    match pick {
        Pick::All => true,
        Pick::Alive => !c.dead,
        Pick::Dead => c.dead,
        Pick::HostRole => c.role == Role::Host,
        Pick::Viewing => c.state == ClientState::Viewing,
    }
}

/// The ids of the clients that a choice takes, in order.
pub open spec fn ids_of(viewers: Seq<ClientView>, pick: Pick) -> Seq<u64>
    decreases viewers.len(),
{
    if viewers.len() == 0 {
        Seq::empty()
    } else if takes(pick, viewers.last()) {
        ids_of(viewers.drop_last(), pick).push(viewers.last().id)
    } else {
        ids_of(viewers.drop_last(), pick)
    }
}

/// The clients that are not dead, in order.
pub open spec fn alive(viewers: Seq<ClientView>) -> Seq<ClientView>
    decreases viewers.len(),
{
    if viewers.len() == 0 {
        Seq::empty()
    } else if viewers.last().dead {
        alive(viewers.drop_last())
    } else {
        alive(viewers.drop_last()).push(viewers.last())
    }
}

/// The state of a session.
pub ghost struct SessionView {
    pub mirror: MirrorView,
    /// Connections that were greeted and have not spoken yet.
    pub pending: Seq<u64>,
    pub viewers: Seq<ClientView>,
    /// The monitor connection, at most one; it does not count as a viewer.
    pub monitor: Option<u64>,
    /// Rank of the host terminal in the size-precedence order, as reported by
    /// the most recent init; until one says otherwise, viewers outrank it.
    pub host_rank: u32,
    /// Whether a host-role client currently holds a headless session's host
    /// slot.
    pub host_attached: bool,
    pub headless: bool,
    pub readonly: bool,
    pub bell: BellView,
    pub input: QueueView,
    pub next_id: nat,
}

/// What is written to the host terminal: nothing where there is none, or where
/// there is nothing to write.
pub open spec fn host_write(headless: bool, bytes: Seq<u8>) -> Seq<Act> {
    if headless || bytes.len() == 0 {
        Seq::empty()
    } else {
        seq![Act::WriteHost(bytes)]
    }
}

/// How a change of the view is applied: the child is resized, then the host
/// terminal written.
pub open spec fn transition_acts(
    headless: bool,
    child_size: Option<(u16, u16)>,
    host_output: Seq<u8>,
) -> Seq<Act> {
    (match child_size {
        Some((rows, cols)) => seq![Act::ResizePty { rows, cols }],
        None => Seq::empty(),
    }) + host_write(headless, host_output)
}

impl SessionView {
    pub open spec fn wf(self) -> bool {
        &&& self.mirror.wf()
        &&& self.bell.wf()
        &&& self.bell.window == BELL_DEBOUNCE
        &&& self.input.wf()
        &&& self.next_id <= u64::MAX
        &&& forall|i: int|
            0 <= i < self.viewers.len() ==> positive(
                (#[trigger] self.viewers[i]).height,
                self.viewers[i].width,
            )
    }

    /// Whether the archive's line count cannot overflow in one step.
    pub open spec fn has_room(self) -> bool {
        self.mirror.history.next <= HISTORY_CEILING
    }

    /// The client whose size the stream would run at.
    pub open spec fn best(self) -> Option<nat> {
        best_of(self.viewers, self.host_rank, self.viewers.len())
    }

    /// The dimensions the stream runs at, as rows and columns: those of the
    /// best-ranked viewing client, or those of the host terminal where a
    /// physical one outranks every viewer; none where nobody views.
    pub open spec fn target(self) -> Option<(u16, u16)> {
        match self.best() {
            None => None,
            Some(i) => {
                let c = self.viewers[i as int];
                if self.headless || rank_of(c, self.host_rank) <= self.host_rank {
                    Some((c.height, c.width))
                } else {
                    Some((self.mirror.host_rows, self.mirror.host_cols))
                }
            },
        }
    }

    /// Whether the view has to change for the stream to run at this size.
    pub open spec fn must_change(self, rows: u16, cols: u16) -> bool {
        match self.mirror.view {
            None => true,
            Some(v) => v.simulated || v.rows != rows || v.cols != cols,
        }
    }

    /// The state after a view of this size was started.
    pub open spec fn with_view(self, view: View) -> SessionView {
        SessionView { mirror: self.mirror.viewing(view), ..self }
    }

    /// What starting a view does to the child and the host.
    pub open spec fn view_acts(self, view: View) -> Seq<Act> {
        let m = self.mirror.viewing(view);
        transition_acts(
            self.headless,
            Some((view.rows, view.cols)),
            encode_utf8(VIEW_HOST_PRELUDE@) + m.crop_bytes() + m.full_bytes(),
        )
    }

    /// What ending the view does to the child and the host.
    pub open spec fn unview_acts(self) -> Seq<Act> {
        transition_acts(
            self.headless,
            Some((self.mirror.host_rows, self.mirror.host_cols)),
            self.mirror.zone_bytes() + encode_utf8(CLEAR@) + encode_utf8(RESET_INPUT_MODES@),
        )
    }

    /// Whether viewer `i` gets a fresh snapshot.
    pub open spec fn snapshot_goes_to(
        changed: bool,
        force_for: Option<int>,
    ) -> spec_fn(int, ClientView) -> bool {
        |i: int, c: ClientView| is_viewing(c) && (changed || force_for == Some(i))
    }

    /// The state after the view was re-decided from the size-precedence ranks
    /// of everyone currently viewing.
    pub open spec fn refreshed(self, force_for: Option<int>) -> SessionView {
        match self.target() {
            None => if !self.headless && (self.mirror.view matches Some(v) && !v.simulated) {
                SessionView { mirror: self.mirror.unviewed(), ..self }
            } else {
                self
            },
            Some((rows, cols)) => if self.must_change(rows, cols) || force_for is Some {
                self.with_view(View { rows, cols, simulated: false })
            } else {
                self
            },
        }
    }

    /// What re-deciding the view does: the view is started, restarted or
    /// ended; when the dimensions change, every viewing client gets a fresh
    /// snapshot, and `force_for` in any case.
    pub open spec fn refresh_acts(self, force_for: Option<int>) -> Seq<Act> {
        match self.target() {
            None => if !self.headless && (self.mirror.view matches Some(v) && !v.simulated) {
                self.unview_acts()
            } else {
                Seq::empty()
            },
            Some((rows, cols)) => {
                let changed = self.must_change(rows, cols);
                let view = View { rows, cols, simulated: false };
                if changed || force_for is Some {
                    self.view_acts(view).push(
                        Act::Send {
                            to: ids_where(
                                self.viewers,
                                Self::snapshot_goes_to(changed, force_for),
                                self.viewers.len(),
                            ),
                            msg: SessionMsg::Snapshot {
                                data: base64_text(self.mirror.snapshot(view)),
                                width: cols,
                                height: rows,
                                history_next: self.mirror.viewing(view).history.next as u64,
                            },
                        },
                    )
                } else {
                    Seq::empty()
                }
            },
        }
    }

    /// Whether a living client holds the host role.
    pub open spec fn host_role_held(self) -> bool {
        exists|i: int|
            0 <= i < self.viewers.len() && !(#[trigger] self.viewers[i]).dead
                && self.viewers[i].role == Role::Host
    }

    /// The ids of everyone but the pending connections: the monitor, then the
    /// viewers that a choice takes.
    pub open spec fn audience(self, pick: Pick) -> Seq<u64> {
        (match self.monitor {
            Some(id) => seq![id],
            None => Seq::empty(),
        }) + ids_of(self.viewers, pick)
    }

    /// The state after a change of the host role's occupancy was noticed.
    pub open spec fn occupancy_noted(self) -> SessionView {
        SessionView { host_attached: self.host_role_held(), ..self }
    }

    /// How a change of the host role's occupancy is reported.
    pub open spec fn occupancy_acts(self) -> Seq<Act> {
        if self.host_role_held() == self.host_attached {
            Seq::empty()
        } else {
            seq![
                Act::Send {
                    to: self.audience(Pick::Alive),
                    msg: SessionMsg::HostChanged { attached: self.host_role_held() },
                },
            ]
        }
    }

    /// The state without its dead clients.
    pub open spec fn without_dead(self) -> SessionView {
        SessionView { viewers: alive(self.viewers), ..self }
    }

    /// What sweeping out the dead clients and re-deciding the view does.
    pub open spec fn sweep_acts(self) -> Seq<Act> {
        seq![Act::Close(ids_of(self.viewers, Pick::Dead))] + self.without_dead().refresh_acts(None)
    }

    /// The state after a send to a client failed: the monitor is dropped, a
    /// viewer is marked dead.
    pub open spec fn after_failure(self, id: u64) -> SessionView {
        SessionView {
            monitor: if self.monitor == Some(id) {
                None
            } else {
                self.monitor
            },
            viewers: self.viewers.map_values(
                |c: ClientView|
                    if c.id == id {
                        ClientView { dead: true, ..c }
                    } else {
                        c
                    },
            ),
            ..self
        }
    }
}

impl SessionView {
    /// Why an init is refused, if it is.
    pub open spec fn init_refusal(
        self,
        version: u32,
        width: u16,
        height: u16,
        role: Role,
        force: bool,
    ) -> Option<Seq<char>> {
        if version != PROTOCOL_VERSION {
            Some(
                "unsupported protocol version "@ + decimal(version as nat) + " (expected "@
                    + decimal(PROTOCOL_VERSION as nat) + ")"@,
            )
        } else if !positive(height, width) {
            Some("invalid device dimensions"@)
        } else if role == Role::Host && !self.headless {
            Some("this session has a real host terminal; use g2mirror-view to watch it"@)
        } else if role == Role::Host && self.host_role_held() && !force {
            Some("session is already attached; g2mirror --attach --force takes it over"@)
        } else {
            None
        }
    }

    /// Whether a new client of this role displaces the current host.
    pub open spec fn displaces(self, role: Role) -> bool {
        role == Role::Host && self.host_role_held()
    }

    /// The state after a client was admitted; a host-role client displaces the
    /// current holder.
    pub open spec fn admitted(self, client: ClientView, host_size_rank: Option<u32>) -> SessionView {
        let viewers = if self.displaces(client.role) {
            self.viewers.map_values(
                |c: ClientView|
                    if c.role == Role::Host {
                        ClientView { dead: true, ..c }
                    } else {
                        c
                    },
            )
        } else {
            self.viewers
        };
        SessionView {
            viewers: viewers.push(client),
            host_rank: match host_size_rank {
                Some(rank) => rank,
                None => self.host_rank,
            },
            ..self
        }
    }

    /// How a client learns the current title, if there is one.
    pub open spec fn title_acts(self, id: u64) -> Seq<Act> {
        match self.mirror.title {
            Some(title) => seq![Act::Send { to: seq![id], msg: SessionMsg::Title { title } }],
            None => Seq::empty(),
        }
    }

    /// What admitting a client does.
    pub open spec fn admission_acts(self, client: ClientView) -> Seq<Act> {
        (if self.displaces(client.role) {
            seq![
                Act::Send {
                    to: ids_of(self.viewers, Pick::HostRole),
                    msg: SessionMsg::Error {
                        message: "host role taken over by another attach client"@,
                    },
                },
            ]
        } else {
            Seq::empty()
        }) + self.title_acts(client.id)
    }

    /// The client an init describes.
    pub open spec fn newcomer(
        id: u64,
        device: Seq<char>,
        width: u16,
        height: u16,
        size_rank: Option<u32>,
        role: Role,
    ) -> ClientView {
        ClientView {
            state: ClientState::Ready,
            device,
            width,
            height,
            size_rank: match size_rank {
                Some(rank) => rank,
                None => 0,
            },
            role,
            id,
            dead: false,
        }
    }

    /// The state after a pending connection's first message.
    pub open spec fn after_first(self, id: u64, msg: ToSession) -> SessionView {
        match msg {
            ToSession::Init {
                version,
                device,
                width,
                height,
                size_rank,
                host_size_rank,
                role,
                force,
            } => match self.init_refusal(version, width, height, role, force) {
                Some(_) => self,
                None => self.admitted(
                    Self::newcomer(id, device@, width, height, size_rank, role),
                    host_size_rank,
                ),
            },
            ToSession::Monitor { version } => if version == PROTOCOL_VERSION {
                SessionView { monitor: Some(id), ..self }
            } else {
                self
            },
            _ => self,
        }
    }

    /// An answer after which the connection is closed.
    pub open spec fn turned_away(id: u64, message: Seq<char>) -> Seq<Act> {
        seq![
            Act::Send { to: seq![id], msg: SessionMsg::Error { message } },
            Act::Close(seq![id]),
        ]
    }

    /// What a pending connection's first message does: it classifies the
    /// connection as a viewer (a device, via init) or the monitor (at most
    /// one: a new one replaces the previous).
    pub open spec fn first_acts(self, id: u64, msg: ToSession) -> Seq<Act> {
        match msg {
            ToSession::Init {
                version,
                device,
                width,
                height,
                size_rank,
                host_size_rank,
                role,
                force,
            } => match self.init_refusal(version, width, height, role, force) {
                Some(message) => Self::turned_away(id, message).push(Act::Sweep),
                None => self.admission_acts(
                    Self::newcomer(id, device@, width, height, size_rank, role),
                ).push(Act::Sweep),
            },
            ToSession::Monitor { version } => if version == PROTOCOL_VERSION {
                (match self.monitor {
                    Some(previous) => seq![Act::Close(seq![previous])],
                    None => Seq::empty(),
                }) + self.title_acts(id)
            } else {
                Self::turned_away(
                    id,
                    "unsupported protocol version "@ + decimal(version as nat),
                )
            },
            _ => Self::turned_away(id, "first message must be init or monitor"@),
        }
    }
}

/// The first client with an id, from index `from` on.
pub open spec fn find_client(viewers: Seq<ClientView>, id: u64, from: int) -> Option<int>
    decreases viewers.len() - from,
{
    if from >= viewers.len() {
        None
    } else if viewers[from].id == id {
        Some(from)
    } else {
        find_client(viewers, id, from + 1)
    }
}

/// An archived line as a message carries it.
pub open spec fn line_message(record: RecordView) -> LineView {
    LineView { data: base64_text(record.bytes), width: record.width, wrapped: record.wrapped }
}

/// How many lines a history request is answered with at most.
pub open spec fn fetch_limit(limit: Option<u32>) -> u32 {
    match limit {
        Some(n) => if n <= DEFAULT_FETCH_LIMIT {
            n
        } else {
            DEFAULT_FETCH_LIMIT
        },
        None => DEFAULT_FETCH_LIMIT,
    }
}

/// The reply to a history request.
pub open spec fn history_reply(h: HistoryView, before: u64, limit: Option<u32>) -> SessionMsg {
    let end = h.page_end(before);
    let start = page_start(h.lines, end, fetch_limit(limit));
    SessionMsg::HistoryLines {
        start: (h.oldest() + start) as u64,
        oldest: h.oldest() as u64,
        next: h.next as u64,
        lines: h.lines.subrange(start as int, end as int).map_values(
            |r: RecordView| line_message(r),
        ),
    }
}

/// Whether the lines that a history reply carries decode to the bytes of the
/// archived lines at their indices.
pub open spec fn lines_decode(msg: SessionMsg, h: HistoryView) -> bool {
    match msg {
        SessionMsg::HistoryLines { start, oldest, lines, .. } => forall|k: int|
            0 <= k < lines.len() ==> base64_bytes((#[trigger] lines[k]).data) == Ok::<
                Seq<u8>,
                Seq<char>,
            >(h.lines[start - oldest + k].bytes),
        _ => false,
    }
}

impl SessionView {
    /// The state with viewer `i` replaced.
    pub open spec fn with_client(self, i: int, c: ClientView) -> SessionView {
        SessionView { viewers: self.viewers.update(i, c), ..self }
    }

    /// The state after viewer `i` broke the protocol: it is dropped.
    pub open spec fn failing(self, i: int) -> SessionView {
        self.with_client(i, ClientView { dead: true, ..self.viewers[i] })
    }

    /// A message to viewer `i` alone.
    pub open spec fn answer(self, i: int, msg: SessionMsg) -> Seq<Act> {
        seq![Act::Send { to: seq![self.viewers[i].id], msg }]
    }

    /// An error answer to viewer `i`.
    pub open spec fn error_answer(self, i: int, message: Seq<char>) -> Seq<Act> {
        self.answer(i, SessionMsg::Error { message })
    }

    /// What is wrong with an input message, if anything is.
    pub open spec fn input_fault(data: Seq<char>, delays: Seq<crate::protocol::InputDelay>) -> Option<
        Seq<char>,
    > {
        match base64_bytes(data) {
            Err(e) => Some("invalid input encoding: "@ + e),
            Ok(bytes) => if delays.len() > MAX_INPUT_DELAYS {
                Some("too many input delays (max "@ + decimal(MAX_INPUT_DELAYS as nat) + ")"@)
            } else if !delays_fit(delays, bytes.len()) {
                Some("input delay offsets must be non-decreasing and within the data"@)
            } else {
                None
            },
        }
    }

    /// The state with viewer `i` at new dimensions.
    pub open spec fn with_dims(self, i: int, width: u16, height: u16) -> SessionView {
        self.with_client(i, ClientView { width, height, ..self.viewers[i] })
    }

    /// The state with viewer `i` in another protocol state.
    pub open spec fn with_state(self, i: int, state: ClientState) -> SessionView {
        self.with_client(i, ClientView { state, ..self.viewers[i] })
    }

    /// The state after a message from viewer `i` (past init).
    pub open spec fn after_message(self, i: int, msg: ToSession) -> SessionView {
        match msg {
            ToSession::Init { .. } => self.failing(i),
            ToSession::Monitor { .. } => self.failing(i),
            ToSession::Resize { width, height } => if !positive(height, width) {
                self.failing(i)
            } else {
                self.with_dims(i, width, height).refreshed(None)
            },
            ToSession::Input { data, delays } => if self.readonly {
                self
            } else if Self::input_fault(data@, delays@) is Some {
                self.failing(i)
            } else {
                SessionView {
                    input: QueueView {
                        chunks: self.input.chunks + split_at_delays(
                            base64_bytes(data@)->Ok_0,
                            delays@,
                        ),
                        ..self.input
                    },
                    ..self
                }
            },
            ToSession::View => self.with_state(i, ClientState::Viewing).refreshed(Some(i)),
            ToSession::History { .. } => self,
            ToSession::Unview => if self.viewers[i].state == ClientState::Viewing {
                self.with_state(i, ClientState::Ready).refreshed(None)
            } else {
                self
            },
        }
    }

    /// What a message from viewer `i` (past init) does, before the sweep.
    pub open spec fn message_acts(self, i: int, msg: ToSession) -> Seq<Act> {
        match msg {
            ToSession::Init { .. } => self.error_answer(i, "duplicate init"@),
            ToSession::Monitor { .. } => self.error_answer(i, "already initialized as a viewer"@),
            ToSession::Resize { width, height } => if !positive(height, width) {
                self.error_answer(i, "invalid resize dimensions"@)
            } else {
                self.with_dims(i, width, height).refresh_acts(None)
            },
            ToSession::Input { data, delays } => if self.readonly {
                self.error_answer(i, "session is read-only"@)
            } else {
                match Self::input_fault(data@, delays@) {
                    Some(message) => self.error_answer(i, message),
                    None => seq![Act::PumpInput],
                }
            },
            ToSession::View => self.with_state(i, ClientState::Viewing).refresh_acts(Some(i)),
            ToSession::History { before, limit } => self.answer(
                i,
                history_reply(self.mirror.history, before, limit),
            ),
            ToSession::Unview => if self.viewers[i].state == ClientState::Viewing {
                self.with_state(i, ClientState::Ready).refresh_acts(None)
            } else {
                Seq::empty()
            },
        }
    }
}

/// Where an id stands among the pending connections, from index `from` on.
pub open spec fn find_pending(pending: Seq<u64>, id: u64, from: int) -> Option<int>
    decreases pending.len() - from,
{
    if from >= pending.len() {
        None
    } else if pending[from] == id {
        Some(from)
    } else {
        find_pending(pending, id, from + 1)
    }
}

impl SessionView {
    /// The state after a connection spoke, or ended (`None`).
    pub open spec fn after_arrival(self, id: u64, msg: Option<ToSession>) -> SessionView {
        match find_pending(self.pending, id, 0) {
            Some(i) => {
                let rest = SessionView { pending: self.pending.remove(i), ..self };
                match msg {
                    Some(m) => rest.after_first(id, m),
                    None => rest,
                }
            },
            None => match msg {
                None => self.after_failure(id),
                Some(m) => match find_client(self.viewers, id, 0) {
                    Some(i) => if self.monitor == Some(id) {
                        self
                    } else {
                        self.after_message(i, m)
                    },
                    None => self,
                },
            },
        }
    }

    /// What a connection's message, or its end (`None`), does: a pending
    /// connection's first message classifies it, a monitor is only listened to
    /// for its hangup, and a viewer's message is handled.
    pub open spec fn arrival_acts(self, id: u64, msg: Option<ToSession>) -> Seq<Act> {
        match find_pending(self.pending, id, 0) {
            Some(_) => match msg {
                Some(m) => self.first_acts(id, m),
                None => seq![Act::Close(seq![id])],
            },
            None => if self.monitor == Some(id) {
                match msg {
                    Some(_) => Seq::empty(),
                    None => seq![Act::Close(seq![id])],
                }
            } else {
                match msg {
                    None => seq![Act::Sweep],
                    Some(m) => match find_client(self.viewers, id, 0) {
                        Some(i) => self.message_acts(i, m).push(Act::Sweep),
                        None => Seq::empty(),
                    },
                }
            },
        }
    }
}

/// Control characters: they could break a title out of its escape sequence.
pub open spec fn is_control(c: char) -> bool {
    c <= '\u{1f}' || ('\u{7f}' <= c && c <= '\u{9f}')
}

/// `text` without its control characters.
pub open spec fn without_controls(text: Seq<char>) -> Seq<char>
    decreases text.len(),
{
    if text.len() == 0 {
        Seq::empty()
    } else if is_control(text.last()) {
        without_controls(text.drop_last())
    } else {
        without_controls(text.drop_last()).push(text.last())
    }
}

/// Where the hotkey first occurs, from `from` on; the length where it does not.
pub open spec fn hotkey_at(bytes: Seq<u8>, from: int) -> int
    decreases bytes.len() - from,
{
    if from >= bytes.len() {
        bytes.len() as int
    } else if bytes[from] == HOTKEY {
        from
    } else {
        hotkey_at(bytes, from + 1)
    }
}

/// What is written to the child's terminal: nothing where there is nothing to
/// write.
pub open spec fn pty_write(bytes: Seq<u8>) -> Seq<Act> {
    if bytes.len() == 0 {
        Seq::empty()
    } else {
        seq![Act::WritePty(bytes)]
    }
}

/// The view of the hotkey-simulated device.
pub open spec fn simulated_view() -> View {
    View { rows: SIM_ROWS, cols: SIM_COLS, simulated: true }
}

impl SessionView {
    /// Whether a chunk of output rings the bell while someone listens.
    pub open spec fn rings(self, bytes: Seq<u8>) -> bool {
        self.mirror.after_slices(bytes).bells > 0 && self.monitor is Some
    }

    /// The state after a chunk of child output.
    pub open spec fn after_output(self, bytes: Seq<u8>, now: nat, at: u64) -> SessionView {
        SessionView {
            mirror: self.mirror.processed(bytes),
            bell: if self.rings(bytes) {
                bell_step(self.bell, BellEvent::Bell { now, at }).0
            } else {
                self.bell
            },
            ..self
        }
    }

    /// How a bell reaches the monitor, if there is one.
    pub open spec fn bell_acts(self, at: Option<u64>) -> Seq<Act> {
        match (self.monitor, at) {
            (Some(id), Some(at)) => seq![Act::Send { to: seq![id], msg: SessionMsg::Bell { at } }],
            _ => Seq::empty(),
        }
    }

    /// How a chunk of output reaches the viewing clients.
    pub open spec fn stream_acts(self, bytes: Seq<u8>) -> Seq<Act> {
        match self.mirror.shadow {
            Some(shadow) => {
                let data = vt_state_diff(self.mirror.after_slices(bytes).log, shadow);
                if data.len() > 0 {
                    seq![
                        Act::Send {
                            to: ids_of(self.viewers, Pick::Viewing),
                            msg: SessionMsg::Output { data: base64_text(data) },
                        },
                    ]
                } else {
                    Seq::empty()
                }
            },
            None => Seq::empty(),
        }
    }

    /// How a new title reaches everyone.
    pub open spec fn retitle_acts(self, bytes: Seq<u8>) -> Seq<Act> {
        match self.mirror.title_change(bytes) {
            Some(title) => seq![
                Act::Send { to: self.audience(Pick::All), msg: SessionMsg::Title { title } },
            ],
            None => Seq::empty(),
        }
    }

    /// What a chunk of child output does: the host is repainted, bells are
    /// reported to the monitor, the viewing clients get the stream, and
    /// everyone a changed title.
    pub open spec fn output_acts(self, bytes: Seq<u8>, now: nat, at: u64) -> Seq<Act> {
        host_write(self.headless, self.mirror.host_bytes(bytes)) + (if self.rings(bytes) {
            self.bell_acts(bell_step(self.bell, BellEvent::Bell { now, at }).1)
        } else {
            Seq::empty()
        }) + self.stream_acts(bytes) + self.retitle_acts(bytes)
    }

    /// The state after the hotkey: the simulated device's view is toggled;
    /// ignored while a real client is viewing.
    pub open spec fn toggled(self) -> SessionView {
        match self.mirror.view {
            None => self.with_view(simulated_view()),
            Some(v) => if v.simulated {
                SessionView { mirror: self.mirror.unviewed(), ..self }
            } else {
                self
            },
        }
    }

    /// What the hotkey does.
    pub open spec fn toggle_acts(self) -> Seq<Act> {
        match self.mirror.view {
            None => self.view_acts(simulated_view()),
            Some(v) => if v.simulated {
                self.unview_acts()
            } else {
                Seq::empty()
            },
        }
    }

    /// The state after keyboard input.
    pub open spec fn after_keys(self, bytes: Seq<u8>) -> SessionView
        decreases bytes.len(),
    {
        let at = hotkey_at(bytes, 0);
        if at < 0 || at >= bytes.len() {
            self
        } else {
            self.toggled().after_keys(bytes.skip(at + 1))
        }
    }

    /// What keyboard input does: each hotkey toggles the simulated view, the
    /// rest goes to the child.
    pub open spec fn key_acts(self, bytes: Seq<u8>) -> Seq<Act>
        decreases bytes.len(),
    {
        let at = hotkey_at(bytes, 0);
        if at < 0 || at >= bytes.len() {
            pty_write(bytes)
        } else {
            pty_write(bytes.take(at)) + self.toggle_acts() + self.toggled().key_acts(
                bytes.skip(at + 1),
            )
        }
    }

    /// What the refresh key does.
    pub open spec fn refresh_key_acts(self, bytes: Seq<u8>) -> Seq<Act> {
        if bytes.contains(REFRESH_KEY) {
            host_write(
                self.headless,
                match self.mirror.view {
                    None => Seq::empty(),
                    Some(_) => self.mirror.crop_bytes() + self.mirror.full_bytes(),
                },
            )
        } else {
            Seq::empty()
        }
    }

    /// What a resize of the host terminal does.
    pub open spec fn resize_acts(self, rows: u16, cols: u16) -> Seq<Act> {
        transition_acts(
            self.headless,
            match self.mirror.view {
                None => Some((rows, cols)),
                Some(_) => None,
            },
            match self.mirror.view {
                None => Seq::empty(),
                Some(_) => self.mirror.reframe_bytes(rows, cols),
            },
        ).push(Act::Sweep)
    }
}

/// The most lines one change of the view can archive: everything staged, and
/// every row of the screen.
pub const STEP_LINES: u64 = 69_632;

pub open spec fn opt_int(i: Option<usize>) -> Option<int> {
    match i {
        Some(i) => Some(i as int),
        None => None,
    }
}

proof fn best_of_is_best(viewers: Seq<ClientView>, host_rank: u32, n: nat)
    requires
        n <= viewers.len(),
    ensures
        match best_of(viewers, host_rank, n) {
            Some(i) => {
                &&& i < n
                &&& is_viewing(viewers[i as int])
                &&& forall|j: int|
                    0 <= j < n && is_viewing(#[trigger] viewers[j]) ==> !outranks(
                        viewers[j],
                        viewers[i as int],
                        host_rank,
                    )
            },
            None => forall|j: int| 0 <= j < n ==> !is_viewing(#[trigger] viewers[j]),
        },
    decreases n,
{
    if n > 0 {
        best_of_is_best(viewers, host_rank, (n - 1) as nat);
    }
}

/// The stream's size is decided by a viewing client that no other outranks; if
/// nobody is viewing there is none.
pub proof fn best_client_is_outranked_by_none(s: SessionView)
    ensures
        match s.best() {
            Some(i) => {
                &&& i < s.viewers.len()
                &&& is_viewing(s.viewers[i as int])
                &&& forall|j: int|
                    0 <= j < s.viewers.len() && is_viewing(#[trigger] s.viewers[j]) ==> !outranks(
                        s.viewers[j],
                        s.viewers[i as int],
                        s.host_rank,
                    )
            },
            None => forall|j: int| 0 <= j < s.viewers.len() ==> !is_viewing(#[trigger] s.viewers[j]),
        },
{
    best_of_is_best(s.viewers, s.host_rank, s.viewers.len());
}

/// While somebody views, the app runs at the size the precedence says. When
/// nobody does, a session with a terminal shows no device's view, and a
/// headless one keeps the last.
pub proof fn view_follows_precedence(s: SessionView, force_for: Option<int>)
    ensures
        match s.target() {
            Some((rows, cols)) => s.refreshed(force_for).mirror.view == Some(
                (View { rows, cols, simulated: false }),
            ),
            None => if s.headless {
                s.refreshed(force_for) == s
            } else {
                s.refreshed(force_for).mirror.view matches Some(v) ==> v.simulated
            },
        },
{
    reveal(MirrorView::viewing);
    reveal(MirrorView::unviewed);
}

/// Re-deciding the view twice is re-deciding it once.
pub proof fn refresh_settles(s: SessionView)
    ensures
        s.refreshed(None).refreshed(None) == s.refreshed(None),
        s.refreshed(None).refresh_acts(None) == Seq::<Act>::empty(),
{
    reveal(MirrorView::viewing);
    reveal(MirrorView::unviewed);
    assert(s.refreshed(None).mirror.host_rows == s.mirror.host_rows);
    assert(s.refreshed(None).mirror.host_cols == s.mirror.host_cols);
    assert(s.refreshed(None).target() == s.target());
}

/// A read-only session takes no input from clients: it answers with an error,
/// queues nothing and keeps the connection.
pub proof fn readonly_sessions_take_no_input(s: SessionView, i: int, msg: ToSession)
    requires
        s.readonly,
        msg is Input,
    ensures
        s.after_message(i, msg) == s,
        s.message_acts(i, msg) == s.error_answer(i, "session is read-only"@),
{
}

/// No two living clients hold the host role.
pub open spec fn one_host(viewers: Seq<ClientView>) -> bool {
    forall|i: int, j: int|
        0 <= i < viewers.len() && 0 <= j < viewers.len() && !(#[trigger] viewers[i]).dead && !(
        #[trigger] viewers[j]).dead && viewers[i].role == Role::Host && viewers[j].role
            == Role::Host ==> i == j
}

/// At most one client holds the host role: a claim is refused, or displaces the
/// holder.
pub proof fn host_role_is_unique(s: SessionView, id: u64, msg: ToSession)
    requires
        one_host(s.viewers),
    ensures
        one_host(s.after_first(id, msg).viewers),
{
    if let ToSession::Init {
        version,
        device,
        width,
        height,
        size_rank,
        host_size_rank,
        role,
        force,
    } = msg {
        if s.init_refusal(version, width, height, role, force) is None {
            let after = s.after_first(id, msg).viewers;
            let n = s.viewers.len() as int;
            assert forall|i: int, j: int|
                0 <= i < after.len() && 0 <= j < after.len() && !(#[trigger] after[i]).dead && !(
                #[trigger] after[j]).dead && after[i].role == Role::Host && after[j].role
                    == Role::Host implies i == j by {
                if i < n && j < n {
                    assert(s.viewers[i].role == after[i].role);
                    assert(s.viewers[j].role == after[j].role);
                } else if i < n {
                    assert(s.viewers[i].role == Role::Host);
                } else if j < n {
                    assert(s.viewers[j].role == Role::Host);
                }
            }
        }
    }
}

/// A session with a terminal of its own never gives the host role away, and a
/// refused client changes nothing.
pub proof fn hosted_sessions_refuse_the_host_role(s: SessionView, id: u64, msg: ToSession)
    requires
        !s.headless,
        msg matches ToSession::Init { role, .. } && role == Role::Host,
    ensures
        s.after_first(id, msg) == s,
{
}

/// The bytes that a list of actions writes to the child.
pub open spec fn to_child(list: Seq<Act>) -> Seq<u8>
    decreases list.len(),
{
    if list.len() == 0 {
        Seq::empty()
    } else {
        to_child(list.drop_last()) + match list.last() {
            Act::WritePty(bytes) => bytes,
            _ => Seq::empty(),
        }
    }
}

/// `bytes` without the hotkeys.
pub open spec fn without_hotkeys(bytes: Seq<u8>) -> Seq<u8>
    decreases bytes.len(),
{
    if bytes.len() == 0 {
        Seq::empty()
    } else if bytes[0] == HOTKEY {
        without_hotkeys(bytes.skip(1))
    } else {
        seq![bytes[0]] + without_hotkeys(bytes.skip(1))
    }
}

proof fn to_child_concat(a: Seq<Act>, b: Seq<Act>)
    ensures
        to_child(a + b) == to_child(a) + to_child(b),
    decreases b.len(),
{
    if b.len() == 0 {
        assert(a + b =~= a);
        assert(to_child(a) + to_child(b) =~= to_child(a));
    } else {
        to_child_concat(a, b.drop_last());
        assert((a + b).drop_last() =~= a + b.drop_last());
        assert((a + b).last() == b.last());
        assert(to_child(a + b) =~= to_child(a) + to_child(b));
    }
}

proof fn plain_bytes_pass(bytes: Seq<u8>, n: int)
    requires
        0 <= n <= bytes.len(),
        forall|k: int| 0 <= k < n ==> bytes[k] != HOTKEY,
    ensures
        without_hotkeys(bytes) == bytes.take(n) + without_hotkeys(bytes.skip(n)),
    decreases n,
{
    if n == 0 {
        assert(bytes.skip(0) =~= bytes);
        assert(bytes.take(0) + without_hotkeys(bytes) =~= without_hotkeys(bytes));
    } else {
        plain_bytes_pass(bytes.skip(1), n - 1);
        assert(bytes.skip(1).skip(n - 1) =~= bytes.skip(n));
        assert(seq![bytes[0]] + bytes.skip(1).take(n - 1) =~= bytes.take(n));
        assert(without_hotkeys(bytes) =~= bytes.take(n) + without_hotkeys(bytes.skip(n)));
    }
}

proof fn hotkey_found(bytes: Seq<u8>, from: int)
    requires
        0 <= from <= bytes.len(),
    ensures
        from <= hotkey_at(bytes, from) <= bytes.len(),
        forall|k: int| from <= k < hotkey_at(bytes, from) ==> bytes[k] != HOTKEY,
        hotkey_at(bytes, from) < bytes.len() ==> bytes[hotkey_at(bytes, from)] == HOTKEY,
    decreases bytes.len() - from,
{
    if from < bytes.len() && bytes[from] != HOTKEY {
        hotkey_found(bytes, from + 1);
    }
}

/// Everything typed reaches the child, in order, except the hotkeys.
pub proof fn typing_reaches_the_child(s: SessionView, bytes: Seq<u8>)
    ensures
        to_child(s.key_acts(bytes)) == without_hotkeys(bytes),
    decreases bytes.len(),
{
    let at = hotkey_at(bytes, 0);
    hotkey_found(bytes, 0);
    plain_bytes_pass(bytes, at);
    assert(to_child(pty_write(bytes.take(at))) =~= bytes.take(at)) by {
        reveal_with_fuel(to_child, 2);
    }
    if at >= bytes.len() {
        assert(bytes.take(at) =~= bytes);
        assert(without_hotkeys(bytes.skip(at)) =~= Seq::<u8>::empty());
    } else {
        let rest = bytes.skip(at + 1);
        typing_reaches_the_child(s.toggled(), rest);
        assert(bytes.skip(at).skip(1) =~= rest);
        toggling_writes_nothing(s);
        to_child_concat(pty_write(bytes.take(at)), s.toggle_acts());
        to_child_concat(
            pty_write(bytes.take(at)) + s.toggle_acts(),
            s.toggled().key_acts(rest),
        );
        assert(bytes.take(at) + Seq::<u8>::empty() =~= bytes.take(at));
    }
}

proof fn toggling_writes_nothing(s: SessionView)
    ensures
        to_child(s.toggle_acts()) == Seq::<u8>::empty(),
{
    reveal_with_fuel(to_child, 3);
    assert(to_child(s.toggle_acts()) =~= Seq::<u8>::empty());
}

} // verus!
