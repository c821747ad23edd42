//! A session claimed into this terminal (`g2mirror --attach`): it is mirrored
//! until the app exits or the detach key is pressed.

use crate::live::{
    refresh_bytes, shown_views, stream_dims, stream_view, Feed, FeedStep, FeedView, LocalScreen,
    ScreenView, ShownLine, ShownView, StepView, MAX_MESSAGE,
};
use crate::protocol::{
    base64_bytes, base64_text, decode_terminal_bytes, encode_terminal_bytes, ClientMsg, FromSession,
    HistoryLine, InputDelay, LineView, Role, SessionMsg, ToSession, PROTOCOL_VERSION,
};
use crate::render::SGR_RESET;
use crate::session::clean_title;
use crate::session_model::{without_controls, REFRESH_KEY};
use crate::terminal::positive;
use crate::text::{decimal, opt_text, push_text};
use vstd::prelude::*;
use vstd::string::*;
use vstd::utf8::*;

verus! {

/// What the attach client is to do.
pub enum Step {
    /// Write bytes to the terminal.
    Write(Vec<u8>),
    /// Send a message to the session.
    Send(ToSession),
}

pub ghost enum StepAct {
    Write(Seq<u8>),
    Send(ClientMsg),
}

impl View for Step {
    type V = StepAct;

    open spec fn view(&self) -> StepAct {
        match *self {
            Step::Write(bytes) => StepAct::Write(bytes@),
            Step::Send(msg) => StepAct::Send(msg@),
        }
    }
}

pub open spec fn step_acts(steps: Seq<Step>) -> Seq<StepAct> {
    steps.map_values(|s: Step| s@)
}

/// What is written: nothing where there is nothing to write.
pub open spec fn written(bytes: Seq<u8>) -> Seq<StepAct> {
    if bytes.len() > 0 {
        seq![StepAct::Write(bytes)]
    } else {
        Seq::empty()
    }
}

fn push_write(out: &mut Vec<Step>, bytes: Vec<u8>)
    ensures
        step_acts(final(out)@) == step_acts(old(out)@) + written(bytes@),
{
    if bytes.len() > 0 {
        out.push(Step::Write(bytes));
    }
    assert(step_acts(out@) =~= step_acts(old(out)@) + written(bytes@));
}

fn push_msg(out: &mut Vec<Step>, msg: ToSession)
    ensures
        step_acts(final(out)@) == step_acts(old(out)@).push(StepAct::Send(msg@)),
{
    out.push(Step::Send(msg));
    assert(step_acts(out@) =~= step_acts(old(out)@).push(StepAct::Send(msg@)));
}

/// The escape sequence that sets a window title, control characters stripped.
pub open spec fn title_bytes(title: Seq<char>) -> Seq<u8> {
    encode_utf8("\x1b]2;"@ + without_controls(title) + "\x07"@)
}

/// The escape sequence that sets a window title, control characters stripped.
pub fn title_sequence(title: &str) -> (r: Vec<u8>)
    ensures
        r@ == title_bytes(title@),
{
    let mut sequence = "\x1b]2;".to_owned();
    sequence.append(clean_title(title).as_str());
    sequence.append("\x07");
    let mut out: Vec<u8> = Vec::new();
    push_text(&mut out, sequence.as_str());
    assert(out@ =~= title_bytes(title@));
    out
}

/// The message that claims a session for a terminal of this size.
pub fn claim(rows: u16, cols: u16, force: bool) -> (r: ToSession)
    ensures
        r@ == (ClientMsg::Init {
            version: PROTOCOL_VERSION,
            device: "g2mirror --attach"@,
            width: cols,
            height: rows,
            size_rank: None,
            host_size_rank: None,
            role: Role::Host,
            force,
        }),
{
    ToSession::Init {
        version: PROTOCOL_VERSION,
        device: "g2mirror --attach".to_owned(),
        width: cols,
        height: rows,
        size_rank: None,
        host_size_rank: None,
        role: Role::Host,
        force,
    }
}

pub ghost struct AttachedView {
    pub rows: u16,
    pub cols: u16,
    pub feed: FeedView,
    pub history_oldest: u64,
    pub detach_key: Option<u8>,
    /// Set when the wrapped app exits; the wrapper closes the socket next.
    pub exit_status: Option<i32>,
    /// Last error the wrapper sent while live.
    pub last_error: Option<Seq<char>>,
    pub detached: bool,
}

/// Where the detach key first occurs in input; the length where it does not.
pub open spec fn detach_at(bytes: Seq<u8>, key: Option<u8>, from: int) -> int
    decreases bytes.len() - from,
{
    if from >= bytes.len() {
        bytes.len() as int
    } else if key == Some(bytes[from]) {
        from
    } else {
        detach_at(bytes, key, from + 1)
    }
}

/// History lines as they are printed.
pub open spec fn lines_shown(lines: Seq<LineView>) -> Seq<ShownView> {
    lines.map_values(|l: LineView| ShownView { data: Some(l.data), wrapped: l.wrapped })
}

/// How a step of the stream is carried out.
pub open spec fn feed_acts(step: StepView) -> Seq<StepAct> {
    (match step.request {
        Some(before) => seq![StepAct::Send(ClientMsg::History { before, limit: None })],
        None => Seq::empty(),
    }) + written(step.output)
}

/// Whether a message is short enough to be handled.
pub open spec fn message_fits(msg: SessionMsg) -> bool {
    match msg {
        SessionMsg::Snapshot { data, .. } => data.len() <= MAX_MESSAGE,
        SessionMsg::Output { data } => data.len() <= MAX_MESSAGE,
        _ => true,
    }
}

impl AttachedView {
    pub open spec fn screen(self) -> ScreenView {
        ScreenView {
            rows: self.rows,
            cols: self.cols,
            lead: Seq::empty(),
            history_oldest: self.history_oldest,
        }
    }

    pub open spec fn wf(self) -> bool {
        positive(self.rows, self.cols) && self.feed.wf()
    }

    /// The state after a session message; `None` where it ends the attach.
    pub open spec fn after(self, msg: SessionMsg) -> AttachedView {
        match msg {
            SessionMsg::Snapshot { data, width, height, history_next } => match base64_bytes(data) {
                Ok(snapshot) => AttachedView {
                    feed: self.feed.after_snapshot(
                        stream_view(height, width, self.rows, self.cols),
                        snapshot,
                        history_next,
                        self.screen(),
                    ),
                    ..self
                },
                Err(_) => self,
            },
            SessionMsg::Output { data } => match base64_bytes(data) {
                Ok(bytes) => AttachedView { feed: self.feed.after_output(bytes), ..self },
                Err(_) => self,
            },
            SessionMsg::HistoryLines { lines, .. } => AttachedView {
                feed: self.feed.after_history(self.screen(), lines_shown(lines)),
                ..self
            },
            SessionMsg::Exit { status } => AttachedView {
                exit_status: match status {
                    Some(code) => Some(code),
                    None => Some(1i32),
                },
                ..self
            },
            SessionMsg::Error { message } => if self.feed is Live {
                AttachedView { last_error: Some(message), ..self }
            } else {
                self
            },
            _ => self,
        }
    }

    /// What a session message does.
    pub open spec fn message_acts(self, msg: SessionMsg) -> Seq<StepAct> {
        match msg {
            SessionMsg::Snapshot { data, width, height, history_next } => match base64_bytes(data) {
                Ok(snapshot) => feed_acts(
                    self.feed.snapshot_step(
                        stream_view(height, width, self.rows, self.cols),
                        snapshot,
                        history_next,
                        self.screen(),
                    ),
                ),
                Err(_) => Seq::empty(),
            },
            SessionMsg::Output { data } => match base64_bytes(data) {
                Ok(bytes) => feed_acts(self.feed.output_step(bytes)),
                Err(_) => Seq::empty(),
            },
            SessionMsg::HistoryLines { lines, .. } => feed_acts(
                self.feed.history_step(self.screen(), lines_shown(lines)),
            ),
            SessionMsg::Title { title } => written(title_bytes(title)),
            _ => Seq::empty(),
        }
    }

    /// Why a session message ends the attach, if it does: an error before the
    /// view is up is fatal (a refused init); while live it is a policy reply.
    pub open spec fn fatal(self, msg: SessionMsg) -> Option<Seq<char>> {
        match msg {
            SessionMsg::Error { message } => if self.feed is Live {
                None
            } else {
                Some(message)
            },
            _ => None,
        }
    }

    /// What input does: up to the detach key it goes to the session, and the
    /// refresh key also repaints; the detach key ends the view.
    pub open spec fn key_acts(self, bytes: Seq<u8>) -> Seq<StepAct> {
        let at = detach_at(bytes, self.detach_key, 0);
        let input = bytes.take(at);
        (if input.contains(REFRESH_KEY) {
            written(refresh_bytes(self.feed))
        } else {
            Seq::empty()
        }) + (if input.len() > 0 {
            seq![
                StepAct::Send(
                    ClientMsg::Input { data: base64_text(input), delays: Seq::empty() },
                ),
            ]
        } else {
            Seq::empty()
        }) + (if at < bytes.len() {
            seq![StepAct::Send(ClientMsg::Unview)]
        } else {
            Seq::empty()
        })
    }
}

/// How an attach ended.
pub struct Ending {
    /// What is told on stderr.
    pub message: String,
    /// The exit code.
    pub code: i32,
}

pub struct Attached {
    rows: u16,
    cols: u16,
    feed: Feed,
    history_oldest: u64,
    detach_key: Option<u8>,
    exit_status: Option<i32>,
    /// Last error the wrapper sent while live (e.g. a --force takeover
    /// notice just before it drops us); reported if the connection then
    /// closes unexpectedly.
    last_error: Option<String>,
    detached: bool,
}

impl View for Attached {
    type V = AttachedView;

    closed spec fn view(&self) -> AttachedView {
        AttachedView {
            rows: self.rows,
            cols: self.cols,
            feed: self.feed.state(),
            history_oldest: self.history_oldest,
            detach_key: self.detach_key,
            exit_status: self.exit_status,
            last_error: opt_text(self.last_error),
            detached: self.detached,
        }
    }
}

fn push_feed_step(out: &mut Vec<Step>, step: FeedStep)
    ensures
        step_acts(final(out)@) == step_acts(old(out)@) + feed_acts(step@),
{
    if let Some(before) = step.request {
        push_msg(out, ToSession::History { before, limit: None });
    }
    push_write(out, step.output);
    assert(step_acts(out@) =~= step_acts(old(out)@) + feed_acts(step@));
}

impl Attached {
    pub closed spec fn wf(&self) -> bool {
        positive(self.rows, self.cols) && self.feed.wf()
    }

    pub proof fn lemma_wf(&self)
        requires
            self.wf(),
        ensures
            self@.wf(),
    {
        self.feed.lemma_wf();
    }

    /// A session claimed into a terminal of this size, whose history goes back
    /// to `history_oldest`.
    pub fn new(rows: u16, cols: u16, history_oldest: u64, detach_key: Option<u8>) -> (r: Self)
        requires
            positive(rows, cols),
        ensures
            r.wf(),
            r@ == (AttachedView {
                rows,
                cols,
                feed: FeedView::Waiting,
                history_oldest,
                detach_key,
                exit_status: None,
                last_error: None,
                detached: false,
            }),
    {
        Attached {
            rows,
            cols,
            feed: Feed::Waiting,
            history_oldest,
            detach_key,
            exit_status: None,
            last_error: None,
            detached: false,
        }
    }

    /// Whether one more message can be handled without overflowing a count.
    pub fn has_room(&self) -> (r: bool)
        requires
            self.wf(),
        ensures
            r == self@.feed.has_room(),
    {
        self.feed.has_room()
    }

    /// Whether the detach key was pressed.
    pub fn detached(&self) -> (r: bool)
        ensures
            r == self@.detached,
    {
        self.detached
    }

    fn screen(&self) -> (r: LocalScreen)
        ensures
            r@ == self@.screen(),
    {
        let r = LocalScreen {
            rows: self.rows,
            cols: self.cols,
            lead: String::new(),
            history_oldest: self.history_oldest,
        };
        r
    }

    /// Handle one session message; `Err` ends the attach.
    pub fn on_message(&mut self, msg: FromSession) -> (r: Result<Vec<Step>, String>)
        requires
            old(self).wf(),
            old(self)@.feed.has_room(),
            message_fits(msg@),
        ensures
            final(self).wf(),
            final(self)@ == old(self)@.after(msg@),
            match old(self)@.fatal(msg@) {
                Some(message) => r matches Err(m) && m@ == message,
                None => r matches Ok(steps) && step_acts(steps@) == old(self)@.message_acts(msg@),
            },
    {
        let mut out: Vec<Step> = Vec::new();
        assert(step_acts(out@) =~= Seq::<StepAct>::empty());
        let ghost start = *self;
        let screen = self.screen();
        match msg {
            FromSession::Snapshot { data, width, height, history_next } => {
                if let Ok(snapshot) = decode_terminal_bytes(data.as_str()) {
                    let view = stream_dims(height, width, self.rows, self.cols);
                    let step = self.feed.on_snapshot(&screen, view, snapshot, history_next);
                    push_feed_step(&mut out, step);
                    assert(step_acts(out@) =~= start@.message_acts(msg@));
                }
            },
            FromSession::Output { data } => {
                if let Ok(bytes) = decode_terminal_bytes(data.as_str()) {
                    let step = self.feed.on_output(bytes);
                    push_feed_step(&mut out, step);
                    assert(step_acts(out@) =~= start@.message_acts(msg@));
                }
            },
            FromSession::HistoryLines { start: _, oldest: _, next: _, lines } => {
                let shown = show_lines(&lines);
                let step = self.feed.on_history(&screen, &shown);
                push_feed_step(&mut out, step);
                assert(step_acts(out@) =~= start@.message_acts(msg@));
            },
            FromSession::Title { title } => {
                push_write(&mut out, title_sequence(title.as_str()));
                assert(step_acts(out@) =~= start@.message_acts(msg@));
            },
            FromSession::Exit { status } => {
                let code: i32 = match status {
                    Some(code) => code,
                    None => 1,
                };
                self.exit_status = Some(code);
            },
            FromSession::Error { message } => {
                // Before the view is up an error is fatal (a refused init: not
                // headless, already attached). While live it's a policy reply
                // (e.g. input to a read-only session); remember it only in
                // case the wrapper closes on us next.
                let live = match &self.feed {
                    Feed::Live(_) => true,
                    _ => false,
                };
                if !live {
                    return Err(message);
                }
                self.last_error = Some(message);
            },
            _ => {},
        }
        Ok(out)
    }

    /// The connection ended: after `exit` this is the normal end; otherwise
    /// the wrapper vanished (or dropped us, e.g. a --force takeover).
    pub fn on_closed(&self) -> (r: Result<(), String>)
        ensures
            if self@.exit_status is Some || self@.detached {
                r is Ok
            } else {
                match self@.last_error {
                    Some(e) => r matches Err(m) && m@ == "session closed: "@ + e,
                    None => r matches Err(m) && m@ == "session closed unexpectedly"@,
                }
            },
    {
        if self.exit_status.is_some() || self.detached {
            return Ok(());
        }
        match &self.last_error {
            Some(e) => {
                let mut message = "session closed: ".to_owned();
                message.append(e.as_str());
                Err(message)
            },
            None => Err("session closed unexpectedly".to_owned()),
        }
    }

    /// Keyboard input.
    pub fn on_keys(&mut self, bytes: &[u8]) -> (r: Vec<Step>)
        requires
            old(self).wf(),
        ensures
            final(self).wf(),
            final(self)@ == (AttachedView {
                detached: old(self)@.detached || detach_at(bytes@, old(self)@.detach_key, 0)
                    < bytes@.len(),
                ..old(self)@
            }),
            step_acts(r@) == old(self)@.key_acts(bytes@),
    {
        let mut out: Vec<Step> = Vec::new();
        assert(step_acts(out@) =~= Seq::<StepAct>::empty());
        let len: usize = bytes.len();
        let mut at: usize = 0;
        let mut refresh = false;
        while at < len && self.detach_key != Some(bytes[at])
            invariant
                at <= len == bytes@.len(),
                detach_at(bytes@, self.detach_key, at as int) == detach_at(
                    bytes@,
                    self.detach_key,
                    0,
                ),
                refresh == exists|k: int| 0 <= k < at && #[trigger] bytes@[k] == REFRESH_KEY,
            ensures
                at <= len,
                at == detach_at(bytes@, self.detach_key, 0),
                refresh == exists|k: int| 0 <= k < at && #[trigger] bytes@[k] == REFRESH_KEY,
            decreases len - at,
        {
            if bytes[at] == REFRESH_KEY {
                refresh = true;
            }
            at += 1;
        }
        let input = vstd::slice::slice_subrange(bytes, 0, at);
        proof {
            assert(input@ =~= bytes@.take(at as int));
            if refresh {
                let k = choose|k: int| 0 <= k < at && #[trigger] bytes@[k] == REFRESH_KEY;
                assert(input@[k] == REFRESH_KEY);
            }
            assert(refresh == input@.contains(REFRESH_KEY));
        }
        // Ctrl+L: re-push hidden top rows into the local scrollback and
        // repaint; still forwarded, preserving the app's own ^L behavior.
        if refresh {
            let repaint = self.feed.refresh();
            push_write(&mut out, repaint);
        }
        if at > 0 {
            let delays: Vec<InputDelay> = Vec::new();
            assert(delays@ =~= Seq::<InputDelay>::empty());
            push_msg(&mut out, ToSession::Input { data: encode_terminal_bytes(input), delays });
        }
        if at < len {
            self.detached = true;
            push_msg(&mut out, ToSession::Unview);
        }
        assert(step_acts(out@) =~= old(self)@.key_acts(bytes@));
        out
    }

    /// The terminal was resized: a live view is laid out anew, and the session
    /// told.
    pub fn on_winch(&mut self, rows: u16, cols: u16) -> (r: Vec<Step>)
        requires
            old(self).wf(),
            old(self)@.feed.has_room(),
            positive(rows, cols),
        ensures
            final(self).wf(),
            final(self)@ == (AttachedView {
                rows,
                cols,
                feed: match old(self)@.feed {
                    FeedView::Live(m) => FeedView::Live(m.resized(rows, cols)),
                    other => other,
                },
                ..old(self)@
            }),
            step_acts(r@) == (match old(self)@.feed {
                FeedView::Live(m) => match m.view {
                    None => Seq::empty(),
                    Some(_) => written(m.reframe_bytes(rows, cols)),
                },
                _ => Seq::empty(),
            }).push(StepAct::Send(ClientMsg::Resize { width: cols, height: rows })),
    {
        let mut out: Vec<Step> = Vec::new();
        assert(step_acts(out@) =~= Seq::<StepAct>::empty());
        self.rows = rows;
        self.cols = cols;
        let output = self.feed.on_resize(rows, cols);
        push_write(&mut out, output);
        assert(step_acts(out@) =~= match old(self)@.feed {
            FeedView::Live(m) => match m.view {
                None => Seq::empty(),
                Some(_) => written(m.reframe_bytes(rows, cols)),
            },
            _ => Seq::empty(),
        });
        push_msg(&mut out, ToSession::Resize { width: cols, height: rows });
        out
    }

    /// Bytes that restore the terminal, whatever happened.
    pub fn restore(&self) -> (r: Vec<u8>)
        requires
            self.wf(),
        ensures
            r@ == (match self@.feed {
                FeedView::Live(m) => m.cleanup_bytes(),
                _ => Seq::empty(),
            }) + encode_utf8(SGR_RESET@) + encode_utf8("\x1b[?25h"@),
    {
        let mut out = self.feed.cleanup();
        push_text(&mut out, SGR_RESET);
        push_text(&mut out, "\x1b[?25h");
        out
    }

    /// How the attach ended: detached (the session keeps running), or with the
    /// app's exit status.
    pub fn ending(&self, pid: u32) -> (r: Ending)
        ensures
            if self@.detached {
                r.code == 0 && r.message@
                    == "g2mirror: detached; the session keeps running \u{2014} reattach with: g2mirror -a "@
                    + decimal(pid as nat)
            } else {
                match self@.exit_status {
                    Some(status) => r.code == status && r.message@
                        == "g2mirror: session ended (exit status "@ + signed(status as int) + ")"@,
                    None => r.code == 1 && r.message@ == "g2mirror: session ended"@,
                }
            },
    {
        if self.detached {
            let mut message =
                "g2mirror: detached; the session keeps running \u{2014} reattach with: g2mirror -a ".to_owned();
            crate::text::push_decimal(&mut message, pid as u64);
            return Ending { message, code: 0 };
        }
        match self.exit_status {
            Some(status) => {
                let mut message = "g2mirror: session ended (exit status ".to_owned();
                push_signed(&mut message, status as i64);
                message.append(")");
                Ending { message, code: status }
            },
            None => Ending { message: "g2mirror: session ended".to_owned(), code: 1 },
        }
    }
}

/// A signed number in decimal.
pub open spec fn signed(n: int) -> Seq<char> {
    if n < 0 {
        "-"@ + decimal((-n) as nat)
    } else {
        decimal(n as nat)
    }
}

/// Appends a signed number in decimal.
pub fn push_signed(out: &mut String, n: i64)
    ensures
        final(out)@ == old(out)@ + signed(n as int),
{
    if n < 0 {
        out.append("-");
        let magnitude: u64 = if n == i64::MIN {
            0x8000_0000_0000_0000
        } else {
            (-n) as u64
        };
        crate::text::push_decimal(out, magnitude);
    } else {
        crate::text::push_decimal(out, n as u64);
    }
    assert(out@ =~= old(out)@ + signed(n as int));
}

/// History lines as they are printed.
fn show_lines(lines: &Vec<HistoryLine>) -> (r: Vec<ShownLine>)
    ensures
        shown_views(r@) == lines_shown(lines@.map_values(|l: HistoryLine| l@)),
{
    let mut out: Vec<ShownLine> = Vec::new();
    let mut i: usize = 0;
    while i < lines.len()
        invariant
            i <= lines@.len(),
            out@.len() == i,
            forall|k: int|
                0 <= k < i ==> #[trigger] out@[k]@ == (ShownView {
                    data: Some(lines@[k].data@),
                    wrapped: lines@[k].wrapped,
                }),
        decreases lines@.len() - i,
    {
        out.push(ShownLine { data: Some(lines[i].data.clone()), wrapped: lines[i].wrapped });
        i += 1;
    }
    assert(shown_views(out@) =~= lines_shown(lines@.map_values(|l: HistoryLine| l@)));
    out
}

} // verus!
