//! A session's stream as a client shows it in its own terminal: history is
//! printed into the terminal's native scrollback, then the live viewport is
//! mirrored bottom-anchored.

use crate::mirror::{new_mirror, Mirror, MirrorView, View, STAGE_SCROLLBACK, VIEW_HOST_PRELUDE};
use crate::protocol::{base64_bytes, decode_terminal_bytes};
use crate::render::{cup, cup_bytes, min_int, min_u16, SGR_RESET};
use crate::session_model::{HISTORY_CEILING, STEP_LINES};
use crate::terminal::{is_positive, positive};
use crate::text::{opt_text, push_bytes, push_repeated, push_text, repeated};
use vstd::prelude::*;
use vstd::string::*;
use vstd::utf8::*;
use vstd::view::View as _;

verus! {

pub const ENTER_ALT: &'static str = "\x1b[?1049h\x1b[?25l";

pub const LEAVE_ALT: &'static str = "\x1b[?25h\x1b[?1049l";

/// The longest message text that is handled, far above any real one: what it
/// carries cannot overflow the line count of a local archive.
pub const MAX_MESSAGE: u64 = 0x100_0000_0000;

/// A history line to print: its base64 data, if it has any, and whether it
/// soft-wraps onto the next.
pub struct ShownLine {
    pub data: Option<String>,
    pub wrapped: bool,
}

pub ghost struct ShownView {
    pub data: Option<Seq<char>>,
    pub wrapped: bool,
}

impl vstd::view::View for ShownLine {
    type V = ShownView;

    open spec fn view(&self) -> ShownView {
        ShownView { data: opt_text(self.data), wrapped: self.wrapped }
    }
}

pub open spec fn shown_views(lines: Seq<ShownLine>) -> Seq<ShownView> {
    lines.map_values(|l: ShownLine| l@)
}

/// What a line prints: its bytes, or nothing where they cannot be decoded.
pub open spec fn line_text(line: ShownView) -> Seq<u8> {
    match line.data {
        Some(data) => match base64_bytes(data) {
            Ok(bytes) => bytes,
            Err(_) => Seq::empty(),
        },
        None => Seq::empty(),
    }
}

/// History lines as flowing text: each on a new row, except that a line whose
/// predecessor soft-wraps continues it, re-wrapping at the terminal's own
/// width.
pub open spec fn history_bytes(lines: Seq<ShownView>) -> Seq<u8>
    decreases lines.len(),
{
    if lines.len() == 0 {
        Seq::empty()
    } else {
        history_bytes(lines.drop_last()) + (if lines.len() >= 2 && lines[lines.len() - 2].wrapped {
            Seq::empty()
        } else {
            encode_utf8("\r\n"@)
        }) + line_text(lines.last()) + encode_utf8(SGR_RESET@)
    }
}

/// The history printed from the bottom row, so that it scrolls past whatever
/// was on the screen, and then clear of the bottom-anchored live region.
pub open spec fn print_bytes(rows: u16, stream_rows: u16, lines: Seq<ShownView>) -> Seq<u8> {
    encode_utf8(SGR_RESET@) + encode_utf8("\x1b[?7h"@) + cup_bytes(rows - 1, 0) + history_bytes(
        lines,
    ) + cup_bytes(rows - 1, 0) + repeated(
        encode_utf8("\r\n"@),
        min_int(stream_rows as int, rows as int) as nat,
    )
}

/// What starting a view writes to the terminal.
pub open spec fn start_bytes(m: MirrorView, view: View) -> Seq<u8> {
    encode_utf8(VIEW_HOST_PRELUDE@) + m.viewing(view).crop_bytes() + m.viewing(view).full_bytes()
}

/// A mirror after it translated chunks of output, one after another.
pub open spec fn after_chunks(m: MirrorView, chunks: Seq<Seq<u8>>) -> MirrorView
    decreases chunks.len(),
{
    if chunks.len() == 0 {
        m
    } else {
        after_chunks(m, chunks.drop_last()).processed(chunks.last())
    }
}

/// What chunks of output write to the terminal.
pub open spec fn chunks_bytes(m: MirrorView, chunks: Seq<Seq<u8>>) -> Seq<u8>
    decreases chunks.len(),
{
    if chunks.len() == 0 {
        Seq::empty()
    } else {
        chunks_bytes(m, chunks.drop_last()) + after_chunks(m, chunks.drop_last()).host_bytes(
            chunks.last(),
        )
    }
}

/// A stream whose history reply is awaited: its dimensions and snapshot, the
/// output that arrived meanwhile, and how many stale history replies are to be
/// discarded (a re-snapshot re-requests).
pub struct Fetching {
    pub stream_rows: u16,
    pub stream_cols: u16,
    pub snapshot: Vec<u8>,
    pub pending: Vec<Vec<u8>>,
    pub skip_replies: u32,
}

pub ghost struct FetchView {
    pub stream_rows: u16,
    pub stream_cols: u16,
    pub snapshot: Seq<u8>,
    pub pending: Seq<Seq<u8>>,
    pub skip_replies: nat,
}

pub open spec fn byte_views(chunks: Seq<Vec<u8>>) -> Seq<Seq<u8>> {
    chunks.map_values(|c: Vec<u8>| c@)
}

impl vstd::view::View for Fetching {
    type V = FetchView;

    open spec fn view(&self) -> FetchView {
        FetchView {
            stream_rows: self.stream_rows,
            stream_cols: self.stream_cols,
            snapshot: self.snapshot@,
            pending: byte_views(self.pending@),
            skip_replies: self.skip_replies as nat,
        }
    }
}

/// The most lines that chunks of output can archive.
pub open spec fn chunks_cost(chunks: Seq<Seq<u8>>) -> nat
    decreases chunks.len(),
{
    if chunks.len() == 0 {
        0
    } else {
        chunks_cost(chunks.drop_last()) + STAGE_SCROLLBACK as nat * chunks.last().len()
    }
}

impl FetchView {
    pub open spec fn view(self) -> View {
        View { rows: self.stream_rows, cols: self.stream_cols, simulated: false }
    }

    /// What the stream wrote since its view started: the snapshot, and the
    /// output after it.
    pub open spec fn chunks(self) -> Seq<Seq<u8>> {
        seq![self.snapshot] + self.pending
    }

    /// The most lines that going live can archive.
    pub open spec fn cost(self) -> nat {
        STEP_LINES as nat + chunks_cost(self.chunks())
    }

    /// The mirror that shows the stream in a terminal.
    pub open spec fn live(self, rows: u16, cols: u16) -> MirrorView {
        after_chunks(new_mirror(rows, cols).viewing(self.view()), self.chunks())
    }

    /// What going live writes to the terminal, after `lead`.
    pub open spec fn live_bytes(
        self,
        lead: Seq<char>,
        rows: u16,
        cols: u16,
        lines: Seq<ShownView>,
    ) -> Seq<u8> {
        let m = new_mirror(rows, cols);
        encode_utf8(lead) + print_bytes(rows, self.stream_rows, lines) + start_bytes(m, self.view())
            + chunks_bytes(m.viewing(self.view()), self.chunks())
    }
}

/// A stream that is shown, or about to be.
pub enum Feed {
    /// Nothing has come yet.
    Waiting,
    /// Got the snapshot; waiting for the history reply before printing.
    Fetching(Fetching),
    /// Mirroring to the terminal.
    Live(Mirror),
}

pub ghost enum FeedView {
    Waiting,
    Fetching(FetchView),
    Live(MirrorView),
}

/// What is done with a message of the stream.
pub struct FeedStep {
    /// Bytes to write to the terminal.
    pub output: Vec<u8>,
    /// History to request: the lines before this index.
    pub request: Option<u64>,
    /// Whether the stream went live.
    pub went_live: bool,
}

pub ghost struct StepView {
    pub output: Seq<u8>,
    pub request: Option<u64>,
    pub went_live: bool,
}

impl vstd::view::View for FeedStep {
    type V = StepView;

    open spec fn view(&self) -> StepView {
        StepView { output: self.output@, request: self.request, went_live: self.went_live }
    }
}

/// Nothing to do.
pub open spec fn nothing() -> StepView {
    StepView { output: Seq::empty(), request: None, went_live: false }
}

/// A terminal that shows a stream: its size, what is written before it goes
/// live, and the oldest history line it can fetch.
pub struct LocalScreen {
    pub rows: u16,
    pub cols: u16,
    pub lead: String,
    pub history_oldest: u64,
}

pub ghost struct ScreenView {
    pub rows: u16,
    pub cols: u16,
    pub lead: Seq<char>,
    pub history_oldest: u64,
}

impl vstd::view::View for LocalScreen {
    type V = ScreenView;

    open spec fn view(&self) -> ScreenView {
        ScreenView {
            rows: self.rows,
            cols: self.cols,
            lead: self.lead@,
            history_oldest: self.history_oldest,
        }
    }
}

impl FeedView {
    pub open spec fn wf(self) -> bool {
        match self {
            FeedView::Waiting => true,
            FeedView::Fetching(f) => positive(f.stream_rows, f.stream_cols) && f.skip_replies
                <= u32::MAX,
            FeedView::Live(m) => m.wf(),
        }
    }

    /// Whether one more message can be handled without overflowing a count.
    pub open spec fn has_room(self) -> bool {
        match self {
            FeedView::Waiting => true,
            FeedView::Fetching(f) => f.cost() <= HISTORY_CEILING && f.skip_replies < u32::MAX,
            FeedView::Live(m) => m.history.next <= HISTORY_CEILING,
        }
    }

    /// The stream after a history reply came with these lines.
    pub open spec fn after_history(self, s: ScreenView, lines: Seq<ShownView>) -> FeedView {
        match self {
            FeedView::Fetching(f) => if f.skip_replies > 0 {
                FeedView::Fetching(
                    FetchView { skip_replies: (f.skip_replies - 1) as nat, ..f },
                )
            } else {
                FeedView::Live(f.live(s.rows, s.cols))
            },
            _ => self,
        }
    }

    /// What a history reply does.
    pub open spec fn history_step(self, s: ScreenView, lines: Seq<ShownView>) -> StepView {
        match self {
            FeedView::Fetching(f) => if f.skip_replies > 0 {
                nothing()
            } else {
                StepView {
                    output: f.live_bytes(s.lead, s.rows, s.cols, lines),
                    request: None,
                    went_live: true,
                }
            },
            _ => nothing(),
        }
    }

    /// The stream after output.
    pub open spec fn after_output(self, bytes: Seq<u8>) -> FeedView {
        match self {
            FeedView::Waiting => self,
            FeedView::Fetching(f) => FeedView::Fetching(
                FetchView { pending: f.pending.push(bytes), ..f },
            ),
            FeedView::Live(m) => FeedView::Live(m.processed(bytes)),
        }
    }

    /// What output does: live, it is mirrored, and the bell rung.
    pub open spec fn output_step(self, bytes: Seq<u8>) -> StepView {
        match self {
            FeedView::Live(m) => StepView {
                output: m.host_bytes(bytes) + (if m.after_slices(bytes).bells > 0 {
                    encode_utf8("\x07"@)
                } else {
                    Seq::empty()
                }),
                ..nothing()
            },
            _ => nothing(),
        }
    }

    /// The stream that a snapshot starts, before its history is known.
    pub open spec fn restarted(self, view: View, snapshot: Seq<u8>, history_next: u64, s: ScreenView) -> FetchView {
        FetchView {
            stream_rows: view.rows,
            stream_cols: view.cols,
            snapshot,
            pending: Seq::empty(),
            skip_replies: match self {
                FeedView::Fetching(f) => if history_next > s.history_oldest {
                    f.skip_replies + 1
                } else {
                    f.skip_replies
                },
                _ => 0,
            },
        }
    }

    /// The stream after a snapshot of a screen of `view`'s size.
    pub open spec fn after_snapshot(
        self,
        view: View,
        snapshot: Seq<u8>,
        history_next: u64,
        s: ScreenView,
    ) -> FeedView {
        match self {
            FeedView::Live(m) => FeedView::Live(m.viewing(view).processed(snapshot)),
            _ => {
                let f = self.restarted(view, snapshot, history_next, s);
                if history_next > s.history_oldest {
                    FeedView::Fetching(f)
                } else {
                    FeedView::Live(f.live(s.rows, s.cols))
                }
            },
        }
    }

    /// What a snapshot does: live, the local view restarts from it; before
    /// that, the history before it is requested, unless there is none.
    pub open spec fn snapshot_step(
        self,
        view: View,
        snapshot: Seq<u8>,
        history_next: u64,
        s: ScreenView,
    ) -> StepView {
        match self {
            FeedView::Live(m) => StepView {
                output: start_bytes(m, view) + m.viewing(view).host_bytes(snapshot),
                ..nothing()
            },
            _ => {
                let f = self.restarted(view, snapshot, history_next, s);
                if history_next > s.history_oldest {
                    StepView { request: Some(history_next), ..nothing() }
                } else {
                    StepView {
                        output: f.live_bytes(s.lead, s.rows, s.cols, Seq::empty()),
                        request: None,
                        went_live: true,
                    }
                }
            },
        }
    }
}

/// The dimensions of a stream: those its snapshot states, unless one of them
/// is zero, and then those given instead.
pub open spec fn stream_view(rows: u16, cols: u16, own_rows: u16, own_cols: u16) -> View {
    if positive(rows, cols) {
        View { rows, cols, simulated: false }
    } else {
        View { rows: own_rows, cols: own_cols, simulated: false }
    }
}

pub fn stream_dims(rows: u16, cols: u16, own_rows: u16, own_cols: u16) -> (r: View)
    ensures
        r == stream_view(rows, cols, own_rows, own_cols),
{
    if is_positive(rows, cols) {
        View { rows, cols, simulated: false }
    } else {
        View { rows: own_rows, cols: own_cols, simulated: false }
    }
}

/// Appends history lines as flowing text.
fn push_history(out: &mut Vec<u8>, lines: &Vec<ShownLine>)
    ensures
        final(out)@ == old(out)@ + history_bytes(shown_views(lines@)),
{
    let ghost views = shown_views(lines@);
    let ghost start = out@;
    let mut continuation = false;
    let mut i: usize = 0;
    assert(out@ =~= start + history_bytes(views.take(0)));
    while i < lines.len()
        invariant
            i <= lines@.len() == views.len(),
            views == shown_views(lines@),
            out@ == start + history_bytes(views.take(i as int)),
            continuation == (i > 0 && views[i - 1].wrapped),
        decreases lines@.len() - i,
    {
        let line = &lines[i];
        if !continuation {
            push_text(out, "\r\n");
        }
        let ghost led = out@;
        if let Some(data) = &line.data {
            if let Ok(bytes) = decode_terminal_bytes(data.as_str()) {
                push_bytes(out, bytes.as_slice());
            }
        }
        proof {
            assert(views[i as int] == line@);
            assert(out@ =~= led + line_text(line@));
        }
        push_text(out, SGR_RESET);
        continuation = line.wrapped;
        proof {
            let taken = views.take(i + 1);
            assert(taken.drop_last() =~= views.take(i as int));
            assert(taken.last() == line@);
            if i > 0 {
                assert(taken[taken.len() - 2] == views[i - 1]);
            }
            assert(out@ =~= start + history_bytes(taken));
        }
        i += 1;
    }
    assert(views.take(i as int) =~= views);
}

proof fn chunks_cost_grows(chunks: Seq<Seq<u8>>, n: int)
    requires
        0 <= n <= chunks.len(),
    ensures
        chunks_cost(chunks.take(n)) <= chunks_cost(chunks),
    decreases chunks.len(),
{
    if n == chunks.len() {
        assert(chunks.take(n) =~= chunks);
    } else {
        chunks_cost_grows(chunks.drop_last(), n);
        assert(chunks.drop_last().take(n) =~= chunks.take(n));
    }
}

impl Fetching {
    /// Prints the fetched history into the terminal (and thus its native
    /// scrollback) and starts the live view.
    fn go_live(&self, screen: &LocalScreen, lines: &Vec<ShownLine>) -> (r: (Mirror, Vec<u8>))
        requires
            positive(screen.rows, screen.cols),
            positive(self.stream_rows, self.stream_cols),
            self@.cost() <= HISTORY_CEILING,
        ensures
            r.0.wf(),
            r.0.state() == self@.live(screen.rows, screen.cols),
            r.0.state().history.next <= self@.cost(),
            r.1@ == self@.live_bytes(screen.lead@, screen.rows, screen.cols, shown_views(lines@)),
    {
        let ghost m0 = new_mirror(screen.rows, screen.cols);
        let mut out: Vec<u8> = Vec::new();
        push_text(&mut out, screen.lead.as_str());
        push_text(&mut out, SGR_RESET);
        push_text(&mut out, "\x1b[?7h");
        push_text(&mut out, cup(screen.rows - 1, 0).as_str());
        push_history(&mut out, lines);
        // Scroll the history clear of the bottom-anchored live region.
        let region_rows: u16 = min_u16(self.stream_rows, screen.rows);
        push_text(&mut out, cup(screen.rows - 1, 0).as_str());
        push_repeated(&mut out, "\r\n", region_rows as usize);
        let ghost printed = out@;
        assert(printed =~= encode_utf8(screen.lead@) + print_bytes(
            screen.rows,
            self.stream_rows,
            shown_views(lines@),
        ));
        let mut mirror = Mirror::new(screen.rows, screen.cols);
        assert(mirror.state() == m0);
        let view = View { rows: self.stream_rows, cols: self.stream_cols, simulated: false };
        assert(view == self@.view());
        let t = mirror.start_view(view);
        push_bytes(&mut out, t.host_output.as_slice());
        let ghost m1 = mirror.state();
        let ghost head = out@;
        let ghost chunks = self@.chunks();
        let len: usize = self.pending.len();
        let mut i: usize = 0;
        proof {
            assert(chunks.take(0) =~= Seq::<Seq<u8>>::empty());
            assert(head + chunks_bytes(m1, chunks.take(0)) =~= head);
            chunks_cost_grows(chunks, 1);
        }
        // The snapshot, then what was buffered.
        let mut first = true;
        while first || i < len
            invariant
                len == self.pending@.len(),
                i <= len,
                first ==> i == 0,
                chunks == self@.chunks(),
                chunks.len() == len + 1,
                self@.cost() <= HISTORY_CEILING,
                mirror.wf(),
                mirror.state() == after_chunks(
                    m1,
                    chunks.take(
                        if first {
                            0
                        } else {
                            i + 1
                        },
                    ),
                ),
                mirror.state().history.next <= STEP_LINES + chunks_cost(
                    chunks.take(
                        if first {
                            0
                        } else {
                            i + 1
                        },
                    ),
                ),
                out@ == head + chunks_bytes(
                    m1,
                    chunks.take(
                        if first {
                            0
                        } else {
                            i + 1
                        },
                    ),
                ),
            decreases
                    len - i + (if first {
                        1int
                    } else {
                        0
                    }),
        {
            let bytes = if first {
                &self.snapshot
            } else {
                &self.pending[i]
            };
            let ghost n = if first {
                0
            } else {
                i + 1
            };
            proof {
                assert(bytes@ == chunks[n]);
                assert(chunks.take(n + 1).drop_last() =~= chunks.take(n));
                assert(chunks.take(n + 1).last() == bytes@);
                chunks_cost_grows(chunks, n + 1);
            }
            let translated = mirror.process(bytes.as_slice());
            push_bytes(&mut out, translated.host.as_slice());
            proof {
                assert(out@ =~= head + chunks_bytes(m1, chunks.take(n + 1)));
            }
            if first {
                first = false;
            } else {
                i += 1;
            }
        }
        assert(chunks.take(len + 1) =~= chunks);
        assert(out@ =~= self@.live_bytes(
            screen.lead@,
            screen.rows,
            screen.cols,
            shown_views(lines@),
        ));
        (mirror, out)
    }
}

/// Nothing to do.
fn no_step() -> (r: FeedStep)
    ensures
        r@ == nothing(),
{
    let r = FeedStep { output: Vec::new(), request: None, went_live: false };
    assert(r@.output =~= Seq::<u8>::empty());
    r
}

impl Feed {
    pub open spec fn state(&self) -> FeedView {
        match *self {
            Feed::Waiting => FeedView::Waiting,
            Feed::Fetching(f) => FeedView::Fetching(f@),
            Feed::Live(m) => FeedView::Live(m.state()),
        }
    }

    pub open spec fn wf(&self) -> bool {
        match *self {
            Feed::Waiting => true,
            Feed::Fetching(f) => positive(f.stream_rows, f.stream_cols),
            Feed::Live(m) => m.wf(),
        }
    }

    pub proof fn lemma_wf(&self)
        requires
            self.wf(),
        ensures
            self.state().wf(),
    {
        match *self {
            Feed::Live(m) => m.lemma_wf(),
            _ => {},
        }
    }

    /// Whether one more message can be handled without overflowing a count.
    pub fn has_room(&self) -> (r: bool)
        requires
            self.wf(),
        ensures
            r == self.state().has_room(),
    {
        match self {
            Feed::Waiting => true,
            Feed::Live(m) => m.history_extent().0 <= HISTORY_CEILING,
            Feed::Fetching(f) => {
                let ghost chunks = f@.chunks();
                if f.skip_replies == u32::MAX {
                    return false;
                }
                let mut cost: u128 = STEP_LINES as u128 + STAGE_SCROLLBACK as u128
                    * f.snapshot.len() as u128;
                let mut i: usize = 0;
                proof {
                    reveal_with_fuel(chunks_cost, 2);
                    assert(chunks.take(1).drop_last() =~= Seq::<Seq<u8>>::empty());
                    assert(chunks.take(1).last() == f.snapshot@);
                    chunks_cost_grows(chunks, 1);
                }
                if cost > HISTORY_CEILING as u128 {
                    return false;
                }
                while i < f.pending.len()
                    invariant
                        i <= f.pending@.len(),
                        *self == Feed::Fetching(*f),
                        chunks == f@.chunks(),
                        cost == STEP_LINES + chunks_cost(chunks.take(i + 1)),
                        cost <= HISTORY_CEILING,
                        f.skip_replies < u32::MAX,
                    decreases f.pending@.len() - i,
                {
                    proof {
                        assert(chunks.take(i + 2).drop_last() =~= chunks.take(i + 1));
                        assert(chunks.take(i + 2).last() == f.pending@[i as int]@);
                        chunks_cost_grows(chunks, i + 2);
                    }
                    cost = cost + STAGE_SCROLLBACK as u128 * f.pending[i].len() as u128;
                    if cost > HISTORY_CEILING as u128 {
                        return false;
                    }
                    i += 1;
                }
                assert(chunks.take(i + 1) =~= chunks);
                true
            },
        }
    }

    /// The history reply came.
    pub fn on_history(&mut self, screen: &LocalScreen, lines: &Vec<ShownLine>) -> (r: FeedStep)
        requires
            old(self).wf(),
            old(self).state().has_room(),
            positive(screen.rows, screen.cols),
        ensures
            final(self).wf(),
            final(self).state() == old(self).state().after_history(screen@, shown_views(lines@)),
            r@ == old(self).state().history_step(screen@, shown_views(lines@)),
    {
        match self {
            Feed::Fetching(f) => {
                if f.skip_replies > 0 {
                    f.skip_replies = f.skip_replies - 1;
                    no_step()
                } else {
                    let (mirror, output) = f.go_live(screen, lines);
                    *self = Feed::Live(mirror);
                    FeedStep { output, request: None, went_live: true }
                }
            },
            _ => no_step(),
        }
    }

    /// Live output arrived; before going live it is buffered.
    pub fn on_output(&mut self, bytes: Vec<u8>) -> (r: FeedStep)
        requires
            old(self).wf(),
            old(self).state().has_room(),
            bytes@.len() <= MAX_MESSAGE,
        ensures
            final(self).wf(),
            final(self).state() == old(self).state().after_output(bytes@),
            r@ == old(self).state().output_step(bytes@),
    {
        match self {
            Feed::Waiting => no_step(),
            Feed::Fetching(f) => {
                let ghost before = f@.pending;
                f.pending.push(bytes);
                assert(byte_views(f.pending@) =~= before.push(bytes@));
                no_step()
            },
            Feed::Live(mirror) => {
                let translated = mirror.process(bytes.as_slice());
                let mut output = translated.host;
                let ghost shown = output@;
                if translated.bells > 0 {
                    push_text(&mut output, "\x07");
                }
                assert(output@ =~= shown + (if translated.bells > 0 {
                    encode_utf8("\x07"@)
                } else {
                    Seq::empty()
                }));
                FeedStep { output, request: None, went_live: false }
            },
        }
    }

    /// A snapshot came: the stream starts, or restarts at other dimensions.
    pub fn on_snapshot(
        &mut self,
        screen: &LocalScreen,
        view: View,
        snapshot: Vec<u8>,
        history_next: u64,
    ) -> (r: FeedStep)
        requires
            old(self).wf(),
            old(self).state().has_room(),
            positive(screen.rows, screen.cols),
            positive(view.rows, view.cols),
            !view.simulated,
            snapshot@.len() <= MAX_MESSAGE,
        ensures
            final(self).wf(),
            final(self).state() == old(self).state().after_snapshot(
                view,
                snapshot@,
                history_next,
                screen@,
            ),
            r@ == old(self).state().snapshot_step(view, snapshot@, history_next, screen@),
    {
        let wanted: bool = history_next > screen.history_oldest;
        let mut skip_replies: u32 = 0;
        match self {
            // The stream's dimensions changed (a better-ranked viewer came or
            // went): restart the local view from the fresh snapshot.
            Feed::Live(mirror) => {
                let t = mirror.start_view(view);
                let mut output = t.host_output;
                let translated = mirror.process(snapshot.as_slice());
                push_bytes(&mut output, translated.host.as_slice());
                return FeedStep { output, request: None, went_live: false };
            },
            // A re-snapshot while the history reply is in flight restarts the
            // stream: previous buffered output is baked into it, and the
            // splice point moved, so re-request the history.
            Feed::Fetching(f) => {
                skip_replies = if wanted {
                    f.skip_replies + 1
                } else {
                    f.skip_replies
                };
            },
            Feed::Waiting => {},
        }
        let fetching = Fetching {
            stream_rows: view.rows,
            stream_cols: view.cols,
            snapshot,
            pending: Vec::new(),
            skip_replies,
        };
        assert(byte_views(fetching.pending@) =~= Seq::<Seq<u8>>::empty());
        assert(fetching@ == self.state().restarted(view, snapshot@, history_next, screen@));
        if wanted {
            *self = Feed::Fetching(fetching);
            let mut step = no_step();
            step.request = Some(history_next);
            step
        } else {
            proof {
                reveal_with_fuel(chunks_cost, 2);
                let chunks = fetching@.chunks();
                assert(chunks =~= seq![snapshot@]);
                assert(chunks.drop_last() =~= Seq::<Seq<u8>>::empty());
            }
            let none: Vec<ShownLine> = Vec::new();
            assert(shown_views(none@) =~= Seq::<ShownView>::empty());
            let (mirror, output) = fetching.go_live(screen, &none);
            *self = Feed::Live(mirror);
            FeedStep { output, request: None, went_live: true }
        }
    }

    /// The terminal was resized: a live view is laid out anew.
    pub fn on_resize(&mut self, rows: u16, cols: u16) -> (r: Vec<u8>)
        requires
            old(self).wf(),
            old(self).state().has_room(),
            positive(rows, cols),
        ensures
            final(self).wf(),
            match old(self).state() {
                FeedView::Live(m) => {
                    &&& final(self).state() == FeedView::Live(m.resized(rows, cols))
                    &&& r@ == match m.view {
                        None => Seq::empty(),
                        Some(_) => m.reframe_bytes(rows, cols),
                    }
                },
                _ => final(self).state() == old(self).state() && r@.len() == 0,
            },
    {
        match self {
            Feed::Live(mirror) => mirror.host_resized(rows, cols).host_output,
            _ => Vec::new(),
        }
    }

    /// The hidden top rows pushed into the scrollback anew, and the region
    /// repainted, while live.
    pub fn refresh(&self) -> (r: Vec<u8>)
        requires
            self.wf(),
        ensures
            r@ == refresh_bytes(self.state()),
    {
        match self {
            Feed::Live(mirror) => mirror.refresh_scrollback(),
            _ => Vec::new(),
        }
    }

    /// Bytes to restore the terminal, while live.
    pub fn cleanup(&self) -> (r: Vec<u8>)
        requires
            self.wf(),
        ensures
            r@ == match self.state() {
                FeedView::Live(m) => m.cleanup_bytes(),
                _ => Seq::empty(),
            },
    {
        match self {
            Feed::Live(mirror) => mirror.cleanup(),
            _ => Vec::new(),
        }
    }
}

/// What refreshing the scrollback writes, while live.
pub open spec fn refresh_bytes(feed: FeedView) -> Seq<u8> {
    match feed {
        FeedView::Live(m) => match m.view {
            None => Seq::empty(),
            Some(_) => m.crop_bytes() + m.full_bytes(),
        },
        _ => Seq::empty(),
    }
}

/// Output that arrives while the history is awaited is not lost: going live
/// shows the stream as if it had been live from the snapshot on.
pub proof fn buffered_output_is_shown(f: FetchView, bytes: Seq<u8>, rows: u16, cols: u16)
    ensures
        FeedView::Fetching(f).after_output(bytes) is Fetching,
        FeedView::Fetching(f).after_output(bytes)->Fetching_0.live(rows, cols) == f.live(
            rows,
            cols,
        ).processed(bytes),
{
    let g = FeedView::Fetching(f).after_output(bytes)->Fetching_0;
    assert(g.chunks().drop_last() =~= f.chunks());
    assert(g.chunks().last() == bytes);
}

/// Each re-snapshot that asks for history again is matched by one discarded
/// reply: the stream goes live on the reply to the last request.
pub proof fn stale_replies_are_discarded(
    f: FetchView,
    view: View,
    snapshot: Seq<u8>,
    history_next: u64,
    s: ScreenView,
    lines: Seq<ShownView>,
)
    requires
        history_next > s.history_oldest,
    ensures
        ({
            let again = FeedView::Fetching(f).after_snapshot(view, snapshot, history_next, s);
            let after = again.after_history(s, lines);
            &&& again.history_step(s, lines) == nothing()
            &&& after matches FeedView::Fetching(g) && g.skip_replies == f.skip_replies
                && g.snapshot == snapshot
        }),
{
}

} // verus!
