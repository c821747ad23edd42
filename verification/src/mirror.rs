//! Translation between the wrapped app's output and its viewers.
//!
//! When no device is viewing, the child pty is sized to the host terminal
//! and bytes pass through untouched (but are still parsed, so a snapshot of
//! the current screen is always available). When a device is viewing, the
//! child pty is sized to the device screen and its output is parsed into an
//! in-memory screen model at device dimensions; from that one model we render
//! for two destinations:
//!
//! - the host terminal, truncated if it is smaller than the device screen,
//!   always via per-row escape sequences with explicit cursor positioning,
//!   never via a whole-screen diff, whose output assumes a terminal of exactly
//!   the model's size (it reproduces wrapped lines by relying on autowrap and
//!   can emit scroll operations, which on a larger host terminal write outside
//!   the mirrored region);
//! - the viewing device, which is exactly model-sized, so it gets the
//!   whole-screen diff byte stream.

use crate::history::{
    last_of, push_all_concat, push_all_step, History, HistoryView, RecordView, DEFAULT_MAX_LINES,
};
use crate::render::{
    cup, cup_bytes, left_bytes, min_int, min_u16, minus, minus_u16, render_bytes, render_left,
    render_rows, render_snapshot, row_in_sight, row_record, serialize_row, snapshot_bytes, CLEAR,
    CLEAR_TO_EOL, HIDE_CURSOR, SGR_RESET, SHOW_CURSOR, SYNC_BEGIN, SYNC_END,
};
use crate::terminal::{
    drawable, fresh_log, laid_out, lay_out, log_size, log_stage, parts_wide, positive,
    saturating_sum, staged_after, visible_rows, vt_alternate, vt_bells, vt_hidden, vt_screen,
    vt_scrolled, vt_staged, vt_state_diff, vt_title, vt_whole, Emulator, RowView, TermLog, TermOp,
    SHOW_PRIMARY,
};
use crate::text::{
    decimal, lossy_text, opt_bytes, opt_text, push_bytes, push_decimal, push_repeated, push_text,
    repeated, text_eq,
};
use vstd::prelude::*;
use vstd::string::*;
use vstd::utf8::*;
use vstd::view::View as _;

verus! {

/// Dimensions used for the hotkey-simulated device.
pub const SIM_ROWS: u16 = 24;

pub const SIM_COLS: u16 = 96;

/// The emulator's own scrollback acts as a staging buffer for history capture:
/// rows land there when the (primary) screen scrolls, and new rows are drained
/// into the archive after every processed slice. Staged rows cannot be
/// removed, so this bounds both the transient capture window and the dead
/// weight a long session carries.
pub const STAGE_SCROLLBACK: usize = 4096;

/// Output is parsed in slices no larger than this so that a flood of one-byte
/// lines can't overflow the staging buffer between drains.
pub const PROCESS_SLICE: usize = 2048;

/// The byte that begins an escape sequence.
pub const ESCAPE: u8 = 0x1b;

/// An ASCII letter, which is what the sequences end in that switch screens or
/// reset the terminal.
pub open spec fn is_letter(b: u8) -> bool {
    ('a' as u8 <= b && b <= 'z' as u8) || ('A' as u8 <= b && b <= 'Z' as u8)
}

fn letter(b: u8) -> (r: bool)
    ensures
        r == is_letter(b),
{
    ('a' as u8 <= b && b <= 'z' as u8) || ('A' as u8 <= b && b <= 'Z' as u8)
}

/// Whether a slice of `bytes` ends behind the first `n` of them: at the end, at
/// its largest size, before an escape sequence, or behind the first letter of
/// one.
pub open spec fn ends_slice(bytes: Seq<u8>, n: int) -> bool {
    n >= bytes.len() || n >= PROCESS_SLICE || bytes[n] == ESCAPE || (bytes[0] == ESCAPE
        && is_letter(bytes[n - 1]))
}

/// Where a slice of `bytes` that has at least `n` of them ends.
pub open spec fn slice_end(bytes: Seq<u8>, n: int) -> int
    decreases bytes.len() - n,
{
    if n >= bytes.len() || ends_slice(bytes, n) {
        n
    } else {
        slice_end(bytes, n + 1)
    }
}

/// The length of the first slice of some output. An escape sequence is a slice
/// of its own: what scrolled off before it is drained before it can switch
/// screens, and what scrolls off behind it is counted anew.
pub open spec fn slice_len(bytes: Seq<u8>) -> int {
    slice_end(bytes, 1)
}

proof fn slice_end_bounds(bytes: Seq<u8>, n: int)
    requires
        0 < n <= bytes.len(),
        n <= PROCESS_SLICE,
    ensures
        n <= slice_end(bytes, n) <= bytes.len(),
        slice_end(bytes, n) <= PROCESS_SLICE,
        forall|i: int|
            n <= i < slice_end(bytes, n) ==> #[trigger] bytes[i] != ESCAPE && (bytes[0] == ESCAPE
                ==> !is_letter(bytes[i - 1])),
    decreases bytes.len() - n,
{
    if !ends_slice(bytes, n) {
        slice_end_bounds(bytes, n + 1);
    }
}

/// No slice is empty or too long, an escape sequence can only begin where a
/// slice does, and a slice that begins with one ends with its first letter.
pub proof fn slices_part_at_escapes(bytes: Seq<u8>)
    requires
        bytes.len() > 0,
    ensures
        0 < slice_len(bytes) <= bytes.len(),
        slice_len(bytes) <= PROCESS_SLICE,
        forall|i: int| 0 < i < slice_len(bytes) ==> #[trigger] bytes[i] != ESCAPE,
        bytes[0] == ESCAPE ==> forall|i: int|
            0 <= i < slice_len(bytes) - 1 ==> !is_letter(#[trigger] bytes[i]),
{
    slice_end_bounds(bytes, 1);
    if bytes[0] == ESCAPE {
        assert forall|i: int| 0 <= i < slice_len(bytes) - 1 implies !is_letter(
            #[trigger] bytes[i],
        ) by {
            assert(bytes[i + 1] != ESCAPE);
        }
    }
}

/// Host prelude for a view: reset scroll margins, origin mode, and autowrap,
/// since the bottom-anchored renderer relies on full-screen scrolls and
/// absolute addressing. (An app that set these repaints after SIGWINCH.)
pub const VIEW_HOST_PRELUDE: &'static str = "\x1b[r\x1b[?6l\x1b[?7h";

/// Turn off input modes the view renderer may have enabled on the host
/// terminal (application cursor keys, bracketed paste, mouse reporting).
pub const RESET_INPUT_MODES: &'static str =
    "\x1b[?1l\x1b>\x1b[?2004l\x1b[?1000l\x1b[?1002l\x1b[?1003l\x1b[?1006l";

/// Shows the alternate screen of a model, cleared.
pub const ENTER_ALTERNATE: &'static str = "\x1b[?1049h";

#[derive(Debug, Clone, Copy)]
pub struct View {
    pub rows: u16,
    pub cols: u16,
    /// True for the hotkey-simulated device, false for a socket client.
    pub simulated: bool,
}

/// Result of processing a chunk of child output.
pub struct Output {
    /// Bytes for the host terminal.
    pub host: Vec<u8>,
    /// Bytes for the viewing device (present only while viewing).
    pub remote: Option<Vec<u8>>,
    /// Number of audible bells in this chunk.
    pub bells: usize,
    /// New window title, if it changed in this chunk.
    pub title: Option<String>,
}

/// What the event loop should do after a state change.
pub struct Transition {
    /// New child pty size (delivers SIGWINCH to the child), if it changed.
    pub child_size: Option<(u16, u16)>,
    /// Bytes to write to the host terminal.
    pub host_output: Vec<u8>,
    /// Snapshot bytes for the viewing device (set by `start_view`).
    pub remote_output: Option<Vec<u8>>,
}

/// The state of a mirror.
pub ghost struct MirrorView {
    pub host_rows: u16,
    pub host_cols: u16,
    /// The screen model of the child's output.
    pub log: TermLog,
    /// While viewing: the screen model as of the last render.
    pub shadow: Option<TermLog>,
    pub view: Option<View>,
    pub title: Option<Seq<char>>,
    pub history: HistoryView,
    /// Length of the staging buffer after the last harvest.
    pub staged_seen: nat,
    pub zone_dirty: bool,
    /// Bells since the last report.
    pub bells: nat,
    /// The title last set since the last report.
    pub new_title: Option<Seq<char>>,
}

/// The records of the newest `count` staged rows, oldest first.
pub open spec fn staged_records(log: TermLog, count: int) -> Seq<RecordView> {
    let staged = vt_staged(log);
    let taken = min_int(count, staged.len() as int);
    Seq::new(
        taken as nat,
        |i: int| row_record(staged[staged.len() - taken + i], log_size(log).1),
    )
}

/// The records of the topmost `count` rows of the screen.
pub open spec fn top_records(log: TermLog, count: int) -> Seq<RecordView> {
    Seq::new(
        count as nat,
        |i: int| row_record(row_in_sight(log, 0, i as u16), log_size(log).1),
    )
}

/// `records` without the blank ones at its end.
pub open spec fn without_trailing_blanks(records: Seq<RecordView>) -> Seq<RecordView>
    decreases records.len(),
{
    if records.len() == 0 || records.last().bytes.len() > 0 {
        records
    } else {
        without_trailing_blanks(records.drop_last())
    }
}

impl MirrorView {
    pub open spec fn wf(self) -> bool {
        &&& positive(self.host_rows, self.host_cols)
        &&& self.history.wf()
        &&& log_stage(self.log) == STAGE_SCROLLBACK
        &&& match self.view {
            Some(v) => {
                &&& positive(v.rows, v.cols)
                &&& log_size(self.log) == laid_out(v.rows, v.cols)
                &&& self.shadow matches Some(s) && log_size(s) == laid_out(v.rows, v.cols)
            },
            None => {
                &&& self.shadow is None
                &&& log_size(self.log) == laid_out(self.host_rows, self.host_cols)
            },
        }
    }

    /// What archiving rows takes: a sound archive, and a model that stages rows
    /// and has some.
    pub open spec fn can_archive(self) -> bool {
        &&& self.history.wf()
        &&& log_stage(self.log) == STAGE_SCROLLBACK
        &&& log_size(self.log).0 > 0
    }

    /// Columns of the host screen that show the view.
    pub open spec fn region_cols(self) -> int {
        match self.view {
            Some(v) => min_int(v.cols as int, self.host_cols as int),
            None => self.host_cols as int,
        }
    }

    /// Rows of the host screen that show the view.
    pub open spec fn region_rows(self) -> int {
        match self.view {
            Some(v) => min_int(v.rows as int, self.host_rows as int),
            None => self.host_rows as int,
        }
    }

    /// Host row where the live region starts while viewing: the region is
    /// anchored at the bottom of the host screen, and the rows above it (the
    /// history zone) scroll like a normal terminal.
    pub open spec fn region_offset(self) -> int {
        self.host_rows - self.region_rows()
    }

    /// Number of view-model rows hidden above the host screen when the view
    /// is taller than the host.
    pub open spec fn crop_top(self) -> int {
        match self.view {
            Some(v) => minus(v.rows as int, self.host_rows as int),
            None => 0,
        }
    }

    /// The state after the rows that scrolled off were archived. `armed` says
    /// whether the scroll counter ran, from one, and `offset` where it stands.
    /// Where it did not run, or was returned to zero by a visit to the
    /// alternate screen, the growth of the staging buffer counts. Nothing is
    /// archived while the alternate screen is shown.
    pub open spec fn harvested(self, armed: bool, offset: nat) -> MirrorView {
        let staged = vt_staged(self.log).len();
        let new_rows = if armed && offset > 0 {
            offset - 1
        } else {
            minus(staged as int, self.staged_seen as int)
        };
        if vt_alternate(self.log) {
            self
        } else {
            MirrorView {
                history: self.history.push_all(staged_records(self.log, new_rows)),
                staged_seen: staged,
                ..self
            }
        }
    }

    /// Whether the scroll counter can run: the primary screen is shown and the
    /// staging buffer is not empty.
    pub open spec fn can_arm(self) -> bool {
        !vt_alternate(self.log) && vt_staged(self.log).len() > 0
    }

    /// The state after the model was fed `bytes`.
    pub open spec fn fed(self, bytes: Seq<u8>) -> MirrorView {
        MirrorView {
            log: self.log.push(TermOp::Process(bytes)),
            bells: saturating_sum(self.bells, vt_bells(self.log, bytes)),
            new_title: match vt_title(self.log, bytes) {
                Some(title) => Some(lossy_text(title)),
                None => self.new_title,
            },
            ..self
        }
    }

    /// The state after one slice of output was parsed.
    #[verifier::opaque]
    pub open spec fn after_slice(self, slice: Seq<u8>) -> MirrorView {
        self.fed(slice).harvested(
            self.can_arm(),
            vt_scrolled(
                self.log,
                if self.can_arm() {
                    1
                } else {
                    0
                },
                slice,
            ),
        )
    }

    /// The state after a chunk of output was parsed, slice by slice.
    pub open spec fn after_slices(self, bytes: Seq<u8>) -> MirrorView
        decreases bytes.len(),
    {
        let n = slice_len(bytes);
        if bytes.len() == 0 || !(0 < n <= bytes.len()) {
            self
        } else {
            self.after_slice(bytes.take(n)).after_slices(bytes.skip(n))
        }
    }

    /// How many lines a chunk of output adds to the archive.
    pub open spec fn scrolled_by(self, bytes: Seq<u8>) -> int {
        self.after_slices(bytes).history.next - self.history.next
    }

    /// The title a chunk of output sets, if it differs from the current one.
    pub open spec fn title_change(self, bytes: Seq<u8>) -> Option<Seq<char>> {
        match self.after_slices(bytes).new_title {
            Some(title) => if self.title == Some(title) {
                None
            } else {
                Some(title)
            },
            None => None,
        }
    }

    /// The state after a chunk of child output was translated.
    #[verifier::opaque]
    pub open spec fn processed(self, bytes: Seq<u8>) -> MirrorView {
        MirrorView {
            bells: 0,
            new_title: None,
            title: match self.title_change(bytes) {
                Some(title) => Some(title),
                None => self.title,
            },
            shadow: match self.shadow {
                Some(shadow) => Some(shadow.push(TermOp::Process(bytes))),
                None => None,
            },
            zone_dirty: self.zone_dirty || (self.view is Some && self.scrolled_by(bytes) > 0),
            ..self.after_slices(bytes)
        }
    }

    /// The bytes a chunk of child output becomes on the host terminal.
    #[verifier::opaque]
    pub open spec fn host_bytes(self, bytes: Seq<u8>) -> Seq<u8> {
        let done = self.after_slices(bytes);
        match (self.view, self.shadow) {
            (Some(view), Some(shadow)) => {
                let scrolled = self.scrolled_by(bytes);
                (if scrolled > 0 {
                    done.scroll_bytes(scrolled as nat) + done.full_bytes()
                } else {
                    render_bytes(
                        done.log,
                        shadow,
                        self.region_rows() as u16,
                        self.region_cols() as u16,
                        false,
                        self.region_offset() as u16,
                        self.crop_top() as u16,
                    )
                }) + match self.title_change(bytes) {
                    Some(title) => encode_utf8("\x1b]2;"@ + title + "\x07"@),
                    None => Seq::empty(),
                }
            },
            _ => bytes,
        }
    }

    /// The bytes that mirror a scroll for real on the host: the live region's
    /// rows are deleted, the newly archived lines appended as flowing text
    /// after the zone content, then the screen is scrolled just enough to
    /// clear the region for the repaint.
    pub open spec fn scroll_bytes(self, scrolled: nat) -> Seq<u8> {
        encode_utf8(SYNC_BEGIN@) + encode_utf8(HIDE_CURSOR@) + encode_utf8(SGR_RESET@) + cup_bytes(
            self.region_offset(),
            0,
        ) + encode_utf8("\x1b["@ + decimal(self.region_rows() as nat) + "M"@) + flowed(
            last_of(self.history.lines, scrolled),
        ) + cup_bytes(self.host_rows - 1, 0) + repeated(
            encode_utf8("\r\n"@),
            min_int(scrolled as int, self.region_rows()) as nat,
        ) + encode_utf8(SYNC_END@)
    }

    /// Full repaint of the view model onto the host terminal.
    #[verifier::opaque]
    pub open spec fn full_bytes(self) -> Seq<u8> {
        render_bytes(
            self.log,
            fresh_log(log_size(self.log).0, log_size(self.log).1, 0),
            self.region_rows() as u16,
            self.region_cols() as u16,
            true,
            self.region_offset() as u16,
            self.crop_top() as u16,
        )
    }

    /// The bytes that push the history zone into the host terminal's native
    /// scrollback (by scrolling the whole host screen up past it).
    #[verifier::opaque]
    pub open spec fn zone_bytes(self) -> Seq<u8> {
        if !self.zone_dirty || self.region_offset() == 0 {
            Seq::empty()
        } else {
            encode_utf8(SGR_RESET@) + cup_bytes(self.host_rows - 1, 0) + repeated(
                encode_utf8("\r\n"@),
                self.region_offset() as nat,
            )
        }
    }

    /// One batch of hidden rows painted over the top of the host screen.
    pub open spec fn painted(self, first: int, count: nat) -> Seq<u8>
        decreases count,
    {
        if count == 0 {
            Seq::empty()
        } else {
            self.painted(first, (count - 1) as nat) + encode_utf8(SGR_RESET@) + cup_bytes(
                count - 1,
                0,
            ) + encode_utf8(CLEAR_TO_EOL@) + row_record(
                row_in_sight(self.log, 0, (first + count - 1) as u16),
                log_size(self.log).1,
            ).bytes
        }
    }

    /// Batches of hidden rows from row `pushed` on, each painted over the top
    /// of the screen and then scrolled off by exactly as many lines.
    pub open spec fn crop_batches(self, pushed: int) -> Seq<u8>
        decreases self.crop_top() - pushed,
    {
        if pushed >= self.crop_top() || self.host_rows == 0 {
            Seq::empty()
        } else {
            let batch = min_int(self.crop_top() - pushed, self.host_rows as int);
            self.painted(pushed, batch as nat) + encode_utf8(SGR_RESET@) + cup_bytes(
                self.host_rows - 1,
                0,
            ) + repeated(encode_utf8("\r\n"@), batch as nat) + self.crop_batches(pushed + batch)
        }
    }

    /// The bytes that copy the hidden top rows of the view model into the host
    /// terminal's native scrollback.
    #[verifier::opaque]
    pub open spec fn crop_bytes(self) -> Seq<u8> {
        if self.crop_top() == 0 {
            Seq::empty()
        } else {
            encode_utf8(SYNC_BEGIN@) + encode_utf8(HIDE_CURSOR@) + encode_utf8("\x1b[?7l"@)
                + self.crop_batches(0) + encode_utf8("\x1b[?7h"@) + encode_utf8(SYNC_END@)
        }
    }

    /// The state before the model is rebuilt with `keep_rows` rows: staged rows
    /// are archived, then the visible rows that the bottom-anchored crop will
    /// drop, up to the last non-blank one.
    pub open spec fn flushed(self, keep_rows: u16) -> MirrorView {
        let h = self.harvested(false, 0);
        let dropped = minus(log_size(h.log).0 as int, keep_rows as int);
        MirrorView {
            history: if vt_alternate(h.log) {
                h.history
            } else {
                h.history.push_all(without_trailing_blanks(top_records(h.log, dropped)))
            },
            staged_seen: 0,
            ..h
        }
    }

    /// The snapshot a device gets when it starts viewing.
    pub open spec fn snapshot(self, view: View) -> Seq<u8> {
        snapshot_bytes(self.log, view.rows, view.cols)
    }

    /// The state after a device started viewing: the model is rebuilt at
    /// device dimensions, primed with the snapshot.
    #[verifier::opaque]
    pub open spec fn viewing(self, view: View) -> MirrorView {
        let (rows, cols) = laid_out(view.rows, view.cols);
        MirrorView {
            log: fresh_log(rows, cols, STAGE_SCROLLBACK as nat),
            shadow: Some(fresh_log(rows, cols, 0).push(TermOp::Process(self.snapshot(view)))),
            view: Some(view),
            zone_dirty: false,
            bells: 0,
            new_title: None,
            ..self.flushed(view.rows)
        }.fed(self.snapshot(view))
    }

    /// The state after the device stopped viewing.
    #[verifier::opaque]
    pub open spec fn unviewed(self) -> MirrorView {
        let (rows, cols) = laid_out(self.host_rows, self.host_cols);
        MirrorView {
            log: fresh_log(rows, cols, STAGE_SCROLLBACK as nat),
            shadow: None,
            view: None,
            staged_seen: 0,
            zone_dirty: false,
            bells: 0,
            new_title: None,
            ..self.harvested(false, 0)
        }
    }

    /// The state with an empty model of the given size.
    pub open spec fn emptied(self, rows: u16, cols: u16) -> MirrorView {
        MirrorView {
            log: fresh_log(rows, cols, STAGE_SCROLLBACK as nat),
            staged_seen: 0,
            bells: 0,
            new_title: None,
            ..self
        }
    }

    /// The state with a model of fewer columns, where cutting its rows short
    /// parts the halves of a wide character. The model is rebuilt: it gets its new
    /// height first, and what is then in the left columns, on the primary screen
    /// and on the alternate screen where that is shown, is drawn anew. Rows that
    /// scrolled off before the alternate screen was entered are archived first.
    /// Scroll margins, the saved cursor and a sequence that is read in part start
    /// afresh; the app repaints at its new size anyway.
    pub open spec fn narrowed(self, rows: u16, cols: u16) -> MirrorView {
        let sized = MirrorView {
            log: self.log.push(TermOp::SetSize { rows, cols: log_size(self.log).1 }),
            ..self
        };
        if vt_alternate(sized.log) {
            let primary = sized.fed(encode_utf8(SHOW_PRIMARY@)).harvested(false, 0);
            primary.emptied(rows, cols).fed(left_bytes(primary.log, cols)).fed(
                encode_utf8(ENTER_ALTERNATE@),
            ).fed(left_bytes(sized.log, cols))
        } else {
            sized.emptied(rows, cols).fed(left_bytes(sized.log, cols))
        }
    }

    /// The state after the model was brought to a size.
    pub open spec fn remodeled(self, rows: u16, cols: u16) -> MirrorView {
        if cols < log_size(self.log).1 && (parts_wide(vt_screen(self.log), cols) || parts_wide(
            vt_hidden(self.log),
            cols,
        )) {
            self.narrowed(rows, cols)
        } else {
            MirrorView { log: self.log.push(TermOp::SetSize { rows, cols }), ..self }
        }
    }

    /// The state after the host terminal was resized.
    #[verifier::opaque]
    pub open spec fn resized(self, rows: u16, cols: u16) -> MirrorView {
        match self.view {
            None => {
                let (model_rows, model_cols) = laid_out(rows, cols);
                MirrorView {
                    host_rows: rows,
                    host_cols: cols,
                    ..self.harvested(false, 0).remodeled(model_rows, model_cols)
                }
            },
            Some(_) => MirrorView { host_rows: rows, host_cols: cols, zone_dirty: false, ..self },
        }
    }

    /// The bytes that repaint the host frame after the host was resized while
    /// viewing.
    pub open spec fn reframe_bytes(self, rows: u16, cols: u16) -> Seq<u8> {
        let m = MirrorView { host_rows: rows, host_cols: cols, ..self };
        m.zone_bytes() + m.crop_bytes() + encode_utf8(CLEAR@) + m.full_bytes()
    }

    /// The bytes that restore the host terminal on exit.
    pub open spec fn cleanup_bytes(self) -> Seq<u8> {
        match self.view {
            None => Seq::empty(),
            Some(_) => self.zone_bytes() + encode_utf8(SGR_RESET@) + encode_utf8(SHOW_CURSOR@)
                + encode_utf8(RESET_INPUT_MODES@) + cup_bytes(self.host_rows - 1, 0) + encode_utf8(
                "\r\n"@,
            ),
        }
    }
}

/// The state of a mirror that was just created.
pub open spec fn new_mirror(rows: u16, cols: u16) -> MirrorView {
    MirrorView {
        host_rows: rows,
        host_cols: cols,
        log: fresh_log(laid_out(rows, cols).0, laid_out(rows, cols).1, STAGE_SCROLLBACK as nat),
        shadow: None,
        view: None,
        title: None,
        history: HistoryView {
            lines: Seq::empty(),
            next: 0,
            max_lines: DEFAULT_MAX_LINES as nat,
        },
        staged_seen: 0,
        zone_dirty: false,
        bells: 0,
        new_title: None,
    }
}

/// Archived lines as flowing text, each followed by a reset.
pub open spec fn flowed(lines: Seq<RecordView>) -> Seq<u8>
    decreases lines.len(),
{
    if lines.len() == 0 {
        Seq::empty()
    } else if lines.len() == 1 {
        lines[0].bytes + encode_utf8(SGR_RESET@)
    } else {
        flowed(lines.drop_last()) + encode_utf8("\r\n"@) + lines.last().bytes + encode_utf8(
            SGR_RESET@,
        )
    }
}

pub struct Mirror {
    host_rows: u16,
    host_cols: u16,
    /// Screen model of the child's output, always sized to the child's
    /// current dimensions (host size normally, view size while viewing), or
    /// as near to them as a model can be.
    parser: Emulator,
    /// While viewing: a second parser fed the same bytes, holding the state
    /// as of the last render, so diffs don't need to clone the main screen
    /// (whose scrollback staging makes clones expensive).
    shadow: Option<Emulator>,
    view: Option<View>,
    /// Current window title, as last set by the app (survives view
    /// transitions, which rebuild the parser).
    title: Option<String>,
    /// Archive of lines that scrolled off the (primary) screen.
    history: History,
    /// Staging-buffer length after the last harvest, the fallback counter
    /// when the scroll counter could not be armed.
    staged_seen: usize,
    /// While viewing: whether the host's history zone (the rows above the
    /// bottom-anchored live region) holds content that hasn't been pushed
    /// into the host terminal's native scrollback yet.
    zone_dirty: bool,
}

impl Mirror {
    /// The state of this mirror.
    pub closed spec fn state(&self) -> MirrorView {
        MirrorView {
            host_rows: self.host_rows,
            host_cols: self.host_cols,
            log: self.parser.log(),
            shadow: match self.shadow {
                Some(s) => Some(s.log()),
                None => None,
            },
            view: self.view,
            title: opt_text(self.title),
            history: self.history@,
            staged_seen: self.staged_seen as nat,
            zone_dirty: self.zone_dirty,
            bells: self.parser.events().bells as nat,
            new_title: opt_text(self.parser.events().title),
        }
    }

    /// Neither model shows half a wide character, and the second is not
    /// scrolled back.
    spec fn sound(&self) -> bool {
        &&& vt_whole(self.parser.log())
        &&& self.shadow matches Some(s) ==> s.offset() == 0 && vt_whole(s.log())
    }

    /// The mirror is well formed and neither of its models is scrolled back.
    pub closed spec fn wf(&self) -> bool {
        &&& self.state().wf()
        &&& self.sound()
        &&& self.parser.offset() == 0
    }

    pub proof fn lemma_wf(&self)
        requires
            self.wf(),
        ensures
            self.state().wf(),
    {
    }

    pub fn new(host_rows: u16, host_cols: u16) -> (r: Self)
        requires
            positive(host_rows, host_cols),
        ensures
            r.wf(),
            r.state() == new_mirror(host_rows, host_cols),
    {
        proof {
            reveal_with_fuel(log_size, 2);
            reveal_with_fuel(log_stage, 2);
        }
        let (rows, cols) = lay_out(host_rows, host_cols);
        Mirror {
            host_rows,
            host_cols,
            parser: Emulator::new(rows, cols, STAGE_SCROLLBACK),
            shadow: None,
            view: None,
            title: None,
            history: History::new(DEFAULT_MAX_LINES),
            staged_seen: 0,
            zone_dirty: false,
        }
    }

    /// Host row where the live region starts while viewing.
    fn region_offset(&self) -> (r: u16)
        requires
            self.state().wf(),
        ensures
            r == self.state().region_offset(),
    {
        let region_rows: u16 = match self.view {
            Some(v) => min_u16(v.rows, self.host_rows),
            None => self.host_rows,
        };
        self.host_rows - region_rows
    }

    /// Host columns that show the view.
    fn region_cols(&self) -> (r: u16)
        ensures
            r == self.state().region_cols(),
    {
        match self.view {
            Some(v) => min_u16(v.cols, self.host_cols),
            None => self.host_cols,
        }
    }

    /// Number of view-model rows hidden above the host screen when the view
    /// is taller than the host (the host shows the model's bottom): the
    /// region displays model rows `crop_top()..view.rows`.
    fn crop_top(&self) -> (r: u16)
        ensures
            r == self.state().crop_top(),
    {
        match self.view {
            Some(v) => minus_u16(v.rows, self.host_rows),
            None => 0,
        }
    }

    /// Number of rows currently in the staging scrollback. Leaves the model
    /// scrolled back all the way.
    fn staged_len(&mut self) -> (r: usize)
        requires
            log_stage(old(self).parser.log()) == STAGE_SCROLLBACK,
        ensures
            r == vt_staged(old(self).parser.log()).len(),
            r <= STAGE_SCROLLBACK,
            final(self).parser.offset() == r,
            final(self).state() == old(self).state(),
            final(self).shadow == old(self).shadow,
    {
        self.parser.set_scrollback(usize::MAX);
        self.parser.scrollback()
    }

    /// Arms the scroll counter before a slice is parsed: while scrolled back by
    /// one row, every row pushed to the staging scrollback advances the offset
    /// by one, giving an exact count of new rows even after the staging buffer
    /// is full. Skipped while the buffer is empty or the app is on the
    /// alternate screen (which has no scrollback of its own, and during which
    /// the primary screen cannot scroll).
    fn park(&mut self) -> (armed: bool)
        requires
            old(self).wf(),
        ensures
            armed == old(self).state().can_arm(),
            final(self).parser.offset() == if armed {
                1nat
            } else {
                0
            },
            final(self).state() == old(self).state(),
            final(self).shadow == old(self).shadow,
    {
        if self.parser.alternate_screen() {
            return false;
        }
        if self.staged_len() > 0 {
            self.parser.set_scrollback(1);
            true
        } else {
            self.parser.set_scrollback(0);
            false
        }
    }

    /// Archives rows that scrolled into the staging buffer since the last
    /// harvest. Deferred while the alternate screen is active.
    fn harvest(&mut self, armed: bool)
        requires
            old(self).sound(),
            old(self).state().can_archive(),
            old(self).state().history.next + STAGE_SCROLLBACK <= u64::MAX,
        ensures
            final(self).sound(),
            final(self).shadow == old(self).shadow,
            vt_alternate(old(self).parser.log()) || final(self).parser.offset() == 0,
            vt_alternate(old(self).parser.log()) ==> final(self).parser == old(self).parser,
            final(self).state().can_archive(),
            final(self).state() == old(self).state().harvested(armed, old(self).parser.offset()),
            final(self).state().history.next <= old(self).state().history.next + STAGE_SCROLLBACK,
    {
        if self.parser.alternate_screen() {
            return;
        }
        let offset: usize = self.parser.scrollback();
        let new_rows: usize = if armed && offset > 0 {
            // Exact even if the staging buffer overflowed meanwhile.
            offset - 1
        } else {
            // Growth since last look; exact until the buffer first fills.
            let len: usize = self.staged_len();
            if len >= self.staged_seen {
                len - self.staged_seen
            } else {
                0
            }
        };
        self.archive_staged_rows(new_rows);
        self.staged_seen = self.staged_len();
        self.parser.set_scrollback(0);
    }

    /// Serializes the newest `count` staged rows (oldest first) into history.
    fn archive_staged_rows(&mut self, count: usize)
        requires
            old(self).state().can_archive(),
            old(self).state().history.next + STAGE_SCROLLBACK <= u64::MAX,
        ensures
            final(self).state() == (MirrorView {
                history: old(self).state().history.push_all(
                    staged_records(old(self).state().log, count as int),
                ),
                ..old(self).state()
            }),
            final(self).state().can_archive(),
            final(self).state().history.next <= old(self).state().history.next + STAGE_SCROLLBACK,
            final(self).shadow == old(self).shadow,
    {
        let (rows, cols) = self.parser.size();
        let len: usize = self.staged_len();
        let total: usize = if count <= len {
            count
        } else {
            len
        };
        let mut remaining: usize = total;
        let ghost log = self.parser.log();
        let ghost staged = vt_staged(log);
        let ghost records = staged_records(log, count as int);
        let ghost before = self.history@;
        proof {
            assert(records.take(0) =~= Seq::<RecordView>::empty());
            assert(before.push_all(records.take(0)).lines =~= before.lines);
        }
        while remaining > 0
            invariant
                remaining <= total == records.len() <= staged.len() == len <= STAGE_SCROLLBACK,
                records == staged_records(log, count as int),
                staged == vt_staged(log),
                (rows, cols) == log_size(log),
                rows > 0,
                vt_screen(log).len() == rows,
                self.parser.log() == log,
                self.shadow == old(self).shadow,
                self.history@.wf(),
                before.next + STAGE_SCROLLBACK <= u64::MAX,
                self.history@ == before.push_all(records.take(total - remaining)),
                before == old(self).state().history,
                self.state() == (MirrorView { history: self.history@, ..old(self).state() }),
            decreases remaining,
        {
            // Scrolling back by `remaining` puts the oldest unarchived rows at
            // the top of the visible window.
            self.parser.set_scrollback(remaining);
            let window: usize = if remaining <= rows as usize {
                remaining
            } else {
                rows as usize
            };
            let mut row: usize = 0;
            while row < window
                invariant
                    row <= window <= remaining <= total == records.len() <= staged.len() == len
                        <= STAGE_SCROLLBACK,
                    window <= rows,
                    records == staged_records(log, count as int),
                    staged == vt_staged(log),
                    (rows, cols) == log_size(log),
                    vt_screen(log).len() == rows,
                    self.parser.log() == log,
                    self.parser.offset() == remaining,
                    self.shadow == old(self).shadow,
                    self.history@.wf(),
                    before.next + STAGE_SCROLLBACK <= u64::MAX,
                    self.history@ == before.push_all(records.take(total - remaining + row)),
                    before == old(self).state().history,
                    self.state() == (MirrorView { history: self.history@, ..old(self).state() }),
                decreases window - row,
            {
                let record = serialize_row(&self.parser, row as u16, cols);
                proof {
                    let sight = visible_rows(log, remaining as nat);
                    assert(sight[row as int] == staged[staged.len() - remaining + row]);
                    assert(row_in_sight(log, remaining as nat, row as u16) == sight[row as int]);
                    assert(record@ == records[total - remaining + row]);
                    push_all_step(before, records.take(total - remaining + row), record@);
                    assert(records.take(total - remaining + row).push(record@) =~= records.take(
                        total - remaining + row + 1,
                    ));
                }
                self.history.push(record);
                row += 1;
            }
            remaining -= window;
        }
        proof {
            assert(records.take(total as int) =~= records);
        }
    }

    /// Full repaint of the view model onto the host terminal (assumes the
    /// host was just cleared).
    fn render_host_full(&self) -> (r: Vec<u8>)
        requires
            self.wf(),
            self.state().view is Some,
        ensures
            r@ == self.state().full_bytes(),
    {
        proof {
            reveal(MirrorView::full_bytes);
        }
        let (rows, cols) = self.parser.size();
        proof {
            reveal_with_fuel(log_size, 2);
        }
        let blank = Emulator::new(rows, cols, 0);
        render_rows(
            &self.parser,
            &blank,
            self.host_rows - self.region_offset(),
            self.region_cols(),
            true,
            self.region_offset(),
            self.crop_top(),
        )
    }

    /// Bytes that push the history zone's contents into the host terminal's
    /// native scrollback (by scrolling the whole host screen up past it).
    /// Used before anything clears the zone.
    fn push_zone_to_host_scrollback(&self) -> (r: Vec<u8>)
        requires
            self.state().wf(),
        ensures
            r@ == self.state().zone_bytes(),
    {
        proof {
            reveal(MirrorView::zone_bytes);
        }
        let zone_rows: u16 = self.region_offset();
        let mut out: Vec<u8> = Vec::new();
        if self.zone_dirty && zone_rows != 0 {
            push_text(&mut out, SGR_RESET);
            push_text(&mut out, cup(self.host_rows - 1, 0).as_str());
            push_repeated(&mut out, "\r\n", zone_rows as usize);
        }
        assert(out@ =~= self.state().zone_bytes());
        out
    }

    /// Bytes that copy the hidden top rows of the view model into the host
    /// terminal's native scrollback, so scrolling up shows the whole
    /// mirrored screen. The copies are point-in-time: the model may edit
    /// those rows afterwards, leaving stale scrollback until the next push
    /// (`refresh_scrollback`, wired to Ctrl+L), an accepted inaccuracy.
    /// The caller must follow with a full region repaint.
    fn push_crop_to_host_scrollback(&self) -> (r: Vec<u8>)
        requires
            self.wf(),
        ensures
            r@ == self.state().crop_bytes(),
    {
        proof {
            reveal(MirrorView::crop_bytes);
        }
        let crop: u16 = self.crop_top();
        let mut out: Vec<u8> = Vec::new();
        if crop == 0 {
            assert(out@ =~= self.state().crop_bytes());
            return out;
        }
        let (_rows, cols) = self.parser.size();
        push_text(&mut out, SYNC_BEGIN);
        push_text(&mut out, HIDE_CURSOR);
        // Autowrap off: a line wider than the host must truncate in place, or
        // the row accounting below breaks (matching the region display, which
        // also truncates at the host width).
        push_text(&mut out, "\x1b[?7l");
        let ghost head = out@;
        let ghost m = self.state();
        let mut pushed: u16 = 0;
        assert(out@ + m.crop_batches(0) == head + m.crop_batches(0));
        while pushed < crop
            invariant
                pushed <= crop == m.crop_top(),
                m == self.state(),
                m.wf(),
                self.parser.offset() == 0,
                cols == log_size(m.log).1,
                out@ + m.crop_batches(pushed as int) == head + m.crop_batches(0),
            decreases crop - pushed,
        {
            // A batch of hidden rows is painted over the top of the screen,
            // which then scrolls exactly that many lines: precisely the
            // painted rows enter the scrollback. The repaint that follows
            // fixes the display.
            let batch: u16 = min_u16(crop - pushed, self.host_rows);
            let ghost start = out@;
            let mut i: u16 = 0;
            assert(out@ =~= start + m.painted(pushed as int, 0));
            while i < batch
                invariant
                    i <= batch <= m.host_rows,
                    pushed + batch <= crop == m.crop_top(),
                    m == self.state(),
                    m.wf(),
                    self.parser.offset() == 0,
                    cols == log_size(m.log).1,
                    out@ == start + m.painted(pushed as int, i as nat),
                decreases batch - i,
            {
                push_text(&mut out, SGR_RESET);
                push_text(&mut out, cup(i, 0).as_str());
                push_text(&mut out, CLEAR_TO_EOL);
                let record = serialize_row(&self.parser, pushed + i, cols);
                push_bytes(&mut out, record.bytes.as_slice());
                i += 1;
                assert(out@ =~= start + m.painted(pushed as int, i as nat));
            }
            push_text(&mut out, SGR_RESET);
            push_text(&mut out, cup(self.host_rows - 1, 0).as_str());
            push_repeated(&mut out, "\r\n", batch as usize);
            proof {
                assert(out@ + m.crop_batches(pushed + batch) =~= start + m.crop_batches(
                    pushed as int,
                ));
            }
            pushed += batch;
        }
        push_text(&mut out, "\x1b[?7h");
        push_text(&mut out, SYNC_END);
        proof {
            assert(m.crop_batches(crop as int) =~= Seq::<u8>::empty());
            assert(out@ =~= m.crop_bytes());
        }
        out
    }

    /// Re-push the hidden top rows into the host's native scrollback (fresh
    /// copies healing any stale ones) and repaint the region. Wired to
    /// Ctrl+L on the host and in the viewer; empty when nothing is being
    /// mirrored.
    pub fn refresh_scrollback(&self) -> (r: Vec<u8>)
        requires
            self.wf(),
        ensures
            r@ == match self.state().view {
                None => Seq::empty(),
                Some(_) => self.state().crop_bytes() + self.state().full_bytes(),
            },
    {
        if self.view.is_none() {
            return Vec::new();
        }
        let mut out = self.push_crop_to_host_scrollback();
        push_bytes(&mut out, self.render_host_full().as_slice());
        out
    }

    pub fn set_history_limit(&mut self, max_lines: usize)
        requires
            old(self).wf(),
        ensures
            final(self).wf(),
            final(self).state() == (MirrorView {
                history: HistoryView {
                    lines: last_of(old(self).state().history.lines, max_lines as nat),
                    max_lines: max_lines as nat,
                    ..old(self).state().history
                },
                ..old(self).state()
            }),
    {
        self.history.set_max_lines(max_lines);
    }

    /// (next, oldest) indices of the history archive.
    pub fn history_extent(&self) -> (r: (u64, u64))
        requires
            self.wf(),
        ensures
            r.0 == self.state().history.next,
            r.1 == self.state().history.oldest(),
    {
        (self.history.next_index(), self.history.oldest())
    }

    pub fn history(&self) -> (r: &History)
        ensures
            r@ == self.state().history,
    {
        &self.history
    }

    pub fn view(&self) -> (r: Option<View>)
        ensures
            r == self.state().view,
    {
        self.view
    }

    /// The host terminal's current dimensions, as (rows, cols).
    pub fn host_size(&self) -> (r: (u16, u16))
        ensures
            r == (self.state().host_rows, self.state().host_cols),
    {
        (self.host_rows, self.host_cols)
    }

    /// Current window title, as last set by the app.
    pub fn title(&self) -> (r: Option<&str>)
        ensures
            match self.state().title {
                Some(t) => r matches Some(s) && s@ == t,
                None => r is None,
            },
    {
        match &self.title {
            Some(t) => Some(t.as_str()),
            None => None,
        }
    }

    /// Seed the title (from the --title flag) before the app has set one.
    /// An app-set title takes over from here via the usual change tracking.
    pub fn set_title(&mut self, title: String)
        requires
            old(self).wf(),
        ensures
            final(self).wf(),
            final(self).state() == (MirrorView { title: Some(title@), ..old(self).state() }),
    {
        self.title = Some(title);
    }

    fn take_bells(&mut self) -> (r: usize)
        requires
            old(self).wf(),
        ensures
            final(self).wf(),
            r == old(self).state().bells,
            final(self).state() == (MirrorView { bells: 0, ..old(self).state() }),
    {
        let events = self.parser.callbacks_mut();
        let bells: usize = events.bells;
        events.bells = 0;
        bells
    }

    /// The title set in the last processed chunk, if it differs from the
    /// current one.
    fn take_title_change(&mut self) -> (r: Option<String>)
        requires
            old(self).wf(),
        ensures
            final(self).wf(),
            opt_text(r) == match old(self).state().new_title {
                Some(t) => if old(self).state().title == Some(t) {
                    None
                } else {
                    Some(t)
                },
                None => None,
            },
            final(self).state() == (MirrorView {
                new_title: None,
                title: match opt_text(r) {
                    Some(t) => Some(t),
                    None => old(self).state().title,
                },
                ..old(self).state()
            }),
    {
        let events = self.parser.callbacks_mut();
        let taken = events.title.take();
        match taken {
            None => None,
            Some(title) => {
                let same = match &self.title {
                    Some(current) => text_eq(current.as_str(), title.as_str()),
                    None => false,
                };
                if same {
                    None
                } else {
                    self.title = Some(title.clone());
                    Some(title)
                }
            },
        }
    }

    /// Parses one slice of output and archives what scrolled off meanwhile.
    fn parse_slice(&mut self, slice: &[u8])
        requires
            old(self).wf(),
            old(self).state().history.next + STAGE_SCROLLBACK <= u64::MAX,
        ensures
            final(self).wf(),
            final(self).state() == old(self).state().after_slice(slice@),
            old(self).state().history.next <= final(self).state().history.next
                <= old(self).state().history.next + STAGE_SCROLLBACK,
    {
        let ghost before = self.state();
        let armed = self.park();
        self.parser.process(slice);
        proof {
            reveal(MirrorView::after_slice);
            assert(self.parser.log().drop_last() =~= before.log);
            assert(self.state() == before.fed(slice@));
        }
        self.harvest(armed);
    }

    /// Parses a chunk of output in slices, draining freshly scrolled-off rows
    /// into the history archive between slices so the staging buffer can't
    /// overflow even on a flood of one-byte lines.
    fn parse(&mut self, bytes: &[u8])
        requires
            old(self).wf(),
            old(self).state().history.next + STAGE_SCROLLBACK * bytes@.len() <= u64::MAX,
        ensures
            final(self).wf(),
            final(self).state() == old(self).state().after_slices(bytes@),
            old(self).state().history.next <= final(self).state().history.next
                <= old(self).state().history.next + STAGE_SCROLLBACK * bytes@.len(),
    {
        let ghost start = self.state();
        let mut done: usize = 0;
        proof {
            assert(bytes@.skip(0) =~= bytes@);
        }
        while done < bytes.len()
            invariant
                done <= bytes@.len(),
                self.wf(),
                start.history.next + STAGE_SCROLLBACK * bytes@.len() <= u64::MAX,
                self.state().after_slices(bytes@.skip(done as int)) == start.after_slices(bytes@),
                start.history.next <= self.state().history.next <= start.history.next
                    + STAGE_SCROLLBACK * done,
            decreases bytes@.len() - done,
        {
            let ghost rest = bytes@.skip(done as int);
            let mut len: usize = 1;
            while len < bytes.len() - done && len < PROCESS_SLICE && bytes[done + len] != ESCAPE
                && !(bytes[done] == ESCAPE && letter(bytes[done + len - 1]))
                invariant
                    0 < len <= rest.len(),
                    len <= PROCESS_SLICE,
                    done + rest.len() == bytes@.len(),
                    rest == bytes@.skip(done as int),
                    slice_end(rest, len as int) == slice_len(rest),
                decreases rest.len() - len,
            {
                len += 1;
            }
            let slice = vstd::slice::slice_subrange(bytes, done, done + len);
            self.parse_slice(slice);
            proof {
                assert(slice@ =~= rest.take(len as int));
                assert(bytes@.skip(done + len) =~= rest.skip(len as int));
            }
            done += len;
        }
        proof {
            assert(bytes@.skip(done as int) =~= Seq::<u8>::empty());
        }
    }

    /// The bytes that mirror a scroll of `scrolled` lines for real on the
    /// host, so that its native scrollback accumulates: delete the live
    /// region's rows (DL affects no scrollback), append the newly archived
    /// lines as flowing text after the zone content, then scroll just enough
    /// to clear the region area for the repaint. Net effect: exactly
    /// `scrolled` rows push into the host's scrollback, in order: the zone's
    /// oldest rows followed by the oldest new lines, while the newest lines
    /// settle in the zone directly above the region. (Lines wider than the
    /// host wrap and consume extra rows; order is still preserved.)
    fn scroll_host(&self, scrolled: u64) -> (r: Vec<u8>)
        requires
            self.wf(),
            self.state().view is Some,
        ensures
            r@ == self.state().scroll_bytes(scrolled as nat),
    {
        let offset: u16 = self.region_offset();
        let region_rows: u16 = self.host_rows - offset;
        let mut host: Vec<u8> = Vec::new();
        push_text(&mut host, SYNC_BEGIN);
        push_text(&mut host, HIDE_CURSOR);
        push_text(&mut host, SGR_RESET);
        push_text(&mut host, cup(offset, 0).as_str());
        let mut delete = "\x1b[".to_owned();
        push_decimal(&mut delete, region_rows as u64);
        delete.append("M");
        push_text(&mut host, delete.as_str());
        let count: usize = if scrolled <= usize::MAX as u64 {
            scrolled as usize
        } else {
            usize::MAX
        };
        let records = self.history.tail(count);
        let ghost views = last_of(self.state().history.lines, scrolled as nat);
        proof {
            assert(crate::history::record_views(records@) == views) by {
                self.history.lemma_len();
            }
        }
        let ghost head = host@;
        let mut i: usize = 0;
        assert(host@ =~= head + flowed(views.take(0)));
        while i < records.len()
            invariant
                i <= records@.len() == views.len(),
                crate::history::record_views(records@) == views,
                host@ == head + flowed(views.take(i as int)),
            decreases records@.len() - i,
        {
            if i > 0 {
                push_text(&mut host, "\r\n");
            }
            push_bytes(&mut host, records[i].bytes.as_slice());
            push_text(&mut host, SGR_RESET);
            proof {
                assert(crate::history::record_views(records@)[i as int] == records@[i as int]@);
                assert(views.take(i + 1).drop_last() =~= views.take(i as int));
                assert(views.take(i + 1).last() == views[i as int]);
                if i == 0 {
                    assert(flowed(views.take(0)) =~= Seq::<u8>::empty());
                }
                assert(host@ =~= head + flowed(views.take(i + 1)));
            }
            i += 1;
        }
        assert(views.take(i as int) =~= views);
        push_text(&mut host, cup(self.host_rows - 1, 0).as_str());
        let lines: usize = if count <= region_rows as usize {
            count
        } else {
            region_rows as usize
        };
        push_repeated(&mut host, "\r\n", lines);
        push_text(&mut host, SYNC_END);
        proof {
            assert(host@ =~= self.state().scroll_bytes(scrolled as nat));
        }
        host
    }

    /// Translate a chunk of child output.
    pub fn process(&mut self, bytes: &[u8]) -> (out: Output)
        requires
            old(self).wf(),
            old(self).state().history.next + STAGE_SCROLLBACK * bytes@.len() <= u64::MAX,
        ensures
            final(self).wf(),
            final(self).state() == old(self).state().processed(bytes@),
            final(self).state().history.next <= old(self).state().history.next
                + STAGE_SCROLLBACK * bytes@.len(),
            out.host@ == old(self).state().host_bytes(bytes@),
            opt_bytes(out.remote) == match old(self).state().shadow {
                Some(shadow) => Some(
                    vt_state_diff(old(self).state().after_slices(bytes@).log, shadow),
                ),
                None => None,
            },
            out.bells == old(self).state().after_slices(bytes@).bells,
            opt_text(out.title) == old(self).state().title_change(bytes@),
    {
        proof {
            reveal(MirrorView::processed);
            reveal(MirrorView::host_bytes);
            reveal(MirrorView::full_bytes);
        }
        let ghost start = self.state();
        let history_before: u64 = self.history.next_index();
        self.parse(bytes);
        proof {
            start.lemma_after_slices_frame(bytes@);
        }
        let scrolled: u64 = self.history.next_index() - history_before;
        let bells: usize = self.take_bells();
        let title = self.take_title_change();
        if self.view.is_none() {
            let mut host: Vec<u8> = Vec::new();
            push_bytes(&mut host, bytes);
            assert(host@ =~= bytes@);
            // Pass-through already delivered the title sequence to the host;
            // the title is for the session socket only.
            return Output { host, remote: None, bells, title };
        }
        let mut host: Vec<u8> = Vec::new();
        if scrolled > 0 {
            host = self.scroll_host(scrolled);
            self.zone_dirty = true;
            // The scroll shifted the whole host screen, so the region contents
            // are unknown: clear-and-redraw it.
            push_bytes(&mut host, self.render_host_full().as_slice());
        }
        let offset: u16 = self.region_offset();
        let region_rows: u16 = self.host_rows - offset;
        let region_cols: u16 = self.region_cols();
        let crop: u16 = self.crop_top();
        let mut remote: Option<Vec<u8>> = None;
        if let Some(shadow) = self.shadow.as_mut() {
            if scrolled == 0 {
                host = render_rows(
                    &self.parser,
                    shadow,
                    region_rows,
                    region_cols,
                    false,
                    offset,
                    crop,
                );
            }
            // The device terminal is exactly view-sized (or as near to it as a
            // model can be), so the same-size diff stream is correct for it.
            remote = Some(self.parser.state_diff(shadow));
            let ghost shown = shadow.log();
            shadow.process(bytes);
            assert(shadow.log().drop_last() =~= shown);
        }
        // The render paths only reproduce screen contents, so a title change
        // must be re-emitted to the host explicitly.
        if let Some(t) = &title {
            let mut sequence = "\x1b]2;".to_owned();
            sequence.append(t.as_str());
            sequence.append("\x07");
            push_text(&mut host, sequence.as_str());
        }
        Output { host, remote, bells, title }
    }

    /// Before a parser rebuild (which discards the staging scrollback and,
    /// for a bottom-anchored crop, the rows above the crop window), preserve
    /// that content in the history archive: drain staged rows, then archive
    /// visible rows that the crop will drop, up to the last non-blank one.
    fn flush_history_for_rebuild(&mut self, keep_rows: u16)
        requires
            old(self).wf(),
            old(self).state().history.next + STAGE_SCROLLBACK + 65536 <= u64::MAX,
        ensures
            final(self).wf(),
            final(self).state() == old(self).state().flushed(keep_rows),
            final(self).state().history.next <= old(self).state().history.next + STAGE_SCROLLBACK
                + 65536,
    {
        self.harvest(false);
        let ghost h = self.state();
        if !self.parser.alternate_screen() {
            let (src_rows, src_cols) = self.parser.size();
            let dropped: u16 = minus_u16(src_rows, keep_rows);
            let ghost log = self.parser.log();
            let ghost all = top_records(log, dropped as int);
            let mut keep: u16 = dropped;
            proof {
                assert(all.take(keep as int) =~= all);
            }
            while keep > 0
                invariant_except_break
                    without_trailing_blanks(all.take(keep as int)) == without_trailing_blanks(all),
                invariant
                    keep <= dropped == all.len(),
                    all == top_records(log, dropped as int),
                    self.parser.log() == log,
                    self.parser.offset() == 0,
                    src_cols == log_size(log).1,
                ensures
                    without_trailing_blanks(all) == all.take(keep as int),
                decreases keep,
            {
                let record = serialize_row(&self.parser, keep - 1, src_cols);
                proof {
                    assert(record@ == all[keep - 1]);
                    assert(all.take(keep as int).drop_last() =~= all.take(keep - 1));
                }
                if record.bytes.len() > 0 {
                    break;
                }
                keep -= 1;
            }
            let mut row: u16 = 0;
            proof {
                assert(h.history.push_all(all.take(0)).lines =~= h.history.lines);
            }
            while row < keep
                invariant
                    row <= keep <= dropped == all.len(),
                    all == top_records(log, dropped as int),
                    self.parser.log() == log,
                    self.parser.offset() == 0,
                    self.shadow matches Some(s) ==> s.offset() == 0,
                    src_cols == log_size(log).1,
                    h.history.next + 65536 <= u64::MAX,
                    self.history@.wf(),
                    self.history@ == h.history.push_all(all.take(row as int)),
                    self.state() == (MirrorView { history: self.history@, ..h }),
                decreases keep - row,
            {
                let record = serialize_row(&self.parser, row, src_cols);
                proof {
                    assert(record@ == all[row as int]);
                    push_all_step(h.history, all.take(row as int), record@);
                    assert(all.take(row as int).push(record@) =~= all.take(row + 1));
                }
                self.history.push(record);
                row += 1;
            }
        }
        self.staged_seen = 0;
    }

    /// A device started viewing: resize the child to the device dimensions
    /// and snapshot the current screen so the device has something to show
    /// until the app repaints in response to SIGWINCH.
    ///
    /// The snapshot uses the bottom-left of the current viewport: the last
    /// `rows` rows and first `cols` columns that fit the device screen.
    pub fn start_view(&mut self, view: View) -> (t: Transition)
        requires
            old(self).wf(),
            positive(view.rows, view.cols),
            old(self).state().history.next + STAGE_SCROLLBACK + 65536 <= u64::MAX,
        ensures
            final(self).wf(),
            final(self).state() == old(self).state().viewing(view),
            old(self).state().history.next <= final(self).state().history.next <= old(
                self,
            ).state().history.next + STAGE_SCROLLBACK + 65536,
            t.child_size == Some((view.rows, view.cols)),
            t.host_output@ == encode_utf8(VIEW_HOST_PRELUDE@) + old(self).state().viewing(
                view,
            ).crop_bytes() + old(self).state().viewing(view).full_bytes(),
            opt_bytes(t.remote_output) == Some(old(self).state().snapshot(view)),
    {
        proof {
            reveal(MirrorView::viewing);
        }
        let ghost start = self.state();
        self.flush_history_for_rebuild(view.rows);
        let snapshot = render_snapshot(&self.parser, view.rows, view.cols);
        proof {
            reveal_with_fuel(log_size, 3);
            reveal_with_fuel(log_stage, 3);
            assert(snapshot@ == start.snapshot(view));
        }
        // Rebuild the model at device dimensions, primed with the snapshot,
        // so subsequent diffs (for both destinations) start from what the
        // device and host are actually displaying.
        let (rows, cols) = lay_out(view.rows, view.cols);
        let mut parser = Emulator::new(rows, cols, STAGE_SCROLLBACK);
        parser.process(snapshot.as_slice());
        let mut shadow = Emulator::new(rows, cols, 0);
        shadow.process(snapshot.as_slice());
        proof {
            assert(parser.log().drop_last() =~= fresh_log(rows, cols, STAGE_SCROLLBACK as nat));
            assert(shadow.log().drop_last() =~= fresh_log(rows, cols, 0));
        }
        self.parser = parser;
        self.shadow = Some(shadow);
        self.view = Some(view);
        self.zone_dirty = false;
        // No clear: the live region redraws the bottom of the host screen
        // in place (it shows the same bottom-anchored content the host was
        // already displaying), and whatever is above it stays visible as
        // the initial history zone. When the view is taller than the host,
        // the hidden top rows go into the host's native scrollback instead.
        let mut host_output: Vec<u8> = Vec::new();
        push_text(&mut host_output, VIEW_HOST_PRELUDE);
        push_bytes(&mut host_output, self.push_crop_to_host_scrollback().as_slice());
        push_bytes(&mut host_output, self.render_host_full().as_slice());
        proof {
            assert(host_output@ =~= encode_utf8(VIEW_HOST_PRELUDE@) + self.state().crop_bytes()
                + self.state().full_bytes());
        }
        Transition {
            child_size: Some((view.rows, view.cols)),
            host_output,
            remote_output: Some(snapshot),
        }
    }

    /// The device stopped viewing (unview message, client disconnect, or
    /// simulated toggle): back to pass-through at host dimensions.
    pub fn end_view(&mut self) -> (t: Transition)
        requires
            old(self).wf(),
            old(self).state().history.next + STAGE_SCROLLBACK <= u64::MAX,
        ensures
            final(self).wf(),
            final(self).state() == old(self).state().unviewed(),
            final(self).state().history.next <= old(self).state().history.next + STAGE_SCROLLBACK,
            t.child_size == Some((old(self).state().host_rows, old(self).state().host_cols)),
            t.host_output@ == old(self).state().zone_bytes() + encode_utf8(CLEAR@) + encode_utf8(
                RESET_INPUT_MODES@,
            ),
            t.remote_output is None,
    {
        reveal(MirrorView::unviewed);
        reveal(MirrorView::zone_bytes);
        // Drain staged history; the visible rows are not archived (they stay
        // conceptually on screen: the app repaints them at host size, and a
        // future view-start crop archives whatever ends up above the fold).
        self.harvest(false);
        self.staged_seen = 0;
        // Preserve the history zone in the host's native scrollback before
        // clearing wipes it.
        let mut host_output = self.push_zone_to_host_scrollback();
        self.zone_dirty = false;
        self.view = None;
        self.shadow = None;
        proof {
            reveal_with_fuel(log_size, 2);
            reveal_with_fuel(log_stage, 2);
        }
        let (rows, cols) = lay_out(self.host_rows, self.host_cols);
        self.parser = Emulator::new(rows, cols, STAGE_SCROLLBACK);
        // The child's SIGWINCH repaint will fill the host screen; reset any
        // input modes we enabled on the child's behalf, since from here on
        // the child manages the host terminal directly.
        push_text(&mut host_output, CLEAR);
        push_text(&mut host_output, RESET_INPUT_MODES);
        Transition {
            child_size: Some((self.host_rows, self.host_cols)),
            host_output,
            remote_output: None,
        }
    }

    /// Draws the model anew, at a size of fewer columns; see
    /// `MirrorView::narrowed`.
    fn narrow(&mut self, rows: u16, cols: u16)
        requires
            old(self).wf(),
            old(self).state().view is None,
            drawable(rows, cols),
            cols < log_size(old(self).state().log).1,
            vt_alternate(old(self).state().log) ==> old(self).state().history.next
                + STAGE_SCROLLBACK <= u64::MAX,
        ensures
            final(self).sound(),
            final(self).parser.offset() == 0,
            final(self).shadow is None,
            final(self).state() == old(self).state().narrowed(rows, cols),
            final(self).state().history.wf(),
            log_stage(final(self).state().log) == STAGE_SCROLLBACK,
            log_size(final(self).state().log) == (rows, cols),
            vt_alternate(old(self).state().log) ==> final(self).state().history.next
                <= old(self).state().history.next + STAGE_SCROLLBACK,
            !vt_alternate(old(self).state().log) ==> final(self).state().history.next
                == old(self).state().history.next,
    {
        let ghost start = self.state();
        let (_rows, old_cols) = self.parser.size();
        self.parser.set_size(rows, old_cols);
        let ghost sized = self.state();
        let shown = render_left(&self.parser, cols);
        let mut parser = Emulator::new(rows, cols, STAGE_SCROLLBACK);
        let ghost fresh = parser.log();
        proof {
            reveal_with_fuel(log_size, 2);
            reveal_with_fuel(log_stage, 2);
            assert(sized.log.drop_last() =~= start.log);
        }
        if self.parser.alternate_screen() {
            self.parser.process(SHOW_PRIMARY.as_bytes());
            proof {
                assert(self.parser.log().drop_last() =~= sized.log);
                assert(self.state() == sized.fed(encode_utf8(SHOW_PRIMARY@)));
            }
            self.harvest(false);
            let primary = render_left(&self.parser, cols);
            parser.process(primary.as_slice());
            assert(parser.log().drop_last() =~= fresh);
            let ghost drawn = parser.log();
            parser.process(ENTER_ALTERNATE.as_bytes());
            assert(parser.log().drop_last() =~= drawn);
            assert(log_size(drawn) == log_size(fresh) && log_stage(drawn) == log_stage(fresh));
        }
        assert(log_size(parser.log()) == (rows, cols));
        let ghost before = parser.log();
        parser.process(shown.as_slice());
        assert(parser.log().drop_last() =~= before);
        self.parser = parser;
        self.staged_seen = 0;
    }

    /// Brings the model to the size nearest to the host's new one that it can
    /// have.
    fn remodel(&mut self, rows: u16, cols: u16)
        requires
            old(self).wf(),
            old(self).state().view is None,
            positive(rows, cols),
            vt_alternate(old(self).state().log) ==> old(self).state().history.next
                + STAGE_SCROLLBACK <= u64::MAX,
        ensures
            final(self).wf(),
            final(self).state() == (MirrorView {
                host_rows: rows,
                host_cols: cols,
                ..old(self).state().remodeled(laid_out(rows, cols).0, laid_out(rows, cols).1)
            }),
            vt_alternate(old(self).state().log) ==> final(self).state().history.next
                <= old(self).state().history.next + STAGE_SCROLLBACK,
            !vt_alternate(old(self).state().log) ==> final(self).state().history.next
                == old(self).state().history.next,
    {
        let (model_rows, model_cols) = lay_out(rows, cols);
        let (_rows, old_cols) = self.parser.size();
        if model_cols < old_cols && (self.parser.parts(model_cols) || self.parser.parts_hidden(
            model_cols,
        )) {
            self.narrow(model_rows, model_cols);
        } else {
            let ghost log = self.parser.log();
            self.parser.set_size(model_rows, model_cols);
            assert(self.parser.log().drop_last() =~= log);
        }
        self.host_rows = rows;
        self.host_cols = cols;
    }

    /// The host terminal was resized.
    pub fn host_resized(&mut self, rows: u16, cols: u16) -> (t: Transition)
        requires
            old(self).wf(),
            positive(rows, cols),
            old(self).state().history.next + STAGE_SCROLLBACK <= u64::MAX,
        ensures
            final(self).wf(),
            final(self).state() == old(self).state().resized(rows, cols),
            final(self).state().history.next <= old(self).state().history.next + STAGE_SCROLLBACK,
            t.child_size == match old(self).state().view {
                None => Some((rows, cols)),
                Some(_) => None,
            },
            t.host_output@ == match old(self).state().view {
                None => Seq::empty(),
                Some(_) => old(self).state().reframe_bytes(rows, cols),
            },
            t.remote_output is None,
    {
        proof {
            reveal(MirrorView::resized);
            reveal(MirrorView::crop_bytes);
            reveal(MirrorView::zone_bytes);
            reveal(MirrorView::full_bytes);
        }
        match self.view {
            // Pass-through: forward the new size to the child; keep the
            // model in step (preserving contents for future snapshots).
            None => {
                // Resizing clears wrap flags and can drop rows, so drain
                // staged history first.
                self.harvest(false);
                self.remodel(rows, cols);
                Transition {
                    child_size: Some((rows, cols)),
                    host_output: Vec::new(),
                    remote_output: None,
                }
            },
            // The device screen stays at its fixed size; only our layout on
            // the host changed, so repaint the whole host frame (after
            // rescuing the history zone or, when the view no longer fits,
            // the freshly hidden top rows into the host's scrollback).
            Some(_) => {
                self.host_rows = rows;
                self.host_cols = cols;
                let ghost m = self.state();
                let mut host_output = self.push_zone_to_host_scrollback();
                self.zone_dirty = false;
                push_bytes(&mut host_output, self.push_crop_to_host_scrollback().as_slice());
                push_text(&mut host_output, CLEAR);
                push_bytes(&mut host_output, self.render_host_full().as_slice());
                proof {
                    m.lemma_crop_ignores_zone(false, 0);
                }
                Transition { child_size: None, host_output, remote_output: None }
            },
        }
    }

    /// Bytes to restore the host terminal when exiting while a view is
    /// active.
    pub fn cleanup(&self) -> (r: Vec<u8>)
        requires
            self.wf(),
        ensures
            r@ == self.state().cleanup_bytes(),
    {
        match self.view {
            None => Vec::new(),
            Some(_) => {
                // Rescue the history zone first; the final screen contents
                // stay visible above the shell prompt that follows.
                let mut out = self.push_zone_to_host_scrollback();
                push_text(&mut out, SGR_RESET);
                push_text(&mut out, SHOW_CURSOR);
                push_text(&mut out, RESET_INPUT_MODES);
                push_text(&mut out, cup(self.host_rows - 1, 0).as_str());
                push_text(&mut out, "\r\n");
                out
            },
        }
    }
}

impl MirrorView {
    proof fn lemma_painted_ignores_zone(self, dirty: bool, first: int, count: nat)
        ensures
            (MirrorView { zone_dirty: dirty, ..self }).painted(first, count) == self.painted(
                first,
                count,
            ),
        decreases count,
    {
        if count > 0 {
            self.lemma_painted_ignores_zone(dirty, first, (count - 1) as nat);
        }
    }

    proof fn lemma_crop_ignores_zone(self, dirty: bool, pushed: int)
        ensures
            (MirrorView { zone_dirty: dirty, ..self }).crop_batches(pushed) == self.crop_batches(
                pushed,
            ),
        decreases self.crop_top() - pushed,
    {
        if !(pushed >= self.crop_top() || self.host_rows == 0) {
            let batch = min_int(self.crop_top() - pushed, self.host_rows as int);
            self.lemma_painted_ignores_zone(dirty, pushed, batch as nat);
            self.lemma_crop_ignores_zone(dirty, pushed + batch);
        }
    }

    /// Parsing output leaves the host size, the view, the shadow, the title and
    /// the zone alone.
    pub proof fn lemma_after_slices_frame(self, bytes: Seq<u8>)
        ensures
            self.after_slices(bytes) == (MirrorView {
                log: self.after_slices(bytes).log,
                history: self.after_slices(bytes).history,
                staged_seen: self.after_slices(bytes).staged_seen,
                bells: self.after_slices(bytes).bells,
                new_title: self.after_slices(bytes).new_title,
                ..self
            }),
        decreases bytes.len(),
    {
        reveal(MirrorView::after_slice);
        if bytes.len() > 0 {
            slices_part_at_escapes(bytes);
            let n = slice_len(bytes);
            self.after_slice(bytes.take(n)).lemma_after_slices_frame(bytes.skip(n));
        }
    }
}

/// Everything a terminal was fed since it was created, in order.
pub open spec fn fed_bytes(log: TermLog) -> Seq<u8>
    decreases log.len(),
{
    if log.len() == 0 {
        Seq::empty()
    } else {
        match log.last() {
            TermOp::Process(bytes) => fed_bytes(log.drop_last()) + bytes,
            _ => fed_bytes(log.drop_last()),
        }
    }
}

/// While viewing, the two models have been fed the same bytes.
pub open spec fn in_step(m: MirrorView) -> bool {
    m.shadow matches Some(shadow) ==> fed_bytes(m.log) == fed_bytes(shadow)
}

/// Without a view, child output reaches the host untouched.
pub proof fn pass_through_is_verbatim(m: MirrorView, bytes: Seq<u8>)
    requires
        m.view is None,
    ensures
        m.host_bytes(bytes) == bytes,
        m.processed(bytes).view is None,
{
    reveal(MirrorView::host_bytes);
    reveal(MirrorView::processed);
    m.lemma_after_slices_frame(bytes);
}

/// A title is reported exactly when it differs from the current one, and is
/// the current one from then on.
pub proof fn title_is_reported_once_per_change(m: MirrorView, bytes: Seq<u8>)
    ensures
        match m.title_change(bytes) {
            Some(title) => m.title != Some(title) && m.processed(bytes).title == Some(title),
            None => m.processed(bytes).title == m.title,
        },
{
    reveal(MirrorView::processed);
}

/// The title survives view transitions, which rebuild the model.
pub proof fn title_survives_transitions(m: MirrorView, view: View, rows: u16, cols: u16)
    ensures
        m.viewing(view).title == m.title,
        m.unviewed().title == m.title,
        m.resized(rows, cols).title == m.title,
{
    reveal(MirrorView::viewing);
    reveal(MirrorView::unviewed);
    reveal(MirrorView::resized);
}

/// Output that ends on the alternate screen adds nothing to the archive.
pub proof fn alternate_screen_is_not_archived(m: MirrorView, slice: Seq<u8>)
    requires
        vt_alternate(m.log.push(TermOp::Process(slice))),
    ensures
        m.after_slice(slice).history == m.history,
{
    reveal(MirrorView::after_slice);
}

/// The records of rows laid out at a width.
pub open spec fn records_of(rows: Seq<RowView>, width: u16) -> Seq<RecordView> {
    rows.map_values(|row: RowView| row_record(row, width))
}

/// Whether `pushed` are the rows that scroll off while a slice is parsed on the
/// primary screen, fewer than the staging buffer holds. What was staged before
/// has been seen.
pub open spec fn slice_scrolls(m: MirrorView, slice: Seq<u8>, pushed: Seq<RowView>) -> bool {
    &&& !vt_alternate(m.log)
    &&& !vt_alternate(m.fed(slice).log)
    &&& m.staged_seen == vt_staged(m.log).len()
    &&& pushed.len() < STAGE_SCROLLBACK
    &&& vt_staged(m.fed(slice).log) == staged_after(
        vt_staged(m.log),
        pushed,
        STAGE_SCROLLBACK as nat,
    )
    &&& m.can_arm() ==> vt_scrolled(m.log, 1, slice) == 1 + pushed.len()
}

/// A slice archives exactly the rows that scroll off while it is parsed, in
/// order; how many were staged before does not matter.
pub proof fn scrolled_rows_are_archived(m: MirrorView, slice: Seq<u8>, pushed: Seq<RowView>)
    requires
        slice_scrolls(m, slice, pushed),
    ensures
        m.after_slice(slice).history == m.history.push_all(
            records_of(pushed, log_size(m.log).1),
        ),
        m.after_slice(slice).staged_seen == vt_staged(m.after_slice(slice).log).len(),
        log_size(m.after_slice(slice).log) == log_size(m.log),
{
    reveal(MirrorView::after_slice);
    let fed = m.fed(slice);
    assert(fed.log.drop_last() =~= m.log);
    assert(staged_records(fed.log, pushed.len() as int) =~= records_of(
        pushed,
        log_size(m.log).1,
    ));
}

/// Whether `pushed` are the rows that scroll off while a chunk is parsed, slice
/// by slice.
pub open spec fn chunk_scrolls(m: MirrorView, bytes: Seq<u8>, pushed: Seq<Seq<RowView>>) -> bool
    decreases bytes.len(),
{
    let n = slice_len(bytes);
    if bytes.len() == 0 || !(0 < n <= bytes.len()) {
        pushed.len() == 0
    } else {
        pushed.len() > 0 && slice_scrolls(m, bytes.take(n), pushed[0]) && chunk_scrolls(
            m.after_slice(bytes.take(n)),
            bytes.skip(n),
            pushed.skip(1),
        )
    }
}

/// Lists of rows joined.
pub open spec fn joined_rows(parts: Seq<Seq<RowView>>) -> Seq<RowView>
    decreases parts.len(),
{
    if parts.len() == 0 {
        Seq::empty()
    } else {
        parts[0] + joined_rows(parts.skip(1))
    }
}

/// Every line that scrolls off the screen is archived, completely and in
/// order, however many a chunk holds: the staging buffer only has to hold what
/// one slice scrolls off.
pub proof fn floods_are_archived_completely(
    m: MirrorView,
    bytes: Seq<u8>,
    pushed: Seq<Seq<RowView>>,
)
    requires
        m.history.lines.len() <= m.history.max_lines,
        chunk_scrolls(m, bytes, pushed),
    ensures
        m.after_slices(bytes).history == m.history.push_all(
            records_of(joined_rows(pushed), log_size(m.log).1),
        ),
    decreases bytes.len(),
{
    let width = log_size(m.log).1;
    if bytes.len() == 0 {
        assert(records_of(joined_rows(pushed), width) =~= Seq::<RecordView>::empty());
        assert(m.history.push_all(Seq::empty()).lines =~= m.history.lines);
    } else {
        slices_part_at_escapes(bytes);
        let n = slice_len(bytes);
        let head = bytes.take(n);
        scrolled_rows_are_archived(m, head, pushed[0]);
        floods_are_archived_completely(m.after_slice(head), bytes.skip(n), pushed.skip(1));
        let first = records_of(pushed[0], width);
        let rest = records_of(joined_rows(pushed.skip(1)), width);
        push_all_concat(m.history, first, rest);
        assert(first + rest =~= records_of(joined_rows(pushed), width));
    }
}

/// Rows that scrolled off just before the alternate screen was entered are
/// archived when it is left, as long as the staging buffer holds them.
pub proof fn deferred_rows_are_archived(
    m: MirrorView,
    slice: Seq<u8>,
    seen: Seq<RowView>,
    pushed: Seq<RowView>,
)
    requires
        vt_alternate(m.log),
        !vt_alternate(m.fed(slice).log),
        m.staged_seen == seen.len(),
        vt_staged(m.fed(slice).log) == seen + pushed,
    ensures
        m.after_slice(slice).history == m.history.push_all(
            records_of(pushed, log_size(m.log).1),
        ),
{
    reveal(MirrorView::after_slice);
    let fed = m.fed(slice);
    assert(fed.log.drop_last() =~= m.log);
    assert(staged_records(fed.log, pushed.len() as int) =~= records_of(
        pushed,
        log_size(m.log).1,
    ));
}

/// A slice that visits the alternate screen returns the scroll counter to zero.
/// The rows that scroll off while it is parsed are archived all the same, as
/// long as the staging buffer holds them.
pub proof fn rows_around_the_alternate_screen_are_archived(
    m: MirrorView,
    slice: Seq<u8>,
    pushed: Seq<RowView>,
)
    requires
        m.can_arm() ==> vt_scrolled(m.log, 1, slice) == 0,
        !vt_alternate(m.fed(slice).log),
        m.staged_seen == vt_staged(m.log).len(),
        vt_staged(m.fed(slice).log) == vt_staged(m.log) + pushed,
    ensures
        m.after_slice(slice).history == m.history.push_all(
            records_of(pushed, log_size(m.log).1),
        ),
        m.after_slice(slice).staged_seen == vt_staged(m.after_slice(slice).log).len(),
{
    reveal(MirrorView::after_slice);
    let fed = m.fed(slice);
    assert(fed.log.drop_last() =~= m.log);
    assert(staged_records(fed.log, pushed.len() as int) =~= records_of(
        pushed,
        log_size(m.log).1,
    ));
}

/// Parsing output only ever appends to the archive: what it adds are these
/// records, and nothing that was archived changes.
pub proof fn history_is_append_only(m: MirrorView, bytes: Seq<u8>) -> (records: Seq<RecordView>)
    requires
        m.history.lines.len() <= m.history.max_lines,
    ensures
        m.after_slices(bytes).history == m.history.push_all(records),
    decreases bytes.len(),
{
    if bytes.len() == 0 {
        assert(m.history.push_all(Seq::empty()).lines =~= m.history.lines);
        Seq::empty()
    } else {
        slices_part_at_escapes(bytes);
        let n = slice_len(bytes);
        let head = bytes.take(n);
        let first = slice_appends(m, head);
        let second = history_is_append_only(m.after_slice(head), bytes.skip(n));
        push_all_concat(m.history, first, second);
        first + second
    }
}

proof fn slice_appends(m: MirrorView, slice: Seq<u8>) -> (records: Seq<RecordView>)
    requires
        m.history.lines.len() <= m.history.max_lines,
    ensures
        m.after_slice(slice).history == m.history.push_all(records),
        m.after_slice(slice).history.lines.len() <= m.after_slice(slice).history.max_lines,
{
    reveal(MirrorView::after_slice);
    let fed = m.fed(slice);
    let armed = m.can_arm();
    let offset = vt_scrolled(
        m.log,
        if armed {
            1
        } else {
            0
        },
        slice,
    );
    let new_rows = if armed && offset > 0 {
        offset - 1
    } else {
        minus(vt_staged(fed.log).len() as int, m.staged_seen as int)
    };
    if vt_alternate(fed.log) {
        assert(m.history.push_all(Seq::empty()).lines =~= m.history.lines);
        Seq::empty()
    } else {
        staged_records(fed.log, new_rows)
    }
}

/// When a view starts, both models have been fed the snapshot and nothing
/// else.
pub proof fn view_starts_in_step(m: MirrorView, view: View)
    ensures
        in_step(m.viewing(view)),
        fed_bytes(m.viewing(view).log) == m.snapshot(view),
{
    reveal(MirrorView::viewing);
    reveal_with_fuel(fed_bytes, 3);
    let snapshot = m.snapshot(view);
    let v = m.viewing(view);
    let (rows, cols) = laid_out(view.rows, view.cols);
    assert(v.log.drop_last() =~= fresh_log(rows, cols, STAGE_SCROLLBACK as nat));
    assert(v.shadow->0.drop_last() =~= fresh_log(rows, cols, 0));
    assert(fed_bytes(v.log) =~= snapshot);
    assert(fed_bytes(v.shadow->0) =~= snapshot);
}

/// Output keeps the two models in step: what was last rendered is always what
/// the child had written by then.
pub proof fn output_keeps_step(m: MirrorView, bytes: Seq<u8>)
    requires
        in_step(m),
    ensures
        in_step(m.processed(bytes)),
        fed_bytes(m.processed(bytes).log) == fed_bytes(m.log) + bytes,
{
    reveal(MirrorView::processed);
    slices_feed_everything(m, bytes);
    if let Some(shadow) = m.shadow {
        assert(shadow.push(TermOp::Process(bytes)).drop_last() =~= shadow);
    }
}

proof fn slices_feed_everything(m: MirrorView, bytes: Seq<u8>)
    ensures
        fed_bytes(m.after_slices(bytes).log) == fed_bytes(m.log) + bytes,
    decreases bytes.len(),
{
    reveal(MirrorView::after_slice);
    if bytes.len() == 0 {
        assert(fed_bytes(m.log) + bytes =~= fed_bytes(m.log));
    } else {
        slices_part_at_escapes(bytes);
        let head = bytes.take(slice_len(bytes));
        let tail = bytes.skip(slice_len(bytes));
        assert(m.log.push(TermOp::Process(head)).drop_last() =~= m.log);
        slices_feed_everything(m.after_slice(head), tail);
        assert((fed_bytes(m.log) + head) + tail =~= fed_bytes(m.log) + bytes);
    }
}

/// The live region and the history zone above it share out the host screen;
/// what does not fit is hidden above it.
pub proof fn region_is_bottom_anchored(m: MirrorView, view: View)
    requires
        m.view == Some(view),
    ensures
        m.region_offset() + m.region_rows() == m.host_rows,
        m.crop_top() + m.region_rows() == view.rows,
        m.region_offset() == 0 || m.crop_top() == 0,
{
}

/// Ending a view restores the host's size and forgets the device's.
pub proof fn end_view_restores_host_size(m: MirrorView)
    requires
        m.wf(),
        m.harvested(false, 0).history.wf(),
    ensures
        m.unviewed().wf(),
        m.unviewed().view is None,
        log_size(m.unviewed().log) == laid_out(m.host_rows, m.host_cols),
        m.unviewed().cleanup_bytes() == Seq::<u8>::empty(),
{
    reveal(MirrorView::unviewed);
    reveal_with_fuel(log_size, 2);
    reveal_with_fuel(log_stage, 2);
}

/// A host resize while viewing leaves the child's model alone.
pub proof fn resize_while_viewing_keeps_the_model(m: MirrorView, rows: u16, cols: u16)
    requires
        m.view is Some,
    ensures
        m.resized(rows, cols).log == m.log,
        m.resized(rows, cols).history == m.history,
        m.resized(rows, cols).view == m.view,
{
    reveal(MirrorView::resized);
}

} // verus!
