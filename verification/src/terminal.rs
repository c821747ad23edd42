//! The terminal emulator (`vt100`) and what is known of it.
//!
//! An emulator is described by the log of what was done to it: created,
//! fed bytes, resized. Everything it can be asked is a function of that log,
//! and of how far it is scrolled back.

use crate::text::{lossy_string, lossy_text};
use vstd::prelude::*;
use vstd::string::*;
use vstd::utf8::*;

verus! {

/// One thing that was done to an emulator.
pub ghost enum TermOp {
    /// Created at a size, keeping up to `stage` rows that scroll off.
    New { rows: u16, cols: u16, stage: nat },
    /// Fed a byte string.
    Process(Seq<u8>),
    /// Resized.
    SetSize { rows: u16, cols: u16 },
    /// Copied from another, without what that one has read of an unfinished
    /// sequence or character.
    Duplicate,
}

/// Everything that was done to an emulator, oldest first.
pub type TermLog = Seq<TermOp>;

/// The log of an emulator that was just created.
pub open spec fn fresh_log(rows: u16, cols: u16, stage: nat) -> TermLog {
    seq![TermOp::New { rows, cols, stage }]
}

/// The sizes the emulator can lay out: a line wrap needs a second row, the
/// widest character (U+17D8) counts three columns, and a tab stop past the last
/// column must still be countable. On a smaller screen the emulator fails on
/// some output.
pub open spec fn drawable(rows: u16, cols: u16) -> bool {
    rows >= 2 && 3 <= cols <= 65527
}

/// A screen with at least one cell.
pub open spec fn positive(rows: u16, cols: u16) -> bool {
    rows > 0 && cols > 0
}

/// Whether a screen of this size has a cell.
pub fn is_positive(rows: u16, cols: u16) -> (r: bool)
    ensures
        r == positive(rows, cols),
{
    rows > 0 && cols > 0
}

/// The size nearest to the given one that the emulator can lay out, whatever is
/// drawn on it: the size itself, but for screens of one row, of fewer than three
/// columns, or of more than 65527.
pub open spec fn laid_out(rows: u16, cols: u16) -> (u16, u16) {
    (
        if rows < 2 {
            2
        } else {
            rows
        },
        if cols < 3 {
            3
        } else if cols > 65527 {
            65527
        } else {
            cols
        },
    )
}

/// The size nearest to the given one that the emulator can lay out.
pub(crate) fn lay_out(rows: u16, cols: u16) -> (r: (u16, u16))
    ensures
        r == laid_out(rows, cols),
        drawable(r.0, r.1),
{
    let model_rows: u16 = if rows < 2 {
        2
    } else {
        rows
    };
    let model_cols: u16 = if cols < 3 {
        3
    } else if cols > 65527 {
        65527
    } else {
        cols
    };
    (model_rows, model_cols)
}

/// What can be laid out as it is, is.
pub proof fn drawable_sizes_are_kept(rows: u16, cols: u16)
    ensures
        drawable(laid_out(rows, cols).0, laid_out(rows, cols).1),
        drawable(rows, cols) <==> laid_out(rows, cols) == (rows, cols),
{
}

/// The size in rows and columns: the one last given.
pub open spec fn log_size(log: TermLog) -> (u16, u16)
    decreases log.len(),
{
    if log.len() == 0 {
        (0, 0)
    } else {
        match log.last() {
            TermOp::New { rows, cols, .. } => (rows, cols),
            TermOp::SetSize { rows, cols } => (rows, cols),
            TermOp::Process(_) => log_size(log.drop_last()),
            TermOp::Duplicate => log_size(log.drop_last()),
        }
    }
}

/// How many rows that scrolled off the emulator keeps.
pub open spec fn log_stage(log: TermLog) -> nat
    decreases log.len(),
{
    if log.len() == 0 {
        0
    } else {
        match log.last() {
            TermOp::New { stage, .. } => stage,
            _ => log_stage(log.drop_last()),
        }
    }
}

/// A color of the terminal's palette.
#[derive(Clone, Copy, PartialEq, Eq, Structural, Debug)]
pub enum Color {
    Default,
    Idx(u8),
    Rgb(u8, u8, u8),
}

/// How a cell is drawn.
#[derive(Clone, Copy, PartialEq, Eq, Structural, Debug)]
pub struct CellStyle {
    pub fg: Color,
    pub bg: Color,
    pub bold: bool,
    pub dim: bool,
    pub italic: bool,
    pub underline: bool,
    pub inverse: bool,
}

/// The switches of a cell's style, without its colors.
#[derive(Clone, Copy, PartialEq, Eq, Structural, Debug)]
pub struct CellAttrs {
    pub bold: bool,
    pub dim: bool,
    pub italic: bool,
    pub underline: bool,
    pub inverse: bool,
}

/// One cell of the screen.
pub struct Cell {
    /// What the cell shows; empty for a cell nothing was drawn in.
    pub contents: String,
    /// True for the second half of a wide character.
    pub continuation: bool,
    pub style: CellStyle,
}

/// One cell of the screen, as a mathematical value.
pub ghost struct CellView {
    pub contents: Seq<char>,
    pub continuation: bool,
    pub style: CellStyle,
}

impl View for Cell {
    type V = CellView;

    open spec fn view(&self) -> CellView {
        CellView {
            contents: self.contents@,
            continuation: self.continuation,
            style: self.style,
        }
    }
}

/// One row of the screen: its cells and whether it soft-wraps onto the next.
pub ghost struct RowView {
    pub cells: Seq<CellView>,
    pub wrapped: bool,
}

/// Whether a cut before column `cols` parts a wide character of one of `rows`.
pub open spec fn parts_wide(rows: Seq<RowView>, cols: u16) -> bool {
    exists|i: int|
        0 <= i < rows.len() && cols < (#[trigger] rows[i]).cells.len()
            && rows[i].cells[cols as int].continuation
}

/// The rows of a screen on which nothing was drawn yet.
pub open spec fn blank_rows(rows: u16, cols: u16) -> Seq<RowView> {
    Seq::new(
        rows as nat,
        |i: int| RowView { cells: Seq::new(cols as nat, |j: int| blank_cell()), wrapped: false },
    )
}

/// A cell in which nothing was drawn yet.
pub open spec fn blank_cell() -> CellView {
    CellView {
        contents: Seq::empty(),
        continuation: false,
        style: CellStyle {
            fg: Color::Default,
            bg: Color::Default,
            bold: false,
            dim: false,
            italic: false,
            underline: false,
            inverse: false,
        },
    }
}

/// Shows the primary screen of an emulator.
pub const SHOW_PRIMARY: &'static str = "\x1b[?47l";

/// Shows the alternate screen of an emulator, as it was left.
pub const SHOW_ALTERNATE: &'static str = "\x1b[?47h";

/// Whether `bytes` switch a duplicate to the screen that it does not show.
pub open spec fn switches(log: TermLog, bytes: Seq<u8>) -> bool {
    log.len() > 0 && log.last() is Duplicate && bytes == encode_utf8(
        if vt_alternate(log) {
            SHOW_PRIMARY@
        } else {
            SHOW_ALTERNATE@
        },
    )
}

/// Out-of-band terminal events: audible bells and window-title changes.
pub struct Events {
    /// Bells since the count was last taken.
    pub bells: usize,
    /// The title last set since it was last taken, if any.
    pub title: Option<String>,
}

impl vt100::Callbacks for Events {
    /// Counts the bell; the title and the screen stay as they are.
    fn audible_bell(&mut self, _screen: &mut vt100::Screen)
        ensures
            final(self).bells == saturating_sum(old(self).bells as nat, 1),
            final(self).title == old(self).title,
            *final(_screen) == *old(_screen),
    {
        self.bells = self.bells.saturating_add(1);
    }

    /// Keeps the title as text; the bells and the screen stay as they are.
    fn set_window_title(&mut self, _screen: &mut vt100::Screen, title: &[u8])
        ensures
            final(self).title matches Some(text) && text@ == lossy_text(title@),
            final(self).bells == old(self).bells,
            *final(_screen) == *old(_screen),
    {
        self.title = Some(lossy_string(title));
    }
}

/// The emulator's screen, as its callbacks see it.
#[verifier::external_type_specification]
#[verifier::external_body]
pub struct ExScreen(vt100::Screen);

/// A `vt100::Parser` that collects its events.
#[verifier::external_body]
pub struct Emulator {
    parser: vt100::Parser<Events>,
}

/// The log of what was done to an emulator.
pub uninterp spec fn emulator_log(e: Emulator) -> TermLog;

/// How many rows an emulator is scrolled back.
pub uninterp spec fn emulator_offset(e: Emulator) -> nat;

/// The events an emulator has collected.
pub uninterp spec fn emulator_events(e: Emulator) -> Events;

/// The rows that scrolled off the screen that is shown and are still kept,
/// oldest first. The alternate screen keeps none.
pub uninterp spec fn vt_staged(log: TermLog) -> Seq<RowView>;

/// The rows of the screen itself.
pub uninterp spec fn vt_screen(log: TermLog) -> Seq<RowView>;

/// The rows of the screen that is not shown: the alternate screen, or while
/// that is shown the primary one.
pub uninterp spec fn vt_hidden(log: TermLog) -> Seq<RowView>;

/// Whether the halves of every wide character, on the primary and on the
/// alternate screen, stand next to each other: no row ends in a first half, and
/// no second half is without its first.
pub uninterp spec fn vt_whole(log: TermLog) -> bool;

/// How far an emulator is scrolled back after it was fed bytes.
pub uninterp spec fn vt_scrolled(log: TermLog, offset: nat, bytes: Seq<u8>) -> nat;

/// How many bells ring while bytes are fed.
pub uninterp spec fn vt_bells(log: TermLog, bytes: Seq<u8>) -> nat;

/// The last title that is set while bytes are fed.
pub uninterp spec fn vt_title(log: TermLog, bytes: Seq<u8>) -> Option<Seq<u8>>;

/// `Screen::alternate_screen`.
pub uninterp spec fn vt_alternate(log: TermLog) -> bool;

/// `Screen::cursor_position`.
pub uninterp spec fn vt_cursor(log: TermLog) -> (u16, u16);

/// `Screen::hide_cursor`.
pub uninterp spec fn vt_cursor_hidden(log: TermLog) -> bool;

/// `Screen::rows_diff` from `prev`, over the first `width` columns.
pub uninterp spec fn vt_rows_diff(log: TermLog, prev: TermLog, width: u16) -> Seq<Seq<u8>>;

/// `Screen::input_mode_formatted`.
pub uninterp spec fn vt_input_mode(log: TermLog) -> Seq<u8>;

/// `Screen::attributes_formatted`.
pub uninterp spec fn vt_attributes(log: TermLog) -> Seq<u8>;

/// `Screen::input_mode_diff` from `prev`.
pub uninterp spec fn vt_input_mode_diff(log: TermLog, prev: TermLog) -> Seq<u8>;

/// `Screen::state_diff` from `prev`.
pub uninterp spec fn vt_state_diff(log: TermLog, prev: TermLog) -> Seq<u8>;

/// The rows in sight when scrolled back by `offset`: the newest `offset` kept
/// rows, then the screen's, as many as the screen has.
pub open spec fn visible_rows(log: TermLog, offset: nat) -> Seq<RowView> {
    let staged = vt_staged(log);
    let screen = vt_screen(log);
    (staged.subrange(staged.len() - offset, staged.len() as int) + screen).take(screen.len() as int)
}

/// The cell in sight at a position, if there is one.
pub open spec fn visible_cell(log: TermLog, offset: nat, row: u16, col: u16) -> Option<CellView> {
    let rows = visible_rows(log, offset);
    if row < rows.len() && col < rows[row as int].cells.len() {
        Some(rows[row as int].cells[col as int])
    } else {
        None
    }
}

/// What is left of `staged` after `pushed` rows came in and only the newest
/// `stage` were kept.
pub open spec fn staged_after(
    staged: Seq<RowView>,
    pushed: Seq<RowView>,
    stage: nat,
) -> Seq<RowView> {
    let all = staged + pushed;
    if all.len() <= stage {
        all
    } else {
        all.subrange(all.len() - stage, all.len() as int)
    }
}

/// The sum of two counts, held at the largest `usize`.
pub open spec fn saturating_sum(a: nat, b: nat) -> nat {
    if a + b <= usize::MAX {
        a + b
    } else {
        usize::MAX as nat
    }
}

impl Emulator {
    pub open spec fn log(self) -> TermLog {
        emulator_log(self)
    }

    pub open spec fn offset(self) -> nat {
        emulator_offset(self)
    }

    pub open spec fn events(self) -> Events {
        emulator_events(self)
    }

    /// Wraps `vt100::Parser::new_with_callbacks`: two empty screens of the given
    /// size, of which the primary one is shown; it is not scrolled back and has
    /// seen no event.
    #[verifier::external_body]
    pub(crate) fn new(rows: u16, cols: u16, stage: usize) -> (r: Self)
        requires
            drawable(rows, cols),
        ensures
            emulator_log(r) == fresh_log(rows, cols, stage as nat),
            emulator_offset(r) == 0,
            emulator_events(r).bells == 0,
            emulator_events(r).title is None,
            vt_staged(r.log()).len() == 0,
            !vt_alternate(r.log()),
            vt_whole(r.log()),
            vt_screen(r.log()) == blank_rows(rows, cols),
            vt_hidden(r.log()) == blank_rows(rows, cols),
    {
        let events = Events { bells: 0, title: None };
        Emulator { parser: vt100::Parser::new_with_callbacks(rows, cols, stage, events) }
    }

    /// Wraps `vt100::Parser::process`. The screen is a function of the log.
    /// Scrolled back by at least one row, every row that scrolls off moves the
    /// position back by one more, up to the number of rows that are kept;
    /// entering the alternate screen or a terminal reset returns it to zero,
    /// where it stays. The alternate screen keeps no rows and cannot be
    /// scrolled back. Each bell and each title reach the callbacks. Drawing,
    /// erasing, inserting and deleting never part the halves of a wide
    /// character, and rely on finding them together. The sequences for the two
    /// screens show the one that was hidden, as it is.
    #[verifier::external_body]
    pub(crate) fn process(&mut self, bytes: &[u8])
        requires
            drawable(log_size(old(self).log()).0, log_size(old(self).log()).1),
            vt_whole(old(self).log()),
        ensures
            vt_whole(final(self).log()),
            switches(old(self).log(), bytes@) ==> vt_screen(final(self).log()) == vt_hidden(
                old(self).log(),
            ),
            final(self).log() == old(self).log().push(TermOp::Process(bytes@)),
            final(self).offset() == vt_scrolled(old(self).log(), old(self).offset(), bytes@),
            final(self).offset() <= vt_staged(final(self).log()).len() <= log_stage(
                old(self).log(),
            ),
            vt_alternate(final(self).log()) ==> final(self).offset() == 0,
            old(self).offset() == 0 ==> final(self).offset() == 0,
            old(self).offset() > 0 && final(self).offset() > 0 ==> exists|pushed: Seq<RowView>|
                {
                    &&& vt_staged(final(self).log()) == #[trigger] staged_after(
                        vt_staged(old(self).log()),
                        pushed,
                        log_stage(old(self).log()),
                    )
                    &&& final(self).offset() == if old(self).offset() + pushed.len() <= log_stage(
                        old(self).log(),
                    ) {
                        old(self).offset() + pushed.len()
                    } else {
                        log_stage(old(self).log())
                    }
                },
            final(self).events().bells == saturating_sum(
                old(self).events().bells as nat,
                vt_bells(old(self).log(), bytes@),
            ),
            match vt_title(old(self).log(), bytes@) {
                Some(title) => final(self).events().title matches Some(t) && t@ == lossy_text(
                    title,
                ),
                None => final(self).events().title == old(self).events().title,
            },
    {
        self.parser.process(bytes);
    }

    /// Wraps `vt100::Screen::set_size`: rows that scrolled off, the alternate
    /// screen and the scroll position stay as they are. Every row is cut or
    /// filled up to the new width, so that wide characters stay whole where no
    /// row is cut within one.
    #[verifier::external_body]
    pub(crate) fn set_size(&mut self, rows: u16, cols: u16)
        requires
            drawable(rows, cols),
        ensures
            final(self).log() == old(self).log().push(TermOp::SetSize { rows, cols }),
            final(self).offset() == old(self).offset(),
            final(self).events() == old(self).events(),
            vt_staged(final(self).log()) == vt_staged(old(self).log()),
            vt_alternate(final(self).log()) == vt_alternate(old(self).log()),
            vt_whole(old(self).log()) && cols >= log_size(old(self).log()).1 ==> vt_whole(
                final(self).log(),
            ),
            vt_whole(old(self).log()) && !parts_wide(vt_screen(old(self).log()), cols)
                && !parts_wide(vt_hidden(old(self).log()), cols) ==> vt_whole(final(self).log()),
    {
        self.parser.screen_mut().set_size(rows, cols);
    }

    /// Wraps the `clone` of `vt100::Screen`, given to a new `vt100::Parser`: an
    /// emulator with the same two screens that has read nothing of an
    /// unfinished sequence or character, and has seen no event.
    #[verifier::external_body]
    pub(crate) fn duplicate(&self) -> (r: Emulator)
        requires
            drawable(log_size(self.log()).0, log_size(self.log()).1),
        ensures
            r.log() == self.log().push(TermOp::Duplicate),
            r.offset() == self.offset(),
            vt_screen(r.log()) == vt_screen(self.log()),
            vt_hidden(r.log()) == vt_hidden(self.log()),
            vt_staged(r.log()) == vt_staged(self.log()),
            vt_alternate(r.log()) == vt_alternate(self.log()),
            vt_whole(r.log()) == vt_whole(self.log()),
            emulator_events(r).bells == 0,
            emulator_events(r).title is None,
    {
        let (rows, cols) = self.parser.screen().size();
        let events = Events { bells: 0, title: None };
        let mut parser = vt100::Parser::new_with_callbacks(rows, cols, 0, events);
        *parser.screen_mut() = self.parser.screen().clone();
        Emulator { parser }
    }

    /// Wraps `vt100::Screen::set_scrollback`: the position is clamped to the
    /// number of rows that are kept, and nothing else changes.
    #[verifier::external_body]
    pub(crate) fn set_scrollback(&mut self, rows: usize)
        ensures
            final(self).log() == old(self).log(),
            final(self).events() == old(self).events(),
            final(self).offset() == if rows <= vt_staged(old(self).log()).len() {
                rows as nat
            } else {
                vt_staged(old(self).log()).len()
            },
    {
        self.parser.screen_mut().set_scrollback(rows);
    }

    /// Wraps `vt100::Screen::scrollback`: the scroll position.
    #[verifier::external_body]
    pub(crate) fn scrollback(&self) -> (r: usize)
        ensures
            r == self.offset(),
            r <= vt_staged(self.log()).len() <= log_stage(self.log()),
    {
        self.parser.screen().scrollback()
    }

    /// Wraps `vt100::Screen::size`: the size last given, which is also how many
    /// rows the screen has.
    #[verifier::external_body]
    pub(crate) fn size(&self) -> (r: (u16, u16))
        ensures
            r == log_size(self.log()),
            r.0 == vt_screen(self.log()).len(),
    {
        self.parser.screen().size()
    }

    /// Wraps `vt100::Screen::alternate_screen`. The alternate screen cannot be
    /// scrolled back.
    #[verifier::external_body]
    pub(crate) fn alternate_screen(&self) -> (r: bool)
        ensures
            r == vt_alternate(self.log()),
            r ==> self.offset() == 0,
    {
        self.parser.screen().alternate_screen()
    }

    /// Wraps `vt100::Screen::cursor_position`.
    #[verifier::external_body]
    pub(crate) fn cursor_position(&self) -> (r: (u16, u16))
        ensures
            r == vt_cursor(self.log()),
    {
        self.parser.screen().cursor_position()
    }

    /// Wraps `vt100::Screen::hide_cursor`.
    #[verifier::external_body]
    pub(crate) fn hide_cursor(&self) -> (r: bool)
        ensures
            r == vt_cursor_hidden(self.log()),
    {
        self.parser.screen().hide_cursor()
    }

    /// Wraps `vt100::Screen::cell`: the contents of the cell in sight, and
    /// whether it is the second half of a wide character.
    #[verifier::external_body]
    fn cell_text(&self, row: u16, col: u16) -> (r: Option<(String, bool)>)
        ensures
            match visible_cell(self.log(), self.offset(), row, col) {
                Some(cell) => r matches Some(p) && p.0@ == cell.contents && p.1
                    == cell.continuation,
                None => r is None,
            },
    {
        let cell = self.parser.screen().cell(row, col)?;
        Some((cell.contents().to_string(), cell.is_wide_continuation()))
    }

    /// Wraps `vt100::Screen::cell`: the foreground and background of the cell
    /// in sight.
    #[verifier::external_body]
    fn cell_colors(&self, row: u16, col: u16) -> (r: Option<(Color, Color)>)
        ensures
            match visible_cell(self.log(), self.offset(), row, col) {
                Some(cell) => r == Some((cell.style.fg, cell.style.bg)),
                None => r is None,
            },
    {
        let cell = self.parser.screen().cell(row, col)?;
        let fg = match cell.fgcolor() {
            vt100::Color::Default => Color::Default,
            vt100::Color::Idx(i) => Color::Idx(i),
            vt100::Color::Rgb(r, g, b) => Color::Rgb(r, g, b),
        };
        let bg = match cell.bgcolor() {
            vt100::Color::Default => Color::Default,
            vt100::Color::Idx(i) => Color::Idx(i),
            vt100::Color::Rgb(r, g, b) => Color::Rgb(r, g, b),
        };
        Some((fg, bg))
    }

    /// Wraps `vt100::Screen::cell`: the switches of the cell in sight.
    #[verifier::external_body]
    fn cell_attrs(&self, row: u16, col: u16) -> (r: Option<CellAttrs>)
        ensures
            match visible_cell(self.log(), self.offset(), row, col) {
                Some(cell) => r == Some(
                    (CellAttrs {
                        bold: cell.style.bold,
                        dim: cell.style.dim,
                        italic: cell.style.italic,
                        underline: cell.style.underline,
                        inverse: cell.style.inverse,
                    }),
                ),
                None => r is None,
            },
    {
        let c = self.parser.screen().cell(row, col)?;
        Some(CellAttrs {
            bold: c.bold(),
            dim: c.dim(),
            italic: c.italic(),
            underline: c.underline(),
            inverse: c.inverse(),
        })
    }

    /// Wraps `vt100::Screen::row_wrapped` for the row in sight.
    #[verifier::external_body]
    pub(crate) fn row_wrapped(&self, row: u16) -> (r: bool)
        ensures
            r == (row < visible_rows(self.log(), self.offset()).len() && visible_rows(
                self.log(),
                self.offset(),
            )[row as int].wrapped),
    {
        self.parser.screen().row_wrapped(row)
    }

    /// Wraps `vt100::Screen::rows_diff`: for each row of the screen, the bytes
    /// that turn the first `width` columns of `prev`'s row into this one's.
    #[verifier::external_body]
    pub(crate) fn rows_diff(&self, prev: &Emulator, width: u16) -> (r: Vec<Vec<u8>>)
        requires
            self.offset() == 0,
            prev.offset() == 0,
            log_size(self.log()) == log_size(prev.log()),
            width <= log_size(self.log()).1,
        ensures
            r@.len() == vt_rows_diff(self.log(), prev.log(), width).len(),
            r@.len() == log_size(self.log()).0,
            forall|i: int|
                0 <= i < r@.len() ==> #[trigger] r@[i]@ == vt_rows_diff(
                    self.log(),
                    prev.log(),
                    width,
                )[i],
    {
        self.parser.screen().rows_diff(prev.parser.screen(), 0, width).collect()
    }

    /// Wraps `vt100::Screen::input_mode_formatted`.
    #[verifier::external_body]
    pub(crate) fn input_mode_formatted(&self) -> (r: Vec<u8>)
        ensures
            r@ == vt_input_mode(self.log()),
    {
        self.parser.screen().input_mode_formatted()
    }

    /// Wraps `vt100::Screen::attributes_formatted`: the bytes that select the
    /// style in which text is drawn next.
    #[verifier::external_body]
    pub(crate) fn attributes_formatted(&self) -> (r: Vec<u8>)
        ensures
            r@ == vt_attributes(self.log()),
    {
        self.parser.screen().attributes_formatted()
    }

    /// Wraps `vt100::Screen::input_mode_diff`.
    #[verifier::external_body]
    pub(crate) fn input_mode_diff(&self, prev: &Emulator) -> (r: Vec<u8>)
        ensures
            r@ == vt_input_mode_diff(self.log(), prev.log()),
    {
        self.parser.screen().input_mode_diff(prev.parser.screen())
    }

    /// Wraps `vt100::Screen::state_diff`: the bytes that turn a terminal which
    /// shows `prev` into one which shows this screen.
    #[verifier::external_body]
    pub(crate) fn state_diff(&self, prev: &Emulator) -> (r: Vec<u8>)
        requires
            self.offset() == 0,
            prev.offset() == 0,
            log_size(self.log()) == log_size(prev.log()),
        ensures
            r@ == vt_state_diff(self.log(), prev.log()),
    {
        self.parser.screen().state_diff(prev.parser.screen())
    }

    /// Wraps `vt100::Parser::callbacks_mut`: the collected events, to be
    /// changed in place; the screen is not touched.
    #[verifier::external_body]
    pub(crate) fn callbacks_mut(&mut self) -> (r: &mut Events)
        ensures
            *r == old(self).events(),
            final(self).events() == *final(r),
            final(self).log() == old(self).log(),
            final(self).offset() == old(self).offset(),
    {
        self.parser.callbacks_mut()
    }

    /// The cell in sight at a position.
    pub(crate) fn cell(&self, row: u16, col: u16) -> (r: Option<Cell>)
        ensures
            match visible_cell(self.log(), self.offset(), row, col) {
                Some(cell) => r matches Some(c) && c@ == cell,
                None => r is None,
            },
    {
        match (self.cell_text(row, col), self.cell_colors(row, col), self.cell_attrs(row, col)) {
            (Some((contents, continuation)), Some((fg, bg)), Some(a)) => {
                let style = CellStyle {
                    fg,
                    bg,
                    bold: a.bold,
                    dim: a.dim,
                    italic: a.italic,
                    underline: a.underline,
                    inverse: a.inverse,
                };
                Some(Cell { contents, continuation, style })
            },
            _ => None,
        }
    }

    /// Whether a cut before column `cols` parts a wide character on the screen
    /// that is shown.
    pub(crate) fn parts(&self, cols: u16) -> (r: bool)
        requires
            self.offset() == 0,
        ensures
            r == parts_wide(vt_screen(self.log()), cols),
    {
        let (rows, _cols) = self.size();
        let ghost screen = vt_screen(self.log());
        proof {
            let staged = vt_staged(self.log());
            assert(visible_rows(self.log(), 0) =~= screen);
        }
        let mut row: u16 = 0;
        while row < rows
            invariant
                row <= rows == screen.len(),
                self.offset() == 0,
                visible_rows(self.log(), 0) == screen,
                forall|i: int|
                    0 <= i < row && cols < (#[trigger] screen[i]).cells.len()
                        ==> !screen[i].cells[cols as int].continuation,
            decreases rows - row,
        {
            let found = self.cell(row, cols);
            assert(screen[row as int] == visible_rows(self.log(), 0)[row as int]);
            if let Some(cell) = found {
                if cell.continuation {
                    return true;
                }
            }
            row += 1;
        }
        false
    }

    /// Whether a cut before column `cols` parts a wide character on the screen
    /// that is not shown.
    pub(crate) fn parts_hidden(&self, cols: u16) -> (r: bool)
        requires
            self.settled(),
            vt_whole(self.log()),
        ensures
            r == parts_wide(vt_hidden(self.log()), cols),
    {
        let mut other = self.duplicate();
        proof {
            assert(other.log().drop_last() =~= self.log());
        }
        if other.alternate_screen() {
            other.process(SHOW_PRIMARY.as_bytes());
        } else {
            other.process(SHOW_ALTERNATE.as_bytes());
        }
        other.parts(cols)
    }

    /// Whether the emulator's size can be laid out and it shows the screen
    /// itself, not rows that scrolled off.
    pub open spec fn settled(self) -> bool {
        drawable(log_size(self.log()).0, log_size(self.log()).1) && self.offset() == 0
    }
}

/// A size that can be laid out is left as it is, and any other becomes the
/// nearest that can: two rows at least, and from 3 to 65527 columns.
pub proof fn layouts_are_the_nearest(rows: u16, cols: u16)
    ensures
        ({
            let (r, c) = laid_out(rows, cols);
            &&& rows >= 2 ==> r == rows
            &&& rows < 2 ==> r == 2
            &&& 3 <= cols <= 65527 ==> c == cols
            &&& cols < 3 ==> c == 3
            &&& cols > 65527 ==> c == 65527
            &&& laid_out(r, c) == (r, c)
        }),
{
}

} // verus!
