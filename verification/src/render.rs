//! Escape sequences that reproduce parts of a screen on another terminal.

use crate::history::{HistoryRecord, RecordView, MAX_LINE_BYTES};
use crate::terminal::{
    fresh_log, log_size, visible_cell, visible_rows, vt_attributes, vt_cursor, vt_cursor_hidden,
    vt_input_mode, vt_input_mode_diff, vt_rows_diff, Cell, CellStyle, CellView, Color, Emulator, RowView, TermLog,
};
use crate::text::{decimal, push_bytes, push_decimal, push_text};
use vstd::prelude::*;
use vstd::string::*;
use vstd::utf8::*;

verus! {

pub const CLEAR: &'static str = "\x1b[0m\x1b[H\x1b[2J";

pub const SGR_RESET: &'static str = "\x1b[0m";

pub const CLEAR_TO_EOL: &'static str = "\x1b[K";

pub const HIDE_CURSOR: &'static str = "\x1b[?25l";

pub const SHOW_CURSOR: &'static str = "\x1b[?25h";

pub const SYNC_BEGIN: &'static str = "\x1b[?2026h";

pub const SYNC_END: &'static str = "\x1b[?2026l";

/// The sequence that moves the cursor to a position, counted from zero.
pub open spec fn cup_text(row: int, col: int) -> Seq<char> {
    "\x1b["@ + decimal((row + 1) as nat) + ";"@ + decimal((col + 1) as nat) + "H"@
}

/// `cup_text` as bytes.
pub open spec fn cup_bytes(row: int, col: int) -> Seq<u8> {
    encode_utf8(cup_text(row, col))
}

pub(crate) fn cup(row: u16, col: u16) -> (r: String)
    ensures
        r@ == cup_text(row as int, col as int),
{
    let mut out = "\x1b[".to_owned();
    push_decimal(&mut out, row as u64 + 1);
    out.append(";");
    push_decimal(&mut out, col as u64 + 1);
    out.append("H");
    out
}

/// The attributes a terminal starts with.
pub open spec fn plain() -> CellStyle {
    CellStyle {
        fg: Color::Default,
        bg: Color::Default,
        bold: false,
        dim: false,
        italic: false,
        underline: false,
        inverse: false,
    }
}

/// The attributes a terminal starts with.
fn default_style() -> (r: CellStyle)
    ensures
        r == plain(),
{
    CellStyle {
        fg: Color::Default,
        bg: Color::Default,
        bold: false,
        dim: false,
        italic: false,
        underline: false,
        inverse: false,
    }
}

/// Whether a cell with no contents in this style is invisible (safe to trim
/// from the end of a line). A colored or inverted background is content
/// (back-color-erase paints cells this way).
pub open spec fn blank_invisible(style: CellStyle) -> bool {
    style.bg == Color::Default && !style.inverse
}

impl CellStyle {
    pub(crate) fn blank_is_invisible(&self) -> (r: bool)
        ensures
            r == blank_invisible(*self),
    {
        self.bg == Color::Default && !self.inverse
    }
}

/// One parameter of an SGR sequence, with the semicolon before it.
pub open spec fn param(n: int) -> Seq<char> {
    ";"@ + decimal(n as nat)
}

/// The SGR parameters that select a color.
pub open spec fn color_text(color: Color, background: bool) -> Seq<char> {
    let base: int = if background {
        10
    } else {
        0
    };
    match color {
        Color::Default => Seq::empty(),
        Color::Idx(i) => if i < 8 {
            param(30 + base + i)
        } else if i < 16 {
            param(82 + base + i)
        } else {
            param(38 + base) + param(5) + param(i as int)
        },
        Color::Rgb(r, g, b) => param(38 + base) + param(2) + param(r as int) + param(g as int)
            + param(b as int),
    }
}

/// The SGR sequence that switches from any style to `style`, starting with a
/// full reset so the result is self-contained.
pub open spec fn sgr_text(style: CellStyle) -> Seq<char> {
    "\x1b[0"@ + flag(style.bold, ";1"@) + flag(style.dim, ";2"@) + flag(style.italic, ";3"@) + flag(
        style.underline,
        ";4"@,
    ) + flag(style.inverse, ";7"@) + color_text(style.fg, false) + color_text(style.bg, true)
        + "m"@
}

/// `text` if `on`, else nothing.
pub open spec fn flag(on: bool, text: Seq<char>) -> Seq<char> {
    if on {
        text
    } else {
        Seq::empty()
    }
}

fn push_param(out: &mut String, n: u64)
    ensures
        final(out)@ == old(out)@ + param(n as int),
{
    out.append(";");
    push_decimal(out, n);
    assert(out@ =~= old(out)@ + param(n as int));
}

/// Appends the SGR parameters that select a color.
pub(crate) fn emit_color(out: &mut String, color: Color, background: bool)
    ensures
        final(out)@ == old(out)@ + color_text(color, background),
{
    let base: u64 = if background {
        10
    } else {
        0
    };
    match color {
        Color::Default => {},
        Color::Idx(i) => {
            if i < 8 {
                push_param(out, 30 + base + i as u64);
            } else if i < 16 {
                push_param(out, 82 + base + i as u64);
            } else {
                push_param(out, 38 + base);
                push_param(out, 5);
                push_param(out, i as u64);
            }
        },
        Color::Rgb(r, g, b) => {
            push_param(out, 38 + base);
            push_param(out, 2);
            push_param(out, r as u64);
            push_param(out, g as u64);
            push_param(out, b as u64);
        },
    }
    assert(out@ =~= old(out)@ + color_text(color, background));
}

fn push_flag(out: &mut String, on: bool, text: &str)
    ensures
        final(out)@ == old(out)@ + flag(on, text@),
{
    if on {
        out.append(text);
    } else {
        assert(out@ =~= old(out)@ + flag(on, text@));
    }
}

/// Appends one SGR sequence that switches from any style to `style`, starting
/// with a full reset so the result is self-contained.
pub(crate) fn emit_sgr(out: &mut Vec<u8>, style: &CellStyle)
    ensures
        final(out)@ == old(out)@ + encode_utf8(sgr_text(*style)),
{
    let mut text = "\x1b[0".to_owned();
    push_flag(&mut text, style.bold, ";1");
    push_flag(&mut text, style.dim, ";2");
    push_flag(&mut text, style.italic, ";3");
    push_flag(&mut text, style.underline, ";4");
    push_flag(&mut text, style.inverse, ";7");
    emit_color(&mut text, style.fg, false);
    emit_color(&mut text, style.bg, true);
    text.append("m");
    push_text(out, text.as_str());
}

/// Whether a cell shows: it has contents other than a plain space, or it is a
/// blank whose style shows.
pub open spec fn cell_shows(cell: CellView) -> bool {
    if cell.contents.len() > 0 {
        !(cell.contents == " "@ && cell.style == plain())
    } else {
        !blank_invisible(cell.style)
    }
}

/// How many cells are left when trailing cells that do not show are trimmed.
pub open spec fn trimmed_len(cells: Seq<CellView>) -> nat
    decreases cells.len(),
{
    if cells.len() == 0 || cell_shows(cells.last()) {
        cells.len()
    } else {
        trimmed_len(cells.drop_last())
    }
}

/// A cell's text: its contents, or a space where it has none.
pub open spec fn cell_bytes(cell: CellView) -> Seq<u8> {
    if cell.contents.len() > 0 {
        encode_utf8(cell.contents)
    } else {
        encode_utf8(" "@)
    }
}

/// A line under construction: its bytes, the style they end in, and whether a
/// cell was left out because it would have carried the line past its cap.
pub ghost struct LineState {
    pub bytes: Seq<u8>,
    pub style: CellStyle,
    pub full: bool,
}

/// What a cell adds to a line that ends in `style`: the change of style, where
/// there is one, and the cell's text.
pub open spec fn cell_piece(style: CellStyle, cell: CellView) -> Seq<u8> {
    if cell.style != style {
        encode_utf8(sgr_text(cell.style)) + cell_bytes(cell)
    } else {
        cell_bytes(cell)
    }
}

/// The line after one more cell. Second halves of wide characters are left
/// out. A cell is added only if the line stays within its cap, and none after
/// the first that does not fit.
pub open spec fn line_step(line: LineState, cell: CellView) -> LineState {
    if cell.continuation || line.full {
        line
    } else if line.bytes.len() + cell_piece(line.style, cell).len() > MAX_LINE_BYTES {
        LineState { full: true, ..line }
    } else {
        LineState {
            bytes: line.bytes + cell_piece(line.style, cell),
            style: cell.style,
            full: false,
        }
    }
}

/// The line made of all of `cells`, starting from default attributes.
pub open spec fn line_of(cells: Seq<CellView>) -> LineState
    decreases cells.len(),
{
    if cells.len() == 0 {
        LineState { bytes: Seq::empty(), style: plain(), full: false }
    } else {
        line_step(line_of(cells.drop_last()), cells.last())
    }
}

/// The first `width` cells of a row, or all where it has fewer.
pub open spec fn row_cells(row: RowView, width: u16) -> Seq<CellView> {
    if width <= row.cells.len() {
        row.cells.take(width as int)
    } else {
        row.cells
    }
}

/// The self-contained record of a row: printable text plus SGR sequences only,
/// starting from default attributes, trailing invisible cells trimmed.
pub open spec fn row_record(row: RowView, width: u16) -> RecordView {
    let cells = row_cells(row, width);
    RecordView {
        bytes: line_of(cells.take(trimmed_len(cells) as int)).bytes,
        width,
        wrapped: row.wrapped,
    }
}

proof fn line_fits(cells: Seq<CellView>)
    ensures
        line_of(cells).bytes.len() <= MAX_LINE_BYTES,
    decreases cells.len(),
{
    if cells.len() > 0 {
        line_fits(cells.drop_last());
    }
}

/// No stored line is longer than the cap.
pub proof fn stored_lines_are_capped(row: RowView, width: u16)
    ensures
        row_record(row, width).bytes.len() <= MAX_LINE_BYTES,
{
    let cells = row_cells(row, width);
    line_fits(cells.take(trimmed_len(cells) as int));
}

proof fn trimmed_len_bound(cells: Seq<CellView>)
    ensures
        trimmed_len(cells) <= cells.len(),
    decreases cells.len(),
{
    if cells.len() > 0 && !cell_shows(cells.last()) {
        trimmed_len_bound(cells.drop_last());
    }
}

/// The views of a list of cells.
pub open spec fn cell_views(cells: Seq<Cell>) -> Seq<CellView> {
    cells.map_values(|c: Cell| c@)
}

/// Whether a cell shows.
fn shows(cell: &Cell) -> (r: bool)
    ensures
        r == cell_shows(cell@),
{
    if cell.contents.as_str().is_empty() {
        !cell.style.blank_is_invisible()
    } else {
        !(crate::text::text_eq(cell.contents.as_str(), " ") && cell.style == default_style())
    }
}

/// What a cell adds to a line that ends in `style`.
fn piece_bytes(style: &CellStyle, cell: &Cell) -> (r: Vec<u8>)
    ensures
        r@ == cell_piece(*style, cell@),
{
    let mut out: Vec<u8> = Vec::new();
    if cell.style != *style {
        emit_sgr(&mut out, &cell.style);
    }
    if cell.contents.as_str().is_empty() {
        push_text(&mut out, " ");
    } else {
        push_text(&mut out, cell.contents.as_str());
    }
    assert(out@ =~= cell_piece(*style, cell@));
    out
}

/// The bytes of the line made of `cells`, trailing invisible cells trimmed.
fn line_bytes(cells: &Vec<Cell>) -> (r: Vec<u8>)
    ensures
        r@ == line_of(
            cell_views(cells@).take(trimmed_len(cell_views(cells@)) as int),
        ).bytes,
{
    let ghost views = cell_views(cells@);
    let mut end: usize = cells.len();
    proof {
        assert(views.take(views.len() as int) =~= views);
    }
    while end > 0 && !shows(&cells[end - 1])
        invariant
            end <= cells@.len(),
            views == cell_views(cells@),
            trimmed_len(views.take(end as int)) == trimmed_len(views),
        ensures
            end <= cells@.len(),
            end == trimmed_len(views),
        decreases end,
    {
        proof {
            assert(views.take(end as int).drop_last() =~= views.take(end - 1));
        }
        end -= 1;
    }
    let mut bytes: Vec<u8> = Vec::new();
    let mut current: CellStyle = default_style();
    let mut full = false;
    let mut i: usize = 0;
    proof {
        assert(bytes@ =~= Seq::<u8>::empty());
    }
    while i < end
        invariant
            i <= end <= cells@.len(),
            views == cell_views(cells@),
            line_of(views.take(i as int)) == (LineState { bytes: bytes@, style: current, full }),
            bytes@.len() <= MAX_LINE_BYTES,
        decreases end - i,
    {
        let cell = &cells[i];
        proof {
            assert(views.take(i + 1).drop_last() =~= views.take(i as int));
            assert(views.take(i + 1).last() == cell@);
        }
        if !cell.continuation && !full {
            let piece = piece_bytes(&current, cell);
            if piece.len() > MAX_LINE_BYTES - bytes.len() {
                full = true;
            } else {
                push_bytes(&mut bytes, piece.as_slice());
                current = cell.style;
            }
        }
        i += 1;
    }
    bytes
}

/// The row in sight at `row`; an empty one where there is none.
pub open spec fn row_in_sight(log: TermLog, offset: nat, row: u16) -> RowView {
    if row < visible_rows(log, offset).len() {
        visible_rows(log, offset)[row as int]
    } else {
        RowView { cells: Seq::empty(), wrapped: false }
    }
}

/// Serializes one row in sight into a self-contained history record. `width`
/// is recorded as the layout width.
pub(crate) fn serialize_row(screen: &Emulator, row: u16, width: u16) -> (r: HistoryRecord)
    ensures
        r@ == row_record(row_in_sight(screen.log(), screen.offset(), row), width),
        r.bytes@.len() <= MAX_LINE_BYTES,
{
    proof {
        stored_lines_are_capped(row_in_sight(screen.log(), screen.offset(), row), width);
    }
    let ghost cells_view = row_cells(row_in_sight(screen.log(), screen.offset(), row), width);
    let mut cells: Vec<Cell> = Vec::new();
    let mut col: u16 = 0;
    while col < width
        invariant_except_break
            col <= width,
        invariant
            col <= width,
            cells@.len() == col,
            cells_view == row_cells(row_in_sight(screen.log(), screen.offset(), row), width),
            col <= cells_view.len(),
            cell_views(cells@) == cells_view.take(col as int),
        ensures
            cell_views(cells@) == cells_view,
        decreases width - col,
    {
        match screen.cell(row, col) {
            Some(cell) => {
                cells.push(cell);
                col += 1;
                proof {
                    assert(cell_views(cells@) =~= cells_view.take(col as int));
                }
            },
            None => {
                proof {
                    assert(cells_view.take(col as int) =~= cells_view);
                }
                break;
            },
        }
    }
    proof {
        assert(cells_view.take(cells_view.len() as int) =~= cells_view);
        trimmed_len_bound(cells_view);
    }
    let bytes = line_bytes(&cells);
    HistoryRecord { bytes, width, wrapped: screen.row_wrapped(row) }
}

/// Positions the target cursor at the screen's cursor if it falls inside the
/// rendered window (source rows `src_off..src_off + rows`, columns `0..cols`),
/// drawn at target rows starting at `target_off`; otherwise leaves it hidden.
pub open spec fn cursor_bytes(
    log: TermLog,
    src_off: int,
    rows: int,
    cols: int,
    target_off: int,
) -> Seq<u8> {
    let (row, col) = vt_cursor(log);
    if !vt_cursor_hidden(log) && src_off <= row < src_off + rows && col < cols {
        cup_bytes(target_off + row - src_off, col as int) + encode_utf8(SHOW_CURSOR@)
    } else {
        Seq::empty()
    }
}

pub(crate) fn place_cursor(
    out: &mut Vec<u8>,
    screen: &Emulator,
    src_off: u16,
    rows: u16,
    cols: u16,
    target_off: u16,
)
    requires
        target_off + rows <= 65535,
    ensures
        final(out)@ == old(out)@ + cursor_bytes(
            screen.log(),
            src_off as int,
            rows as int,
            cols as int,
            target_off as int,
        ),
{
    let (row, col) = screen.cursor_position();
    if !screen.hide_cursor() && row >= src_off && row - src_off < rows && col < cols {
        push_text(out, cup(target_off + (row - src_off), col).as_str());
        push_text(out, SHOW_CURSOR);
    }
    assert(out@ =~= old(out)@ + cursor_bytes(
        screen.log(),
        src_off as int,
        rows as int,
        cols as int,
        target_off as int,
    ));
}

/// One row drawn at host row `target`: cleared first where `full`, and left
/// out where it is not and there is nothing to draw.
pub open spec fn row_bytes(diff: Seq<u8>, target: int, full: bool) -> Seq<u8> {
    if full {
        encode_utf8(SGR_RESET@) + cup_bytes(target, 0) + encode_utf8(CLEAR_TO_EOL@) + diff
    } else if diff.len() > 0 {
        encode_utf8(SGR_RESET@) + cup_bytes(target, 0) + diff
    } else {
        Seq::empty()
    }
}

/// The `count` rows from `first` on, drawn one below the other from host row
/// `target` on.
pub open spec fn rows_bytes(
    diffs: Seq<Seq<u8>>,
    first: int,
    count: nat,
    target: int,
    full: bool,
) -> Seq<u8>
    decreases count,
{
    if count == 0 {
        Seq::empty()
    } else {
        rows_bytes(diffs, first, (count - 1) as nat, target, full) + row_bytes(
            diffs[first + count - 1],
            target + count - 1,
            full,
        )
    }
}

pub open spec fn min_int(a: int, b: int) -> int {
    if a <= b {
        a
    } else {
        b
    }
}

/// `a - b`, or zero where that would be negative.
pub open spec fn minus(a: int, b: int) -> int {
    if a >= b {
        a - b
    } else {
        0
    }
}

/// How many rows of the model are drawn on a host with `host_rows` rows.
pub open spec fn drawn_rows(log: TermLog, host_rows: u16, src_off: u16) -> int {
    min_int(host_rows as int, minus(log_size(log).0 as int, src_off as int))
}

/// The part of a screen that fits in a `host_rows` x `host_cols` terminal, as
/// a diff from `prev` (same size), placed with its top at host row
/// `row_offset`. `src_off` skips that many rows at the top of the model.
pub open spec fn render_bytes(
    log: TermLog,
    prev: TermLog,
    host_rows: u16,
    host_cols: u16,
    full: bool,
    row_offset: u16,
    src_off: u16,
) -> Seq<u8> {
    let rows = drawn_rows(log, host_rows, src_off);
    let cols = min_int(host_cols as int, log_size(log).1 as int);
    encode_utf8(SYNC_BEGIN@) + encode_utf8(HIDE_CURSOR@) + rows_bytes(
        vt_rows_diff(log, prev, cols as u16),
        src_off as int,
        rows as nat,
        row_offset as int,
        full,
    ) + (if full {
        vt_input_mode(log)
    } else {
        vt_input_mode_diff(log, prev)
    }) + cursor_bytes(log, src_off as int, rows, cols, row_offset as int) + encode_utf8(SYNC_END@)
}

pub(crate) fn min_u16(a: u16, b: u16) -> (r: u16)
    ensures
        r == min_int(a as int, b as int),
{
    if a <= b {
        a
    } else {
        b
    }
}

pub(crate) fn minus_u16(a: u16, b: u16) -> (r: u16)
    ensures
        r == minus(a as int, b as int),
{
    if a >= b {
        a - b
    } else {
        0
    }
}

/// Appends the `count` rows from `first` on, drawn one below the other from
/// host row `target` on.
#[verifier::rlimit(60)]
#[verifier::spinoff_prover]
fn push_rows(
    out: &mut Vec<u8>,
    diffs: &Vec<Vec<u8>>,
    Ghost(views): Ghost<Seq<Seq<u8>>>,
    first: u16,
    count: u16,
    target: u16,
    full: bool,
)
    requires
        first + count <= diffs@.len(),
        target + count <= 65535,
        views.len() == diffs@.len(),
        forall|i: int| 0 <= i < diffs@.len() ==> #[trigger] diffs@[i]@ == views[i],
    ensures
        final(out)@ == old(out)@ + rows_bytes(
            views,
            first as int,
            count as nat,
            target as int,
            full,
        ),
{
    let mut i: u16 = 0;
    proof {
        assert(out@ =~= old(out)@ + rows_bytes(views, first as int, 0, target as int, full));
    }
    while i < count
        invariant
            i <= count,
            first + count <= diffs@.len(),
            target + count <= 65535,
            views.len() == diffs@.len(),
            forall|i: int| 0 <= i < diffs@.len() ==> #[trigger] diffs@[i]@ == views[i],
            out@ == old(out)@ + rows_bytes(views, first as int, i as nat, target as int, full),
        decreases count - i,
    {
        let diff = &diffs[first as usize + i as usize];
        if full {
            push_text(out, SGR_RESET);
            push_text(out, cup(target + i, 0).as_str());
            push_text(out, CLEAR_TO_EOL);
            push_bytes(out, diff.as_slice());
        } else if diff.len() > 0 {
            push_text(out, SGR_RESET);
            push_text(out, cup(target + i, 0).as_str());
            push_bytes(out, diff.as_slice());
        }
        i += 1;
        proof {
            assert(out@ =~= old(out)@ + rows_bytes(
                views,
                first as int,
                i as nat,
                target as int,
                full,
            ));
        }
    }
}

/// Renders the part of `screen` that fits in a `host_rows` x `host_cols`
/// terminal, as a diff from `prev` (same size as `screen`), placed with its
/// top at host row `row_offset` (the live region is anchored at the bottom
/// of the host screen; rows above it are the history zone). `src_off` skips
/// that many rows at the top of the model: when the view is taller than the
/// host, the host shows the model's bottom. Every row is explicitly
/// positioned, so the output is correct on any terminal at least as large as
/// the rendered window. `full` selects full-state emission for a target
/// whose region contents are unknown: every region row is cleared and
/// redrawn rather than diffed.
pub(crate) fn render_rows(
    screen: &Emulator,
    prev: &Emulator,
    host_rows: u16,
    host_cols: u16,
    full: bool,
    row_offset: u16,
    src_off: u16,
) -> (r: Vec<u8>)
    requires
        screen.settled(),
        prev.settled(),
        log_size(screen.log()) == log_size(prev.log()),
        row_offset + drawn_rows(screen.log(), host_rows, src_off) <= 65535,
    ensures
        r@ == render_bytes(
            screen.log(),
            prev.log(),
            host_rows,
            host_cols,
            full,
            row_offset,
            src_off,
        ),
{
    let (screen_rows, screen_cols) = screen.size();
    let rows: u16 = min_u16(host_rows, minus_u16(screen_rows, src_off));
    let cols: u16 = min_u16(host_cols, screen_cols);
    let mut out: Vec<u8> = Vec::new();
    push_text(&mut out, SYNC_BEGIN);
    push_text(&mut out, HIDE_CURSOR);
    let diffs = screen.rows_diff(prev, cols);
    let ghost views = vt_rows_diff(screen.log(), prev.log(), cols);
    if rows > 0 {
        push_rows(&mut out, &diffs, Ghost(views), src_off, rows, row_offset, full);
    }
    if full {
        push_bytes(&mut out, screen.input_mode_formatted().as_slice());
    } else {
        push_bytes(&mut out, screen.input_mode_diff(prev).as_slice());
    }
    place_cursor(&mut out, screen, src_off, rows, cols, row_offset);
    push_text(&mut out, SYNC_END);
    proof {
        assert(out@ =~= render_bytes(
            screen.log(),
            prev.log(),
            host_rows,
            host_cols,
            full,
            row_offset,
            src_off,
        ));
    }
    out
}

/// Escape sequences reproducing the bottom-left crop of a screen on a fresh
/// `rows` x `cols` terminal: the last `rows` rows, first `cols` columns.
pub open spec fn snapshot_bytes(log: TermLog, rows: u16, cols: u16) -> Seq<u8> {
    let (src_rows, src_cols) = log_size(log);
    let row_off = minus(src_rows as int, rows as int);
    let width = min_int(cols as int, src_cols as int);
    encode_utf8(CLEAR@) + encode_utf8(SYNC_BEGIN@) + encode_utf8(HIDE_CURSOR@) + rows_bytes(
        vt_rows_diff(log, fresh_log(src_rows, src_cols, 0), width as u16),
        row_off,
        (src_rows - row_off) as nat,
        0,
        false,
    ) + vt_input_mode(log) + cursor_bytes(log, row_off, rows as int, cols as int, 0)
        + encode_utf8(SYNC_END@)
}

pub(crate) fn render_snapshot(src: &Emulator, rows: u16, cols: u16) -> (r: Vec<u8>)
    requires
        src.settled(),
    ensures
        r@ == snapshot_bytes(src.log(), rows, cols),
{
    let (src_rows, src_cols) = src.size();
    let row_off: u16 = minus_u16(src_rows, rows);
    let width: u16 = min_u16(cols, src_cols);
    let blank = Emulator::new(src_rows, src_cols, 0);
    proof {
        reveal_with_fuel(log_size, 2);
    }
    let mut out: Vec<u8> = Vec::new();
    push_text(&mut out, CLEAR);
    push_text(&mut out, SYNC_BEGIN);
    push_text(&mut out, HIDE_CURSOR);
    let diffs = src.rows_diff(&blank, width);
    let ghost views = vt_rows_diff(src.log(), blank.log(), width);
    push_rows(&mut out, &diffs, Ghost(views), row_off, src_rows - row_off, 0, false);
    push_bytes(&mut out, src.input_mode_formatted().as_slice());
    place_cursor(&mut out, src, row_off, rows, cols, 0);
    push_text(&mut out, SYNC_END);
    proof {
        assert(out@ =~= snapshot_bytes(src.log(), rows, cols));
    }
    out
}

/// Whether a cut before column `cols` parts a wide character of a row.
pub open spec fn cuts_wide(log: TermLog, row: u16, cols: u16) -> bool {
    visible_cell(log, 0, row, cols) matches Some(cell) && cell.continuation
}

/// For each row of a screen, the bytes that draw its first `cols` columns, less
/// the wide character that does not fit in whole.
pub open spec fn left_rows(log: TermLog, cols: u16) -> Seq<Seq<u8>> {
    let (rows, all) = log_size(log);
    let blank = fresh_log(rows, all, 0);
    Seq::new(
        rows as nat,
        |i: int|
            vt_rows_diff(
                log,
                blank,
                if cuts_wide(log, i as u16, cols) {
                    (cols - 1) as u16
                } else {
                    cols
                },
            )[i],
    )
}

/// Escape sequences reproducing the first `cols` columns of a screen, its input
/// modes, its cursor and the style it draws in, on a fresh terminal with as many
/// rows and `cols` columns. A cursor further right goes to the last column.
pub open spec fn left_bytes(log: TermLog, cols: u16) -> Seq<u8> {
    let (row, col) = vt_cursor(log);
    rows_bytes(left_rows(log, cols), 0, log_size(log).0 as nat, 0, false) + vt_input_mode(log)
        + vt_attributes(log) + cup_bytes(
        row as int,
        min_int(col as int, cols - 1),
    ) + encode_utf8(
        if vt_cursor_hidden(log) {
            HIDE_CURSOR@
        } else {
            SHOW_CURSOR@
        },
    )
}

pub(crate) fn render_left(src: &Emulator, cols: u16) -> (r: Vec<u8>)
    requires
        src.settled(),
        0 < cols <= log_size(src.log()).1,
    ensures
        r@ == left_bytes(src.log(), cols),
{
    let (src_rows, src_cols) = src.size();
    let blank = Emulator::new(src_rows, src_cols, 0);
    proof {
        reveal_with_fuel(log_size, 2);
    }
    let whole = src.rows_diff(&blank, cols);
    let short = src.rows_diff(&blank, cols - 1);
    let ghost views = left_rows(src.log(), cols);
    let mut diffs: Vec<Vec<u8>> = Vec::new();
    let mut row: u16 = 0;
    while row < src_rows
        invariant
            row <= src_rows == whole@.len() == short@.len() == views.len(),
            (src_rows, src_cols) == log_size(src.log()),
            src.offset() == 0,
            0 < cols,
            diffs@.len() == row,
            views == left_rows(src.log(), cols),
            forall|i: int|
                0 <= i < whole@.len() ==> #[trigger] whole@[i]@ == vt_rows_diff(
                    src.log(),
                    fresh_log(src_rows, src_cols, 0),
                    cols,
                )[i],
            forall|i: int|
                0 <= i < short@.len() ==> #[trigger] short@[i]@ == vt_rows_diff(
                    src.log(),
                    fresh_log(src_rows, src_cols, 0),
                    (cols - 1) as u16,
                )[i],
            forall|i: int| 0 <= i < row ==> #[trigger] diffs@[i]@ == views[i],
        decreases src_rows - row,
    {
        let cut = match src.cell(row, cols) {
            Some(cell) => cell.continuation,
            None => false,
        };
        let mut diff: Vec<u8> = Vec::new();
        if cut {
            push_bytes(&mut diff, short[row as usize].as_slice());
            assert(diff@ =~= short@[row as int]@);
        } else {
            push_bytes(&mut diff, whole[row as usize].as_slice());
            assert(diff@ =~= whole@[row as int]@);
        }
        diffs.push(diff);
        row += 1;
    }
    let mut out: Vec<u8> = Vec::new();
    push_rows(&mut out, &diffs, Ghost(views), 0, src_rows, 0, false);
    push_bytes(&mut out, src.input_mode_formatted().as_slice());
    push_bytes(&mut out, src.attributes_formatted().as_slice());
    let (cursor_row, cursor_col) = src.cursor_position();
    push_text(&mut out, cup(cursor_row, min_u16(cursor_col, cols - 1)).as_str());
    push_text(
        &mut out,
        if src.hide_cursor() {
            HIDE_CURSOR
        } else {
            SHOW_CURSOR
        },
    );
    proof {
        assert(out@ =~= left_bytes(src.log(), cols));
    }
    out
}

} // verus!
