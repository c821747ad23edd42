//! Where what is drawn lands: the laws that tie the bytes written to a device
//! or to the host terminal to the rows, and the place of the cursor, that they
//! make it show.

use crate::mirror::{slice_len, slices_part_at_escapes, MirrorView, View};
use crate::render::{
    cursor_bytes, left_bytes, left_rows, render_bytes, row_bytes, rows_bytes, snapshot_bytes,
};
use crate::terminal::{
    fresh_log, log_size, visible_cell, vt_attributes, vt_cursor, vt_cursor_hidden, vt_input_mode,
    vt_input_mode_diff, vt_rows_diff, TermLog, TermOp,
};
use crate::text::decimal;
use vstd::prelude::*;
use vstd::string::*;
use vstd::utf8::*;
use vstd::view::View as _;

verus! {

/// Moves a terminal's cursor; rows and columns count from zero.
pub open spec fn pointed(row: int, col: int) -> Seq<u8> {
    encode_utf8(
        "\x1b["@ + decimal((row + 1) as nat) + ";"@ + decimal((col + 1) as nat) + "H"@,
    )
}

/// Writes `drawn` in no style from the start of a row, on a row that is erased
/// first where `erased` says so.
pub open spec fn placed(row: int, erased: bool, drawn: Seq<u8>) -> Seq<u8> {
    encode_utf8("\x1b[0m"@) + pointed(row, 0) + (if erased {
        encode_utf8("\x1b[K"@)
    } else {
        Seq::empty()
    }) + drawn
}

/// The lesser of two lengths.
pub open spec fn lesser(a: int, b: int) -> int {
    if a < b {
        a
    } else {
        b
    }
}

/// Whether `piece` stands somewhere in `bytes`.
pub open spec fn has_piece(bytes: Seq<u8>, piece: Seq<u8>) -> bool {
    exists|before: Seq<u8>, after: Seq<u8>| bytes == #[trigger] (before + piece + after)
}

/// Whether `bytes` ends in `tail`.
pub open spec fn ends_in(bytes: Seq<u8>, tail: Seq<u8>) -> bool {
    exists|before: Seq<u8>| bytes == #[trigger] (before + tail)
}

/// Rows of a screen drawn one below the other: row `first + i` lands on row
/// `top + i`, and a row with nothing to draw is passed over, unless each is
/// erased first.
pub open spec fn stacked(
    rows: Seq<Seq<u8>>,
    first: int,
    count: nat,
    top: int,
    erased: bool,
) -> Seq<Seq<u8>> {
    Seq::new(
        count,
        |i: int|
            if erased || rows[first + i].len() > 0 {
                placed(top + i, erased, rows[first + i])
            } else {
                Seq::empty()
            },
    )
}

proof fn rows_are_stacked(rows: Seq<Seq<u8>>, first: int, count: nat, top: int, erased: bool)
    ensures
        rows_bytes(rows, first, count, top, erased) == stacked(
            rows,
            first,
            count,
            top,
            erased,
        ).flatten(),
    decreases count,
{
    let all = stacked(rows, first, count, top, erased);
    all.lemma_flatten_and_flatten_alt_are_equivalent();
    if count > 0 {
        let fore = (count - 1) as nat;
        rows_are_stacked(rows, first, fore, top, erased);
        let less = stacked(rows, first, fore, top, erased);
        less.lemma_flatten_and_flatten_alt_are_equivalent();
        assert(all.drop_last() =~= less);
        let row = rows[first + count - 1];
        assert(row_bytes(row, top + count - 1, erased) =~= all.last());
    }
}

proof fn pieces_stand_in_the_whole(pieces: Seq<Seq<u8>>, i: int)
    requires
        0 <= i < pieces.len(),
    ensures
        has_piece(pieces.flatten(), pieces[i]),
    decreases pieces.len(),
{
    let rest = pieces.drop_first();
    if i == 0 {
        let none = Seq::<u8>::empty();
        assert(pieces.flatten() =~= none + pieces[0] + rest.flatten());
    } else {
        pieces_stand_in_the_whole(rest, i - 1);
        let (before, after) = choose|before: Seq<u8>, after: Seq<u8>|
            rest.flatten() == #[trigger] (before + rest[i - 1] + after);
        assert(pieces.flatten() =~= (pieces[0] + before) + pieces[i] + after);
    }
}

proof fn piece_of_part(a: Seq<u8>, part: Seq<u8>, b: Seq<u8>, piece: Seq<u8>)
    requires
        has_piece(part, piece),
    ensures
        has_piece(a + part + b, piece),
{
    let (before, after) = choose|before: Seq<u8>, after: Seq<u8>|
        part == #[trigger] (before + piece + after);
    assert(a + part + b =~= (a + before) + piece + (after + b));
}

/// A snapshot shows the bottom left of the screen. The screen is cleared; row
/// `r` of the source lands on row `r - hidden` of the device, where `hidden` is
/// by how many rows the source is taller; and the cursor ends up on the same
/// character: a visible one at row `r` and column `c` that the device has room
/// for is shown at row `r - hidden` and column `c`. Any other stays hidden.
pub proof fn snapshots_show_the_bottom_left(log: TermLog, rows: u16, cols: u16)
    ensures
        ({
            let (all_rows, all_cols) = log_size(log);
            let hidden: int = if all_rows > rows {
                all_rows - rows
            } else {
                0
            };
            let drawn = vt_rows_diff(
                log,
                fresh_log(all_rows, all_cols, 0),
                lesser(cols as int, all_cols as int) as u16,
            );
            let (row, col) = vt_cursor(log);
            let cursor = if !vt_cursor_hidden(log) && hidden <= row < hidden + rows && col < cols {
                pointed(row - hidden, col as int) + encode_utf8("\x1b[?25h"@)
            } else {
                Seq::empty()
            };
            &&& snapshot_bytes(log, rows, cols) == encode_utf8("\x1b[0m\x1b[H\x1b[2J"@)
                + encode_utf8("\x1b[?2026h"@) + encode_utf8("\x1b[?25l"@) + stacked(
                drawn,
                hidden,
                (all_rows - hidden) as nat,
                0,
                false,
            ).flatten() + vt_input_mode(log) + cursor + encode_utf8("\x1b[?2026l"@)
            &&& forall|r: int|
                hidden <= r < all_rows && #[trigger] drawn[r].len() > 0 ==> has_piece(
                    snapshot_bytes(log, rows, cols),
                    placed(r - hidden, false, drawn[r]),
                )
        }),
{
    let (all_rows, all_cols) = log_size(log);
    let hidden: int = if all_rows > rows {
        all_rows - rows
    } else {
        0
    };
    let width: u16 = if cols < all_cols {
        cols
    } else {
        all_cols
    };
    let drawn = vt_rows_diff(log, fresh_log(all_rows, all_cols, 0), width);
    let count = (all_rows - hidden) as nat;
    rows_are_stacked(drawn, hidden, count, 0, false);
    let pieces = stacked(drawn, hidden, count, 0, false);
    let fore = encode_utf8("\x1b[0m\x1b[H\x1b[2J"@) + encode_utf8("\x1b[?2026h"@) + encode_utf8(
        "\x1b[?25l"@,
    );
    let behind = vt_input_mode(log) + cursor_bytes(log, hidden, rows as int, cols as int, 0)
        + encode_utf8("\x1b[?2026l"@);
    assert(snapshot_bytes(log, rows, cols) =~= fore + pieces.flatten() + behind);
    assert forall|r: int| hidden <= r < all_rows && #[trigger] drawn[r].len() > 0 implies has_piece(
        snapshot_bytes(log, rows, cols),
        placed(r - hidden, false, drawn[r]),
    ) by {
        pieces_stand_in_the_whole(pieces, r - hidden);
        piece_of_part(fore, pieces.flatten(), behind, pieces[r - hidden]);
    }
}

proof fn repaint_places_row(
    log: TermLog,
    prev: TermLog,
    host_rows: u16,
    host_cols: u16,
    full: bool,
    row_offset: u16,
    src_off: u16,
    drawn: Seq<Seq<u8>>,
    r: int,
)
    requires
        drawn == vt_rows_diff(log, prev, if host_cols < log_size(log).1 {
            host_cols
        } else {
            log_size(log).1
        }),
        src_off <= r < log_size(log).0,
        r < src_off + host_rows,
        full || drawn[r].len() > 0,
    ensures
        has_piece(
            render_bytes(log, prev, host_rows, host_cols, full, row_offset, src_off),
            placed(row_offset + r - src_off, full, drawn[r]),
        ),
{
    let (all_rows, all_cols) = log_size(log);
    let below: int = all_rows - src_off;
    let count: int = if host_rows < below {
        host_rows as int
    } else {
        below
    };
    let width: u16 = if host_cols < all_cols {
        host_cols
    } else {
        all_cols
    };
    let bytes = render_bytes(log, prev, host_rows, host_cols, full, row_offset, src_off);
    rows_are_stacked(drawn, src_off as int, count as nat, row_offset as int, full);
    let pieces = stacked(drawn, src_off as int, count as nat, row_offset as int, full);
    let fore = encode_utf8("\x1b[?2026h"@) + encode_utf8("\x1b[?25l"@);
    let behind = (if full {
        vt_input_mode(log)
    } else {
        vt_input_mode_diff(log, prev)
    }) + cursor_bytes(log, src_off as int, count, width as int, row_offset as int) + encode_utf8(
        "\x1b[?2026l"@,
    );
    assert(bytes =~= fore + pieces.flatten() + behind);
    pieces_stand_in_the_whole(pieces, r - src_off);
    piece_of_part(fore, pieces.flatten(), behind, pieces[r - src_off]);
}

/// A repaint of part of the host screen draws row `src_off + i` of the source
/// on row `row_offset + i`, for as many rows as both have, erasing each first
/// where it repaints all; and the cursor, where it stands on one of those rows
/// and columns and is visible, follows the row it is on.
pub proof fn repaints_move_rows_and_cursor_alike(
    log: TermLog,
    prev: TermLog,
    host_rows: u16,
    host_cols: u16,
    full: bool,
    row_offset: u16,
    src_off: u16,
)
    ensures
        ({
            let (all_rows, all_cols) = log_size(log);
            let below: int = if all_rows > src_off {
                all_rows - src_off
            } else {
                0
            };
            let count: int = if host_rows < below {
                host_rows as int
            } else {
                below
            };
            let width = lesser(host_cols as int, all_cols as int) as u16;
            let drawn = vt_rows_diff(log, prev, width);
            let (row, col) = vt_cursor(log);
            let bytes = render_bytes(log, prev, host_rows, host_cols, full, row_offset, src_off);
            &&& bytes == encode_utf8("\x1b[?2026h"@) + encode_utf8("\x1b[?25l"@) + stacked(
                drawn,
                src_off as int,
                count as nat,
                row_offset as int,
                full,
            ).flatten() + (if full {
                vt_input_mode(log)
            } else {
                vt_input_mode_diff(log, prev)
            }) + (if !vt_cursor_hidden(log) && src_off <= row < src_off + count && col < width {
                pointed(row_offset + row - src_off, col as int) + encode_utf8("\x1b[?25h"@)
            } else {
                Seq::empty()
            }) + encode_utf8("\x1b[?2026l"@)
            &&& forall|r: int|
                src_off <= r < src_off + count && (full || #[trigger] drawn[r].len() > 0)
                    ==> has_piece(bytes, placed(row_offset + r - src_off, full, drawn[r]))
        }),
{
    let (all_rows, all_cols) = log_size(log);
    let below: int = if all_rows > src_off {
        all_rows - src_off
    } else {
        0
    };
    let count: int = if host_rows < below {
        host_rows as int
    } else {
        below
    };
    let width: u16 = if host_cols < all_cols {
        host_cols
    } else {
        all_cols
    };
    let drawn = vt_rows_diff(log, prev, width);
    let bytes = render_bytes(log, prev, host_rows, host_cols, full, row_offset, src_off);
    rows_are_stacked(drawn, src_off as int, count as nat, row_offset as int, full);
    let pieces = stacked(drawn, src_off as int, count as nat, row_offset as int, full);
    let fore = encode_utf8("\x1b[?2026h"@) + encode_utf8("\x1b[?25l"@);
    let behind = (if full {
        vt_input_mode(log)
    } else {
        vt_input_mode_diff(log, prev)
    }) + cursor_bytes(log, src_off as int, count, width as int, row_offset as int) + encode_utf8(
        "\x1b[?2026l"@,
    );
    assert(bytes =~= fore + pieces.flatten() + behind);
    assert forall|r: int|
        src_off <= r < src_off + count && (full || #[trigger] drawn[r].len() > 0) implies has_piece(
        bytes,
        placed(row_offset + r - src_off, full, drawn[r]),
    ) by {
        repaint_places_row(
            log,
            prev,
            host_rows,
            host_cols,
            full,
            row_offset,
            src_off,
            drawn,
            r,
        );
    }
}

proof fn repaint_is_bottom_anchored(m: MirrorView, log: TermLog, prev: TermLog, full: bool, view: View)
    requires
        m.wf(),
        m.view == Some(view),
        log_size(log) == log_size(m.log),
    ensures
        ({
            let bytes = render_bytes(
                log,
                prev,
                m.region_rows() as u16,
                m.region_cols() as u16,
                full,
                m.region_offset() as u16,
                m.crop_top() as u16,
            );
            let width = lesser(lesser(m.host_cols as int, view.cols as int), log_size(log).1 as int);
            let drawn = vt_rows_diff(log, prev, width as u16);
            let (row, col) = vt_cursor(log);
            &&& forall|r: int|
                0 <= r < view.rows && r >= view.rows - m.host_rows && (full
                    || #[trigger] drawn[r].len() > 0) ==> has_piece(
                    bytes,
                    placed(r + m.host_rows - view.rows, full, drawn[r]),
                )
            &&& !vt_cursor_hidden(log) && row < view.rows && row >= view.rows - m.host_rows && col
                < width ==> ends_in(
                bytes,
                pointed(row + m.host_rows - view.rows, col as int) + encode_utf8("\x1b[?25h"@)
                    + encode_utf8("\x1b[?2026l"@),
            )
            &&& !(!vt_cursor_hidden(log) && row < view.rows && row >= view.rows - m.host_rows && col
                < width) ==> ends_in(
                bytes,
                (if full {
                    vt_input_mode(log)
                } else {
                    vt_input_mode_diff(log, prev)
                }) + encode_utf8("\x1b[?2026l"@),
            )
        }),
{
    let host_rows = m.region_rows() as u16;
    let host_cols = m.region_cols() as u16;
    let row_offset = m.region_offset() as u16;
    let src_off = m.crop_top() as u16;
    repaints_move_rows_and_cursor_alike(log, prev, host_rows, host_cols, full, row_offset, src_off);
    let bytes = render_bytes(log, prev, host_rows, host_cols, full, row_offset, src_off);
    let width = lesser(lesser(m.host_cols as int, view.cols as int), log_size(log).1 as int);
    assert(width as u16 == (if host_cols < log_size(log).1 {
        host_cols
    } else {
        log_size(log).1
    }));
    let drawn = vt_rows_diff(log, prev, width as u16);
    let (row, col) = vt_cursor(log);
    assert(row_offset - src_off == m.host_rows - view.rows);
    assert(log_size(log).0 - src_off >= host_rows);
    assert forall|r: int|
        0 <= r < view.rows && r >= view.rows - m.host_rows && (full || #[trigger] drawn[r].len()
            > 0) implies has_piece(bytes, placed(r + m.host_rows - view.rows, full, drawn[r])) by {
        repaint_places_row(
            log,
            prev,
            host_rows,
            host_cols,
            full,
            row_offset,
            src_off,
            drawn,
            r,
        );
        assert(row_offset + r - src_off == r + m.host_rows - view.rows);
    }
    let pieces = stacked(drawn, src_off as int, host_rows as nat, row_offset as int, full);
    let fore = encode_utf8("\x1b[?2026h"@) + encode_utf8("\x1b[?25l"@) + pieces.flatten();
    let modes = if full {
        vt_input_mode(log)
    } else {
        vt_input_mode_diff(log, prev)
    };
    if !vt_cursor_hidden(log) && row < view.rows && row >= view.rows - m.host_rows && col < width {
        let tail = pointed(row + m.host_rows - view.rows, col as int) + encode_utf8("\x1b[?25h"@)
            + encode_utf8("\x1b[?2026l"@);
        assert(bytes =~= (fore + modes) + tail);
    } else {
        assert(bytes =~= fore + (modes + encode_utf8("\x1b[?2026l"@)));
    }
}

/// A full repaint anchors the view at the bottom of the host screen: row `r` of
/// the device lands `view.rows - r` rows above the bottom, erased first, where
/// the host is tall enough to have that row; and so does a visible cursor on it.
pub proof fn host_shows_the_bottom_of_the_view(m: MirrorView, view: View)
    requires
        m.wf(),
        m.view == Some(view),
    ensures
        ({
            let width = lesser(lesser(m.host_cols as int, view.cols as int), log_size(m.log).1 as int);
            let drawn = vt_rows_diff(
                m.log,
                fresh_log(log_size(m.log).0, log_size(m.log).1, 0),
                width as u16,
            );
            let (row, col) = vt_cursor(m.log);
            &&& forall|r: int|
                #![trigger drawn[r]]
                0 <= r < view.rows && r >= view.rows - m.host_rows ==> has_piece(
                    m.full_bytes(),
                    placed(r + m.host_rows - view.rows, true, drawn[r]),
                )
            &&& !vt_cursor_hidden(m.log) && row < view.rows && row >= view.rows - m.host_rows && col
                < width ==> ends_in(
                m.full_bytes(),
                pointed(row + m.host_rows - view.rows, col as int) + encode_utf8("\x1b[?25h"@)
                    + encode_utf8("\x1b[?2026l"@),
            )
            &&& vt_cursor_hidden(m.log) ==> ends_in(
                m.full_bytes(),
                vt_input_mode(m.log) + encode_utf8("\x1b[?2026l"@),
            )
        }),
{
    reveal(MirrorView::full_bytes);
    repaint_is_bottom_anchored(
        m,
        m.log,
        fresh_log(log_size(m.log).0, log_size(m.log).1, 0),
        true,
        view,
    );
}

proof fn output_keeps_the_size(m: MirrorView, bytes: Seq<u8>)
    ensures
        log_size(m.after_slices(bytes).log) == log_size(m.log),
    decreases bytes.len(),
{
    if bytes.len() > 0 {
        slices_part_at_escapes(bytes);
        let n = slice_len(bytes);
        reveal(MirrorView::after_slice);
        reveal_with_fuel(log_size, 2);
        let next = m.after_slice(bytes.take(n));
        assert(next.log == m.log.push(TermOp::Process(bytes.take(n))));
        assert(next.log.drop_last() =~= m.log);
        output_keeps_the_size(next, bytes.skip(n));
    }
}

/// Output that archives nothing is drawn where a full repaint would draw it:
/// each row that it changed lands on its place above the bottom of the host
/// screen. Nothing is written of an unchanged title.
pub proof fn output_is_drawn_in_place(m: MirrorView, bytes: Seq<u8>, view: View, shadow: TermLog)
    requires
        m.wf(),
        m.view == Some(view),
        m.shadow == Some(shadow),
        m.scrolled_by(bytes) == 0,
        m.title_change(bytes) is None,
    ensures
        ({
            let log = m.after_slices(bytes).log;
            let width = lesser(lesser(m.host_cols as int, view.cols as int), log_size(log).1 as int);
            let drawn = vt_rows_diff(log, shadow, width as u16);
            let (row, col) = vt_cursor(log);
            &&& forall|r: int|
                0 <= r < view.rows && r >= view.rows - m.host_rows && #[trigger] drawn[r].len() > 0
                    ==> has_piece(
                    m.host_bytes(bytes),
                    placed(r + m.host_rows - view.rows, false, drawn[r]),
                )
            &&& !vt_cursor_hidden(log) && row < view.rows && row >= view.rows - m.host_rows && col
                < width ==> ends_in(
                m.host_bytes(bytes),
                pointed(row + m.host_rows - view.rows, col as int) + encode_utf8("\x1b[?25h"@)
                    + encode_utf8("\x1b[?2026l"@),
            )
        }),
{
    reveal(MirrorView::host_bytes);
    m.lemma_after_slices_frame(bytes);
    output_keeps_the_size(m, bytes);
    let log = m.after_slices(bytes).log;
    repaint_is_bottom_anchored(m, log, shadow, false, view);
    assert(m.host_bytes(bytes) =~= render_bytes(
        log,
        shadow,
        m.region_rows() as u16,
        m.region_cols() as u16,
        false,
        m.region_offset() as u16,
        m.crop_top() as u16,
    ));
}

/// Where a screen is narrowed through a wide character, what is in its left
/// columns is drawn anew in the same rows: each up to the cut, or up to the
/// column before it where the cut goes through a wide character of that row.
/// The cursor keeps its row, and its column as far as there is one, and is
/// shown exactly if it was.
pub proof fn narrowed_screens_keep_their_left(log: TermLog, cols: u16)
    requires
        cols > 0,
    ensures
        ({
            let (all_rows, all_cols) = log_size(log);
            let blank = fresh_log(all_rows, all_cols, 0);
            let (row, col) = vt_cursor(log);
            let drawn = Seq::new(
                all_rows as nat,
                |r: int|
                    vt_rows_diff(
                        log,
                        blank,
                        match visible_cell(log, 0, r as u16, cols) {
                            Some(cell) if cell.continuation => (cols - 1) as u16,
                            _ => cols,
                        },
                    )[r],
            );
            left_bytes(log, cols) == stacked(drawn, 0, all_rows as nat, 0, false).flatten()
                + vt_input_mode(log) + vt_attributes(log) + pointed(
                row as int,
                if col < cols {
                    col as int
                } else {
                    cols - 1
                },
            ) + (if vt_cursor_hidden(log) {
                encode_utf8("\x1b[?25l"@)
            } else {
                encode_utf8("\x1b[?25h"@)
            })
        }),
{
    let (all_rows, all_cols) = log_size(log);
    let blank = fresh_log(all_rows, all_cols, 0);
    let drawn = Seq::new(
        all_rows as nat,
        |r: int|
            vt_rows_diff(
                log,
                blank,
                match visible_cell(log, 0, r as u16, cols) {
                    Some(cell) if cell.continuation => (cols - 1) as u16,
                    _ => cols,
                },
            )[r],
    );
    assert(drawn =~= left_rows(log, cols));
    rows_are_stacked(drawn, 0, all_rows as nat, 0, false);
}

/// After a snapshot the cursor is on the character that it is on at the source:
/// a visible cursor at row `r` and column `c`, on one of the rows and columns
/// that the device shows, is left visible at row `r` less the rows hidden above
/// the device, and column `c`, and nothing moves or hides it afterwards. A
/// hidden cursor, or one that the device does not show, is left hidden.
pub proof fn snapshots_keep_the_cursor_on_its_character(log: TermLog, rows: u16, cols: u16)
    ensures
        ({
            let (all_rows, _) = log_size(log);
            let hidden: int = if all_rows > rows {
                all_rows - rows
            } else {
                0
            };
            let (r, c) = vt_cursor(log);
            let bytes = snapshot_bytes(log, rows, cols);
            &&& !vt_cursor_hidden(log) && r >= hidden && r < hidden + rows && c < cols ==> ends_in(
                bytes,
                pointed(r - hidden, c as int) + encode_utf8("\x1b[?25h"@) + encode_utf8(
                    "\x1b[?2026l"@,
                ),
            )
            &&& vt_cursor_hidden(log) || r < hidden || r >= hidden + rows || c >= cols ==> ends_in(
                bytes,
                vt_input_mode(log) + encode_utf8("\x1b[?2026l"@),
            )
        }),
{
    snapshots_show_the_bottom_left(log, rows, cols);
    let (all_rows, all_cols) = log_size(log);
    let hidden: int = if all_rows > rows {
        all_rows - rows
    } else {
        0
    };
    let (r, c) = vt_cursor(log);
    let bytes = snapshot_bytes(log, rows, cols);
    let drawn = vt_rows_diff(
        log,
        fresh_log(all_rows, all_cols, 0),
        lesser(cols as int, all_cols as int) as u16,
    );
    let fore = encode_utf8("\x1b[0m\x1b[H\x1b[2J"@) + encode_utf8("\x1b[?2026h"@) + encode_utf8(
        "\x1b[?25l"@,
    ) + stacked(drawn, hidden, (all_rows - hidden) as nat, 0, false).flatten();
    if !vt_cursor_hidden(log) && r >= hidden && r < hidden + rows && c < cols {
        let tail = pointed(r - hidden, c as int) + encode_utf8("\x1b[?25h"@) + encode_utf8(
            "\x1b[?2026l"@,
        );
        assert(bytes =~= (fore + vt_input_mode(log)) + tail);
    } else {
        assert(bytes =~= fore + (vt_input_mode(log) + encode_utf8("\x1b[?2026l"@)));
    }
}

} // verus!
