//! What scrolling does to the host terminal: the laws that follow rows of a
//! view into the terminal's own scrollback.

use crate::history::{last_of, RecordView};
use crate::mirror::{
    flowed, staged_records, top_records, without_trailing_blanks, MirrorView, View,
    STAGE_SCROLLBACK,
};
use crate::placement::{lesser, placed, pointed};
use crate::render::{left_bytes, render_bytes, row_in_sight, row_record, snapshot_bytes};
use crate::terminal::{
    fresh_log, laid_out, log_size, parts_wide, vt_alternate, vt_bells, vt_hidden, vt_screen, vt_staged,
    vt_title, RowView, TermLog, TermOp,
};
use crate::text::{decimal, lossy_text, repeated};
use vstd::prelude::*;
use vstd::string::*;
use vstd::utf8::*;
use vstd::view::View as _;

verus! {

/// A terminal as far as scrolling goes: what is on each of its rows, and what
/// has gone into its scrollback.
pub ghost struct Paper {
    pub gone: Seq<Seq<u8>>,
    pub rows: Seq<Seq<u8>>,
}

/// `count` rows with nothing on them.
pub open spec fn blanks(count: int) -> Seq<Seq<u8>> {
    Seq::new(count as nat, |i: int| Seq::<u8>::empty())
}

/// One thing that is done to a terminal.
pub ghost enum Stroke {
    /// A row is erased and written.
    Row { row: int, bytes: Seq<u8> },
    /// So many line feeds on the bottom row, each of which scrolls the screen.
    Feed { count: nat },
}

impl Stroke {
    /// How it is written to a terminal of so many rows.
    pub open spec fn spelled(self, height: int) -> Seq<u8> {
        match self {
            Stroke::Row { row, bytes } => placed(row, true, bytes),
            Stroke::Feed { count } => encode_utf8("\x1b[0m"@) + pointed(height - 1, 0) + repeated(
                encode_utf8("\r\n"@),
                count,
            ),
        }
    }

    /// What it makes of a terminal.
    pub open spec fn done(self, p: Paper) -> Paper {
        match self {
            Stroke::Row { row, bytes } => Paper { rows: p.rows.update(row, bytes), ..p },
            Stroke::Feed { count } => Paper {
                gone: p.gone + p.rows.take(count as int),
                rows: p.rows.skip(count as int) + blanks(count as int),
            },
        }
    }
}

/// How strokes are written, one after another.
pub open spec fn spelled_all(strokes: Seq<Stroke>, height: int) -> Seq<u8>
    decreases strokes.len(),
{
    if strokes.len() == 0 {
        Seq::empty()
    } else {
        strokes[0].spelled(height) + spelled_all(strokes.skip(1), height)
    }
}

/// What strokes make of a terminal, one after another.
pub open spec fn done_all(strokes: Seq<Stroke>, p: Paper) -> Paper
    decreases strokes.len(),
{
    if strokes.len() == 0 {
        p
    } else {
        done_all(strokes.skip(1), strokes[0].done(p))
    }
}

proof fn strokes_join(a: Seq<Stroke>, b: Seq<Stroke>, height: int, p: Paper)
    ensures
        spelled_all(a + b, height) == spelled_all(a, height) + spelled_all(b, height),
        done_all(a + b, p) == done_all(b, done_all(a, p)),
    decreases a.len(),
{
    if a.len() == 0 {
        assert(a + b =~= b);
        assert(spelled_all(a, height) + spelled_all(b, height) =~= spelled_all(b, height));
    } else {
        strokes_join(a.skip(1), b, height, a[0].done(p));
        assert((a + b).skip(1) =~= a.skip(1) + b);
        assert((a[0].spelled(height) + spelled_all(a.skip(1), height)) + spelled_all(b, height)
            =~= a[0].spelled(height) + (spelled_all(a.skip(1), height) + spelled_all(b, height)));
    }
}

proof fn one_stroke(s: Stroke, height: int, p: Paper)
    ensures
        spelled_all(seq![s], height) == s.spelled(height),
        done_all(seq![s], p) == s.done(p),
{
    reveal_with_fuel(spelled_all, 2);
    reveal_with_fuel(done_all, 2);
    assert(seq![s].skip(1) =~= Seq::<Stroke>::empty());
    assert(s.spelled(height) + Seq::<u8>::empty() =~= s.spelled(height));
}

/// What is archived of a row of a mirror's model.
pub open spec fn row_text(m: MirrorView, row: int) -> Seq<u8> {
    row_record(row_in_sight(m.log, 0, row as u16), log_size(m.log).1).bytes
}

/// The rows of a model from `first` on.
pub open spec fn rows_text(m: MirrorView, first: int, count: int) -> Seq<Seq<u8>> {
    Seq::new(count as nat, |i: int| row_text(m, first + i))
}

spec fn batch_rows(m: MirrorView, first: int, count: nat) -> Seq<Stroke> {
    Seq::new(count, |i: int| Stroke::Row { row: i, bytes: row_text(m, first + i) })
}

proof fn batch_is_painted(m: MirrorView, first: int, count: nat, p: Paper)
    requires
        count <= p.rows.len(),
    ensures
        spelled_all(batch_rows(m, first, count), m.host_rows as int) == m.painted(first, count),
        ({
            let done = done_all(batch_rows(m, first, count), p);
            &&& done.gone == p.gone
            &&& done.rows.len() == p.rows.len()
            &&& done.rows.take(count as int) == rows_text(m, first, count as int)
        }),
    decreases count,
{
    let all = batch_rows(m, first, count);
    let height = m.host_rows as int;
    if count == 0 {
        assert(all =~= Seq::<Stroke>::empty());
        assert(p.rows.take(0) =~= rows_text(m, first, 0));
    } else {
        let less = (count - 1) as nat;
        let fore = batch_rows(m, first, less);
        let last = Stroke::Row { row: count - 1, bytes: row_text(m, first + count - 1) };
        batch_is_painted(m, first, less, p);
        assert(all =~= fore + seq![last]);
        strokes_join(fore, seq![last], height, p);
        let before = done_all(fore, p);
        one_stroke(last, height, before);
        assert(spelled_all(all, height) =~= m.painted(first, count));
        let done = done_all(all, p);
        assert(done.rows.take(count as int) =~= rows_text(m, first, count as int)) by {
            assert forall|k: int| 0 <= k < count implies done.rows.take(count as int)[k]
                == rows_text(m, first, count as int)[k] by {
                if k < less {
                    assert(before.rows.take(less as int)[k] == rows_text(
                        m,
                        first,
                        less as int,
                    )[k]);
                }
            }
        }
    }
}

proof fn batches_scroll_off(m: MirrorView, pushed: int, p: Paper) -> (strokes: Seq<Stroke>)
    requires
        m.host_rows > 0,
        p.rows.len() == m.host_rows,
        0 <= pushed <= m.crop_top(),
    ensures
        spelled_all(strokes, m.host_rows as int) == m.crop_batches(pushed),
        done_all(strokes, p).gone == p.gone + rows_text(m, pushed, m.crop_top() - pushed),
        done_all(strokes, p).rows.len() == p.rows.len(),
    decreases m.crop_top() - pushed,
{
    let height = m.host_rows as int;
    let rest = m.crop_top() - pushed;
    if rest == 0 {
        assert(p.gone + rows_text(m, pushed, 0) =~= p.gone);
        Seq::empty()
    } else {
        let batch: int = if rest < height {
            rest
        } else {
            height
        };
        let rows = batch_rows(m, pushed, batch as nat);
        let feed = Stroke::Feed { count: batch as nat };
        batch_is_painted(m, pushed, batch as nat, p);
        let painted = done_all(rows, p);
        one_stroke(feed, height, painted);
        strokes_join(rows, seq![feed], height, p);
        let fed = feed.done(painted);
        assert(fed.rows.len() == height);
        let more = batches_scroll_off(m, pushed + batch, fed);
        strokes_join(rows + seq![feed], more, height, p);
        assert(m.crop_batches(pushed) =~= (m.painted(pushed, batch as nat) + feed.spelled(height))
            + m.crop_batches(pushed + batch));
        assert((p.gone + rows_text(m, pushed, batch)) + rows_text(m, pushed + batch, rest - batch)
            =~= p.gone + rows_text(m, pushed, rest));
        (rows + seq![feed]) + more
    }
}

/// The rows of a view that the host terminal is too small for go into its
/// scrollback, every one of them, once and in order: they are painted and then
/// scrolled off by exactly as many line feeds. Wrapping is off meanwhile.
pub proof fn hidden_rows_reach_the_scrollback(m: MirrorView, view: View, p: Paper) -> (strokes: Seq<
    Stroke,
>)
    requires
        m.host_rows > 0,
        m.view == Some(view),
        view.rows > m.host_rows,
        p.rows.len() == m.host_rows,
    ensures
        m.crop_bytes() == encode_utf8("\x1b[?2026h"@) + encode_utf8("\x1b[?25l"@) + encode_utf8(
            "\x1b[?7l"@,
        ) + spelled_all(strokes, m.host_rows as int) + encode_utf8("\x1b[?7h"@) + encode_utf8(
            "\x1b[?2026l"@,
        ),
        done_all(strokes, p).gone == p.gone + rows_text(m, 0, view.rows - m.host_rows),
{
    reveal(MirrorView::crop_bytes);
    batches_scroll_off(m, 0, p)
}

/// Nothing is pushed into the scrollback where the host has a row for each of
/// the view's.
pub proof fn fitting_views_push_nothing(m: MirrorView)
    requires
        m.view matches Some(view) ==> view.rows <= m.host_rows,
    ensures
        m.crop_bytes() == Seq::<u8>::empty(),
{
    reveal(MirrorView::crop_bytes);
}

/// Text flowing over rows from one of them on, a line on each: the cursor is on
/// row `at`, where the last line was written.
pub open spec fn next_line(p: Paper, at: int, line: Seq<u8>) -> (Paper, int) {
    if at + 1 < p.rows.len() {
        (Paper { rows: p.rows.update(at + 1, line), ..p }, at + 1)
    } else {
        (
            Paper {
                gone: p.gone.push(p.rows[0]),
                rows: p.rows.skip(1).push(line),
            },
            at,
        )
    }
}

/// A terminal after lines were written on it, the first on row `top`.
pub open spec fn after_lines(p: Paper, top: int, lines: Seq<Seq<u8>>) -> (Paper, int)
    decreases lines.len(),
{
    if lines.len() == 0 {
        (p, top)
    } else if lines.len() == 1 {
        (Paper { rows: p.rows.update(top, lines[0]), ..p }, top)
    } else {
        let (before, at) = after_lines(p, top, lines.drop_last());
        next_line(before, at, lines.last())
    }
}

/// A mirrored scroll on a terminal of `off` rows above the region of the view:
/// the region's rows are deleted, the lines are written from its first row on,
/// and the bottom row is fed so often that the region is clear again.
pub open spec fn scroll_done(p: Paper, off: int, lines: Seq<Seq<u8>>, feeds: nat) -> Paper {
    let deleted = Paper {
        rows: p.rows.take(off) + blanks(p.rows.len() - off),
        ..p
    };
    Stroke::Feed { count: feeds }.done(after_lines(deleted, off, lines).0)
}

proof fn lines_flow(p: Paper, off: int, lines: Seq<Seq<u8>>)
    requires
        0 <= off < p.rows.len(),
        lines.len() > 0,
        p.rows.skip(off) == blanks(p.rows.len() - off),
    ensures
        ({
            let (done, at) = after_lines(p, off, lines);
            let height = p.rows.len() as int;
            let all = p.rows.take(off) + lines;
            let over: int = if off + lines.len() > height {
                off + lines.len() - height
            } else {
                0
            };
            &&& done.gone == p.gone + all.take(over)
            &&& done.rows == all.skip(over) + blanks(height - (all.len() - over))
            &&& at == off + lines.len() - 1 - over
        }),
    decreases lines.len(),
{
    let height = p.rows.len() as int;
    let all = p.rows.take(off) + lines;
    let (done, at) = after_lines(p, off, lines);
    if lines.len() == 1 {
        assert(done.gone =~= p.gone + all.take(0));
        assert(done.rows =~= all.skip(0) + blanks(height - all.len())) by {
            assert forall|k: int| off < k < height implies p.rows[k] == Seq::<u8>::empty() by {
                assert(p.rows.skip(off)[k - off] == blanks(height - off)[k - off]);
            }
        }
    } else {
        let fore = lines.drop_last();
        lines_flow(p, off, fore);
        let (before, b) = after_lines(p, off, fore);
        let less = p.rows.take(off) + fore;
        assert(all =~= less.push(lines.last()));
        if off + lines.len() <= height {
            assert(done.gone =~= p.gone + all.take(0));
            assert(done.rows =~= all.skip(0) + blanks(height - all.len()));
        } else {
            let over = off + lines.len() - height;
            assert(b == height - 1);
            assert(before.rows.len() == height);
            assert(done.gone =~= p.gone + all.take(over)) by {
                assert(before.rows[0] == less[over - 1]);
            }
            assert(done.rows =~= all.skip(over) + blanks(0));
        }
    }
}

/// The lines that scroll off the region of a view join what is above it, in
/// order, whichever part of that is still on the screen; nothing is lost, and
/// the region is clear.
pub proof fn scrolled_lines_join_the_zone(p: Paper, off: int, lines: Seq<Seq<u8>>)
    requires
        0 <= off < p.rows.len(),
        lines.len() > 0,
    ensures
        ({
            let region = p.rows.len() - off;
            let feeds: int = if lines.len() < region {
                lines.len() as int
            } else {
                region
            };
            let done = scroll_done(p, off, lines, feeds as nat);
            &&& done.gone + done.rows.take(off) == p.gone + p.rows.take(off) + lines
            &&& done.rows.skip(off) == blanks(region)
            &&& done.rows.len() == p.rows.len()
        }),
{
    let height = p.rows.len() as int;
    let region = height - off;
    let feeds: int = if lines.len() < region {
        lines.len() as int
    } else {
        region
    };
    let deleted = Paper { rows: p.rows.take(off) + blanks(region), ..p };
    assert(deleted.rows.skip(off) =~= blanks(region));
    assert(deleted.rows.take(off) =~= p.rows.take(off));
    lines_flow(deleted, off, lines);
    let all = p.rows.take(off) + lines;
    let over: int = if off + lines.len() > height {
        off + lines.len() - height
    } else {
        0
    };
    let flown = after_lines(deleted, off, lines).0;
    let done = scroll_done(p, off, lines, feeds as nat);
    assert(over + feeds == lines.len());
    assert(done.gone =~= p.gone + all.take(lines.len() as int)) by {
        assert(flown.rows.take(feeds) =~= all.subrange(over, over + feeds));
    }
    assert(done.rows =~= all.skip(lines.len() as int) + blanks(region)) by {
        assert(flown.rows.skip(feeds) =~= all.skip(over + feeds) + blanks(
            height - (all.len() - over),
        ));
    }
    assert(done.rows.take(off) =~= all.skip(lines.len() as int));
    assert(done.rows.skip(off) =~= blanks(region));
    assert(done.gone + done.rows.take(off) =~= p.gone + p.rows.take(off) + lines);
}

proof fn lines_are_flowed(lines: Seq<RecordView>)
    ensures
        flowed(lines) == Seq::new(
            lines.len(),
            |i: int|
                (if i > 0 {
                    encode_utf8("\r\n"@)
                } else {
                    Seq::empty()
                }) + lines[i].bytes + encode_utf8("\x1b[0m"@),
        ).flatten(),
    decreases lines.len(),
{
    let pieces = Seq::new(
        lines.len(),
        |i: int|
            (if i > 0 {
                encode_utf8("\r\n"@)
            } else {
                Seq::empty()
            }) + lines[i].bytes + encode_utf8("\x1b[0m"@),
    );
    pieces.lemma_flatten_and_flatten_alt_are_equivalent();
    if lines.len() > 0 {
        let fore = lines.drop_last();
        lines_are_flowed(fore);
        let less = Seq::new(
            fore.len(),
            |i: int|
                (if i > 0 {
                    encode_utf8("\r\n"@)
                } else {
                    Seq::empty()
                }) + fore[i].bytes + encode_utf8("\x1b[0m"@),
        );
        less.lemma_flatten_and_flatten_alt_are_equivalent();
        assert(pieces.drop_last() =~= less);
        assert(flowed(lines) =~= less.flatten_alt() + pieces.last());
    }
}

/// How a mirrored scroll is written: the rows that the view takes at the bottom
/// of the host are deleted, the newest `scrolled` lines of the archive are
/// written from there on, each on a row of its own, and the bottom row is fed
/// once for each of them, or once for each row of the view where there are
/// more.
pub proof fn scrolls_are_mirrored(m: MirrorView, view: View, scrolled: nat)
    requires
        m.view == Some(view),
        scrolled <= m.history.lines.len(),
    ensures
        ({
            let region: int = if view.rows < m.host_rows {
                view.rows as int
            } else {
                m.host_rows as int
            };
            let all = m.history.lines;
            let lines = all.skip(all.len() - scrolled);
            m.scroll_bytes(scrolled) =~= encode_utf8("\x1b[?2026h"@) + encode_utf8("\x1b[?25l"@)
                + encode_utf8("\x1b[0m"@) + pointed(m.host_rows - region, 0) + encode_utf8(
                "\x1b["@ + decimal(region as nat) + "M"@,
            ) + Seq::new(
                scrolled,
                |i: int|
                    (if i > 0 {
                        encode_utf8("\r\n"@)
                    } else {
                        Seq::empty()
                    }) + lines[i].bytes + encode_utf8("\x1b[0m"@),
            ).flatten() + pointed(m.host_rows - 1, 0) + repeated(
                encode_utf8("\r\n"@),
                if scrolled < region {
                    scrolled
                } else {
                    region as nat
                },
            ) + encode_utf8("\x1b[?2026l"@)
        }),
{
    let all = m.history.lines;
    let lines = all.skip(all.len() - scrolled);
    assert(last_of(all, scrolled) =~= lines);
    lines_are_flowed(lines);
}

/// What is above the region of a view is pushed into the scrollback, where
/// lines were scrolled into it, by as many line feeds as it has rows.
pub proof fn zones_are_pushed_up(m: MirrorView, view: View)
    requires
        m.view == Some(view),
    ensures
        m.zone_dirty && view.rows < m.host_rows ==> m.zone_bytes() =~= (Stroke::Feed {
            count: (m.host_rows - view.rows) as nat,
        }).spelled(m.host_rows as int),
        !m.zone_dirty || view.rows >= m.host_rows ==> m.zone_bytes() =~= Seq::<u8>::empty(),
{
    reveal(MirrorView::zone_bytes);
}

/// Once a mirror is done with, a terminal that showed a view is restored: no
/// style, the cursor shown on a new row at the bottom, and the input modes as
/// they are without a view. One that did not is left alone.
pub proof fn cleanup_restores_the_terminal(m: MirrorView)
    ensures
        m.view is None ==> m.cleanup_bytes() =~= Seq::<u8>::empty(),
        m.view is Some ==> m.cleanup_bytes() =~= m.zone_bytes() + encode_utf8("\x1b[0m"@)
            + encode_utf8("\x1b[?25h"@) + encode_utf8(
            "\x1b[?1l\x1b>\x1b[?2004l\x1b[?1000l\x1b[?1002l\x1b[?1003l\x1b[?1006l"@,
        ) + pointed(m.host_rows - 1, 0) + encode_utf8("\r\n"@),
{
}

/// Output that scrolls lines into the archive mirrors the scroll on the host
/// and repaints the view; other output draws what it changed. A new title is
/// set behind either.
pub proof fn output_mirrors_its_scroll(m: MirrorView, bytes: Seq<u8>, view: View, shadow: TermLog)
    requires
        m.view == Some(view),
        m.shadow == Some(shadow),
    ensures
        ({
            let done = m.after_slices(bytes);
            let scrolled = done.history.next - m.history.next;
            let drawn = if scrolled > 0 {
                done.scroll_bytes(scrolled as nat) + done.full_bytes()
            } else {
                render_bytes(
                    done.log,
                    shadow,
                    lesser(view.rows as int, m.host_rows as int) as u16,
                    lesser(view.cols as int, m.host_cols as int) as u16,
                    false,
                    (m.host_rows - lesser(view.rows as int, m.host_rows as int)) as u16,
                    (view.rows - lesser(view.rows as int, m.host_rows as int)) as u16,
                )
            };
            let titled = done.new_title is Some && m.title != done.new_title;
            m.host_bytes(bytes) =~= drawn + (if titled {
                encode_utf8("\x1b]2;"@ + done.new_title->Some_0 + "\x07"@)
            } else {
                Seq::empty()
            })
        }),
{
    reveal(MirrorView::host_bytes);
}

proof fn blank_ends_are_left_out(records: Seq<RecordView>)
    ensures
        ({
            let kept = without_trailing_blanks(records);
            &&& kept.len() <= records.len()
            &&& kept == records.take(kept.len() as int)
            &&& kept.len() > 0 ==> kept.last().bytes.len() > 0
            &&& forall|i: int|
                kept.len() <= i < records.len() ==> (#[trigger] records[i]).bytes.len() == 0
        }),
    decreases records.len(),
{
    if records.len() == 0 || records.last().bytes.len() > 0 {
        assert(records.take(records.len() as int) =~= records);
    } else {
        let fore = records.drop_last();
        blank_ends_are_left_out(fore);
        let kept = without_trailing_blanks(records);
        assert(fore.take(kept.len() as int) =~= records.take(kept.len() as int));
        assert forall|i: int| kept.len() <= i < records.len() implies (
        #[trigger] records[i]).bytes.len() == 0 by {
            if i < fore.len() {
                assert(fore[i] == records[i]);
            }
        }
    }
}

/// The rows that a device has no room for are archived when it starts viewing,
/// from the top, up to the last that shows something: nothing that was on the
/// screen is lost. What scrolled off before and was not archived yet goes
/// before them. The alternate screen is not archived. The model is rebuilt at
/// the device's size, and is what the device's snapshot shows.
pub proof fn rows_cut_off_are_archived(m: MirrorView, view: View) -> (kept: Seq<RecordView>)
    requires
        !vt_alternate(m.log),
        view.rows < log_size(m.log).0,
        vt_staged(m.log).len() == m.staged_seen,
        m.history.wf(),
    ensures
        ({
            let cut = log_size(m.log).0 - view.rows;
            let after = m.viewing(view);
            &&& after.history == m.history.push_all(kept)
            &&& kept.len() <= cut
            &&& forall|i: int|
                0 <= i < kept.len() ==> #[trigger] kept[i] == row_record(
                    row_in_sight(m.log, 0, i as u16),
                    log_size(m.log).1,
                )
            &&& forall|i: int|
                kept.len() <= i < cut ==> (#[trigger] row_text(m, i)).len() == 0
            &&& kept.len() > 0 ==> kept.last().bytes.len() > 0
            &&& after.view == Some(view)
            &&& after.host_rows == m.host_rows
            &&& after.host_cols == m.host_cols
            &&& after.staged_seen == 0
            &&& !after.zone_dirty
            &&& after.log == fresh_log(
                laid_out(view.rows, view.cols).0,
                laid_out(view.rows, view.cols).1,
                STAGE_SCROLLBACK as nat,
            ).push(TermOp::Process(snapshot_bytes(m.log, view.rows, view.cols)))
        }),
{
    reveal(MirrorView::viewing);
    let cut = log_size(m.log).0 - view.rows;
    let records = top_records(m.log, cut);
    blank_ends_are_left_out(records);
    let kept = without_trailing_blanks(records);
    assert(staged_records(m.log, 0) =~= Seq::<RecordView>::empty());
    let h = m.history;
    assert(h.lines + Seq::<RecordView>::empty() =~= h.lines);
    assert(h.push_all(Seq::empty()) == h);
    assert forall|i: int| kept.len() <= i < cut implies (#[trigger] row_text(m, i)).len() == 0 by {
        assert(records[i].bytes.len() == 0);
    }
    kept
}

/// A view that ends leaves a fresh model of the host's size; the archive, the
/// title and the host stay, but for rows that scrolled off and had not been
/// archived.
pub proof fn ended_views_keep_the_archive(m: MirrorView)
    requires
        vt_staged(m.log).len() == m.staged_seen || vt_alternate(m.log),
        m.history.wf(),
    ensures
        ({
            let after = m.unviewed();
            let (rows, cols) = laid_out(m.host_rows, m.host_cols);
            after == (MirrorView {
                log: fresh_log(rows, cols, STAGE_SCROLLBACK as nat),
                shadow: None,
                view: None,
                staged_seen: 0,
                zone_dirty: false,
                bells: 0,
                new_title: None,
                ..m
            })
        }),
{
    reveal(MirrorView::unviewed);
    assert(staged_records(m.log, 0) =~= Seq::<RecordView>::empty());
    let h = m.history;
    assert(h.lines + Seq::<RecordView>::empty() =~= h.lines);
    assert(h.push_all(Seq::empty()) == h);
}

/// Translating output feeds it to both models, notes a new title, forgets the
/// bells it has told, and leaves the view and the host's size alone; what is
/// above a view's region was written to if something scrolled.
pub proof fn output_is_translated_once(m: MirrorView, bytes: Seq<u8>)
    ensures
        ({
            let done = m.after_slices(bytes);
            let after = m.processed(bytes);
            &&& after.log == done.log
            &&& after.history == done.history
            &&& after.staged_seen == done.staged_seen
            &&& after.host_rows == m.host_rows
            &&& after.host_cols == m.host_cols
            &&& after.view == m.view
            &&& after.bells == 0
            &&& after.new_title is None
            &&& after.title == (if done.new_title is Some {
                done.new_title
            } else {
                m.title
            })
            &&& after.zone_dirty == (m.zone_dirty || (m.view is Some && done.history.next
                > m.history.next))
            &&& m.shadow is None ==> after.shadow is None
            &&& m.shadow matches Some(shadow) ==> after.shadow == Some(
                shadow.push(TermOp::Process(bytes)),
            )
        }),
{
    reveal(MirrorView::processed);
    m.lemma_after_slices_frame(bytes);
}

/// A resize of the host while nobody views brings the model to the new size;
/// where that cuts no wide character in two, by resizing it as it is.
pub proof fn host_resizes_reach_the_model(m: MirrorView, rows: u16, cols: u16)
    requires
        m.view is None,
    ensures
        ({
            let (model_rows, model_cols) = laid_out(rows, cols);
            let kept = m.harvested(false, 0);
            let after = m.resized(rows, cols);
            let cuts = |screen: Seq<RowView>|
                exists|i: int|
                    0 <= i < screen.len() && model_cols < (#[trigger] screen[i]).cells.len()
                        && screen[i].cells[model_cols as int].continuation;
            &&& after.host_rows == rows
            &&& after.host_cols == cols
            &&& after.view is None
            &&& model_cols >= log_size(kept.log).1 || !(cuts(vt_screen(kept.log)) || cuts(
                vt_hidden(kept.log),
            )) ==> after.log == kept.log.push(
                TermOp::SetSize { rows: model_rows, cols: model_cols },
            ) && after.history == kept.history
        }),
{
    reveal(MirrorView::resized);
}

/// A slice of output is fed to the model, its bells are added to those not told
/// yet, and a title in it is the one to tell.
pub proof fn slices_are_fed(m: MirrorView, slice: Seq<u8>)
    ensures
        ({
            let after = m.after_slice(slice);
            let bells = m.bells + vt_bells(m.log, slice);
            &&& after.log == m.log.push(TermOp::Process(slice))
            &&& after.bells == (if bells > usize::MAX {
                usize::MAX as nat
            } else {
                bells
            })
            &&& after.new_title == (match vt_title(m.log, slice) {
                Some(title) => Some(lossy_text(title)),
                None => m.new_title,
            })
            &&& after.view == m.view
            &&& after.shadow == m.shadow
            &&& after.title == m.title
        }),
{
    reveal(MirrorView::after_slice);
}

/// A resize of the host while somebody views changes its size alone: the view
/// is drawn below whatever was pushed up, and nothing has been written above it
/// yet.
pub proof fn host_resizes_spare_the_view(m: MirrorView, rows: u16, cols: u16)
    requires
        m.view is Some,
    ensures
        m.resized(rows, cols) == (MirrorView {
            host_rows: rows,
            host_cols: cols,
            zone_dirty: false,
            ..m
        }),
{
    reveal(MirrorView::resized);
}

/// Whether a row has a wide character that a cut before column `cols` would
/// part.
pub open spec fn parted(screen: Seq<RowView>, cols: u16) -> bool {
    exists|i: int|
        0 <= i < screen.len() && cols < (#[trigger] screen[i]).cells.len()
            && screen[i].cells[cols as int].continuation
}

/// A resize that parts a wide character rebuilds the model at its new size out
/// of what is left of the screen, once that has its new height. Where the
/// alternate screen is shown, the primary screen is redrawn before it, and what
/// had scrolled off there is archived.
pub proof fn parting_resizes_rebuild_the_model(m: MirrorView, rows: u16, cols: u16)
    requires
        m.view is None,
        ({
            let kept = m.harvested(false, 0);
            let (_, model_cols) = laid_out(rows, cols);
            model_cols < log_size(kept.log).1 && (parted(vt_screen(kept.log), model_cols)
                || parted(vt_hidden(kept.log), model_cols))
        }),
    ensures
        ({
            let kept = m.harvested(false, 0);
            let (model_rows, model_cols) = laid_out(rows, cols);
            let after = m.resized(rows, cols);
            let sized = kept.log.push(
                TermOp::SetSize { rows: model_rows, cols: log_size(kept.log).1 },
            );
            let blank = fresh_log(model_rows, model_cols, STAGE_SCROLLBACK as nat);
            let redraw = |log: TermLog| TermOp::Process(left_bytes(log, model_cols));
            &&& after.host_rows == rows
            &&& after.host_cols == cols
            &&& after.view is None
            &&& after.title == m.title
            &&& after.staged_seen == 0
            &&& !vt_alternate(sized) ==> {
                &&& after.log == blank.push(redraw(sized))
                &&& after.history == kept.history
                &&& vt_bells(blank, left_bytes(sized, model_cols)) == 0 ==> after.bells == 0
            }
            &&& vt_alternate(sized) ==> {
                let primary = sized.push(TermOp::Process(encode_utf8("\x1b[?47l"@)));
                &&& after.log == blank.push(redraw(primary)).push(
                    TermOp::Process(encode_utf8("\x1b[?1049h"@)),
                ).push(redraw(sized))
                &&& !vt_alternate(primary) ==> after.history == kept.history.push_all(
                    staged_records(
                        primary,
                        if vt_staged(primary).len() > kept.staged_seen {
                            vt_staged(primary).len() - kept.staged_seen
                        } else {
                            0
                        },
                    ),
                )
            }
        }),
{
    reveal(MirrorView::resized);
    let kept = m.harvested(false, 0);
    let (_, model_cols) = laid_out(rows, cols);
    assert(parts_wide(vt_screen(kept.log), model_cols) == parted(vt_screen(kept.log), model_cols));
    assert(parts_wide(vt_hidden(kept.log), model_cols) == parted(vt_hidden(kept.log), model_cols));
}

} // verus!
