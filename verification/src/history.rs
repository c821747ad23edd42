//! The scrollback history archive: an append-only sequence of lines with
//! stable monotonic indices, retained up to a line cap. Each record is a
//! self-contained styled line: printable text plus SGR sequences only,
//! starting from default attributes, annotated with the width it was laid
//! out at and whether it soft-wraps onto the next record.

use std::collections::VecDeque;
use vstd::prelude::*;

verus! {

pub const DEFAULT_MAX_LINES: usize = 10_000;

/// Cap on one line's stored bytes. A line is at most a terminal width of
/// glyphs, but styling and multi-byte characters make the byte count
/// technically unbounded, so cap it during capture.
pub const MAX_LINE_BYTES: usize = 65_536;

/// Byte budget (pre-base64) for one history reply, so a fetch can't blow up
/// a websocket frame. At least one line is always returned if available.
pub const REPLY_BYTE_BUDGET: usize = 196_608;

/// Lines per fetch when the client doesn't say.
pub const DEFAULT_FETCH_LIMIT: u32 = 500;

pub struct HistoryRecord {
    /// SGR-styled text, self-contained (starts from default attributes).
    pub bytes: Vec<u8>,
    /// Width (columns) the line was laid out at.
    pub width: u16,
    /// True if the line soft-wraps: it and the next record form one logical
    /// line, so a client may re-wrap them at its own width.
    pub wrapped: bool,
}

/// A record as a mathematical value.
pub ghost struct RecordView {
    pub bytes: Seq<u8>,
    pub width: u16,
    pub wrapped: bool,
}

impl View for HistoryRecord {
    type V = RecordView;

    open spec fn view(&self) -> RecordView {
        RecordView { bytes: self.bytes@, width: self.width, wrapped: self.wrapped }
    }
}

/// The archive as a mathematical value: the retained lines, oldest first, the
/// index the next line gets, and the cap.
pub ghost struct HistoryView {
    pub lines: Seq<RecordView>,
    pub next: nat,
    pub max_lines: nat,
}

/// The last `count` elements of `lines`, or all of them where there are fewer.
pub open spec fn last_of(lines: Seq<RecordView>, count: nat) -> Seq<RecordView> {
    if lines.len() <= count {
        lines
    } else {
        lines.subrange(lines.len() - count, lines.len() as int)
    }
}

impl HistoryView {
    /// Index of the oldest retained line.
    pub open spec fn oldest(self) -> int {
        self.next - self.lines.len()
    }

    /// No more lines are retained than were ever appended, nor than the cap.
    pub open spec fn wf(self) -> bool {
        &&& self.lines.len() <= self.next <= u64::MAX
        &&& self.lines.len() <= self.max_lines
    }

    /// The archive after one more line.
    pub open spec fn push(self, record: RecordView) -> HistoryView {
        HistoryView {
            lines: last_of(self.lines.push(record), self.max_lines),
            next: self.next + 1,
            max_lines: self.max_lines,
        }
    }

    /// The archive after its cap was changed.
    pub open spec fn limited(self, max_lines: nat) -> HistoryView {
        HistoryView { lines: last_of(self.lines, max_lines), max_lines, ..self }
    }

    /// The archive after several more lines.
    pub open spec fn push_all(self, records: Seq<RecordView>) -> HistoryView {
        HistoryView {
            lines: last_of(self.lines + records, self.max_lines),
            next: self.next + records.len(),
            max_lines: self.max_lines,
        }
    }

    /// The retained line with the given index.
    pub open spec fn line(self, index: int) -> RecordView {
        self.lines[index - self.oldest()]
    }

    /// Where a page that ends before `before` ends, among the retained lines.
    pub open spec fn page_end(self, before: u64) -> nat {
        if before >= self.next {
            self.lines.len()
        } else if before <= self.oldest() {
            0
        } else {
            (before - self.oldest()) as nat
        }
    }
}

/// How many bytes the lines from `from` up to `to` hold.
pub open spec fn byte_total(lines: Seq<RecordView>, from: int, to: int) -> nat
    decreases to - from,
{
    if from >= to {
        0
    } else {
        lines[from].bytes.len() + byte_total(lines, from + 1, to)
    }
}

/// Whether the lines from `start` up to `end` make an acceptable page: not
/// more than `limit` lines, and each line but the newest fits in what the
/// newer ones leave of the byte budget.
pub open spec fn page_fits(lines: Seq<RecordView>, start: int, end: int, limit: u32) -> bool {
    &&& end - start <= limit
    &&& forall|i: int|
        start <= i < end - 1 ==> (#[trigger] lines[i]).bytes.len() <= budget_left(lines, i + 1, end)
}

/// What the lines from `from` up to `to` leave of the byte budget.
pub open spec fn budget_left(lines: Seq<RecordView>, from: int, to: int) -> nat {
    let used = byte_total(lines, from, to);
    if used <= REPLY_BYTE_BUDGET {
        (REPLY_BYTE_BUDGET - used) as nat
    } else {
        0
    }
}

/// The smallest start, at or below `from`, of an acceptable page that ends at
/// `end`.
pub open spec fn page_start_from(lines: Seq<RecordView>, from: nat, end: nat, limit: u32) -> nat
    decreases from,
{
    if from > 0 && page_fits(lines, from - 1, end as int, limit) {
        page_start_from(lines, (from - 1) as nat, end, limit)
    } else {
        from
    }
}

/// Where the longest acceptable page that ends at `end` starts.
pub open spec fn page_start(lines: Seq<RecordView>, end: nat, limit: u32) -> nat {
    page_start_from(lines, end, end, limit)
}

/// The records behind a list of references.
pub open spec fn record_views(records: Seq<&HistoryRecord>) -> Seq<RecordView> {
    records.map_values(|r: &HistoryRecord| r@)
}

/// An archive that nothing was appended to.
pub open spec fn new_history(max_lines: nat) -> HistoryView {
    HistoryView { lines: Seq::empty(), next: 0, max_lines }
}

pub struct History {
    lines: VecDeque<HistoryRecord>,
    /// Index that the next appended line will get.
    next: u64,
    max_lines: usize,
}

impl View for History {
    type V = HistoryView;

    closed spec fn view(&self) -> HistoryView {
        HistoryView {
            lines: self.lines@.map_values(|r: HistoryRecord| r@),
            next: self.next as nat,
            max_lines: self.max_lines as nat,
        }
    }
}

impl History {
    pub fn new(max_lines: usize) -> (r: Self)
        ensures
            r@ == new_history(max_lines as nat),
            r@.wf(),
    {
        let r = History { lines: VecDeque::new(), next: 0, max_lines };
        assert(r@.lines =~= Seq::<RecordView>::empty());
        r
    }

    /// The retained lines are countable by the machine.
    pub proof fn lemma_len(&self)
        requires
            self@.wf(),
        ensures
            self@.lines.len() <= usize::MAX,
    {
    }

    /// Drops the oldest lines over the cap.
    fn evict(&mut self)
        requires
            old(self)@.lines.len() <= old(self)@.next,
        ensures
            final(self)@.lines == last_of(old(self)@.lines, old(self)@.max_lines),
            final(self)@.next == old(self)@.next,
            final(self)@.max_lines == old(self)@.max_lines,
            final(self)@.wf(),
    {
        while self.lines.len() > self.max_lines
            invariant
                self@.next == old(self)@.next,
                self@.max_lines == old(self)@.max_lines,
                self@.lines.len() <= old(self)@.lines.len() <= old(self)@.next,
                self@.lines == old(self)@.lines.subrange(
                    old(self)@.lines.len() - self@.lines.len(),
                    old(self)@.lines.len() as int,
                ),
                self@.lines.len() == old(self)@.lines.len() || self@.lines.len()
                    >= self@.max_lines,
            decreases self.lines.len(),
        {
            let ghost before = self@.lines;
            let _ = self.lines.pop_front();
            proof {
                assert(self@.lines =~= before.subrange(1, before.len() as int));
                assert(self@.lines =~= old(self)@.lines.subrange(
                    old(self)@.lines.len() - self@.lines.len(),
                    old(self)@.lines.len() as int,
                ));
            }
        }
        assert(self@.lines =~= last_of(old(self)@.lines, old(self)@.max_lines));
    }

    pub fn set_max_lines(&mut self, max_lines: usize)
        requires
            old(self)@.wf(),
        ensures
            final(self)@ == old(self)@.limited(max_lines as nat),
            final(self)@.wf(),
    {
        self.max_lines = max_lines;
        assert(self@.lines =~= old(self)@.lines);
        self.evict();
    }

    pub fn push(&mut self, record: HistoryRecord)
        requires
            old(self)@.wf(),
            old(self)@.next < u64::MAX,
        ensures
            final(self)@ == old(self)@.push(record@),
            final(self)@.wf(),
    {
        self.lines.push_back(record);
        self.next += 1;
        assert(self@.lines =~= old(self)@.lines.push(record@));
        self.evict();
    }

    /// Index one past the newest line (the next line to be appended).
    pub fn next_index(&self) -> (r: u64)
        ensures
            r == self@.next,
    {
        self.next
    }

    /// Index of the oldest line still retained.
    pub fn oldest(&self) -> (r: u64)
        requires
            self@.wf(),
        ensures
            r == self@.oldest(),
    {
        self.next - self.lines.len() as u64
    }

    /// The newest `count` retained lines, oldest first, with no byte budget
    /// (used for host-side scroll mirroring, where truncation would lose
    /// lines from the host terminal's scrollback).
    pub fn tail(&self, count: usize) -> (r: Vec<&HistoryRecord>)
        ensures
            record_views(r@) == last_of(self@.lines, count as nat),
    {
        let len: usize = self.lines.len();
        let from: usize = if count < len {
            len - count
        } else {
            0
        };
        let mut out: Vec<&HistoryRecord> = Vec::new();
        let mut i: usize = from;
        while i < len
            invariant
                from <= i <= len,
                len == self.lines@.len(),
                out@.len() == i - from,
                forall|k: int| 0 <= k < out@.len() ==> *#[trigger] out@[k] == self.lines@[from + k],
            decreases len - i,
        {
            out.push(&self.lines[i]);
            i += 1;
        }
        assert(record_views(out@) =~= last_of(self@.lines, count as nat));
        out
    }

    /// Lines ending just before `before`, newest-bounded by `limit` and the
    /// reply byte budget, in oldest-to-newest order. Returns the index of
    /// the first returned line.
    pub fn fetch(&self, before: u64, limit: u32) -> (r: (u64, Vec<&HistoryRecord>))
        requires
            self@.wf(),
        ensures
            r.0 == self@.oldest() + page_start(self@.lines, self@.page_end(before), limit),
            record_views(r.1@) == self@.lines.subrange(
                page_start(self@.lines, self@.page_end(before), limit) as int,
                self@.page_end(before) as int,
            ),
    {
        let oldest: u64 = self.oldest();
        let end: usize = if before >= self.next {
            self.lines.len()
        } else if before <= oldest {
            0
        } else {
            (before - oldest) as usize
        };
        let ghost lines = self@.lines;
        let mut newest_first: Vec<&HistoryRecord> = Vec::new();
        let mut budget: usize = REPLY_BYTE_BUDGET;
        let mut start: usize = end;
        proof {
            assert(page_start(lines, end as nat, limit) == page_start_from(
                lines,
                start as nat,
                end as nat,
                limit,
            ));
        }
        while start > 0 && (newest_first.len() as u32) < limit
            invariant_except_break
                page_fits(lines, start as int, end as int, limit),
            invariant
                start <= end == self@.page_end(before) <= lines.len(),
                lines == self@.lines,
                lines.len() == self.lines@.len(),
                newest_first@.len() == end - start <= limit,
                budget == budget_left(lines, start as int, end as int),
                forall|k: int|
                    0 <= k < newest_first@.len() ==> *#[trigger] newest_first@[k]
                        == self.lines@[end - 1 - k],
                page_start(lines, end as nat, limit) == page_start_from(
                    lines,
                    start as nat,
                    end as nat,
                    limit,
                ),
            ensures
                start == page_start(lines, end as nat, limit),
            decreases start,
        {
            let record: &HistoryRecord = &self.lines[start - 1];
            assert(record@ == lines[start - 1]);
            if newest_first.len() > 0 && record.bytes.len() > budget {
                assert(!page_fits(lines, start - 1, end as int, limit)) by {
                    assert(lines[start - 1].bytes.len() > budget_left(lines, start as int, end as int));
                }
                break;
            }
            assert(page_fits(lines, start - 1, end as int, limit)) by {
                assert forall|i: int| start - 1 <= i < end - 1 implies (
                #[trigger] lines[i]).bytes.len() <= budget_left(lines, i + 1, end as int) by {
                    if i == start - 1 {
                    }
                }
            }
            budget = if record.bytes.len() <= budget {
                budget - record.bytes.len()
            } else {
                0
            };
            newest_first.push(record);
            start -= 1;
        }
        let mut out: Vec<&HistoryRecord> = Vec::new();
        let mut k: usize = newest_first.len();
        while k > 0
            invariant
                k <= newest_first@.len() == end - start,
                end <= self.lines@.len(),
                out@.len() == newest_first@.len() - k,
                forall|j: int|
                    0 <= j < newest_first@.len() ==> *#[trigger] newest_first@[j]
                        == self.lines@[end - 1 - j],
                forall|j: int| 0 <= j < out@.len() ==> *#[trigger] out@[j] == self.lines@[start + j],
            decreases k,
        {
            k -= 1;
            out.push(newest_first[k]);
        }
        assert(record_views(out@) =~= lines.subrange(start as int, end as int));
        (oldest + start as u64, out)
    }
}

/// Appending lines one by one is appending them all.
pub proof fn push_all_step(h: HistoryView, records: Seq<RecordView>, record: RecordView)
    ensures
        h.push_all(records).push(record) == h.push_all(records.push(record)),
{
    let all = h.lines + records;
    assert(all.push(record) =~= h.lines + records.push(record));
    assert(h.push_all(records).push(record).lines =~= h.push_all(records.push(record)).lines);
}

/// Appending two batches is appending the one after the other.
pub proof fn push_all_concat(h: HistoryView, first: Seq<RecordView>, second: Seq<RecordView>)
    ensures
        h.push_all(first).push_all(second) == h.push_all(first + second),
{
    assert(h.lines + (first + second) =~= (h.lines + first) + second);
    assert(h.push_all(first).push_all(second).lines =~= h.push_all(first + second).lines);
}

/// A line keeps its index for as long as it is retained, whatever is appended
/// after it.
pub proof fn indices_are_stable(h: HistoryView, records: Seq<RecordView>, index: int)
    requires
        h.wf(),
        h.oldest() <= index < h.next,
        h.push_all(records).oldest() <= index,
    ensures
        h.push_all(records).line(index) == h.line(index),
{
}

/// A page is never empty while there are lines before its end and at least one
/// line is asked for, and never holds more lines than were asked for.
pub proof fn page_progress(lines: Seq<RecordView>, end: nat, limit: u32)
    requires
        0 < end <= lines.len(),
        limit > 0,
    ensures
        page_start(lines, end, limit) < end,
        end - page_start(lines, end, limit) <= limit,
{
    assert(page_fits(lines, end - 1, end as int, limit));
    page_start_bounds(lines, (end - 1) as nat, end, limit);
}

proof fn page_start_bounds(lines: Seq<RecordView>, from: nat, end: nat, limit: u32)
    requires
        from <= end,
        page_fits(lines, from as int, end as int, limit),
    ensures
        page_start_from(lines, from, end, limit) <= from,
        page_fits(lines, page_start_from(lines, from, end, limit) as int, end as int, limit),
    decreases from,
{
    if from > 0 && page_fits(lines, from - 1, end as int, limit) {
        page_start_bounds(lines, (from - 1) as nat, end, limit);
    }
}

/// A page holds no more bytes than the budget, unless its newest line alone
/// does; then it holds no bytes but that line's.
pub proof fn page_stays_in_budget(lines: Seq<RecordView>, end: nat, limit: u32)
    requires
        0 < end <= lines.len(),
        limit > 0,
    ensures
        ({
            let used = byte_total(lines, page_start(lines, end, limit) as int, end as int);
            used <= REPLY_BYTE_BUDGET || used == lines[end - 1].bytes.len()
        }),
{
    assert(page_fits(lines, end - 1, end as int, limit));
    page_start_bounds(lines, (end - 1) as nat, end, limit);
    assert(page_start(lines, end, limit) == page_start_from(lines, (end - 1) as nat, end, limit));
    fitting_pages_are_small(lines, page_start(lines, end, limit) as int, end as int, limit);
}

proof fn fitting_pages_are_small(lines: Seq<RecordView>, start: int, end: int, limit: u32)
    requires
        0 <= start < end <= lines.len(),
        page_fits(lines, start, end, limit),
    ensures
        byte_total(lines, start, end) <= REPLY_BYTE_BUDGET || byte_total(lines, start, end)
            == lines[end - 1].bytes.len(),
    decreases end - start,
{
    if start + 1 < end {
        assert(page_fits(lines, start + 1, end, limit));
        fitting_pages_are_small(lines, start + 1, end, limit);
        assert(lines[start].bytes.len() <= budget_left(lines, start + 1, end));
    } else {
        assert(byte_total(lines, end, end) == 0);
    }
}

/// All the pages before `end`, fetched backwards one after another, each
/// ending where the one before it starts, joined oldest first.
pub open spec fn pages_before(lines: Seq<RecordView>, end: nat, limit: u32) -> Seq<RecordView>
    decreases end,
{
    let start = page_start(lines, end, limit);
    if end == 0 || start >= end {
        Seq::empty()
    } else {
        pages_before(lines, start, limit) + lines.subrange(start as int, end as int)
    }
}

/// Paging backwards shows every retained line exactly once, in order.
pub proof fn paging_covers_everything(lines: Seq<RecordView>, end: nat, limit: u32)
    requires
        end <= lines.len(),
        limit > 0,
    ensures
        pages_before(lines, end, limit) == lines.take(end as int),
    decreases end,
{
    if end == 0 {
        assert(pages_before(lines, end, limit) =~= lines.take(0));
    } else {
        page_progress(lines, end, limit);
        let start = page_start(lines, end, limit);
        paging_covers_everything(lines, start, limit);
        assert(lines.take(start as int) + lines.subrange(start as int, end as int) =~= lines.take(
            end as int,
        ));
    }
}

/// What can happen to an archive.
pub ghost enum HistoryOp {
    /// A line is appended.
    Push(RecordView),
    /// The cap is changed.
    Limit(nat),
}

/// The archive after one thing happened to it.
pub open spec fn after_op(history: HistoryView, op: HistoryOp) -> HistoryView {
    match op {
        HistoryOp::Push(record) => history.push(record),
        HistoryOp::Limit(max_lines) => history.limited(max_lines),
    }
}

/// The archive that is created with a cap, after all that happened to it since.
pub open spec fn history_after(max_lines: nat, ops: Seq<HistoryOp>) -> HistoryView
    decreases ops.len(),
{
    if ops.len() == 0 {
        new_history(max_lines)
    } else {
        after_op(history_after(max_lines, ops.drop_last()), ops.last())
    }
}

/// How many lines were appended.
pub open spec fn pushes(ops: Seq<HistoryOp>) -> nat
    decreases ops.len(),
{
    if ops.len() == 0 {
        0
    } else {
        pushes(ops.drop_last()) + if ops.last() is Push {
            1nat
        } else {
            0
        }
    }
}

/// The cap last given.
pub open spec fn current_limit(max_lines: nat, ops: Seq<HistoryOp>) -> nat
    decreases ops.len(),
{
    if ops.len() == 0 {
        max_lines
    } else {
        match ops.last() {
            HistoryOp::Limit(n) => n,
            HistoryOp::Push(_) => current_limit(max_lines, ops.drop_last()),
        }
    }
}

/// Whatever happened to an archive: the next index is the number of lines ever
/// appended, the indices from the oldest up to it are those of the retained
/// lines, and there are no more of these than the cap last given.
pub proof fn indices_count_lines(max_lines: nat, ops: Seq<HistoryOp>)
    ensures
        ({
            let h = history_after(max_lines, ops);
            &&& 0 <= h.oldest() <= h.next
            &&& h.next - h.oldest() == h.lines.len()
            &&& h.lines.len() <= h.max_lines
            &&& h.max_lines == current_limit(max_lines, ops)
            &&& h.next == pushes(ops)
        }),
    decreases ops.len(),
{
    if ops.len() > 0 {
        indices_count_lines(max_lines, ops.drop_last());
    }
}

/// Neither the next index nor the oldest ever decreases, whatever happens to an
/// archive after its first `n` changes.
pub proof fn indices_never_decrease(max_lines: nat, ops: Seq<HistoryOp>, n: int)
    requires
        0 <= n <= ops.len(),
    ensures
        history_after(max_lines, ops.take(n)).next <= history_after(max_lines, ops).next,
        history_after(max_lines, ops.take(n)).oldest() <= history_after(max_lines, ops).oldest(),
    decreases ops.len() - n,
{
    if n < ops.len() {
        indices_never_decrease(max_lines, ops, n + 1);
        assert(ops.take(n + 1).drop_last() =~= ops.take(n));
        indices_count_lines(max_lines, ops.take(n));
    } else {
        assert(ops.take(n) =~= ops);
    }
}

} // verus!
