//! Input bytes waiting on a client-requested pause.

use crate::protocol::InputDelay;
use crate::text::push_bytes;
use std::collections::VecDeque;
use vstd::prelude::*;
use vstd::string::*;

verus! {

/// Caps on client-requested input delays: each pause is clamped to this many
/// milliseconds, and a single `input` message may carry at most this many
/// delay entries.
pub const MAX_INPUT_DELAY_MS: u64 = 1000;

pub const MAX_INPUT_DELAYS: usize = 32;

/// Nanoseconds in a millisecond.
pub const NANOS_PER_MS: u64 = 1_000_000;

/// A queued chunk: the pause before it is written, in nanoseconds, and its
/// bytes.
pub ghost struct ChunkView {
    pub pause: nat,
    pub bytes: Seq<u8>,
}

/// A queue of chunks, and when the pause of its head ends, if it is running.
pub ghost struct QueueView {
    pub chunks: Seq<ChunkView>,
    pub due: Option<nat>,
}

/// A pause that a client asked for, capped, in nanoseconds.
pub open spec fn pause_of(ms: u64) -> nat {
    (if ms <= MAX_INPUT_DELAY_MS {
        ms as nat
    } else {
        MAX_INPUT_DELAY_MS as nat
    }) * NANOS_PER_MS as nat
}

/// Whether delay offsets are non-decreasing and within `len` bytes.
pub open spec fn delays_fit(delays: Seq<InputDelay>, len: nat) -> bool {
    &&& forall|i: int| 0 <= i < delays.len() ==> (#[trigger] delays[i]).at <= len
    &&& forall|i: int, j: int| 0 <= i < j < delays.len() ==> (#[trigger] delays[i]).at <= (
    #[trigger] delays[j]).at
}

/// Where the chunk before delay `i` starts: at the offset of the delay before.
pub open spec fn cut(delays: Seq<InputDelay>, i: int) -> int {
    if i == 0 {
        0
    } else {
        delays[i - 1].at as int
    }
}

/// The pause before the chunk that starts at cut `i`.
pub open spec fn pause_at(delays: Seq<InputDelay>, i: int) -> nat {
    if i == 0 {
        0
    } else {
        pause_of(delays[i - 1].ms)
    }
}

/// `bytes` split at the delay offsets: a chunk up to each offset, written
/// after the pause of the offset before it, and the rest after the last.
pub open spec fn split_at_delays(bytes: Seq<u8>, delays: Seq<InputDelay>) -> Seq<ChunkView> {
    Seq::new(
        delays.len() + 1,
        |i: int|
            ChunkView {
                pause: pause_at(delays, i),
                bytes: bytes.subrange(
                    cut(delays, i),
                    if i < delays.len() {
                        delays[i].at as int
                    } else {
                        bytes.len() as int
                    },
                ),
            },
    )
}

/// All the bytes of a list of chunks, in order.
pub open spec fn joined_bytes(chunks: Seq<ChunkView>) -> Seq<u8>
    decreases chunks.len(),
{
    if chunks.len() == 0 {
        Seq::empty()
    } else {
        chunks[0].bytes + joined_bytes(chunks.skip(1))
    }
}

impl QueueView {
    /// No pause is longer than the cap.
    pub open spec fn wf(self) -> bool {
        forall|i: int|
            0 <= i < self.chunks.len() ==> (#[trigger] self.chunks[i]).pause <= pause_of(
                MAX_INPUT_DELAY_MS,
            )
    }

    /// When the head's pause ends: when it was set to end, or after its whole
    /// length from now on.
    pub open spec fn head_due(self, now: nat) -> nat {
        match self.due {
            Some(due) => due,
            None => now + self.chunks[0].pause,
        }
    }

    /// The queue after it was asked for the next chunk, and that chunk if its
    /// pause has elapsed. Otherwise the head's pause is running from then on.
    pub open spec fn next(self, now: nat) -> (QueueView, Option<Seq<u8>>) {
        if self.chunks.len() == 0 {
            (self, None)
        } else if self.head_due(now) > now {
            (QueueView { due: Some(self.head_due(now)), ..self }, None)
        } else {
            (QueueView { chunks: self.chunks.skip(1), due: None }, Some(self.chunks[0].bytes))
        }
    }
}

/// Input bytes waiting on a client-requested pause (the `input` message's
/// `delays` field). Chunks are written to the pty from the main loop when
/// their pause elapses, so a pause never stalls output mirroring; while the
/// queue is non-empty all further input is appended behind it, keeping
/// bytes in the order the client sent them.
pub struct InputQueue {
    /// (pause before writing, bytes to write).
    queue: VecDeque<(u64, Vec<u8>)>,
    /// When the head chunk may be written; set when its pause is started, so
    /// it is `Some` whenever a pause is actually running.
    due: Option<u64>,
}

/// The view of a queued pair.
pub open spec fn chunk_view(chunk: (u64, Vec<u8>)) -> ChunkView {
    ChunkView { pause: chunk.0 as nat, bytes: chunk.1@ }
}

impl View for InputQueue {
    type V = QueueView;

    closed spec fn view(&self) -> QueueView {
        QueueView {
            chunks: self.queue@.map_values(|c: (u64, Vec<u8>)| chunk_view(c)),
            due: match self.due {
                Some(due) => Some(due as nat),
                None => None,
            },
        }
    }
}

fn copy_range(bytes: &Vec<u8>, from: usize, to: usize) -> (r: Vec<u8>)
    requires
        from <= to <= bytes@.len(),
    ensures
        r@ == bytes@.subrange(from as int, to as int),
{
    let mut out: Vec<u8> = Vec::new();
    push_bytes(&mut out, vstd::slice::slice_subrange(bytes.as_slice(), from, to));
    assert(out@ =~= bytes@.subrange(from as int, to as int));
    out
}

/// Whether delay offsets are non-decreasing and within `len` bytes.
pub fn check_delays(delays: &Vec<InputDelay>, len: usize) -> (r: bool)
    ensures
        r == delays_fit(delays@, len as nat),
{
    let mut prev: u64 = 0;
    let mut i: usize = 0;
    while i < delays.len()
        invariant
            i <= delays@.len(),
            forall|k: int| 0 <= k < i ==> (#[trigger] delays@[k]).at <= len,
            forall|k: int| 0 <= k < i ==> (#[trigger] delays@[k]).at <= prev,
            i > 0 ==> prev == delays@[i - 1].at,
            i == 0 ==> prev == 0,
            forall|k: int, j: int|
                0 <= k < j < i ==> (#[trigger] delays@[k]).at <= (#[trigger] delays@[j]).at,
        decreases delays@.len() - i,
    {
        let at: u64 = delays[i].at;
        if !(at >= prev && at <= len as u64) {
            return false;
        }
        prev = at;
        i += 1;
    }
    true
}

impl InputQueue {
    pub fn new() -> (r: Self)
        ensures
            r@.chunks.len() == 0,
            r@.due is None,
            r@.wf(),
    {
        InputQueue { queue: VecDeque::new(), due: None }
    }

    fn append(&mut self, pause: u64, bytes: Vec<u8>)
        ensures
            final(self)@ == (QueueView {
                chunks: old(self)@.chunks.push(ChunkView { pause: pause as nat, bytes: bytes@ }),
                ..old(self)@
            }),
    {
        self.queue.push_back((pause, bytes));
        assert(self.queue@ =~= old(self).queue@.push((pause, bytes)));
        assert(self@.chunks =~= old(self)@.chunks.push(
            ChunkView { pause: pause as nat, bytes: bytes@ },
        ));
    }

    /// Split `bytes` at the delay offsets and append the chunks.
    pub fn push(&mut self, bytes: Vec<u8>, delays: &Vec<InputDelay>)
        requires
            old(self)@.wf(),
            delays_fit(delays@, bytes@.len()),
        ensures
            final(self)@.wf(),
            final(self)@ == (QueueView {
                chunks: old(self)@.chunks + split_at_delays(bytes@, delays@),
                ..old(self)@
            }),
    {
        let ghost before = self@.chunks;
        let ghost added = split_at_delays(bytes@, delays@);
        let len: usize = bytes.len();
        let mut prev: usize = 0;
        let mut pause: u64 = 0;
        let mut i: usize = 0;
        assert(before + added.take(0) =~= before);
        while i < delays.len()
            invariant
                i <= delays@.len(),
                len == bytes@.len(),
                delays_fit(delays@, bytes@.len()),
                added == split_at_delays(bytes@, delays@),
                prev == cut(delays@, i as int),
                prev <= bytes@.len(),
                i < delays@.len() ==> prev <= delays@[i as int].at,
                pause == pause_at(delays@, i as int),
                pause <= pause_of(MAX_INPUT_DELAY_MS),
                self.due == old(self).due,
                self@.wf(),
                self@.chunks == before + added.take(i as int),
            decreases delays@.len() - i,
        {
            let d = delays[i];
            assert(delays@[i as int].at <= bytes@.len());
            let at: usize = d.at as usize;
            let chunk = copy_range(&bytes, prev, at);
            self.append(pause, chunk);
            let ms: u64 = if d.ms <= MAX_INPUT_DELAY_MS {
                d.ms
            } else {
                MAX_INPUT_DELAY_MS
            };
            pause = ms * NANOS_PER_MS;
            prev = at;
            proof {
                assert(self@.chunks =~= before + added.take(i + 1));
                if i + 1 < delays@.len() {
                    assert(delays@[i as int].at <= delays@[i + 1].at);
                }
            }
            i += 1;
        }
        let chunk = copy_range(&bytes, prev, len);
        self.append(pause, chunk);
        assert(self@.chunks =~= before + added);
    }

    /// When the pause of the head chunk ends, if one is running.
    pub fn deadline(&self) -> (r: Option<u64>)
        ensures
            match self@.due {
                Some(due) => r == Some(due as u64),
                None => r is None,
            },
    {
        self.due
    }

    /// The next chunk, if its pause has elapsed at `now`; otherwise its pause
    /// is started, unless it is running, and its end recorded.
    pub fn next_chunk(&mut self, now: u64) -> (r: Option<Vec<u8>>)
        requires
            old(self)@.wf(),
            now + pause_of(MAX_INPUT_DELAY_MS) <= u64::MAX,
        ensures
            final(self)@.wf(),
            final(self)@ == old(self)@.next(now as nat).0,
            match old(self)@.next(now as nat).1 {
                Some(bytes) => r matches Some(b) && b@ == bytes,
                None => r is None,
            },
    {
        if self.queue.len() == 0 {
            return None;
        }
        assert(self@.chunks[0] == chunk_view(self.queue@[0]));
        let due: u64 = match self.due {
            Some(due) => due,
            None => now + self.queue[0].0,
        };
        if due > now {
            self.due = Some(due);
            return None;
        }
        self.due = None;
        match self.queue.pop_front() {
            Some((_pause, bytes)) => {
                assert(self@.chunks =~= old(self)@.chunks.skip(1));
                Some(bytes)
            },
            None => None,
        }
    }
}

proof fn joined_bytes_concat(a: Seq<ChunkView>, b: Seq<ChunkView>)
    ensures
        joined_bytes(a + b) == joined_bytes(a) + joined_bytes(b),
    decreases a.len(),
{
    if a.len() == 0 {
        assert(a + b =~= b);
        assert(joined_bytes(a) + joined_bytes(b) =~= joined_bytes(b));
    } else {
        joined_bytes_concat(a.skip(1), b);
        assert((a + b).skip(1) =~= a.skip(1) + b);
        assert((a[0].bytes + joined_bytes(a.skip(1))) + joined_bytes(b) =~= a[0].bytes + (
        joined_bytes(a.skip(1)) + joined_bytes(b)));
    }
}

proof fn split_rejoins_from(bytes: Seq<u8>, delays: Seq<InputDelay>, i: int)
    requires
        delays_fit(delays, bytes.len()),
        0 <= i <= delays.len(),
    ensures
        joined_bytes(split_at_delays(bytes, delays).skip(i)) == bytes.skip(cut(delays, i)),
    decreases delays.len() - i,
{
    let chunks = split_at_delays(bytes, delays);
    let rest = chunks.skip(i);
    assert(rest[0] == chunks[i]);
    assert(rest.skip(1) =~= chunks.skip(i + 1));
    if i == delays.len() {
        assert(rest.skip(1).len() == 0);
        assert(joined_bytes(rest.skip(1)) =~= Seq::<u8>::empty());
        assert(rest[0].bytes + Seq::<u8>::empty() =~= bytes.skip(cut(delays, i)));
    } else {
        split_rejoins_from(bytes, delays, i + 1);
        if i > 0 {
            assert(delays[i - 1].at <= delays[i].at);
        }
        assert(delays[i].at <= bytes.len());
        assert(bytes.subrange(cut(delays, i), delays[i].at as int) + bytes.skip(
            delays[i].at as int,
        ) =~= bytes.skip(cut(delays, i)));
    }
}

/// Input is delivered in the order it was sent, no byte lost or doubled:
/// queueing appends exactly the message's bytes to what is pending, and each
/// chunk that comes out is what was pending first.
pub proof fn input_keeps_order(q: QueueView, bytes: Seq<u8>, delays: Seq<InputDelay>, now: nat)
    requires
        delays_fit(delays, bytes.len()),
    ensures
        joined_bytes(q.chunks + split_at_delays(bytes, delays)) == joined_bytes(q.chunks) + bytes,
        match q.next(now).1 {
            Some(chunk) => joined_bytes(q.chunks) == chunk + joined_bytes(q.next(now).0.chunks),
            None => q.next(now).0.chunks == q.chunks,
        },
{
    let added = split_at_delays(bytes, delays);
    joined_bytes_concat(q.chunks, added);
    split_rejoins_from(bytes, delays, 0);
    assert(added.skip(0) =~= added);
    assert(bytes.skip(0) =~= bytes);
}

/// Without delays, input is written at once when nothing is pending before it.
pub proof fn undelayed_input_is_immediate(bytes: Seq<u8>, now: nat)
    ensures
        (QueueView { chunks: split_at_delays(bytes, Seq::empty()), due: None }).next(now).1 == Some(
            bytes,
        ),
{
    let chunks = split_at_delays(bytes, Seq::empty());
    assert(chunks[0].bytes =~= bytes);
}

/// A pause that was asked for passes before the bytes after it are written:
/// asked at any time before it has elapsed, the queue keeps them back.
pub proof fn pauses_are_kept(q: QueueView, started: nat, now: nat)
    requires
        q.chunks.len() > 0,
        q.due is None,
        q.chunks[0].pause > 0,
        started <= now < started + q.chunks[0].pause,
    ensures
        q.next(started).1 is None,
        q.next(started).0.next(now) == (q.next(started).0, None::<Seq<u8>>),
{
}

/// A delay takes effect at its place: the bytes before it come out without it,
/// and those from its offset on, up to the next delay, after a pause of as many
/// milliseconds as it asks for, or of a second where it asks for more.
pub proof fn delays_take_effect_in_place(bytes: Seq<u8>, delays: Seq<InputDelay>, i: int)
    requires
        delays_fit(delays, bytes.len()),
        0 <= i < delays.len(),
    ensures
        ({
            let chunks = split_at_delays(bytes, delays);
            let ms: int = if delays[i].ms > 1000 {
                1000
            } else {
                delays[i].ms as int
            };
            &&& chunks.len() == delays.len() + 1
            &&& chunks[0].pause == 0
            &&& chunks[i + 1].pause == ms * 1_000_000
            &&& joined_bytes(chunks.take(i + 1)) == bytes.take(delays[i].at as int)
            &&& joined_bytes(chunks.skip(i + 1)) == bytes.skip(delays[i].at as int)
        }),
{
    let chunks = split_at_delays(bytes, delays);
    let at = delays[i].at as int;
    split_rejoins_from(bytes, delays, 0);
    split_rejoins_from(bytes, delays, i + 1);
    assert(chunks.skip(0) =~= chunks);
    assert(bytes.skip(0) =~= bytes);
    assert(chunks.take(i + 1) + chunks.skip(i + 1) =~= chunks);
    joined_bytes_concat(chunks.take(i + 1), chunks.skip(i + 1));
    let before = joined_bytes(chunks.take(i + 1));
    assert(before + bytes.skip(at) == bytes);
    assert(before =~= bytes.take(at)) by {
        assert((before + bytes.skip(at)).len() == bytes.len());
        assert forall|k: int| 0 <= k < at implies before[k] == bytes[k] by {
            assert((before + bytes.skip(at))[k] == before[k]);
        }
    }
}

/// Once its pause has passed, what was held back is written, and the pause of
/// what is behind it has not begun.
pub proof fn pauses_end(q: QueueView, started: nat, now: nat)
    requires
        q.chunks.len() > 0,
        q.due is None,
        started + q.chunks[0].pause <= now,
    ensures
        ({
            let waited = if q.chunks[0].pause == 0 {
                q.next(started)
            } else {
                q.next(started).0.next(now)
            };
            &&& waited.1 == Some(q.chunks[0].bytes)
            &&& waited.0.chunks == q.chunks.skip(1)
            &&& waited.0.due is None
        }),
{
}

} // verus!
