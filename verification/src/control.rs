//! The wrapper's session socket speaks newline-delimited JSON to its clients
//! (normally the server, relaying for devices). Here: how received bytes
//! become lines, how far a client has come, and how bells are paced.

use crate::text::lossy_string;
use crate::text::lossy_text;
use vstd::prelude::*;
use vstd::string::*;

verus! {

/// How long a send may block, in milliseconds, before we conclude the client
/// is stuck and drop it (a stalled client must not freeze the host terminal's
/// event loop).
pub const SEND_TIMEOUT_MS: u64 = 5_000;

#[derive(Debug, Clone, Copy, PartialEq, Eq, Structural)]
pub enum ClientState {
    AwaitingInit,
    Ready,
    Viewing,
}

/// The state of a bell debouncer. Times are nanoseconds on a monotonic clock.
pub ghost struct BellView {
    pub window: nat,
    /// When a bell was last reported.
    pub last_sent: Option<nat>,
    /// The held bell's timestamp.
    pub pending_at: Option<u64>,
}

impl BellView {
    /// Whether a bell at `now` falls into the window of the last report.
    pub open spec fn held_back(self, now: nat) -> bool {
        self.last_sent matches Some(sent) && now - sent < self.window && self.window > 0
    }

    /// The window after the last report ends at a representable time.
    pub open spec fn wf(self) -> bool {
        self.last_sent matches Some(sent) ==> sent + self.window <= u64::MAX
    }
}

/// Debounces bell notifications to at most one per window: the first bell
/// is reported immediately (leading edge); bells during the window are
/// coalesced into one report when the window expires (trailing edge), so
/// the latest bell timestamp is never lost.
pub struct BellDebouncer {
    window: u64,
    last_sent: Option<u64>,
    pending_at: Option<u64>,
}

impl View for BellDebouncer {
    type V = BellView;

    closed spec fn view(&self) -> BellView {
        BellView {
            window: self.window as nat,
            last_sent: match self.last_sent {
                Some(t) => Some(t as nat),
                None => None,
            },
            pending_at: self.pending_at,
        }
    }
}

impl BellDebouncer {
    pub fn new(window: u64) -> (r: Self)
        ensures
            r@ == new_bell(window as nat),
            r@.wf(),
    {
        BellDebouncer { window, last_sent: None, pending_at: None }
    }

    /// A bell rang at `at` (unix epoch ms). Returns `Some(at)` if it should
    /// be reported now; otherwise it is held for the trailing edge.
    pub fn on_bell(&mut self, now: u64, at: u64) -> (r: Option<u64>)
        requires
            old(self)@.wf(),
            now + old(self)@.window <= u64::MAX,
        ensures
            final(self)@.wf(),
            (final(self)@, r) == bell_step(old(self)@, BellEvent::Bell { now: now as nat, at }),
    {
        let inside = match self.last_sent {
            Some(sent) => {
                let elapsed: u64 = if now >= sent {
                    now - sent
                } else {
                    0
                };
                elapsed < self.window
            },
            None => false,
        };
        if inside {
            self.pending_at = Some(at);
            None
        } else {
            self.last_sent = Some(now);
            Some(at)
        }
    }

    /// When (on the monotonic clock) a held bell should be reported, if any.
    pub fn deadline(&self) -> (r: Option<u64>)
        requires
            self@.wf(),
        ensures
            match (self@.pending_at, self@.last_sent) {
                (Some(_), Some(sent)) => r == Some((sent + self@.window) as u64),
                _ => r is None,
            },
    {
        match (self.pending_at, self.last_sent) {
            (Some(_), Some(sent)) => Some(sent + self.window),
            _ => None,
        }
    }

    /// Report the held bell (call when the deadline expires).
    pub fn fire(&mut self, now: u64) -> (r: Option<u64>)
        requires
            old(self)@.wf(),
            now + old(self)@.window <= u64::MAX,
        ensures
            final(self)@.wf(),
            (final(self)@, r) == bell_step(old(self)@, BellEvent::Fire { now: now as nat }),
    {
        match self.pending_at {
            Some(at) => {
                self.pending_at = None;
                self.last_sent = Some(now);
                Some(at)
            },
            None => None,
        }
    }
}

/// A bell, or the passing of the deadline, as a debouncer sees it.
pub ghost enum BellEvent {
    Bell { now: nat, at: u64 },
    Fire { now: nat },
}

/// What a debouncer does with one event: its next state, and the timestamp it
/// reports.
pub open spec fn bell_step(d: BellView, event: BellEvent) -> (BellView, Option<u64>) {
    match event {
        BellEvent::Bell { now, at } => if d.held_back(now) {
            (BellView { pending_at: Some(at), ..d }, None)
        } else {
            (BellView { last_sent: Some(now), ..d }, Some(at))
        },
        BellEvent::Fire { now } => match d.pending_at {
            Some(at) => (BellView { last_sent: Some(now), pending_at: None, ..d }, Some(at)),
            None => (d, None),
        },
    }
}

/// The time of an event.
pub open spec fn event_time(event: BellEvent) -> nat {
    match event {
        BellEvent::Bell { now, .. } => now,
        BellEvent::Fire { now } => now,
    }
}

/// At most one report per window: a bell is reported at once only if no report
/// was made within the window before it, and a held one is due exactly when
/// the window of the last report ends.
pub proof fn reports_are_a_window_apart(d: BellView, event: BellEvent, sent: nat)
    requires
        d.last_sent == Some(sent),
        bell_step(d, event).1 is Some,
        event matches BellEvent::Fire { now } ==> now >= sent + d.window,
    ensures
        event_time(event) >= sent + d.window || d.window == 0,
{
}

/// The latest bell is never lost: it is either reported at once, or held and
/// what the next report on the deadline gives.
pub proof fn latest_bell_is_reported(d: BellView, now: nat, at: u64, later: nat)
    ensures
        ({
            let (next, reported) = bell_step(d, BellEvent::Bell { now, at });
            reported == Some(at) || (reported is None && next.last_sent is Some && bell_step(
                next,
                BellEvent::Fire { now: later },
            ).1 == Some(at))
        }),
{
}

/// A debouncer that has seen nothing.
pub open spec fn new_bell(window: nat) -> BellView {
    BellView { window, last_sent: None, pending_at: None }
}

/// A debouncer after all that it has seen.
pub open spec fn bell_after(window: nat, events: Seq<BellEvent>) -> BellView
    decreases events.len(),
{
    if events.len() == 0 {
        new_bell(window)
    } else {
        bell_step(bell_after(window, events.drop_last()), events.last()).0
    }
}

/// What a debouncer reports on the `i`th event that it sees.
pub open spec fn report(window: nat, events: Seq<BellEvent>, i: int) -> Option<u64> {
    bell_step(bell_after(window, events.take(i)), events[i]).1
}

/// The latest of the first `n` events on which something was reported.
pub open spec fn latest_report(window: nat, events: Seq<BellEvent>, n: int) -> Option<int>
    decreases n,
{
    if n <= 0 {
        None
    } else if report(window, events, n - 1) is Some {
        Some(n - 1)
    } else {
        latest_report(window, events, n - 1)
    }
}

/// The latest of the first `n` events that is a bell which was not reported at
/// once, after the latest one on which a held bell was reported.
pub open spec fn latest_held(window: nat, events: Seq<BellEvent>, n: int) -> Option<int>
    decreases n,
{
    if n <= 0 {
        None
    } else if events[n - 1] is Fire && report(window, events, n - 1) is Some {
        None
    } else if events[n - 1] is Bell && report(window, events, n - 1) is None {
        Some(n - 1)
    } else {
        latest_held(window, events, n - 1)
    }
}

/// How long after `sent` it is at `now`; nothing where it is not after it.
pub open spec fn since(now: nat, sent: nat) -> nat {
    if now >= sent {
        (now - sent) as nat
    } else {
        0
    }
}

proof fn bells_so_far(window: nat, events: Seq<BellEvent>, n: int)
    requires
        0 <= n <= events.len(),
    ensures
        ({
            let d = bell_after(window, events.take(n));
            &&& d.window == window
            &&& d.last_sent == match latest_report(window, events, n) {
                Some(i) => Some(event_time(events[i])),
                None => None,
            }
            &&& d.pending_at == match latest_held(window, events, n) {
                Some(i) => Some(events[i]->Bell_at),
                None => None,
            }
            &&& latest_held(window, events, n) matches Some(i) ==> 0 <= i < n
            &&& latest_report(window, events, n) matches Some(i) ==> 0 <= i < n
            &&& d.pending_at is Some ==> d.last_sent is Some
        }),
    decreases n,
{
    if n > 0 {
        bells_so_far(window, events, n - 1);
        assert(events.take(n).drop_last() =~= events.take(n - 1));
        assert(events.take(n).last() == events[n - 1]);
    }
}

/// Whatever a debouncer has seen, a bell is held back exactly if less than a
/// window has passed since the latest report; it is reported at once otherwise.
/// A bell that is held back is the one that is held from then on, until the
/// window of that report ends; a bell that is reported leaves a held one alone.
pub proof fn bells_are_held_for_a_window(window: nat, events: Seq<BellEvent>, now: nat, at: u64)
    ensures
        ({
            let d = bell_after(window, events);
            let (next, reported) = bell_step(d, BellEvent::Bell { now, at });
            match latest_report(window, events, events.len() as int) {
                Some(i) => {
                    let sent = event_time(events[i]);
                    if since(now, sent) < window {
                        reported is None && next.pending_at == Some(at) && next.last_sent == Some(
                            sent,
                        )
                    } else {
                        reported == Some(at) && next.pending_at == d.pending_at
                    }
                },
                None => reported == Some(at) && next.pending_at == d.pending_at,
            }
        }),
{
    bells_so_far(window, events, events.len() as int);
    assert(events.take(events.len() as int) =~= events);
}

/// Whatever a debouncer has seen, firing it reports the latest bell that was
/// held back since a held bell was last reported, and nothing if there is none,
/// in which case nothing changes. Afterwards no bell is held.
pub proof fn held_bells_are_reported_once(window: nat, events: Seq<BellEvent>, now: nat)
    ensures
        ({
            let d = bell_after(window, events);
            let (next, reported) = bell_step(d, BellEvent::Fire { now });
            &&& next.pending_at is None
            &&& match latest_held(window, events, events.len() as int) {
                Some(i) => 0 <= i < events.len() && events[i] is Bell && reported == Some(
                    events[i]->Bell_at,
                ),
                None => reported is None && next == d,
            }
        }),
{
    bells_so_far(window, events, events.len() as int);
    assert(events.take(events.len() as int) =~= events);
    held_is_a_bell(window, events, events.len() as int);
}

proof fn held_is_a_bell(window: nat, events: Seq<BellEvent>, n: int)
    requires
        0 <= n <= events.len(),
    ensures
        latest_held(window, events, n) matches Some(i) ==> 0 <= i < n && events[i] is Bell
            && report(window, events, i) is None,
    decreases n,
{
    if n > 0 {
        held_is_a_bell(window, events, n - 1);
    }
}

/// Where a newline first occurs in `buf`; the length where it does not.
pub open spec fn newline_at(buf: Seq<u8>, from: int) -> int
    decreases buf.len() - from,
{
    if from >= buf.len() {
        buf.len() as int
    } else if buf[from] == '\n' as u8 {
        from
    } else {
        newline_at(buf, from + 1)
    }
}

/// The first complete line of `buf` that is not empty, without its newline, if
/// there is one, and what follows it.
pub open spec fn first_line(buf: Seq<u8>) -> (Option<Seq<u8>>, Seq<u8>)
    decreases buf.len(),
{
    let end = newline_at(buf, 0);
    if end < 0 || end >= buf.len() {
        (None, buf)
    } else if end == 0 {
        first_line(buf.skip(1))
    } else {
        (Some(buf.take(end)), buf.skip(end + 1))
    }
}

/// Bytes read but not yet consumed as complete lines.
pub struct LineBuffer {
    buf: Vec<u8>,
}

impl View for LineBuffer {
    type V = Seq<u8>;

    closed spec fn view(&self) -> Seq<u8> {
        self.buf@
    }
}

impl LineBuffer {
    pub fn new() -> (r: Self)
        ensures
            r@ == Seq::<u8>::empty(),
    {
        LineBuffer { buf: Vec::new() }
    }

    /// More bytes arrived.
    pub fn extend(&mut self, chunk: &[u8])
        ensures
            final(self)@ == old(self)@ + chunk@,
    {
        crate::text::push_bytes(&mut self.buf, chunk);
    }

    /// The next complete line, without its newline; empty lines are skipped. A
    /// partial line stays buffered.
    pub fn next_line(&mut self) -> (r: Option<Vec<u8>>)
        ensures
            match first_line(old(self)@).0 {
                Some(line) => r matches Some(l) && l@ == line,
                None => r is None,
            },
            final(self)@ == first_line(old(self)@).1,
    {
        let mut start: usize = 0;
        proof {
            assert(self.buf@.skip(0) =~= self.buf@);
        }
        loop
            invariant
                start <= self.buf@.len(),
                self.buf@ == old(self).buf@,
                first_line(self.buf@.skip(start as int)) == first_line(old(self)@),
            decreases self.buf@.len() - start,
        {
            let ghost rest = self.buf@.skip(start as int);
            let mut end: usize = start;
            while end < self.buf.len() && self.buf[end] != '\n' as u8
                invariant
                    start <= end <= self.buf@.len(),
                    self.buf@ == old(self).buf@,
                    rest == self.buf@.skip(start as int),
                    forall|k: int| 0 <= k < end - start ==> rest[k] != '\n' as u8,
                decreases self.buf@.len() - end,
            {
                end += 1;
            }
            proof {
                newline_is_first(rest, 0, end - start);
            }
            if end >= self.buf.len() {
                let remainder = self.buf.split_off(start);
                self.buf = remainder;
                assert(self.buf@ =~= rest);
                return None;
            }
            if end > start {
                let remainder = self.buf.split_off(end + 1);
                let line = vstd::slice::slice_subrange(self.buf.as_slice(), start, end);
                let mut out: Vec<u8> = Vec::new();
                crate::text::push_bytes(&mut out, line);
                self.buf = remainder;
                assert(out@ =~= rest.take(end - start));
                assert(self.buf@ =~= rest.skip(end - start + 1));
                return Some(out);
            }
            assert(rest.skip(1) =~= self.buf@.skip(start + 1));
            start = end + 1;
        }
    }
}

proof fn newline_is_first(buf: Seq<u8>, from: int, at: int)
    requires
        0 <= from <= at <= buf.len(),
        forall|k: int| from <= k < at ==> buf[k] != '\n' as u8,
        at < buf.len() ==> buf[at] == '\n' as u8,
    ensures
        newline_at(buf, from) == at,
    decreases at - from,
{
    if from < at {
        newline_is_first(buf, from + 1, at);
    }
}

/// A line that arrives in pieces is delivered once its newline has come, as it
/// was sent; what was sent after it stays buffered.
pub proof fn lines_survive_splitting(line: Seq<u8>, after: Seq<u8>)
    requires
        line.len() > 0,
        forall|k: int| 0 <= k < line.len() ==> line[k] != '\n' as u8,
    ensures
        first_line(line) == (None::<Seq<u8>>, line),
        first_line(line + seq!['\n' as u8] + after) == (Some(line), after),
{
    newline_is_first(line, 0, line.len() as int);
    let buf = line + seq!['\n' as u8] + after;
    newline_is_first(buf, 0, line.len() as int);
    assert(buf.take(line.len() as int) =~= line);
    assert(buf.skip((line.len() + 1) as int) =~= after);
}

/// What is reported of a line from a client that is no message.
pub fn bad_message(line: &[u8]) -> (r: String)
    ensures
        r@ == "bad message: "@ + lossy_text(line@),
{
    let mut out = "bad message: ".to_owned();
    out.append(lossy_string(line).as_str());
    out
}

/// What is reported of a line from a session that is no message.
pub fn bad_session_message(line: &[u8]) -> (r: String)
    ensures
        r@ == "bad session message: "@ + lossy_text(line@),
{
    let mut out = "bad session message: ".to_owned();
    out.append(lossy_string(line).as_str());
    out
}

} // verus!
