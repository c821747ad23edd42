//! A mirrored session: one wrapped app, its host terminal, and the clients on
//! its socket. Every event of the wrapper's loop is a method here that says
//! what to do next; the loop performs it and reports sends that failed.

use crate::control::{bell_step, BellDebouncer, BellEvent, BellView, ClientState};
use crate::history::{HistoryView, RecordView, DEFAULT_FETCH_LIMIT};
use crate::input::{check_delays, pause_of, InputQueue, MAX_INPUT_DELAYS, MAX_INPUT_DELAY_MS};
use crate::mirror::{new_mirror, Mirror, MirrorView, Transition, View, SIM_COLS, SIM_ROWS};
use crate::protocol::{
    base64_bytes, base64_text, decode_terminal_bytes, encode_terminal_bytes, FromSession,
    HistoryExtent, HistoryLine, Role, SessionMsg, ToSession, PROTOCOL_VERSION,
};
use crate::session_model::{
    acts, alive, best_of, client_views, find_client, find_pending, history_reply, host_write,
    hotkey_at, ids_of, ids_where, line_message, lines_decode, opt_int, pty_write, rank_of, takes,
    transition_acts, without_controls, Act, Action, Client, ClientView, Pick, SessionView, BELL_DEBOUNCE,
    HISTORY_CEILING, HOTKEY, MAX_CHUNK, REFRESH_KEY, STEP_LINES,
};
use crate::sessions::page_bounds;
use crate::terminal::{is_positive, positive};
use crate::text::{opt_bytes, opt_text, push_bytes, push_decimal};
use vstd::prelude::*;
use vstd::string::*;
use vstd::utf8::*;
use vstd::view::View as _;

verus! {

/// `text` without its control characters.
pub fn clean_title(text: &str) -> (r: String)
    ensures
        r@ == without_controls(text@),
{
    let chars = crate::text::chars_of(text);
    let mut out = String::new();
    let mut i: usize = 0;
    while i < chars.len()
        invariant
            i <= chars@.len(),
            chars@ == text@,
            out@ == without_controls(text@.take(i as int)),
        decreases chars@.len() - i,
    {
        let c = chars[i];
        proof {
            assert(text@.take(i + 1).drop_last() =~= text@.take(i as int));
        }
        if !(c <= '\u{1f}' || (c >= '\u{7f}' && c <= '\u{9f}')) {
            out.push(c);
        }
        i += 1;
    }
    assert(text@.take(i as int) =~= text@);
    out
}

pub struct Session {
    mirror: Mirror,
    pending: Vec<u64>,
    viewers: Vec<Client>,
    monitor: Option<u64>,
    host_rank: u32,
    host_attached: bool,
    headless: bool,
    readonly: bool,
    bell: BellDebouncer,
    input: InputQueue,
    next_id: u64,
}

impl vstd::view::View for Session {
    type V = SessionView;

    closed spec fn view(&self) -> SessionView {
        SessionView {
            mirror: self.mirror.state(),
            pending: self.pending@,
            viewers: client_views(self.viewers@),
            monitor: self.monitor,
            host_rank: self.host_rank,
            host_attached: self.host_attached,
            headless: self.headless,
            readonly: self.readonly,
            bell: self.bell@,
            input: self.input@,
            next_id: self.next_id as nat,
        }
    }
}

fn push_host_write(out: &mut Vec<Action>, headless: bool, bytes: Vec<u8>)
    ensures
        acts(final(out)@) == acts(old(out)@) + host_write(headless, bytes@),
{
    if !headless && bytes.len() > 0 {
        out.push(Action::WriteHost(bytes));
    }
    assert(acts(out@) =~= acts(old(out)@) + host_write(headless, bytes@));
}

fn push_transition(out: &mut Vec<Action>, headless: bool, t: Transition) -> (remote: Option<Vec<u8>>)
    ensures
        acts(final(out)@) == acts(old(out)@) + transition_acts(
            headless,
            t.child_size,
            t.host_output@,
        ),
        remote == t.remote_output,
{
    if let Some((rows, cols)) = t.child_size {
        out.push(Action::ResizePty { rows, cols });
    }
    push_host_write(out, headless, t.host_output);
    assert(acts(out@) =~= acts(old(out)@) + transition_acts(headless, t.child_size, t.host_output@));
    t.remote_output
}

fn push_send(out: &mut Vec<Action>, to: Vec<u64>, msg: FromSession)
    ensures
        acts(final(out)@) == acts(old(out)@).push(Act::Send { to: to@, msg: msg@ }),
{
    out.push(Action::Send { to, msg });
    assert(acts(out@) =~= acts(old(out)@).push(Act::Send { to: to@, msg: msg@ }));
}

fn push_close(out: &mut Vec<Action>, ids: Vec<u64>)
    ensures
        acts(final(out)@) == acts(old(out)@).push(Act::Close(ids@)),
{
    out.push(Action::Close(ids));
    assert(acts(out@) =~= acts(old(out)@).push(Act::Close(ids@)));
}

fn push_sweep(out: &mut Vec<Action>)
    ensures
        acts(final(out)@) == acts(old(out)@).push(Act::Sweep),
{
    out.push(Action::Sweep);
    assert(acts(out@) =~= acts(old(out)@).push(Act::Sweep));
}

fn effective_rank(c: &Client, host_rank: u32) -> (r: u32)
    ensures
        r == rank_of(c@, host_rank),
{
    match c.role {
        Role::Host => host_rank,
        Role::Viewer => c.size_rank,
    }
}

impl Session {
    /// The session and its mirror are well formed.
    pub closed spec fn wf(&self) -> bool {
        self@.wf() && self.mirror.wf()
    }

    pub proof fn lemma_wf(&self)
        requires
            self.wf(),
        ensures
            self@.wf(),
    {
    }

    /// Whether the archive's line count cannot overflow in one step.
    pub fn has_room(&self) -> (r: bool)
        requires
            self.wf(),
        ensures
            r == self@.has_room(),
    {
        self.mirror.history_extent().0 <= HISTORY_CEILING
    }

    /// The best-ranked viewing client.
    fn best(&self) -> (r: Option<usize>)
        ensures
            match self@.best() {
                Some(i) => r matches Some(b) && b == i && b < self.viewers@.len(),
                None => r is None,
            },
    {
        let mut best: Option<usize> = None;
        let mut i: usize = 0;
        while i < self.viewers.len()
            invariant
                i <= self.viewers@.len(),
                self@.viewers == client_views(self.viewers@),
                self@.host_rank == self.host_rank,
                match best_of(self@.viewers, self.host_rank, i as nat) {
                    Some(b) => best matches Some(at) && at == b && b < i,
                    None => best is None,
                },
            decreases self.viewers@.len() - i,
        {
            let c = &self.viewers[i];
            assert(self@.viewers[i as int] == c@);
            if !c.dead && c.state == ClientState::Viewing {
                match best {
                    Some(b) => {
                        let current = &self.viewers[b];
                        assert(self@.viewers[b as int] == current@);
                        let mine: u32 = effective_rank(c, self.host_rank);
                        let theirs: u32 = effective_rank(current, self.host_rank);
                        if mine < theirs || (mine == theirs && c.id < current.id) {
                            best = Some(i);
                        }
                    },
                    None => {
                        best = Some(i);
                    },
                }
            }
            i += 1;
        }
        best
    }

    /// The ids of the viewing clients that get a snapshot.
    fn snapshot_ids(&self, changed: bool, force_for: Option<usize>) -> (r: Vec<u64>)
        ensures
            r@ == ids_where(
                self@.viewers,
                SessionView::snapshot_goes_to(changed, opt_int(force_for)),
                self@.viewers.len(),
            ),
    {
        let ghost chosen = SessionView::snapshot_goes_to(changed, opt_int(force_for));
        let mut out: Vec<u64> = Vec::new();
        let mut i: usize = 0;
        while i < self.viewers.len()
            invariant
                i <= self.viewers@.len(),
                self@.viewers == client_views(self.viewers@),
                chosen == SessionView::snapshot_goes_to(changed, opt_int(force_for)),
                out@ == ids_where(self@.viewers, chosen, i as nat),
            decreases self.viewers@.len() - i,
        {
            let c = &self.viewers[i];
            assert(self@.viewers[i as int] == c@);
            let forced = match force_for {
                Some(f) => f == i,
                None => false,
            };
            if !c.dead && c.state == ClientState::Viewing && (changed || forced) {
                out.push(c.id);
            }
            i += 1;
        }
        out
    }

    /// The dimensions the stream runs at.
    fn target(&self) -> (r: Option<(u16, u16)>)
        requires
            self.wf(),
        ensures
            r == self@.target(),
            r matches Some(size) ==> positive(size.0, size.1),
    {
        match self.best() {
            None => None,
            Some(b) => {
                let c = &self.viewers[b];
                assert(self@.viewers[b as int] == c@);
                if self.headless || effective_rank(c, self.host_rank) <= self.host_rank {
                    Some((c.height, c.width))
                } else {
                    // A physical host terminal outranks every viewer: the
                    // stream runs at its size.
                    Some(self.mirror.host_size())
                }
            },
        }
    }

    /// Starts a view and sends its snapshot to the clients `to`.
    fn begin_view(&mut self, out: &mut Vec<Action>, view: View, to: Vec<u64>)
        requires
            old(self).wf(),
            old(self)@.has_room(),
            positive(view.rows, view.cols),
        ensures
            final(self).wf(),
            final(self)@ == old(self)@.with_view(view),
            acts(final(out)@) == (acts(old(out)@) + old(self)@.view_acts(view)).push(
                Act::Send {
                    to: to@,
                    msg: SessionMsg::Snapshot {
                        data: base64_text(old(self)@.mirror.snapshot(view)),
                        width: view.cols,
                        height: view.rows,
                        history_next: old(self)@.mirror.viewing(view).history.next as u64,
                    },
                },
            ),
            final(self)@.mirror.history.next <= old(self)@.mirror.history.next + STEP_LINES,
    {
        let t = self.mirror.start_view(view);
        proof {
            self.mirror.lemma_wf();
        }
        let remote = push_transition(out, self.headless, t);
        let data = match &remote {
            Some(bytes) => encode_terminal_bytes(bytes.as_slice()),
            None => String::new(),
        };
        // Everything archived so far (including rows just flushed by the
        // view-start crop) predates this snapshot.
        let history_next: u64 = self.mirror.history_extent().0;
        push_send(
            out,
            to,
            FromSession::Snapshot { data, width: view.cols, height: view.rows, history_next },
        );
    }

    /// Ends the view.
    fn finish_view(&mut self, out: &mut Vec<Action>)
        requires
            old(self).wf(),
            old(self)@.has_room(),
        ensures
            final(self).wf(),
            final(self)@ == (SessionView { mirror: old(self)@.mirror.unviewed(), ..old(self)@ }),
            acts(final(out)@) == acts(old(out)@) + old(self)@.unview_acts(),
            final(self)@.mirror.history.next <= old(self)@.mirror.history.next + STEP_LINES,
    {
        let t = self.mirror.end_view();
        proof {
            self.mirror.lemma_wf();
        }
        let _ = push_transition(out, self.headless, t);
    }

    /// Re-decide the view from the size-precedence ranks of everyone currently
    /// viewing (against the host terminal's own rank) and apply the outcome:
    /// start/restart the view at the winning dimensions, or end it when nobody
    /// views anymore. When the dimensions change, every viewing client gets a
    /// fresh snapshot (their streams restart at the new size); `force_for`
    /// additionally restarts at unchanged dimensions and snapshots just that
    /// client (used when it sent `view`, so it needs a snapshot in any case:
    /// the rebuilt stream stays seamless for the others because the model is
    /// re-primed with its own current state).
    fn refresh_view(&mut self, out: &mut Vec<Action>, force_for: Option<usize>)
        requires
            old(self).wf(),
            old(self)@.has_room(),
        ensures
            final(self).wf(),
            final(self)@ == old(self)@.refreshed(opt_int(force_for)),
            acts(final(out)@) == acts(old(out)@) + old(self)@.refresh_acts(opt_int(force_for)),
            final(self)@.mirror.history.next <= old(self)@.mirror.history.next + STEP_LINES,
    {
        let shown = self.mirror.view();
        match self.target() {
            None => {
                // Nobody is viewing. Headless: keep the view (and thus the pty
                // size) exactly as the last viewer left it, so the app doesn't
                // reflow every time the glasses blink off. Hosted: end the
                // view, though a hotkey-simulated one is not ours to end.
                let end = match shown {
                    Some(v) => !self.headless && !v.simulated,
                    None => false,
                };
                if end {
                    self.finish_view(out);
                } else {
                    assert(acts(out@) + Seq::<Act>::empty() =~= acts(out@));
                }
            },
            Some((rows, cols)) => {
                let changed = match shown {
                    None => true,
                    Some(v) => v.simulated || v.rows != rows || v.cols != cols,
                };
                if changed || force_for.is_some() {
                    let to = self.snapshot_ids(changed, force_for);
                    self.begin_view(out, View { rows, cols, simulated: false }, to);
                    assert(acts(out@) =~= acts(old(out)@) + old(self)@.refresh_acts(
                        opt_int(force_for),
                    ));
                } else {
                    assert(acts(out@) + Seq::<Act>::empty() =~= acts(out@));
                }
            },
        }
    }

    /// The ids of the clients that a choice takes, after those in `first`.
    fn ids(&self, first: Vec<u64>, pick: Pick) -> (r: Vec<u64>)
        ensures
            r@ == first@ + ids_of(self@.viewers, pick),
    {
        let ghost before = first@;
        let ghost views = self@.viewers;
        let mut out = first;
        let mut i: usize = 0;
        assert(before + ids_of(views.take(0), pick) =~= before);
        while i < self.viewers.len()
            invariant
                i <= self.viewers@.len(),
                views == client_views(self.viewers@),
                out@ == before + ids_of(views.take(i as int), pick),
            decreases self.viewers@.len() - i,
        {
            let c = &self.viewers[i];
            proof {
                assert(views.take(i + 1).drop_last() =~= views.take(i as int));
                assert(views.take(i + 1).last() == c@);
            }
            let taken = match pick {
                Pick::All => true,
                Pick::Alive => !c.dead,
                Pick::Dead => c.dead,
                Pick::HostRole => c.role == Role::Host,
                Pick::Viewing => c.state == ClientState::Viewing,
            };
            if taken {
                out.push(c.id);
            }
            i += 1;
            assert(out@ =~= before + ids_of(views.take(i as int), pick));
        }
        assert(views.take(i as int) =~= views);
        out
    }

    /// The monitor's id, if there is one, then those of the clients that a
    /// choice takes.
    fn audience(&self, pick: Pick) -> (r: Vec<u64>)
        ensures
            r@ == self@.audience(pick),
    {
        let mut first: Vec<u64> = Vec::new();
        if let Some(id) = self.monitor {
            first.push(id);
        }
        assert(first@ =~= match self@.monitor {
            Some(id) => seq![id],
            None => Seq::empty(),
        });
        self.ids(first, pick)
    }

    /// Whether a living client holds the host role.
    fn host_role_held(&self) -> (r: bool)
        ensures
            r == self@.host_role_held(),
    {
        let mut i: usize = 0;
        while i < self.viewers.len()
            invariant
                i <= self.viewers@.len(),
                self@.viewers == client_views(self.viewers@),
                forall|k: int|
                    0 <= k < i ==> (#[trigger] self@.viewers[k]).dead || self@.viewers[k].role
                        != Role::Host,
            decreases self.viewers@.len() - i,
        {
            let c = &self.viewers[i];
            assert(self@.viewers[i as int] == c@);
            if !c.dead && c.role == Role::Host {
                return true;
            }
            i += 1;
        }
        false
    }

    /// First half of a sweep: notices a change of the host role's occupancy (a
    /// claim, or the holder dying) and reports it.
    pub fn sweep_begin(&mut self) -> (r: Vec<Action>)
        requires
            old(self).wf(),
        ensures
            final(self).wf(),
            final(self)@ == old(self)@.occupancy_noted(),
            acts(r@) == old(self)@.occupancy_acts(),
    {
        let mut out: Vec<Action> = Vec::new();
        assert(acts(out@) =~= Seq::<Act>::empty());
        let now = self.host_role_held();
        if now != self.host_attached {
            self.host_attached = now;
            let to = self.audience(Pick::Alive);
            push_send(&mut out, to, FromSession::HostChanged { attached: now });
            assert(acts(out@) =~= old(self)@.occupancy_acts());
        }
        out
    }

    /// Second half of a sweep: removes dead clients and re-decides the view.
    pub fn sweep_finish(&mut self) -> (r: Vec<Action>)
        requires
            old(self).wf(),
            old(self)@.has_room(),
        ensures
            final(self).wf(),
            final(self)@ == old(self)@.without_dead().refreshed(None),
            acts(r@) == old(self)@.sweep_acts(),
    {
        let mut out: Vec<Action> = Vec::new();
        let gone = self.ids(Vec::new(), Pick::Dead);
        assert(gone@ =~= ids_of(old(self)@.viewers, Pick::Dead));
        push_close(&mut out, gone);
        assert(acts(out@) =~= seq![Act::Close(ids_of(old(self)@.viewers, Pick::Dead))]);
        self.remove_dead();
        self.refresh_view(&mut out, None);
        out
    }

    /// Removes dead clients.
    fn remove_dead(&mut self)
        requires
            old(self).wf(),
        ensures
            final(self).wf(),
            final(self)@ == old(self)@.without_dead(),
    {
        let ghost views = self@.viewers;
        let mut kept: Vec<Client> = Vec::new();
        let mut rest: Vec<Client> = Vec::new();
        std::mem::swap(&mut rest, &mut self.viewers);
        // Taken from the end, so that both lists come out reversed.
        let mut reversed: Vec<Client> = Vec::new();
        assert(client_views(reversed@).reverse() + alive(views) =~= alive(views));
        assert(views.take(rest@.len() as int) =~= views);
        while rest.len() > 0
            invariant
                self.viewers@.len() == 0,
                rest@.len() <= views.len(),
                client_views(rest@) == views.take(rest@.len() as int),
                alive(views) == alive(client_views(rest@)) + client_views(reversed@).reverse(),
                forall|i: int|
                    0 <= i < reversed@.len() ==> positive(
                        (#[trigger] reversed@[i]).height,
                        reversed@[i].width,
                    ),
                forall|i: int|
                    0 <= i < views.len() ==> positive((#[trigger] views[i]).height, views[i].width),
                self@ == (SessionView { viewers: client_views(self.viewers@), ..old(self)@ }),
                self.mirror == old(self).mirror,
            decreases rest@.len(),
        {
            let ghost before = client_views(rest@);
            let ghost tail = client_views(reversed@).reverse();
            match rest.pop() {
                Some(c) => {
                    proof {
                        assert(before.last() == c@);
                        assert(before.drop_last() =~= client_views(rest@));
                        assert(views[rest@.len() as int] == c@);
                    }
                    if !c.dead {
                        reversed.push(c);
                        assert(client_views(reversed@).reverse() =~= seq![c@] + tail);
                        assert(alive(before) + tail =~= alive(client_views(rest@)) + (seq![c@]
                            + tail));
                    }
                },
                None => {},
            }
        }
        let ghost back = client_views(reversed@);
        assert(alive(client_views(rest@)) =~= Seq::<ClientView>::empty());
        assert(alive(views) =~= back.reverse());
        while reversed.len() > 0
            invariant
                client_views(kept@) + client_views(reversed@).reverse() == back.reverse(),
                forall|i: int|
                    0 <= i < reversed@.len() ==> positive(
                        (#[trigger] reversed@[i]).height,
                        reversed@[i].width,
                    ),
                forall|i: int|
                    0 <= i < kept@.len() ==> positive(
                        (#[trigger] kept@[i]).height,
                        kept@[i].width,
                    ),
            decreases reversed@.len(),
        {
            let ghost front = client_views(kept@);
            let ghost whole = client_views(reversed@).reverse();
            match reversed.pop() {
                Some(c) => {
                    kept.push(c);
                    assert(client_views(kept@) =~= front.push(c@));
                    assert(whole =~= seq![c@] + client_views(reversed@).reverse());
                    assert(client_views(kept@) + client_views(reversed@).reverse() =~= front
                        + whole);
                },
                None => {},
            }
        }
        assert(client_views(kept@) =~= back.reverse());
        self.viewers = kept;
        proof {
            assert(self@.viewers == alive(views));
            assert forall|i: int| 0 <= i < self@.viewers.len() implies positive(
                (#[trigger] self@.viewers[i]).height,
                self@.viewers[i].width,
            ) by {
                assert(self@.viewers[i] == kept@[i]@);
            }
        }
    }

    /// Whether a client died and is to be swept out.
    pub fn needs_sweep(&self) -> (r: bool)
        ensures
            r == exists|i: int| 0 <= i < self@.viewers.len() && (#[trigger] self@.viewers[i]).dead,
    {
        let mut i: usize = 0;
        while i < self.viewers.len()
            invariant
                i <= self.viewers@.len(),
                self@.viewers == client_views(self.viewers@),
                forall|k: int| 0 <= k < i ==> !(#[trigger] self@.viewers[k]).dead,
            decreases self.viewers@.len() - i,
        {
            assert(self@.viewers[i as int] == self.viewers@[i as int]@);
            if self.viewers[i].dead {
                return true;
            }
            i += 1;
        }
        false
    }

    /// A send to a client failed, or its connection ended: the monitor is
    /// dropped, a viewer is marked dead.
    pub fn client_lost(&mut self, id: u64)
        requires
            old(self).wf(),
        ensures
            final(self).wf(),
            final(self)@ == old(self)@.after_failure(id),
    {
        if self.monitor == Some(id) {
            self.monitor = None;
        }
        let ghost views = self@.viewers;
        let ghost marked = old(self)@.after_failure(id).viewers;
        let mut i: usize = 0;
        while i < self.viewers.len()
            invariant
                i <= self.viewers@.len() == views.len() == marked.len(),
                views == old(self)@.viewers,
                marked == old(self)@.after_failure(id).viewers,
                self@ == (SessionView {
                    monitor: self.monitor,
                    viewers: client_views(self.viewers@),
                    ..old(self)@
                }),
                self.monitor == old(self)@.after_failure(id).monitor,
                self.mirror == old(self).mirror,
                forall|k: int| 0 <= k < i ==> #[trigger] self.viewers@[k]@ == marked[k],
                forall|k: int|
                    i <= k < self.viewers@.len() ==> #[trigger] self.viewers@[k]@ == views[k],
            decreases self.viewers@.len() - i,
        {
            assert(self.viewers@[i as int]@ == views[i as int]);
            if self.viewers[i].id == id {
                self.viewers[i].dead = true;
            }
            assert(self.viewers@[i as int]@ == marked[i as int]);
            i += 1;
        }
        assert(self@.viewers =~= marked);
        proof {
            assert forall|k: int| 0 <= k < self@.viewers.len() implies positive(
                (#[trigger] self@.viewers[k]).height,
                self@.viewers[k].width,
            ) by {
                assert(views[k].height == self@.viewers[k].height);
            }
        }
    }

    /// Marks every host-role client dead.
    fn displace_hosts(&mut self)
        requires
            old(self).wf(),
        ensures
            final(self).wf(),
            final(self)@ == (SessionView {
                viewers: old(self)@.viewers.map_values(
                    |c: ClientView|
                        if c.role == Role::Host {
                            ClientView { dead: true, ..c }
                        } else {
                            c
                        },
                ),
                ..old(self)@
            }),
    {
        let ghost views = self@.viewers;
        let ghost marked = views.map_values(
            |c: ClientView|
                if c.role == Role::Host {
                    ClientView { dead: true, ..c }
                } else {
                    c
                },
        );
        let mut i: usize = 0;
        while i < self.viewers.len()
            invariant
                i <= self.viewers@.len() == views.len() == marked.len(),
                forall|k: int|
                    0 <= k < views.len() ==> #[trigger] marked[k] == (if views[k].role
                        == Role::Host {
                        ClientView { dead: true, ..views[k] }
                    } else {
                        views[k]
                    }),
                self@ == (SessionView { viewers: client_views(self.viewers@), ..old(self)@ }),
                self.mirror == old(self).mirror,
                forall|k: int| 0 <= k < i ==> #[trigger] self.viewers@[k]@ == marked[k],
                forall|k: int|
                    i <= k < self.viewers@.len() ==> #[trigger] self.viewers@[k]@ == views[k],
            decreases self.viewers@.len() - i,
        {
            assert(self.viewers@[i as int]@ == views[i as int]);
            if self.viewers[i].role == Role::Host {
                self.viewers[i].dead = true;
            }
            assert(self.viewers@[i as int]@ == marked[i as int]);
            i += 1;
        }
        assert(self@.viewers =~= marked);
        proof {
            assert forall|k: int| 0 <= k < self@.viewers.len() implies positive(
                (#[trigger] self@.viewers[k]).height,
                self@.viewers[k].width,
            ) by {
                assert(views[k].height == self@.viewers[k].height);
            }
        }
    }

    /// Tells a client the current title, if there is one.
    fn push_title(&self, out: &mut Vec<Action>, id: u64)
        ensures
            acts(final(out)@) == acts(old(out)@) + self@.title_acts(id),
    {
        match self.mirror.title() {
            Some(title) => {
                let mut to: Vec<u64> = Vec::new();
                to.push(id);
                assert(to@ =~= seq![id]);
                push_send(out, to, FromSession::Title { title: title.to_owned() });
                assert(acts(out@) =~= acts(old(out)@) + self@.title_acts(id));
            },
            None => {
                assert(acts(out@) =~= acts(old(out)@) + self@.title_acts(id));
            },
        }
    }

    /// Why an init is refused, if it is.
    fn init_refusal(&self, version: u32, width: u16, height: u16, role: Role, force: bool) -> (r:
        Option<String>)
        ensures
            opt_text(r) == self@.init_refusal(version, width, height, role, force),
    {
        if version != PROTOCOL_VERSION {
            let mut out = "unsupported protocol version ".to_owned();
            push_decimal(&mut out, version as u64);
            out.append(" (expected ");
            push_decimal(&mut out, PROTOCOL_VERSION as u64);
            out.append(")");
            Some(out)
        } else if !is_positive(height, width) {
            Some("invalid device dimensions".to_owned())
        } else if role == Role::Host && !self.headless {
            Some("this session has a real host terminal; use g2mirror-view to watch it".to_owned())
        } else if role == Role::Host && self.host_role_held() && !force {
            Some("session is already attached; g2mirror --attach --force takes it over".to_owned())
        } else {
            None
        }
    }

    /// A pending connection's first message classifies it as a viewer (a
    /// device, via init) or the monitor (the server, via monitor; at most one,
    /// and it does not count as a viewer).
    pub fn on_first_message(&mut self, id: u64, msg: ToSession) -> (r: Vec<Action>)
        requires
            old(self).wf(),
        ensures
            final(self).wf(),
            final(self)@ == old(self)@.after_first(id, msg),
            acts(r@) == old(self)@.first_acts(id, msg),
    {
        let mut out: Vec<Action> = Vec::new();
        assert(acts(out@) =~= Seq::<Act>::empty());
        match msg {
            ToSession::Init {
                version,
                device,
                width,
                height,
                size_rank,
                host_size_rank,
                role,
                force,
            } => {
                match self.init_refusal(version, width, height, role, force) {
                    Some(message) => {
                        turn_away(&mut out, id, message);
                        assert(acts(out@) =~= SessionView::turned_away(id, message@));
                    },
                    None => {
                        let size_rank: u32 = match size_rank {
                            Some(rank) => rank,
                            None => 0,
                        };
                        let client = Client {
                            state: ClientState::Ready,
                            device,
                            width,
                            height,
                            size_rank,
                            role,
                            id,
                            dead: false,
                        };
                        self.take_in(&mut out, client, host_size_rank);
                        assert(acts(out@) =~= old(self)@.admission_acts(client@));
                    },
                }
                // A host-role claim (or a forced takeover that then died) may
                // have flipped the detached state; the sweep also cleans up a
                // displaced holder.
                push_sweep(&mut out);
            },
            ToSession::Monitor { version } => {
                if version == PROTOCOL_VERSION {
                    // Replaces a previous monitor (e.g. after a server restart
                    // whose old connection hasn't been noticed as dead yet).
                    if let Some(previous) = self.monitor {
                        let mut ids: Vec<u64> = Vec::new();
                        ids.push(previous);
                        assert(ids@ =~= seq![previous]);
                        push_close(&mut out, ids);
                    }
                    assert(acts(out@) =~= match old(self)@.monitor {
                        Some(previous) => seq![Act::Close(seq![previous])],
                        None => Seq::empty(),
                    });
                    self.monitor = Some(id);
                    self.push_title(&mut out, id);
                } else {
                    let mut message = "unsupported protocol version ".to_owned();
                    push_decimal(&mut message, version as u64);
                    turn_away(&mut out, id, message);
                    assert(acts(out@) =~= old(self)@.first_acts(id, msg));
                }
            },
            _ => {
                turn_away(&mut out, id, "first message must be init or monitor".to_owned());
                assert(acts(out@) =~= old(self)@.first_acts(id, msg));
            },
        }
        out
    }

    /// Admits a client; a host-role client displaces the current holder.
    fn take_in(&mut self, out: &mut Vec<Action>, client: Client, host_size_rank: Option<u32>)
        requires
            old(self).wf(),
            positive(client.height, client.width),
        ensures
            final(self).wf(),
            final(self)@ == old(self)@.admitted(client@, host_size_rank),
            acts(final(out)@) == acts(old(out)@) + old(self)@.admission_acts(client@),
    {
        let id: u64 = client.id;
        let ghost start = acts(out@);
        if client.role == Role::Host && self.host_role_held() {
            let to = self.ids(Vec::new(), Pick::HostRole);
            assert(to@ =~= ids_of(self@.viewers, Pick::HostRole));
            push_send(
                out,
                to,
                FromSession::Error {
                    message: "host role taken over by another attach client".to_owned(),
                },
            );
            self.displace_hosts();
        }
        self.push_title(out, id);
        assert(acts(out@) =~= start + old(self)@.admission_acts(client@));
        if let Some(rank) = host_size_rank {
            self.host_rank = rank;
        }
        let ghost before = self@.viewers;
        self.viewers.push(client);
        assert(self@.viewers =~= before.push(client@));
    }

    /// The reply to a history request.
    fn history_lines(&self, before: u64, limit: Option<u32>) -> (r: FromSession)
        requires
            self.wf(),
        ensures
            r@ == history_reply(self@.mirror.history, before, limit),
            lines_decode(r@, self@.mirror.history),
    {
        proof {
            self.mirror.lemma_wf();
        }
        let limit: u32 = match limit {
            Some(n) => if n <= DEFAULT_FETCH_LIMIT {
                n
            } else {
                DEFAULT_FETCH_LIMIT
            },
            None => DEFAULT_FETCH_LIMIT,
        };
        let (next, oldest) = self.mirror.history_extent();
        let (start, records) = self.mirror.history().fetch(before, limit);
        let ghost views = crate::history::record_views(records@);
        let mut lines: Vec<HistoryLine> = Vec::new();
        let mut i: usize = 0;
        while i < records.len()
            invariant
                i <= records@.len(),
                views == crate::history::record_views(records@),
                lines@.len() == i,
                forall|k: int| 0 <= k < i ==> #[trigger] lines@[k]@ == line_message(views[k]),
                forall|k: int|
                    0 <= k < i ==> base64_bytes((#[trigger] lines@[k])@.data) == Ok::<
                        Seq<u8>,
                        Seq<char>,
                    >(views[k].bytes),
            decreases records@.len() - i,
        {
            let record = records[i];
            assert(views[i as int] == record@);
            lines.push(
                HistoryLine {
                    data: encode_terminal_bytes(record.bytes.as_slice()),
                    width: record.width,
                    wrapped: record.wrapped,
                },
            );
            i += 1;
        }
        assert(lines@.map_values(|l: HistoryLine| l@) =~= views.map_values(
            |r: RecordView| line_message(r),
        ));
        let reply = FromSession::HistoryLines { start, oldest, next, lines };
        proof {
            let h = self@.mirror.history;
            let told = lines@.map_values(|l: HistoryLine| l@);
            page_bounds(h.lines, h.page_end(before), limit);
            assert forall|k: int| 0 <= k < told.len() implies base64_bytes(
                (#[trigger] told[k]).data,
            ) == Ok::<Seq<u8>, Seq<char>>(h.lines[start - oldest + k].bytes) by {
                assert(lines@[k]@.data == line_message(views[k]).data);
            }
        }
        reply
    }

    /// Where the client with this id stands among the viewers.
    fn find(&self, id: u64) -> (r: Option<usize>)
        ensures
            opt_int(r) == find_client(self@.viewers, id, 0),
            r matches Some(i) ==> i < self.viewers@.len(),
    {
        let mut i: usize = 0;
        while i < self.viewers.len()
            invariant
                i <= self.viewers@.len(),
                self@.viewers == client_views(self.viewers@),
                find_client(self@.viewers, id, i as int) == find_client(self@.viewers, id, 0),
            decreases self.viewers@.len() - i,
        {
            assert(self@.viewers[i as int] == self.viewers@[i as int]@);
            if self.viewers[i].id == id {
                return Some(i);
            }
            i += 1;
        }
        None
    }

    /// Answers viewer `i`.
    fn push_answer(&self, out: &mut Vec<Action>, i: usize, msg: FromSession)
        requires
            i < self.viewers@.len(),
        ensures
            acts(final(out)@) == acts(old(out)@) + self@.answer(i as int, msg@),
    {
        let mut to: Vec<u64> = Vec::new();
        to.push(self.viewers[i].id);
        assert(to@ =~= seq![self@.viewers[i as int].id]);
        push_send(out, to, msg);
        assert(acts(out@) =~= acts(old(out)@) + self@.answer(i as int, msg@));
    }

    /// Viewer `i` broke the protocol: it is told so and dropped.
    fn fail(&mut self, out: &mut Vec<Action>, i: usize, message: String)
        requires
            old(self).wf(),
            i < old(self).viewers@.len(),
        ensures
            final(self).wf(),
            final(self)@ == old(self)@.failing(i as int),
            acts(final(out)@) == acts(old(out)@) + old(self)@.error_answer(i as int, message@),
    {
        self.push_answer(out, i, FromSession::Error { message });
        self.viewers[i].dead = true;
        assert(self@.viewers =~= old(self)@.failing(i as int).viewers);
    }

    /// Input from viewer `i`.
    fn on_input(
        &mut self,
        out: &mut Vec<Action>,
        i: usize,
        data: String,
        delays: Vec<crate::protocol::InputDelay>,
    )
        requires
            old(self).wf(),
            i < old(self).viewers@.len(),
        ensures
            final(self).wf(),
            final(self)@ == old(self)@.after_message(
                i as int,
                (ToSession::Input { data, delays }),
            ),
            acts(final(out)@) == acts(old(out)@) + old(self)@.message_acts(
                i as int,
                (ToSession::Input { data, delays }),
            ),
    {
        if self.readonly {
            // Reject without dropping the connection: a read-only session is a
            // policy answer, not a protocol violation.
            self.push_answer(
                out,
                i,
                FromSession::Error { message: "session is read-only".to_owned() },
            );
            return ;
        }
        match decode_terminal_bytes(data.as_str()) {
            Err(e) => {
                let mut message = "invalid input encoding: ".to_owned();
                message.append(e.as_str());
                self.fail(out, i, message);
            },
            Ok(bytes) => {
                if delays.len() > MAX_INPUT_DELAYS {
                    let mut message = "too many input delays (max ".to_owned();
                    push_decimal(&mut message, MAX_INPUT_DELAYS as u64);
                    message.append(")");
                    self.fail(out, i, message);
                } else if !check_delays(&delays, bytes.len()) {
                    self.fail(
                        out,
                        i,
                        "input delay offsets must be non-decreasing and within the data".to_owned(),
                    );
                } else {
                    self.input.push(bytes, &delays);
                    out.push(Action::PumpInput);
                    assert(acts(out@) =~= acts(old(out)@) + seq![Act::PumpInput]);
                }
            },
        }
    }

    /// Handle one message from a viewer (already past init). A protocol error
    /// drops that viewer. May restart the view for everyone; the sweep follows.
    pub fn on_viewer_message(&mut self, id: u64, msg: ToSession) -> (r: Vec<Action>)
        requires
            old(self).wf(),
            old(self)@.has_room(),
        ensures
            final(self).wf(),
            match find_client(old(self)@.viewers, id, 0) {
                Some(i) => {
                    &&& final(self)@ == old(self)@.after_message(i, msg)
                    &&& acts(r@) == old(self)@.message_acts(i, msg).push(Act::Sweep)
                    &&& msg is History ==> (acts(r@)[0] matches Act::Send { msg: reply, .. }
                        && lines_decode(reply, old(self)@.mirror.history))
                },
                None => final(self)@ == old(self)@ && r@.len() == 0,
            },
    {
        let mut out: Vec<Action> = Vec::new();
        assert(acts(out@) =~= Seq::<Act>::empty());
        let i: usize = match self.find(id) {
            Some(i) => i,
            None => return out,
        };
        let ghost at = i as int;
        assert(self@.viewers[at] == self.viewers@[at]@);
        match msg {
            ToSession::Init { .. } => {
                self.fail(&mut out, i, "duplicate init".to_owned());
            },
            ToSession::Monitor { .. } => {
                self.fail(&mut out, i, "already initialized as a viewer".to_owned());
            },
            ToSession::Resize { width, height } => {
                if !is_positive(height, width) {
                    self.fail(&mut out, i, "invalid resize dimensions".to_owned());
                } else {
                    self.viewers[i].width = width;
                    self.viewers[i].height = height;
                    assert(self@.viewers =~= old(self)@.with_dims(at, width, height).viewers);
                    // If this client controls the view size, everyone follows
                    // it.
                    self.refresh_view(&mut out, None);
                }
            },
            ToSession::Input { data, delays } => {
                self.on_input(&mut out, i, data, delays);
            },
            ToSession::View => {
                // The refresh restarts the view unconditionally, so this
                // client gets its snapshot even when the winning dimensions
                // are unchanged (and a re-sent view still re-snapshots); the
                // other viewers are re-snapshotted only if the dimensions
                // changed.
                self.viewers[i].state = ClientState::Viewing;
                assert(self@.viewers =~= old(self)@.with_state(at, ClientState::Viewing).viewers);
                self.refresh_view(&mut out, Some(i));
            },
            ToSession::History { before, limit } => {
                let reply = self.history_lines(before, limit);
                self.push_answer(&mut out, i, reply);
            },
            ToSession::Unview => {
                if self.viewers[i].state == ClientState::Viewing {
                    self.viewers[i].state = ClientState::Ready;
                    assert(self@.viewers =~= old(self)@.with_state(at, ClientState::Ready).viewers);
                    self.refresh_view(&mut out, None);
                }
            },
        }
        assert(acts(out@) =~= old(self)@.message_acts(at, msg));
        push_sweep(&mut out);
        out
    }

    /// A session that starts, at the size its child gets, with a title to show
    /// until the app sets one; the host terminal shows it too.
    pub fn new(
        rows: u16,
        cols: u16,
        headless: bool,
        readonly: bool,
        scrollback: usize,
        title: Option<String>,
    ) -> (r: (Self, Vec<Action>))
        requires
            positive(rows, cols),
        ensures
            r.0.wf(),
            r.0@.has_room(),
            r.0@.mirror == (MirrorView {
                history: HistoryView {
                    lines: Seq::empty(),
                    next: 0,
                    max_lines: scrollback as nat,
                },
                title: match title {
                    Some(t) => Some(without_controls(t@)),
                    None => None,
                },
                ..new_mirror(rows, cols)
            }),
            r.0@.pending.len() == 0,
            r.0@.viewers.len() == 0,
            r.0@.monitor is None,
            r.0@.host_rank == u32::MAX,
            !r.0@.host_attached,
            r.0@.headless == headless,
            r.0@.readonly == readonly,
            r.0@.bell == (BellView {
                window: BELL_DEBOUNCE as nat,
                last_sent: None,
                pending_at: None,
            }),
            r.0@.input.chunks.len() == 0,
            r.0@.input.due is None,
            r.0@.next_id == 0,
            acts(r.1@) == match title {
                Some(t) => host_write(
                    headless,
                    encode_utf8("\x1b]2;"@ + without_controls(t@) + "\x07"@),
                ),
                None => Seq::empty(),
            },
    {
        let mut out: Vec<Action> = Vec::new();
        assert(acts(out@) =~= Seq::<Act>::empty());
        let mut mirror = Mirror::new(rows, cols);
        mirror.set_history_limit(scrollback);
        assert(mirror.state().history.lines =~= Seq::<RecordView>::empty());
        if let Some(t) = title {
            // Strip control characters so an exotic title can't break out of
            // the escape sequence.
            let clean = clean_title(t.as_str());
            let mut sequence = "\x1b]2;".to_owned();
            sequence.append(clean.as_str());
            sequence.append("\x07");
            let mut bytes: Vec<u8> = Vec::new();
            crate::text::push_text(&mut bytes, sequence.as_str());
            assert(bytes@ =~= encode_utf8(sequence@));
            push_host_write(&mut out, headless, bytes);
            assert(acts(out@) =~= host_write(headless, bytes@));
            mirror.set_title(clean);
        }
        proof {
            mirror.lemma_wf();
        }
        let session = Session {
            mirror,
            pending: Vec::new(),
            viewers: Vec::new(),
            monitor: None,
            host_rank: u32::MAX,
            host_attached: false,
            headless,
            readonly,
            bell: BellDebouncer::new(BELL_DEBOUNCE),
            input: InputQueue::new(),
            next_id: 0,
        };
        assert(session@.viewers =~= Seq::<ClientView>::empty());
        (session, out)
    }

    /// The id of a new connection.
    pub fn accept(&mut self) -> (r: u64)
        requires
            old(self).wf(),
            old(self)@.next_id < u64::MAX,
        ensures
            final(self).wf(),
            r == old(self)@.next_id,
            final(self)@ == (SessionView { next_id: old(self)@.next_id + 1, ..old(self)@ }),
    {
        let id: u64 = self.next_id;
        self.next_id = id + 1;
        id
    }

    /// A new connection was sent its greeting; where that failed it is
    /// forgotten.
    pub fn on_greeted(&mut self, id: u64, sent: bool)
        requires
            old(self).wf(),
        ensures
            final(self).wf(),
            final(self)@ == (SessionView {
                pending: if sent {
                    old(self)@.pending.push(id)
                } else {
                    old(self)@.pending
                },
                ..old(self)@
            }),
    {
        if sent {
            self.pending.push(id);
        }
    }

    /// A connection spoke, or ended (`None`: EOF or garbage).
    pub fn on_message(&mut self, id: u64, msg: Option<ToSession>) -> (r: Vec<Action>)
        requires
            old(self).wf(),
            old(self)@.has_room(),
        ensures
            final(self).wf(),
            final(self)@ == old(self)@.after_arrival(id, msg),
            acts(r@) == old(self)@.arrival_acts(id, msg),
            (msg matches Some(m) && m is History) && find_pending(old(self)@.pending, id, 0) is None
                && old(self)@.monitor != Some(id) && find_client(old(self)@.viewers, id, 0) is Some
                ==> (acts(r@)[0] matches Act::Send { msg: reply, .. } && lines_decode(
                reply,
                old(self)@.mirror.history,
            )),
    {
        let mut out: Vec<Action> = Vec::new();
        assert(acts(out@) =~= Seq::<Act>::empty());
        let mut ids: Vec<u64> = Vec::new();
        ids.push(id);
        assert(ids@ =~= seq![id]);
        let mut at: usize = 0;
        while at < self.pending.len() && self.pending[at] != id
            invariant
                at <= self.pending@.len(),
                find_pending(self.pending@, id, at as int) == find_pending(self.pending@, id, 0),
            decreases self.pending@.len() - at,
        {
            at += 1;
        }
        if at < self.pending.len() {
            let _ = self.pending.remove(at);
            match msg {
                Some(m) => {
                    out = self.on_first_message(id, m);
                },
                None => {
                    push_close(&mut out, ids);
                    assert(acts(out@) =~= seq![Act::Close(seq![id])]);
                },
            }
            return out;
        }
        let monitor = self.is_monitor(id);
        match msg {
            None => {
                self.client_lost(id);
                if monitor {
                    push_close(&mut out, ids);
                    assert(acts(out@) =~= seq![Act::Close(seq![id])]);
                } else {
                    push_sweep(&mut out);
                    assert(acts(out@) =~= seq![Act::Sweep]);
                }
            },
            Some(m) => {
                // Monitors don't speak after their first message.
                if !monitor {
                    out = self.on_viewer_message(id, m);
                    assert(out@.len() == 0 ==> acts(out@) =~= Seq::<Act>::empty());
                }
            },
        }
        out
    }

    /// Whether a connection is a viewer's.
    pub fn is_viewer(&self, id: u64) -> (r: bool)
        ensures
            r == (find_client(self@.viewers, id, 0) is Some),
    {
        self.find(id).is_some()
    }

    /// Whether a connection is the monitor's. Monitors don't speak after their
    /// first message.
    pub fn is_monitor(&self, id: u64) -> (r: bool)
        ensures
            r == (self@.monitor == Some(id)),
    {
        self.monitor == Some(id)
    }

    /// How a new connection is greeted. In headless mode the "host" dimensions
    /// are the mirror's current host size; otherwise those of the terminal,
    /// as rows and columns.
    pub fn greeting(
        &self,
        pid: u32,
        command: String,
        cwd: String,
        terminal: (u16, u16),
        launched: Option<String>,
    ) -> (r: FromSession)
        requires
            self.wf(),
        ensures
            r@ == (SessionMsg::Connect {
                version: PROTOCOL_VERSION,
                pid,
                command: command@,
                cwd: cwd@,
                host_width: if self@.headless {
                    self@.mirror.host_cols
                } else {
                    terminal.1
                },
                host_height: if self@.headless {
                    self@.mirror.host_rows
                } else {
                    terminal.0
                },
                readonly: self@.readonly,
                history: HistoryExtent {
                    next: self@.mirror.history.next as u64,
                    oldest: self@.mirror.history.oldest() as u64,
                },
                title: self@.mirror.title,
                headless: self@.headless,
                detached: self@.headless && !self@.host_attached,
                launched: opt_text(launched),
            }),
    {
        let (rows, cols) = if self.headless {
            self.mirror.host_size()
        } else {
            terminal
        };
        let (next, oldest) = self.mirror.history_extent();
        let title = match self.mirror.title() {
            Some(t) => Some(t.to_owned()),
            None => None,
        };
        FromSession::Connect {
            version: PROTOCOL_VERSION,
            pid,
            command,
            cwd,
            host_width: cols,
            host_height: rows,
            readonly: self.readonly,
            history: HistoryExtent { next, oldest },
            title,
            headless: self.headless,
            detached: self.headless && !self.host_attached,
            launched,
        }
    }

    /// Child output: translate through the mirror; repaint the host, stream to
    /// the viewing clients, report bells to the monitor. `now` is the monotonic
    /// clock in nanoseconds, `at` the unix epoch in milliseconds.
    pub fn on_child_output(&mut self, bytes: &[u8], now: u64, at: u64) -> (r: Vec<Action>)
        requires
            old(self).wf(),
            old(self)@.has_room(),
            bytes@.len() <= MAX_CHUNK,
            now + BELL_DEBOUNCE <= u64::MAX,
        ensures
            final(self).wf(),
            final(self)@ == old(self)@.after_output(bytes@, now as nat, at),
            acts(r@) == old(self)@.output_acts(bytes@, now as nat, at),
    {
        let ghost start = self@;
        let mut out: Vec<Action> = Vec::new();
        assert(acts(out@) =~= Seq::<Act>::empty());
        let output = self.mirror.process(bytes);
        proof {
            self.mirror.lemma_wf();
        }
        push_host_write(&mut out, self.headless, output.host);
        let ghost written = acts(out@);
        if output.bells > 0 {
            if let Some(monitor) = self.monitor {
                if let Some(due) = self.bell.on_bell(now, at) {
                    let mut to: Vec<u64> = Vec::new();
                    to.push(monitor);
                    assert(to@ =~= seq![monitor]);
                    push_send(&mut out, to, FromSession::Bell { at: due });
                }
            }
        }
        let ghost rung = if start.rings(bytes@) {
            start.bell_acts(bell_step(start.bell, BellEvent::Bell { now: now as nat, at }).1)
        } else {
            Seq::empty()
        };
        assert(acts(out@) =~= written + rung);
        self.push_stream(&mut out, output.remote);
        let ghost streamed = acts(out@);
        if let Some(title) = output.title {
            let to = self.audience(Pick::All);
            push_send(&mut out, to, FromSession::Title { title });
        }
        assert(acts(out@) =~= streamed + start.retitle_acts(bytes@));
        out
    }

    /// Streams output to the viewing clients, if there is any.
    fn push_stream(&self, out: &mut Vec<Action>, remote: Option<Vec<u8>>)
        ensures
            acts(final(out)@) == acts(old(out)@) + match opt_bytes(remote) {
                Some(data) => if data.len() > 0 {
                    seq![
                        Act::Send {
                            to: ids_of(self@.viewers, Pick::Viewing),
                            msg: SessionMsg::Output { data: base64_text(data) },
                        },
                    ]
                } else {
                    Seq::empty()
                },
                None => Seq::empty(),
            },
    {
        let ghost start = acts(out@);
        let ghost sent = match opt_bytes(remote) {
            Some(data) => if data.len() > 0 {
                seq![
                    Act::Send {
                        to: ids_of(self@.viewers, Pick::Viewing),
                        msg: SessionMsg::Output { data: base64_text(data) },
                    },
                ]
            } else {
                Seq::empty()
            },
            None => Seq::empty(),
        };
        if let Some(data) = &remote {
            if data.len() > 0 {
                let to = self.ids(Vec::new(), Pick::Viewing);
                assert(to@ =~= ids_of(self@.viewers, Pick::Viewing));
                let data = encode_terminal_bytes(data.as_slice());
                push_send(out, to, FromSession::Output { data });
            }
        }
        assert(acts(out@) =~= start + sent);
    }

    /// What the child wrote just before it exited: delivered to the host
    /// terminal and the viewing clients.
    pub fn on_final_output(&mut self, bytes: &[u8]) -> (r: Vec<Action>)
        requires
            old(self).wf(),
            old(self)@.has_room(),
            bytes@.len() <= MAX_CHUNK,
        ensures
            final(self).wf(),
            final(self)@ == (SessionView {
                mirror: old(self)@.mirror.processed(bytes@),
                ..old(self)@
            }),
            acts(r@) == host_write(old(self)@.headless, old(self)@.mirror.host_bytes(bytes@))
                + old(self)@.stream_acts(bytes@),
    {
        let mut out: Vec<Action> = Vec::new();
        assert(acts(out@) =~= Seq::<Act>::empty());
        let output = self.mirror.process(bytes);
        proof {
            self.mirror.lemma_wf();
        }
        push_host_write(&mut out, self.headless, output.host);
        self.push_stream(&mut out, output.remote);
        assert(acts(out@) =~= host_write(
            old(self)@.headless,
            old(self)@.mirror.host_bytes(bytes@),
        ) + old(self)@.stream_acts(bytes@));
        out
    }

    /// Ctrl+G: toggle the simulated device view. Ignored while a real client is
    /// viewing (a real view exists exactly when a non-simulated view is
    /// active).
    fn toggle_simulated(&mut self, out: &mut Vec<Action>)
        requires
            old(self).wf(),
            old(self)@.has_room() || old(self)@.mirror.history.next + STEP_LINES <= u64::MAX,
        ensures
            final(self).wf(),
            final(self)@ == old(self)@.toggled(),
            acts(final(out)@) == acts(old(out)@) + old(self)@.toggle_acts(),
            final(self)@.mirror.history.next <= old(self)@.mirror.history.next + STEP_LINES,
    {
        let t = match self.mirror.view() {
            None => self.mirror.start_view(
                View { rows: SIM_ROWS, cols: SIM_COLS, simulated: true },
            ),
            Some(v) => {
                if v.simulated {
                    self.mirror.end_view()
                } else {
                    assert(acts(out@) =~= acts(old(out)@) + old(self)@.toggle_acts());
                    return ;
                }
            },
        };
        proof {
            self.mirror.lemma_wf();
        }
        let _ = push_transition(out, self.headless, t);
    }

    /// Keyboard input: intercept the hotkey, forward the rest to the child.
    /// Ctrl+L is forwarded too, and refreshes the mirrored scrollback and
    /// repaints while viewing.
    pub fn on_stdin(&mut self, bytes: &[u8]) -> (r: Vec<Action>)
        requires
            old(self).wf(),
            old(self)@.has_room(),
            bytes@.len() <= MAX_CHUNK,
        ensures
            final(self).wf(),
            final(self)@ == old(self)@.after_keys(bytes@),
            acts(r@) == old(self)@.key_acts(bytes@) + old(self)@.after_keys(
                bytes@,
            ).refresh_key_acts(bytes@),
    {
        let ghost start = self@;
        let mut out: Vec<Action> = Vec::new();
        let mut from: usize = 0;
        let mut at: usize = 0;
        let mut refresh = false;
        proof {
            assert(bytes@.skip(0) =~= bytes@);
            assert(acts(out@) + start.key_acts(bytes@) =~= start.key_acts(bytes@));
        }
        while at < bytes.len()
            invariant
                from <= at <= bytes@.len() <= MAX_CHUNK,
                self.wf(),
                self@.mirror.history.next <= HISTORY_CEILING + at * STEP_LINES,
                self@.after_keys(bytes@.skip(from as int)) == start.after_keys(bytes@),
                acts(out@) + self@.key_acts(bytes@.skip(from as int)) == start.key_acts(bytes@),
                forall|k: int| from <= k < at ==> bytes@[k] != HOTKEY,
                refresh == exists|k: int| 0 <= k < at && #[trigger] bytes@[k] == REFRESH_KEY,
            decreases bytes@.len() - at,
        {
            let b: u8 = bytes[at];
            let ghost rest = bytes@.skip(from as int);
            if b == HOTKEY {
                proof {
                    hotkey_is_first(rest, 0, at - from);
                    assert(rest.skip(at - from + 1) =~= bytes@.skip(at + 1));
                    assert(rest.take(at - from) =~= bytes@.subrange(from as int, at as int));
                }
                let ghost before = acts(out@);
                let ghost was = self@;
                push_pty_write(&mut out, vstd::slice::slice_subrange(bytes, from, at));
                assert(at * STEP_LINES <= MAX_CHUNK * STEP_LINES) by (nonlinear_arith)
                    requires
                        at <= MAX_CHUNK,
                ;
                self.toggle_simulated(&mut out);
                proof {
                    assert(acts(out@) + self@.key_acts(bytes@.skip(at + 1)) =~= before
                        + was.key_acts(rest));
                }
                from = at + 1;
            }
            if b == REFRESH_KEY {
                refresh = true;
            }
            assert((at + 1) * STEP_LINES == at * STEP_LINES + STEP_LINES) by (nonlinear_arith);
            at += 1;
        }
        proof {
            let rest = bytes@.skip(from as int);
            hotkey_is_first(rest, 0, rest.len() as int);
            assert(rest =~= bytes@.subrange(from as int, at as int));
        }
        push_pty_write(&mut out, vstd::slice::slice_subrange(bytes, from, at));
        let ghost typed = acts(out@);
        assert(refresh == bytes@.contains(REFRESH_KEY));
        if refresh {
            let repaint = self.mirror.refresh_scrollback();
            push_host_write(&mut out, self.headless, repaint);
        }
        assert(acts(out@) =~= typed + self@.refresh_key_acts(bytes@));
        out
    }

    /// The host terminal was resized. If it outranks the viewers, the view size
    /// follows with the sweep.
    pub fn on_host_resized(&mut self, rows: u16, cols: u16) -> (r: Vec<Action>)
        requires
            old(self).wf(),
            old(self)@.has_room(),
            positive(rows, cols),
        ensures
            final(self).wf(),
            final(self)@ == (SessionView {
                mirror: old(self)@.mirror.resized(rows, cols),
                ..old(self)@
            }),
            acts(r@) == old(self)@.resize_acts(rows, cols),
    {
        let mut out: Vec<Action> = Vec::new();
        assert(acts(out@) =~= Seq::<Act>::empty());
        let t = self.mirror.host_resized(rows, cols);
        proof {
            self.mirror.lemma_wf();
        }
        let ghost child_size = t.child_size;
        let ghost host_output = t.host_output@;
        let _ = push_transition(&mut out, self.headless, t);
        assert(acts(out@) =~= transition_acts(old(self)@.headless, child_size, host_output));
        push_sweep(&mut out);
        out
    }

    /// When a bell held by the debounce window is due to be reported, if any.
    pub fn bell_deadline(&self) -> (r: Option<u64>)
        requires
            self.wf(),
        ensures
            match (self@.bell.pending_at, self@.bell.last_sent) {
                (Some(_), Some(sent)) => r == Some((sent + self@.bell.window) as u64),
                _ => r is None,
            },
    {
        self.bell.deadline()
    }

    /// A bell held by the debounce window is due to be reported.
    pub fn on_bell_due(&mut self, now: u64) -> (r: Vec<Action>)
        requires
            old(self).wf(),
            now + BELL_DEBOUNCE <= u64::MAX,
        ensures
            final(self).wf(),
            final(self)@ == (SessionView {
                bell: bell_step(old(self)@.bell, BellEvent::Fire { now: now as nat }).0,
                ..old(self)@
            }),
            acts(r@) == old(self)@.bell_acts(
                bell_step(old(self)@.bell, BellEvent::Fire { now: now as nat }).1,
            ),
    {
        let mut out: Vec<Action> = Vec::new();
        let due = self.bell.fire(now);
        if let Some(at) = due {
            if let Some(monitor) = self.monitor {
                let mut to: Vec<u64> = Vec::new();
                to.push(monitor);
                assert(to@ =~= seq![monitor]);
                push_send(&mut out, to, FromSession::Bell { at });
            }
        }
        assert(acts(out@) =~= old(self)@.bell_acts(
            bell_step(old(self)@.bell, BellEvent::Fire { now: now as nat }).1,
        ));
        out
    }

    /// When the pause of the next queued input ends, if one is running.
    pub fn input_deadline(&self) -> (r: Option<u64>)
        ensures
            match self@.input.due {
                Some(due) => r == Some(due as u64),
                None => r is None,
            },
    {
        self.input.deadline()
    }

    /// The next queued input for the child, if it is due.
    pub fn next_input(&mut self, now: u64) -> (r: Option<Vec<u8>>)
        requires
            old(self).wf(),
            now + pause_of(MAX_INPUT_DELAY_MS) <= u64::MAX,
        ensures
            final(self).wf(),
            final(self)@ == (SessionView {
                input: old(self)@.input.next(now as nat).0,
                ..old(self)@
            }),
            opt_bytes(r) == old(self)@.input.next(now as nat).1,
    {
        self.input.next_chunk(now)
    }

    /// The app exited: every viewer is told, and the host terminal restored.
    pub fn on_exit(&self, status: Option<i32>) -> (r: Vec<Action>)
        requires
            self.wf(),
        ensures
            acts(r@) == seq![
                Act::Send {
                    to: ids_of(self@.viewers, Pick::All),
                    msg: SessionMsg::Exit { status },
                },
            ] + host_write(self@.headless, self@.mirror.cleanup_bytes()),
    {
        let mut out: Vec<Action> = Vec::new();
        let to = self.ids(Vec::new(), Pick::All);
        assert(to@ =~= ids_of(self@.viewers, Pick::All));
        push_send(&mut out, to, FromSession::Exit { status });
        assert(acts(out@) =~= seq![
            Act::Send {
                to: ids_of(self@.viewers, Pick::All),
                msg: SessionMsg::Exit { status },
            },
        ]);
        push_host_write(&mut out, self.headless, self.mirror.cleanup());
        out
    }
}

proof fn hotkey_is_first(bytes: Seq<u8>, from: int, at: int)
    requires
        0 <= from <= at <= bytes.len(),
        forall|k: int| from <= k < at ==> bytes[k] != HOTKEY,
        at < bytes.len() ==> bytes[at] == HOTKEY,
    ensures
        hotkey_at(bytes, from) == at,
    decreases at - from,
{
    if from < at {
        hotkey_is_first(bytes, from + 1, at);
    }
}

fn push_pty_write(out: &mut Vec<Action>, bytes: &[u8])
    ensures
        acts(final(out)@) == acts(old(out)@) + pty_write(bytes@),
{
    if bytes.len() > 0 {
        let mut chunk: Vec<u8> = Vec::new();
        push_bytes(&mut chunk, bytes);
        assert(chunk@ =~= bytes@);
        out.push(Action::WritePty(chunk));
    }
    assert(acts(out@) =~= acts(old(out)@) + pty_write(bytes@));
}

/// Answers a pending connection with an error and closes it.
fn turn_away(out: &mut Vec<Action>, id: u64, message: String)
    ensures
        acts(final(out)@) == acts(old(out)@) + SessionView::turned_away(id, message@),
{
    let mut to: Vec<u64> = Vec::new();
    to.push(id);
    let mut ids: Vec<u64> = Vec::new();
    ids.push(id);
    assert(to@ =~= seq![id]);
    assert(ids@ =~= seq![id]);
    push_send(out, to, FromSession::Error { message });
    push_close(out, ids);
    assert(acts(out@) =~= acts(old(out)@) + SessionView::turned_away(id, message@));
}

} // verus!
