//! What a session owes each party that takes part in it: the laws of its
//! answers, of who gets what, and of what each event leaves alone.

use crate::control::ClientState;
use crate::history::{
    budget_left, byte_total, page_fits, page_progress, page_start, page_start_from, RecordView,
};
use crate::input::{delays_fit, input_keeps_order, joined_bytes};
use crate::mirror::{MirrorView, View};
use crate::protocol::{
    base64_bytes, base64_text, InputDelay, Role, SessionMsg, ToSession,
};
use crate::render::snapshot_bytes;
use crate::session_model::{
    alive, best_client_is_outranked_by_none, fetch_limit, find_client, find_pending, history_reply,
    hotkey_at, ids_of, ids_where, is_viewing, outranks, takes, without_controls, Act, ClientView, Pick, SessionView,
};
use crate::terminal::vt_state_diff;
use crate::text::decimal;
use vstd::prelude::*;
use vstd::string::*;
use vstd::utf8::*;
use vstd::view::View as _;

verus! {

/// The one message that a party gets back.
pub open spec fn reply_to(id: u64, msg: SessionMsg) -> Seq<Act> {
    seq![Act::Send { to: seq![id], msg }]
}

proof fn page_is_longest(lines: Seq<RecordView>, from: nat, end: nat, limit: u32)
    requires
        from <= end <= lines.len(),
        page_fits(lines, from as int, end as int, limit),
    ensures
        ({
            let start = page_start_from(lines, from, end, limit);
            &&& start <= from
            &&& page_fits(lines, start as int, end as int, limit)
            &&& start > 0 ==> !page_fits(lines, start - 1, end as int, limit)
        }),
    decreases from,
{
    if from > 0 && page_fits(lines, from - 1, end as int, limit) {
        page_is_longest(lines, (from - 1) as nat, end, limit);
    }
}

pub(crate) proof fn page_bounds(lines: Seq<RecordView>, end: nat, most: u32)
    requires
        end <= lines.len(),
    ensures
        ({
            let start = page_start(lines, end, most);
            &&& start <= end
            &&& end - start <= most
            &&& end > 0 && most > 0 ==> start < end
            &&& start > 0 ==> end - start == most || lines[start - 1].bytes.len() + byte_total(
                lines,
                start as int,
                end as int,
            ) > 196608
        }),
{
    let start = page_start(lines, end, most);
    assert(page_fits(lines, end as int, end as int, most));
    page_is_longest(lines, end, end, most);
    if end > 0 && most > 0 {
        page_progress(lines, end, most);
    }
    if start > 0 && end - start < most {
        assert(!page_fits(lines, start - 1, end as int, most));
        let k = choose|k: int|
            start - 1 <= k < end - 1 && !((#[trigger] lines[k]).bytes.len() <= budget_left(
                lines,
                k + 1,
                end as int,
            ));
        assert(k == start - 1) by {
            if k >= start {
                assert(lines[k].bytes.len() <= budget_left(lines, k + 1, end as int));
            }
        }
    }
}

/// A history reply goes to the client that asked, changes nothing, and holds
/// the archived lines just before the index asked for: each line has the
/// bytes, the width and the wrapping of the record at its index. There are at
/// most 500 of them and not more than were asked for; at least one, where
/// there is one and it is asked for; and one more would be one too many, or
/// would not fit in 196608 bytes with the others.
pub proof fn history_replies_are_faithful(
    s: SessionView,
    i: int,
    before: u64,
    limit: Option<u32>,
)
    requires
        s.mirror.history.wf(),
        0 <= i < s.viewers.len(),
    ensures
        s.after_message(i, ToSession::History { before, limit }) == s,
        ({
            let h = s.mirror.history;
            let oldest = h.next - h.lines.len();
            let end: int = if before > h.next {
                h.next as int
            } else if before < oldest {
                oldest
            } else {
                before as int
            };
            let most: int = match limit {
                Some(n) if n < 500 => n as int,
                _ => 500,
            };
            let acts = s.message_acts(i, ToSession::History { before, limit });
            &&& acts.len() == 1
            &&& match acts[0] {
                Act::Send {
                    to,
                    msg: SessionMsg::HistoryLines { start, oldest: first, next, lines },
                } => {
                &&& to == seq![s.viewers[i].id]
                &&& first == oldest
                &&& next == h.next
                &&& first <= start
                &&& start + lines.len() == end
                &&& lines.len() <= most
                &&& end > oldest && most > 0 ==> lines.len() > 0
                &&& start > first ==> lines.len() == most || h.lines[start - first - 1].bytes.len()
                    + byte_total(h.lines, start - first, end - first) > 196608
                &&& forall|k: int|
                    0 <= k < lines.len() ==> {
                        let record = h.lines[start - first + k];
                        &&& (#[trigger] lines[k]).data == base64_text(record.bytes)
                        &&& lines[k].width == record.width
                        &&& lines[k].wrapped == record.wrapped
                    }
                },
                _ => false,
            }
        }),
{
    let h = s.mirror.history;
    let end = h.page_end(before);
    let most = fetch_limit(limit);
    let start = page_start(h.lines, end, most);
    page_bounds(h.lines, end, most);
    let acts = s.message_acts(i, ToSession::History { before, limit });
    assert(acts[0] == Act::Send {
        to: seq![s.viewers[i].id],
        msg: history_reply(h, before, limit),
    });
}

/// The ids of clients, in their order.
pub open spec fn ids(clients: Seq<ClientView>) -> Seq<u64> {
    clients.map_values(|c: ClientView| c.id)
}

proof fn picked_are_filtered(viewers: Seq<ClientView>, pick: Pick, wanted: spec_fn(ClientView) -> bool)
    requires
        forall|c: ClientView| #[trigger] wanted(c) == takes(pick, c),
    ensures
        ids_of(viewers, pick) == ids(viewers.filter(wanted)),
    decreases viewers.len(),
{
    reveal(Seq::filter);
    if viewers.len() > 0 {
        picked_are_filtered(viewers.drop_last(), pick, wanted);
        assert(ids_of(viewers, pick) =~= ids(viewers.filter(wanted)));
    } else {
        assert(ids_of(viewers, pick) =~= ids(viewers.filter(wanted)));
    }
}

proof fn alive_are_filtered(viewers: Seq<ClientView>)
    ensures
        alive(viewers) == viewers.filter(|c: ClientView| !c.dead),
    decreases viewers.len(),
{
    reveal(Seq::filter);
    if viewers.len() > 0 {
        alive_are_filtered(viewers.drop_last());
    }
}

proof fn chosen_are_members(
    viewers: Seq<ClientView>,
    chosen: spec_fn(int, ClientView) -> bool,
    n: nat,
)
    requires
        n <= viewers.len(),
    ensures
        forall|k: int|
            0 <= k < n && chosen(k, viewers[k]) ==> ids_where(viewers, chosen, n).contains(
                (#[trigger] viewers[k]).id,
            ),
        forall|id: u64| #[trigger]
            ids_where(viewers, chosen, n).contains(id) ==> exists|k: int|
                0 <= k < n && chosen(k, viewers[k]) && (#[trigger] viewers[k]).id == id,
    decreases n,
{
    if n > 0 {
        let m = (n - 1) as nat;
        chosen_are_members(viewers, chosen, m);
        let before = ids_where(viewers, chosen, m);
        let all = ids_where(viewers, chosen, n);
        assert forall|k: int| 0 <= k < n && chosen(k, viewers[k]) implies all.contains(
            (#[trigger] viewers[k]).id,
        ) by {
            if k < m {
                assert(before.contains(viewers[k].id));
                let at = choose|at: int| 0 <= at < before.len() && before[at] == viewers[k].id;
                assert(all[at] == viewers[k].id);
            } else {
                assert(all.last() == viewers[k].id);
            }
        }
        assert forall|id: u64| #[trigger] all.contains(id) implies exists|k: int|
            0 <= k < n && chosen(k, viewers[k]) && (#[trigger] viewers[k]).id == id by {
            let at = choose|at: int| 0 <= at < all.len() && all[at] == id;
            if at < before.len() {
                assert(before[at] == id);
                assert(before.contains(id));
            } else {
                assert(viewers[m as int].id == id);
            }
        }
    }
}

/// A connection whose first message is an `init` is refused for the first of
/// these reasons that holds: another protocol version than 1, a size without a
/// cell, the host role on a session that has a host terminal, and the host
/// role while it is held, unless it is claimed by force. It is then told why
/// and closed, and the session stays as it is.
pub proof fn unfit_clients_are_refused(
    s: SessionView,
    id: u64,
    version: u32,
    device: String,
    width: u16,
    height: u16,
    size_rank: Option<u32>,
    host_size_rank: Option<u32>,
    role: Role,
    force: bool,
)
    ensures
        ({
            let msg = ToSession::Init {
                version,
                device,
                width,
                height,
                size_rank,
                host_size_rank,
                role,
                force,
            };
            let held = exists|k: int|
                0 <= k < s.viewers.len() && !(#[trigger] s.viewers[k]).dead && s.viewers[k].role
                    == Role::Host;
            let refusal = if version != 1 {
                Some(
                    "unsupported protocol version "@ + decimal(version as nat) + " (expected "@
                        + decimal(1) + ")"@,
                )
            } else if width == 0 || height == 0 {
                Some("invalid device dimensions"@)
            } else if role == Role::Host && !s.headless {
                Some("this session has a real host terminal; use g2mirror-view to watch it"@)
            } else if role == Role::Host && held && !force {
                Some("session is already attached; g2mirror --attach --force takes it over"@)
            } else {
                None
            };
            match refusal {
                Some(message) => s.after_first(id, msg) == s && s.first_acts(id, msg) =~= seq![
                    Act::Send { to: seq![id], msg: SessionMsg::Error { message } },
                    Act::Close(seq![id]),
                    Act::Sweep,
                ],
                None => s.after_first(id, msg).viewers.len() == s.viewers.len() + 1,
            }
        }),
{
}

/// A client that is not refused joins behind the others, as it introduced
/// itself: ready, not viewing yet, and ranked first where it names no rank. It
/// alone is told the title. Whoever held the host role that it claims loses
/// it, and is told so; the others stay as they are. A rank that it brings for
/// the host holds from then on, and nothing else changes.
pub proof fn admitted_clients_join(
    s: SessionView,
    id: u64,
    device: String,
    width: u16,
    height: u16,
    size_rank: Option<u32>,
    host_size_rank: Option<u32>,
    role: Role,
    force: bool,
)
    requires
        width > 0,
        height > 0,
        role == Role::Host ==> s.headless && (force || forall|k: int|
            0 <= k < s.viewers.len() && (#[trigger] s.viewers[k]).role == Role::Host
                ==> s.viewers[k].dead),
    ensures
        ({
            let msg = ToSession::Init {
                version: 1,
                device,
                width,
                height,
                size_rank,
                host_size_rank,
                role,
                force,
            };
            let after = s.after_first(id, msg);
            let n = s.viewers.len() as int;
            let held = exists|k: int|
                0 <= k < s.viewers.len() && !(#[trigger] s.viewers[k]).dead && s.viewers[k].role
                    == Role::Host;
            &&& after == (SessionView {
                viewers: after.viewers,
                host_rank: after.host_rank,
                ..s
            })
            &&& after.host_rank == (if host_size_rank is Some {
                host_size_rank->Some_0
            } else {
                s.host_rank
            })
            &&& after.viewers.len() == n + 1
            &&& after.viewers[n].state == ClientState::Ready
            &&& after.viewers[n].device == device@
            &&& after.viewers[n].width == width
            &&& after.viewers[n].height == height
            &&& after.viewers[n].size_rank == (if size_rank is Some {
                size_rank->Some_0
            } else {
                0
            })
            &&& after.viewers[n].role == role
            &&& after.viewers[n].id == id
            &&& !after.viewers[n].dead
            &&& forall|k: int|
                0 <= k < n ==> {
                    let c = #[trigger] after.viewers[k];
                    &&& c == (ClientView { dead: c.dead, ..s.viewers[k] })
                    &&& c.dead == (s.viewers[k].dead || (held && role == Role::Host && c.role
                        == Role::Host))
                }
            &&& s.first_acts(id, msg) =~= (if held && role == Role::Host {
                seq![
                    Act::Send {
                        to: ids(s.viewers.filter(|c: ClientView| c.role == Role::Host)),
                        msg: SessionMsg::Error {
                            message: "host role taken over by another attach client"@,
                        },
                    },
                ]
            } else {
                Seq::empty()
            }) + (match s.mirror.title {
                Some(title) => reply_to(id, SessionMsg::Title { title }),
                None => Seq::empty(),
            }) + seq![Act::Sweep]
        }),
{
    picked_are_filtered(s.viewers, Pick::HostRole, |c: ClientView| c.role == Role::Host);
}

/// A connection that asks to monitor in protocol version 1 becomes the
/// monitor, and is told the title; the one before it is closed. In another
/// version, or with any other first message but `init`, a connection is told
/// what is wrong and closed, and nothing changes.
pub proof fn monitors_replace_each_other(s: SessionView, id: u64, version: u32, other: ToSession)
    requires
        !(other is Init),
        !(other is Monitor),
    ensures
        ({
            let msg = ToSession::Monitor { version };
            if version == 1 {
                &&& s.after_first(id, msg) == (SessionView { monitor: Some(id), ..s })
                &&& s.first_acts(id, msg) =~= (match s.monitor {
                    Some(previous) => seq![Act::Close(seq![previous])],
                    None => Seq::empty(),
                }) + (match s.mirror.title {
                    Some(title) => reply_to(id, SessionMsg::Title { title }),
                    None => Seq::empty(),
                })
            } else {
                &&& s.after_first(id, msg) == s
                &&& s.first_acts(id, msg) =~= reply_to(
                    id,
                    SessionMsg::Error {
                        message: "unsupported protocol version "@ + decimal(version as nat),
                    },
                ) + seq![Act::Close(seq![id])]
            }
        }),
        s.after_first(id, other) == s,
        s.first_acts(id, other) =~= reply_to(
            id,
            SessionMsg::Error { message: "first message must be init or monitor"@ },
        ) + seq![Act::Close(seq![id])],
{
}

/// A client that introduces itself twice, or resizes to a size without a cell,
/// is told so and given up; no other client is touched by that, and the
/// session goes on as before.
pub proof fn misbehaving_clients_are_given_up(s: SessionView, i: int, msg: ToSession)
    requires
        0 <= i < s.viewers.len(),
        ({
            ||| msg is Init
            ||| msg is Monitor
            ||| msg matches ToSession::Resize { width, height } && (width == 0 || height == 0)
        }),
    ensures
        s.message_acts(i, msg) =~= reply_to(
            s.viewers[i].id,
            SessionMsg::Error {
                message: match msg {
                    ToSession::Init { .. } => "duplicate init"@,
                    ToSession::Monitor { .. } => "already initialized as a viewer"@,
                    _ => "invalid resize dimensions"@,
                },
            },
        ),
        s.after_message(i, msg) == (SessionView {
            viewers: s.after_message(i, msg).viewers,
            ..s
        }),
        s.after_message(i, msg).viewers.len() == s.viewers.len(),
        s.after_message(i, msg).viewers[i] == (ClientView { dead: true, ..s.viewers[i] }),
        forall|k: int|
            0 <= k < s.viewers.len() && k != i ==> s.after_message(i, msg).viewers[k]
                == #[trigger] s.viewers[k],
{
}

/// Viewing, not viewing any more and resizing change just that of the client
/// that asks, and beyond the clients only the mirror.
pub proof fn requests_change_their_client(s: SessionView, i: int, width: u16, height: u16)
    requires
        0 <= i < s.viewers.len(),
        width > 0,
        height > 0,
    ensures
        s.after_message(i, ToSession::View) == (SessionView {
            mirror: s.after_message(i, ToSession::View).mirror,
            viewers: s.viewers.update(
                i,
                ClientView { state: ClientState::Viewing, ..s.viewers[i] },
            ),
            ..s
        }),
        s.after_message(i, ToSession::Resize { width, height }) == (SessionView {
            mirror: s.after_message(i, ToSession::Resize { width, height }).mirror,
            viewers: s.viewers.update(i, ClientView { width, height, ..s.viewers[i] }),
            ..s
        }),
        s.viewers[i].state == ClientState::Viewing ==> s.after_message(i, ToSession::Unview) == (
        SessionView {
            mirror: s.after_message(i, ToSession::Unview).mirror,
            viewers: s.viewers.update(
                i,
                ClientView { state: ClientState::Ready, ..s.viewers[i] },
            ),
            ..s
        }),
        s.viewers[i].state != ClientState::Viewing ==> s.after_message(i, ToSession::Unview) == s
            && s.message_acts(i, ToSession::Unview) =~= Seq::<Act>::empty(),
{
}

/// The size that a session with clients that view is brought to: that of the
/// client whose rank is least, and of those the one that came first, where the
/// session has no host terminal or the client does not rank behind it;
/// otherwise that of the host terminal. A client in the host role ranks as the
/// host does.
pub open spec fn sized_by(s: SessionView, i: int, rows: u16, cols: u16) -> bool {
    let rank = |c: ClientView|
        if c.role == Role::Host {
            s.host_rank
        } else {
            c.size_rank
        };
    let best = s.viewers[i];
    &&& 0 <= i < s.viewers.len()
    &&& !best.dead && best.state == ClientState::Viewing
    &&& forall|k: int|
        0 <= k < s.viewers.len() && !(#[trigger] s.viewers[k]).dead && s.viewers[k].state
            == ClientState::Viewing ==> rank(best) < rank(s.viewers[k]) || (rank(best) == rank(
            s.viewers[k],
        ) && best.id <= s.viewers[k].id)
    &&& if s.headless || rank(best) <= s.host_rank {
        rows == best.height && cols == best.width
    } else {
        rows == s.mirror.host_rows && cols == s.mirror.host_cols
    }
}

/// Whoever is viewing, the size that the session is brought to is that of the
/// party that takes precedence; and with no client viewing there is no device
/// to bring it to.
pub proof fn precedence_sets_the_size(s: SessionView, force_for: Option<int>)
    ensures
        ({
            let viewed = exists|k: int|
                0 <= k < s.viewers.len() && !(#[trigger] s.viewers[k]).dead && s.viewers[k].state
                    == ClientState::Viewing;
            let after = s.refreshed(force_for).mirror.view;
            if viewed {
                &&& after is Some
                &&& !after->Some_0.simulated
                &&& exists|i: int|
                    #[trigger] sized_by(s, i, after->Some_0.rows, after->Some_0.cols)
            } else {
                &&& s.headless ==> after == s.mirror.view
                &&& !s.headless ==> after == (match s.mirror.view {
                    Some(v) if v.simulated => Some(v),
                    _ => None,
                })
            }
        }),
{
    best_client_is_outranked_by_none(s);
    reveal(MirrorView::viewing);
    reveal(MirrorView::unviewed);
    if let Some(i) = s.best() {
        let after = s.refreshed(force_for).mirror.view;
        assert(is_viewing(s.viewers[i as int]));
        assert(after is Some);
        assert(sized_by(s, i as int, after->Some_0.rows, after->Some_0.cols)) by {
            assert forall|k: int|
                0 <= k < s.viewers.len() && !(#[trigger] s.viewers[k]).dead && s.viewers[k].state
                    == ClientState::Viewing implies !outranks(
                s.viewers[k],
                s.viewers[i as int],
                s.host_rank,
            ) by {
                assert(is_viewing(s.viewers[k]));
            }
        }
    } else {
        assert forall|k: int| 0 <= k < s.viewers.len() implies !(!(#[trigger] s.viewers[k]).dead
            && s.viewers[k].state == ClientState::Viewing) by {
            assert(!is_viewing(s.viewers[k]));
        }
    }
}

/// Whether a list of ids holds those of just the clients that `wanted` tells,
/// by place.
pub open spec fn sent_to(
    to: Seq<u64>,
    viewers: Seq<ClientView>,
    wanted: spec_fn(int) -> bool,
) -> bool {
    &&& forall|k: int|
        0 <= k < viewers.len() && wanted(k) ==> to.contains((#[trigger] viewers[k]).id)
    &&& forall|id: u64| #[trigger]
        to.contains(id) ==> exists|k: int|
            0 <= k < viewers.len() && wanted(k) && (#[trigger] viewers[k]).id == id
}

/// Bringing the session to a size resizes the child to it, and sends the
/// clients a snapshot of the screen as it was, at that size: every client that
/// views, where the size is a new one or the view was simulated, and otherwise
/// the one that asked. It says where the history before it ends. Where the
/// size stays and nobody asked, nothing is done.
pub proof fn snapshots_go_to_who_needs_one(s: SessionView, i: int, force_for: Option<int>)
    requires
        0 <= i < s.viewers.len(),
        !s.viewers[i].dead,
        s.viewers[i].state == ClientState::Viewing,
    ensures
        ({
            let after = s.refreshed(force_for);
            let acts = s.refresh_acts(force_for);
            let view = after.mirror.view->Some_0;
            let same = s.mirror.view matches Some(v) && !v.simulated && v.rows == view.rows
                && v.cols == view.cols;
            if same && force_for is None {
                &&& after == s
                &&& acts =~= Seq::<Act>::empty()
            } else {
                &&& acts.len() >= 2
                &&& acts[0] == (Act::ResizePty { rows: view.rows, cols: view.cols })
                &&& forall|k: int|
                    0 < k < acts.len() - 1 ==> #[trigger] acts[k] is WriteHost && !s.headless
                &&& match acts.last() {
                    Act::Send {
                        to,
                        msg: SessionMsg::Snapshot { data, width, height, history_next },
                    } => {
                        &&& sent_to(
                            to,
                            s.viewers,
                            |k: int|
                                !s.viewers[k].dead && s.viewers[k].state == ClientState::Viewing
                                    && (!same || force_for == Some(k)),
                        )
                        &&& data == base64_text(snapshot_bytes(s.mirror.log, height, width))
                        &&& width == view.cols
                        &&& height == view.rows
                        &&& history_next == after.mirror.history.next as u64
                    },
                    _ => false,
                }
            }
        }),
{
    best_client_is_outranked_by_none(s);
    assert(is_viewing(s.viewers[i]));
    reveal(MirrorView::viewing);
    let (rows, cols) = s.target()->Some_0;
    let changed = s.must_change(rows, cols);
    chosen_are_members(
        s.viewers,
        SessionView::snapshot_goes_to(changed, force_for),
        s.viewers.len(),
    );
    let acts = s.refresh_acts(force_for);
    if changed || force_for is Some {
        let view = s.refreshed(force_for).mirror.view->Some_0;
        assert(view.rows == rows && view.cols == cols);
        let to = ids_where(
            s.viewers,
            SessionView::snapshot_goes_to(changed, force_for),
            s.viewers.len(),
        );
        let same = s.mirror.view matches Some(v) && !v.simulated && v.rows == view.rows && v.cols
            == view.cols;
        let wanted = |k: int|
            !s.viewers[k].dead && s.viewers[k].state == ClientState::Viewing && (!same || force_for
                == Some(k));
        let chosen = SessionView::snapshot_goes_to(changed, force_for);
        assert forall|k: int| 0 <= k < s.viewers.len() implies #[trigger] wanted(k) == chosen(
            k,
            s.viewers[k],
        ) by {}
        assert forall|id: u64| #[trigger] to.contains(id) implies exists|k: int|
            0 <= k < s.viewers.len() && wanted(k) && (#[trigger] s.viewers[k]).id == id by {
            let k = choose|k: int|
                0 <= k < s.viewers.len() && chosen(k, s.viewers[k]) && (
                #[trigger] s.viewers[k]).id == id;
            assert(wanted(k));
        }
        assert forall|k: int| 0 <= k < s.viewers.len() && wanted(k) implies to.contains(
            (#[trigger] s.viewers[k]).id,
        ) by {
            assert(chosen(k, s.viewers[k]));
        }
        assert(sent_to(to, s.viewers, wanted));
    }
}

/// A client that asks to view gets a snapshot at the size of the view, and
/// from then on the session has one.
pub proof fn viewing_starts_with_a_snapshot(s: SessionView, i: int)
    requires
        0 <= i < s.viewers.len(),
        !s.viewers[i].dead,
    ensures
        ({
            let after = s.after_message(i, ToSession::View);
            let acts = s.message_acts(i, ToSession::View);
            &&& after.mirror.view matches Some(v) && !v.simulated && acts.len() > 0
                && match acts.last() {
                Act::Send {
                    to,
                    msg: SessionMsg::Snapshot { data, width, height, history_next },
                } => to.contains(s.viewers[i].id) && data == base64_text(
                    snapshot_bytes(s.mirror.log, height, width),
                ) && width == v.cols && height == v.rows && history_next
                    == after.mirror.history.next as u64,
                _ => false,
            }
        }),
{
    let viewing = s.with_state(i, ClientState::Viewing);
    snapshots_go_to_who_needs_one(viewing, i, Some(i));
    precedence_sets_the_size(viewing, Some(i));
    assert(viewing.viewers[i].id == s.viewers[i].id);
    assert(!viewing.viewers[i].dead && viewing.viewers[i].state == ClientState::Viewing);
}

/// When the last device stops viewing, the child gets the host terminal's size
/// back, the host's screen is cleared and its input modes are reset. A session
/// without a host terminal keeps its size.
pub proof fn last_device_gives_the_host_its_size_back(s: SessionView, view: View)
    requires
        forall|k: int|
            0 <= k < s.viewers.len() && (#[trigger] s.viewers[k]).state == ClientState::Viewing
                ==> s.viewers[k].dead,
        s.mirror.view == Some(view),
        !view.simulated,
    ensures
        s.headless ==> s.refreshed(None) == s && s.refresh_acts(None) =~= Seq::<Act>::empty(),
        !s.headless ==> {
            let acts = s.refresh_acts(None);
            let bytes = s.mirror.zone_bytes() + encode_utf8("\x1b[0m\x1b[H\x1b[2J"@) + encode_utf8(
                "\x1b[?1l\x1b>\x1b[?2004l\x1b[?1000l\x1b[?1002l\x1b[?1003l\x1b[?1006l"@,
            );
            &&& s.refreshed(None).mirror.view is None
            &&& s.refreshed(None).viewers == s.viewers
            &&& bytes.len() > 0 ==> acts =~= seq![
                Act::ResizePty { rows: s.mirror.host_rows, cols: s.mirror.host_cols },
                Act::WriteHost(bytes),
            ]
        },
{
    best_client_is_outranked_by_none(s);
    reveal(MirrorView::unviewed);
}

/// What a chunk of the child's output leads to: it reaches the host terminal,
/// where there is one; a bell reaches the monitor, unless one was reported less
/// than three seconds ago; what
/// it changed on the screen goes to just the clients that view, once somebody
/// does; and a new title to the monitor and every client.
pub proof fn output_reaches_every_party(s: SessionView, bytes: Seq<u8>, now: nat, at: u64)
    requires
        s.wf(),
        bytes.len() > 0,
    ensures
        ({
            let done = s.mirror.after_slices(bytes);
            let host = s.mirror.host_bytes(bytes);
            let streamed = match s.mirror.shadow {
                Some(shadow) => vt_state_diff(done.log, shadow),
                None => Seq::empty(),
            };
            let quiet = match s.bell.last_sent {
                Some(sent) => sent + 3_000_000_000 <= now,
                None => true,
            };
            s.output_acts(bytes, now, at) =~= (if s.headless || host.len() == 0 {
                Seq::empty()
            } else {
                seq![Act::WriteHost(host)]
            }) + (match s.monitor {
                Some(id) if done.bells > 0 && quiet => reply_to(id, SessionMsg::Bell { at }),
                _ => Seq::empty(),
            }) + (if streamed.len() > 0 {
                seq![
                    Act::Send {
                        to: ids(
                            s.viewers.filter(|c: ClientView| c.state == ClientState::Viewing),
                        ),
                        msg: SessionMsg::Output { data: base64_text(streamed) },
                    },
                ]
            } else {
                Seq::empty()
            }) + (match done.new_title {
                Some(title) if s.mirror.title != Some(title) => seq![
                    Act::Send {
                        to: (match s.monitor {
                            Some(id) => seq![id],
                            None => Seq::empty(),
                        }) + ids(s.viewers),
                        msg: SessionMsg::Title { title },
                    },
                ],
                _ => Seq::empty(),
            })
        }),
{
    picked_are_filtered(
        s.viewers,
        Pick::Viewing,
        |c: ClientView| c.state == ClientState::Viewing,
    );
    all_are_picked(s.viewers);
}

proof fn all_are_picked(viewers: Seq<ClientView>)
    ensures
        ids_of(viewers, Pick::All) == ids(viewers),
    decreases viewers.len(),
{
    if viewers.len() > 0 {
        all_are_picked(viewers.drop_last());
    }
    assert(ids_of(viewers, Pick::All) =~= ids(viewers));
}

/// Clients that were given up are closed and leave, and the size follows those
/// that stay, in their order.
pub proof fn sweeping_drops_the_dead(s: SessionView)
    ensures
        s.without_dead() == (SessionView {
            viewers: s.viewers.filter(|c: ClientView| !c.dead),
            ..s
        }),
        s.sweep_acts().len() > 0,
        s.sweep_acts()[0] == Act::Close(ids(s.viewers.filter(|c: ClientView| c.dead))),
        s.sweep_acts().skip(1) == s.without_dead().refresh_acts(None),
{
    alive_are_filtered(s.viewers);
    picked_are_filtered(s.viewers, Pick::Dead, |c: ClientView| c.dead);
    assert(s.sweep_acts().skip(1) =~= s.without_dead().refresh_acts(None));
}

/// A connection that fails is given up, whichever part it played, and nobody
/// else is.
pub proof fn failures_stay_with_their_connection(s: SessionView, id: u64)
    ensures
        s.after_failure(id) == (SessionView {
            monitor: s.after_failure(id).monitor,
            viewers: s.after_failure(id).viewers,
            ..s
        }),
        s.monitor == Some(id) ==> s.after_failure(id).monitor is None,
        s.monitor != Some(id) ==> s.after_failure(id).monitor == s.monitor,
        s.after_failure(id).viewers.len() == s.viewers.len(),
        forall|k: int|
            0 <= k < s.viewers.len() ==> (#[trigger] s.after_failure(id).viewers[k]) == (
            ClientView { dead: s.viewers[k].dead || s.viewers[k].id == id, ..s.viewers[k] }),
{
}

/// A change of whether the host role is held is told to the monitor and every
/// client that is left, once.
pub proof fn occupancy_is_reported_once(s: SessionView)
    ensures
        ({
            let held = exists|k: int|
                0 <= k < s.viewers.len() && !(#[trigger] s.viewers[k]).dead && s.viewers[k].role
                    == Role::Host;
            &&& s.occupancy_noted() == (SessionView { host_attached: held, ..s })
            &&& s.occupancy_acts() =~= (if held == s.host_attached {
                Seq::empty()
            } else {
                seq![
                    Act::Send {
                        to: (match s.monitor {
                            Some(id) => seq![id],
                            None => Seq::empty(),
                        }) + ids(s.viewers.filter(|c: ClientView| !c.dead)),
                        msg: SessionMsg::HostChanged { attached: held },
                    },
                ]
            })
            &&& s.occupancy_noted().occupancy_acts() =~= Seq::<Act>::empty()
        }),
{
    picked_are_filtered(s.viewers, Pick::Alive, |c: ClientView| !c.dead);
}

proof fn pending_is_found(pending: Seq<u64>, id: u64, from: int)
    requires
        0 <= from <= pending.len(),
    ensures
        match find_pending(pending, id, from) {
            Some(k) => from <= k < pending.len() && pending[k] == id && forall|j: int|
                from <= j < k ==> #[trigger] pending[j] != id,
            None => forall|j: int| from <= j < pending.len() ==> #[trigger] pending[j] != id,
        },
    decreases pending.len() - from,
{
    if from < pending.len() && pending[from] != id {
        pending_is_found(pending, id, from + 1);
    }
}

proof fn client_is_found(viewers: Seq<ClientView>, id: u64, from: int)
    requires
        0 <= from <= viewers.len(),
    ensures
        match find_client(viewers, id, from) {
            Some(k) => from <= k < viewers.len() && viewers[k].id == id && forall|j: int|
                from <= j < k ==> (#[trigger] viewers[j]).id != id,
            None => forall|j: int| from <= j < viewers.len() ==> (#[trigger] viewers[j]).id != id,
        },
    decreases viewers.len() - from,
{
    if from < viewers.len() && viewers[from].id != id {
        client_is_found(viewers, id, from + 1);
    }
}

/// What comes from a connection is handled by the part it plays. The first
/// message of one that has not introduced itself does so, and it waits no
/// longer; the messages of a client are its requests; those of the monitor, or
/// of a connection that is gone, do nothing; and one that closes or fails is
/// given up.
pub proof fn arrivals_are_told_apart(s: SessionView, id: u64, msg: ToSession, i: int)
    ensures
        s.pending.contains(id) ==> exists|k: int|
            0 <= k < s.pending.len() && #[trigger] s.pending[k] == id && {
                let rest = SessionView { pending: s.pending.remove(k), ..s };
                &&& s.after_arrival(id, Some(msg)) == rest.after_first(id, msg)
                &&& s.arrival_acts(id, Some(msg)) == s.first_acts(id, msg)
                &&& s.after_arrival(id, None) == rest
                &&& s.arrival_acts(id, None) =~= seq![Act::Close(seq![id])]
            },
        !s.pending.contains(id) && s.monitor == Some(id) ==> {
            &&& s.after_arrival(id, Some(msg)) == s
            &&& s.arrival_acts(id, Some(msg)) =~= Seq::<Act>::empty()
            &&& s.after_arrival(id, None) == s.after_failure(id)
            &&& s.arrival_acts(id, None) =~= seq![Act::Close(seq![id])]
        },
        !s.pending.contains(id) && s.monitor != Some(id) ==> {
            &&& s.after_arrival(id, None) == s.after_failure(id)
            &&& s.arrival_acts(id, None) =~= seq![Act::Sweep]
        },
        !s.pending.contains(id) && s.monitor != Some(id) && 0 <= i < s.viewers.len()
            && s.viewers[i].id == id && (forall|k: int|
            0 <= k < i ==> (#[trigger] s.viewers[k]).id != id) ==> {
            &&& s.after_arrival(id, Some(msg)) == s.after_message(i, msg)
            &&& s.arrival_acts(id, Some(msg)) =~= s.message_acts(i, msg) + seq![Act::Sweep]
        },
        !s.pending.contains(id) && s.monitor != Some(id) && (forall|k: int|
            0 <= k < s.viewers.len() ==> (#[trigger] s.viewers[k]).id != id) ==> {
            &&& s.after_arrival(id, Some(msg)) == s
            &&& s.arrival_acts(id, Some(msg)) =~= Seq::<Act>::empty()
        },
{
    pending_is_found(s.pending, id, 0);
    client_is_found(s.viewers, id, 0);
    if s.pending.contains(id) {
        let j = choose|j: int| 0 <= j < s.pending.len() && s.pending[j] == id;
        assert(s.pending[j] == id);
        let k = find_pending(s.pending, id, 0)->Some_0;
        assert(s.pending[k] == id);
    } else if let Some(k) = find_pending(s.pending, id, 0) {
        assert(s.pending.contains(s.pending[k]));
    }
}

/// Input that cannot be decoded, that has more than 32 delays, or delays that
/// go back or beyond its end, is refused: the client is told which, and given
/// up. Any other is queued behind what is pending, every byte of it, and
/// nothing else changes.
pub proof fn input_is_queued_whole(s: SessionView, i: int, data: String, delays: Vec<InputDelay>)
    requires
        0 <= i < s.viewers.len(),
        !s.readonly,
    ensures
        ({
            let msg = ToSession::Input { data, delays };
            let after = s.after_message(i, msg);
            let d = delays@;
            let fault = match base64_bytes(data@) {
                Err(e) => Some("invalid input encoding: "@ + e),
                Ok(bytes) => if d.len() > 32 {
                    Some("too many input delays (max "@ + decimal(32) + ")"@)
                } else if exists|k: int| 0 <= k < d.len() && (#[trigger] d[k]).at > bytes.len() {
                    Some("input delay offsets must be non-decreasing and within the data"@)
                } else if exists|j: int, k: int|
                    0 <= j < k < d.len() && (#[trigger] d[j]).at > (#[trigger] d[k]).at {
                    Some("input delay offsets must be non-decreasing and within the data"@)
                } else {
                    None
                },
            };
            match fault {
                Some(message) => {
                    &&& s.message_acts(i, msg) =~= reply_to(
                        s.viewers[i].id,
                        SessionMsg::Error { message },
                    )
                    &&& after == (SessionView {
                        viewers: s.viewers.update(i, ClientView { dead: true, ..s.viewers[i] }),
                        ..s
                    })
                },
                None => {
                    &&& s.message_acts(i, msg) =~= seq![Act::PumpInput]
                    &&& after == (SessionView { input: after.input, ..s })
                    &&& after.input.due == s.input.due
                    &&& after.input.chunks.take(s.input.chunks.len() as int) == s.input.chunks
                    &&& joined_bytes(after.input.chunks) == joined_bytes(s.input.chunks)
                        + base64_bytes(data@)->Ok_0
                },
            }
        }),
{
    if let Ok(bytes) = base64_bytes(data@) {
        if delays_fit(delays@, bytes.len()) {
            input_keeps_order(s.input, bytes, delays@, 0);
            let after = s.after_message(i, ToSession::Input { data, delays });
            if delays@.len() <= 32 {
                assert(after.input.chunks.take(s.input.chunks.len() as int) =~= s.input.chunks);
            }
        }
    }
}

/// How many bytes are 7, the key that simulates a device.
pub open spec fn presses(bytes: Seq<u8>) -> nat
    decreases bytes.len(),
{
    if bytes.len() == 0 {
        0
    } else {
        presses(bytes.drop_last()) + (if bytes.last() == 7 {
            1nat
        } else {
            0nat
        })
    }
}

proof fn presses_add(a: Seq<u8>, b: Seq<u8>)
    ensures
        presses(a + b) == presses(a) + presses(b),
    decreases b.len(),
{
    if b.len() == 0 {
        assert(a + b =~= a);
    } else {
        presses_add(a, b.drop_last());
        assert((a + b).drop_last() =~= a + b.drop_last());
    }
}

proof fn no_presses(a: Seq<u8>)
    requires
        forall|k: int| 0 <= k < a.len() ==> #[trigger] a[k] != 7,
    ensures
        presses(a) == 0,
    decreases a.len(),
{
    if a.len() > 0 {
        no_presses(a.drop_last());
    }
}

proof fn hotkey_is_first(bytes: Seq<u8>, from: int)
    requires
        0 <= from <= bytes.len(),
    ensures
        from <= hotkey_at(bytes, from) <= bytes.len(),
        forall|k: int| from <= k < hotkey_at(bytes, from) ==> #[trigger] bytes[k] != 7,
        hotkey_at(bytes, from) < bytes.len() ==> bytes[hotkey_at(bytes, from)] == 7,
    decreases bytes.len() - from,
{
    if from < bytes.len() && bytes[from] != 7 {
        hotkey_is_first(bytes, from + 1);
    }
}

/// The key that simulates a device switches a view of 24 rows and 96 columns on
/// and off, once each time it is pressed, and so an even number of presses
/// leaves the view as it was. While a device views, it does nothing. Beyond the
/// mirror nothing changes.
pub proof fn hotkey_toggles_the_simulated_view(s: SessionView, bytes: Seq<u8>)
    ensures
        ({
            let after = s.after_keys(bytes);
            &&& after == (SessionView { mirror: after.mirror, ..s })
            &&& (s.mirror.view matches Some(v) && !v.simulated) ==> after == s
            &&& (s.mirror.view matches Some(v) ==> v.simulated) ==> if presses(bytes) % 2 == 0 {
                after.mirror.view == s.mirror.view || (after.mirror.view matches Some(v)
                    && v.simulated && v.rows == 24 && v.cols == 96 && s.mirror.view is Some)
            } else {
                if s.mirror.view is Some {
                    after.mirror.view is None
                } else {
                    after.mirror.view matches Some(v) && v.simulated && v.rows == 24 && v.cols == 96
                }
            }
        }),
    decreases bytes.len(),
{
    let at = hotkey_at(bytes, 0);
    hotkey_is_first(bytes, 0);
    no_presses(bytes.take(at));
    if at < bytes.len() {
        reveal(MirrorView::viewing);
        reveal(MirrorView::unviewed);
        let rest = bytes.skip(at + 1);
        hotkey_toggles_the_simulated_view(s.toggled(), rest);
        assert(bytes =~= (bytes.take(at) + seq![7u8]) + rest);
        presses_add(bytes.take(at) + seq![7u8], rest);
        presses_add(bytes.take(at), seq![7u8]);
        assert(seq![7u8].drop_last() =~= Seq::<u8>::empty());
        assert(presses(Seq::<u8>::empty()) == 0);
        assert(presses(seq![7u8]) == 1);
        assert(presses(bytes) == 1 + presses(rest));
    } else {
        assert(bytes.take(at) =~= bytes);
    }
}

/// Switching the simulated view on brings the child to 24 rows and 96 columns,
/// and switching it off to the host terminal's size.
pub proof fn toggling_resizes_the_child(s: SessionView)
    ensures
        match s.mirror.view {
            None => s.toggle_acts().len() > 0 && s.toggle_acts()[0] == (Act::ResizePty {
                rows: 24,
                cols: 96,
            }),
            Some(v) => if v.simulated {
                s.toggle_acts().len() > 0 && s.toggle_acts()[0] == (Act::ResizePty {
                    rows: s.mirror.host_rows,
                    cols: s.mirror.host_cols,
                })
            } else {
                s.toggle_acts() =~= Seq::<Act>::empty()
            },
        },
{
}

/// A form feed among the keys repaints a view on the host terminal, hidden rows
/// included; without one, or without a view or a host terminal, nothing is
/// repainted.
pub proof fn form_feed_repaints(s: SessionView, bytes: Seq<u8>)
    ensures
        ({
            let asked = exists|k: int| 0 <= k < bytes.len() && #[trigger] bytes[k] == 12;
            let repaint = s.mirror.crop_bytes() + s.mirror.full_bytes();
            s.refresh_key_acts(bytes) =~= (if asked && !s.headless && s.mirror.view is Some
                && repaint.len() > 0 {
                seq![Act::WriteHost(repaint)]
            } else {
                Seq::empty()
            })
        }),
{
    if bytes.contains(12u8) {
        let k = choose|k: int| 0 <= k < bytes.len() && bytes[k] == 12u8;
        assert(bytes[k] == 12);
    } else {
        assert forall|k: int| 0 <= k < bytes.len() implies #[trigger] bytes[k] != 12 by {
            assert(bytes.contains(bytes[k]));
        }
    }
}

/// A resize of the host terminal resizes the child, unless a view keeps it at
/// the device's size: then the view is drawn anew at the new host size, below
/// what was pushed up. Either way the clients are looked after.
pub proof fn host_resizes_reach_the_child(s: SessionView, rows: u16, cols: u16)
    ensures
        ({
            let framed = MirrorView { host_rows: rows, host_cols: cols, ..s.mirror };
            let bytes = framed.zone_bytes() + framed.crop_bytes() + encode_utf8(
                "\x1b[0m\x1b[H\x1b[2J"@,
            ) + framed.full_bytes();
            &&& s.mirror.view is None ==> s.resize_acts(rows, cols) =~= seq![
                Act::ResizePty { rows, cols },
                Act::Sweep,
            ]
            &&& s.mirror.view is Some && (s.headless || bytes.len() == 0) ==> s.resize_acts(
                rows,
                cols,
            ) =~= seq![Act::Sweep]
            &&& s.mirror.view is Some && !s.headless && bytes.len() > 0 ==> s.resize_acts(rows, cols)
                =~= seq![Act::WriteHost(bytes), Act::Sweep]
            &&& s.mirror.resized(rows, cols).host_rows == rows
            &&& s.mirror.resized(rows, cols).host_cols == cols
            &&& s.mirror.resized(rows, cols).view == s.mirror.view
        }),
{
    reveal(MirrorView::resized);
}

/// A title is kept but for its control characters, in order.
pub proof fn titles_lose_only_controls(text: Seq<char>)
    ensures
        without_controls(text) == text.filter(
            |c: char| !(c < ' ' || ('\x7f' <= c && c <= '\u{9f}')),
        ),
    decreases text.len(),
{
    reveal(Seq::filter);
    if text.len() > 0 {
        titles_lose_only_controls(text.drop_last());
    }
}

/// Output changes the mirror as it is translated, and, where it rings and there
/// is a monitor, what is known of the bells: told now, or held back for later.
/// Nothing else changes.
pub proof fn output_changes_mirror_and_bell(s: SessionView, bytes: Seq<u8>, now: nat, at: u64)
    requires
        s.wf(),
    ensures
        ({
            let after = s.after_output(bytes, now, at);
            let rung = s.mirror.after_slices(bytes).bells > 0 && s.monitor is Some;
            let held = s.bell.last_sent matches Some(sent) && now < sent + 3_000_000_000;
            &&& after == (SessionView { mirror: s.mirror.processed(bytes), bell: after.bell, ..s })
            &&& !rung ==> after.bell == s.bell
            &&& rung && held ==> after.bell.pending_at == Some(at) && after.bell.last_sent
                == s.bell.last_sent
            &&& rung && !held ==> after.bell.last_sent == Some(now) && after.bell.pending_at
                == s.bell.pending_at
        }),
{
}

} // verus!
