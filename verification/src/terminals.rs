//! What the server knows of each terminal, learned through the monitor
//! connections (one per session socket, connected regardless of whether any
//! device is attached).

use crate::json::{bool_field, json_parsed, parse_json, text_field, unsigned_field, Json};
use crate::protocol::{ServerMsg, ServerToDevice};
use crate::text::{opt_text, text_eq};
use crate::wrap::texts;
use vstd::prelude::*;
use vstd::string::*;

verus! {

/// Per-terminal state learned through the monitor connections.
pub struct TerminalState {
    /// Last bell (unix ms), if one has rung since monitoring began.
    pub last_bell_at: Option<u64>,
    /// Window title, if the app has set one since monitoring began.
    pub title: Option<String>,
    /// Real working directory, from the session's connect greeting (the
    /// socket name only carries a sanitized, truncated form).
    pub cwd: Option<String>,
    /// Headless session with no host-role client: claimable with
    /// `g2mirror --attach`.
    pub detached: bool,
    /// Launch preset the session was started from, if any.
    pub launched: Option<String>,
}

pub ghost struct TerminalView {
    pub last_bell_at: Option<u64>,
    pub title: Option<Seq<char>>,
    pub cwd: Option<Seq<char>>,
    pub detached: bool,
    pub launched: Option<Seq<char>>,
}

impl View for TerminalState {
    type V = TerminalView;

    open spec fn view(&self) -> TerminalView {
        TerminalView {
            last_bell_at: self.last_bell_at,
            title: opt_text(self.title),
            cwd: opt_text(self.cwd),
            detached: self.detached,
            launched: opt_text(self.launched),
        }
    }
}

/// What is known of a terminal before it was monitored.
pub open spec fn unknown() -> TerminalView {
    TerminalView { last_bell_at: None, title: None, cwd: None, detached: false, launched: None }
}

fn unknown_state() -> (r: TerminalState)
    ensures
        r@ == unknown(),
{
    TerminalState { last_bell_at: None, title: None, cwd: None, detached: false, launched: None }
}

fn copy_text(text: &Option<String>) -> (r: Option<String>)
    ensures
        opt_text(r) == opt_text(*text),
{
    match text {
        Some(t) => Some(t.clone()),
        None => None,
    }
}

fn copy_state(s: &TerminalState) -> (r: TerminalState)
    ensures
        r@ == s@,
{
    TerminalState {
        last_bell_at: s.last_bell_at,
        title: copy_text(&s.title),
        cwd: copy_text(&s.cwd),
        detached: s.detached,
        launched: copy_text(&s.launched),
    }
}

struct Entry {
    name: String,
    state: TerminalState,
}

ghost struct EntryView {
    name: Seq<char>,
    state: TerminalView,
}

impl View for Entry {
    type V = EntryView;

    closed spec fn view(&self) -> EntryView {
        EntryView { name: self.name@, state: self.state@ }
    }
}

spec fn entry_views(entries: Seq<Entry>) -> Seq<EntryView> {
    entries.map_values(|e: Entry| e@)
}

spec fn known_of(entries: Seq<EntryView>) -> Map<Seq<char>, TerminalView>
    decreases entries.len(),
{
    if entries.len() == 0 {
        Map::empty()
    } else {
        known_of(entries.drop_last()).insert(entries.last().name, entries.last().state)
    }
}

spec fn distinct(entries: Seq<EntryView>) -> bool {
    forall|i: int, j: int|
        0 <= i < j < entries.len() ==> (#[trigger] entries[i]).name != (#[trigger] entries[j]).name
}

proof fn known_has(entries: Seq<EntryView>)
    requires
        distinct(entries),
    ensures
        forall|i: int|
            0 <= i < entries.len() ==> known_of(entries).dom().contains(
                (#[trigger] entries[i]).name,
            ) && known_of(entries)[entries[i].name] == entries[i].state,
        forall|name: Seq<char>| #[trigger]
            known_of(entries).dom().contains(name) ==> exists|i: int|
                0 <= i < entries.len() && (#[trigger] entries[i]).name == name,
    decreases entries.len(),
{
    if entries.len() > 0 {
        let rest = entries.drop_last();
        known_has(rest);
        let n = entries.len() - 1;
        assert forall|i: int| 0 <= i < entries.len() implies known_of(entries).dom().contains(
            (#[trigger] entries[i]).name,
        ) && known_of(entries)[entries[i].name] == entries[i].state by {
            if i < n {
                assert(rest[i] == entries[i]);
                assert(entries[i].name != entries[n].name);
            }
        }
        assert forall|name: Seq<char>| #[trigger]
            known_of(entries).dom().contains(name) implies exists|i: int|
            0 <= i < entries.len() && (#[trigger] entries[i]).name == name by {
            if name == entries[n].name {
                assert(entries[n].name == name);
            } else {
                assert(known_of(rest).dom().contains(name));
                let i = choose|i: int| 0 <= i < rest.len() && (#[trigger] rest[i]).name == name;
                assert(entries[i].name == name);
            }
        }
    }
}

proof fn known_update(entries: Seq<EntryView>, i: int, state: TerminalView)
    requires
        distinct(entries),
        0 <= i < entries.len(),
    ensures
        ({
            let next = entries.update(i, EntryView { name: entries[i].name, state });
            &&& distinct(next)
            &&& known_of(next) == known_of(entries).insert(entries[i].name, state)
        }),
{
    let next = entries.update(i, EntryView { name: entries[i].name, state });
    assert(distinct(next)) by {
        assert forall|a: int, b: int| 0 <= a < b < next.len() implies (#[trigger] next[a]).name != (
        #[trigger] next[b]).name by {
            assert(next[a].name == entries[a].name);
            assert(next[b].name == entries[b].name);
        }
    }
    known_has(entries);
    known_has(next);
    let m = known_of(entries).insert(entries[i].name, state);
    assert forall|name: Seq<char>| known_of(next).dom().contains(name) == m.dom().contains(name) by {
        if known_of(next).dom().contains(name) {
            let k = choose|k: int| 0 <= k < next.len() && (#[trigger] next[k]).name == name;
            assert(entries[k].name == name);
        }
        if m.dom().contains(name) {
            if name == entries[i].name {
                assert(next[i].name == name);
            } else {
                let k = choose|k: int|
                    0 <= k < entries.len() && (#[trigger] entries[k]).name == name;
                assert(next[k].name == name);
            }
        }
    }
    assert forall|name: Seq<char>| known_of(next).dom().contains(name) implies known_of(next)[name]
        == m[name] by {
        let k = choose|k: int| 0 <= k < next.len() && (#[trigger] next[k]).name == name;
        assert(entries[k].name == name);
        if k != i {
            assert(next[k] == entries[k]);
        }
    }
    assert(known_of(next) =~= m);
}

/// The terminals the server knows, and those it has a monitor connection to.
pub ghost struct TerminalsView {
    pub known: Map<Seq<char>, TerminalView>,
    pub monitored: Set<Seq<char>>,
}

/// What is known of a terminal.
pub open spec fn lookup(known: Map<Seq<char>, TerminalView>, name: Seq<char>) -> TerminalView {
    if known.dom().contains(name) {
        known[name]
    } else {
        unknown()
    }
}

impl TerminalsView {
    pub open spec fn terminal(self, name: Seq<char>) -> TerminalView {
        lookup(self.known, name)
    }

    /// The state with what is known of a terminal replaced.
    pub open spec fn with(self, name: Seq<char>, state: TerminalView) -> TerminalsView {
        TerminalsView { known: self.known.insert(name, state), ..self }
    }

    /// What a monitored session's message changes, and the event it makes.
    pub open spec fn after_message(self, name: Seq<char>, msg: Json) -> (
        TerminalsView,
        Option<ServerMsg>,
    ) {
        let t = self.terminal(name);
        match msg.text_field("type"@) {
            None => (self, None),
            Some(kind) => if kind == "connect"@ {
                (
                    self.with(
                        name,
                        TerminalView {
                            cwd: match msg.text_field("cwd"@) {
                                Some(cwd) => Some(cwd),
                                None => t.cwd,
                            },
                            title: match msg.text_field("title"@) {
                                Some(title) => Some(title),
                                None => t.title,
                            },
                            detached: msg.bool_field("detached"@) == Some(true),
                            launched: msg.text_field("launched"@),
                            ..t
                        },
                    ),
                    None,
                )
            } else if kind == "host_changed"@ {
                match msg.bool_field("attached"@) {
                    Some(attached) => (
                        self.with(name, TerminalView { detached: !attached, ..t }),
                        Some(ServerMsg::Detached { socket: name, detached: !attached }),
                    ),
                    None => (self, None),
                }
            } else if kind == "bell"@ {
                match msg.unsigned_field("at"@) {
                    Some(at) => (
                        self.with(name, TerminalView { last_bell_at: Some(at), ..t }),
                        Some(ServerMsg::Bell { socket: name, last_bell_at: at }),
                    ),
                    None => (self, None),
                }
            } else if kind == "title"@ {
                match msg.text_field("title"@) {
                    Some(title) => (
                        self.with(name, TerminalView { title: Some(title), ..t }),
                        Some(ServerMsg::Title { socket: name, title }),
                    ),
                    None => (self, None),
                }
            } else {
                (self, None)
            },
        }
    }

    /// What is known after a scan found these live sessions: terminals whose
    /// socket is gone are forgotten, new ones remembered.
    pub open spec fn scanned(self, live: Seq<Seq<char>>) -> TerminalsView {
        TerminalsView {
            known: Map::new(
                |name: Seq<char>| live.contains(name),
                |name: Seq<char>| self.terminal(name),
            ),
            monitored: self.monitored.union(live.to_set()),
        }
    }
}

/// The names that are not monitored yet, each once, in order.
pub open spec fn newcomers(live: Seq<Seq<char>>, monitored: Set<Seq<char>>) -> Seq<Seq<char>>
    decreases live.len(),
{
    if live.len() == 0 {
        Seq::empty()
    } else {
        let before = newcomers(live.drop_last(), monitored);
        if monitored.contains(live.last()) || live.drop_last().contains(live.last()) {
            before
        } else {
            before.push(live.last())
        }
    }
}

pub struct Terminals {
    entries: Vec<Entry>,
    monitored: Vec<String>,
}

impl View for Terminals {
    type V = TerminalsView;

    closed spec fn view(&self) -> TerminalsView {
        TerminalsView {
            known: known_of(entry_views(self.entries@)),
            monitored: texts(self.monitored@).to_set(),
        }
    }
}

impl Terminals {
    /// No terminal is listed twice.
    pub closed spec fn wf(&self) -> bool {
        distinct(entry_views(self.entries@))
    }

    pub fn new() -> (r: Self)
        ensures
            r.wf(),
            r@.known == Map::<Seq<char>, TerminalView>::empty(),
            r@.monitored == Set::<Seq<char>>::empty(),
    {
        let r = Terminals { entries: Vec::new(), monitored: Vec::new() };
        assert(entry_views(r.entries@) =~= Seq::<EntryView>::empty());
        assert(texts(r.monitored@).to_set() =~= Set::<Seq<char>>::empty());
        r
    }

    fn find(&self, name: &str) -> (r: Option<usize>)
        requires
            self.wf(),
        ensures
            match r {
                Some(i) => i < self.entries@.len() && self.entries@[i as int].name@ == name@
                    && self@.known.dom().contains(name@) && self@.known[name@]
                    == self.entries@[i as int].state@,
                None => !self@.known.dom().contains(name@),
            },
    {
        let ghost views = entry_views(self.entries@);
        proof {
            known_has(views);
        }
        let mut i: usize = 0;
        while i < self.entries.len()
            invariant
                i <= self.entries@.len() == views.len(),
                views == entry_views(self.entries@),
                self@.known == known_of(views),
                forall|k: int|
                    0 <= k < views.len() ==> known_of(views).dom().contains(
                        (#[trigger] views[k]).name,
                    ) && known_of(views)[views[k].name] == views[k].state,
                forall|n: Seq<char>| #[trigger]
                    known_of(views).dom().contains(n) ==> exists|k: int|
                        0 <= k < views.len() && (#[trigger] views[k]).name == n,
                forall|k: int| 0 <= k < i ==> (#[trigger] views[k]).name != name@,
            decreases self.entries@.len() - i,
        {
            assert(views[i as int] == self.entries@[i as int]@);
            if text_eq(self.entries[i].name.as_str(), name) {
                return Some(i);
            }
            i += 1;
        }
        None
    }

    /// What is known of a terminal.
    pub fn terminal(&self, name: &str) -> (r: TerminalState)
        requires
            self.wf(),
        ensures
            r@ == self@.terminal(name@),
    {
        match self.find(name) {
            Some(i) => copy_state(&self.entries[i].state),
            None => unknown_state(),
        }
    }

    /// Replaces what is known of a terminal.
    fn set(&mut self, name: &str, state: TerminalState)
        requires
            old(self).wf(),
        ensures
            final(self).wf(),
            final(self)@ == old(self)@.with(name@, state@),
    {
        let ghost views = entry_views(self.entries@);
        match self.find(name) {
            Some(i) => {
                proof {
                    known_update(views, i as int, state@);
                }
                self.entries[i].state = state;
                assert(entry_views(self.entries@) =~= views.update(
                    i as int,
                    EntryView { name: views[i as int].name, state: state@ },
                ));
            },
            None => {
                let entry = Entry { name: name.to_owned(), state };
                proof {
                    known_has(views);
                }
                self.entries.push(entry);
                let ghost next = entry_views(self.entries@);
                assert(next =~= views.push(entry@));
                assert(next.drop_last() =~= views);
                assert(distinct(next)) by {
                    assert forall|a: int, b: int| 0 <= a < b < next.len() implies (
                    #[trigger] next[a]).name != (#[trigger] next[b]).name by {
                        if b == views.len() {
                            assert(next[a] == views[a]);
                        } else {
                            assert(next[a] == views[a]);
                            assert(next[b] == views[b]);
                        }
                    }
                }
            },
        }
    }

    /// A line from a monitored session: what it tells is remembered, and the
    /// event it makes for the devices is returned, if it makes one.
    pub fn on_monitor_line(&mut self, name: &str, line: &str) -> (r: Option<ServerToDevice>)
        requires
            old(self).wf(),
        ensures
            final(self).wf(),
            match json_parsed(line@) {
                Ok(msg) => {
                    &&& final(self)@ == old(self)@.after_message(name@, msg).0
                    &&& match old(self)@.after_message(name@, msg).1 {
                        Some(event) => r matches Some(e) && e@ == event,
                        None => r is None,
                    }
                },
                Err(_) => final(self)@ == old(self)@ && r is None,
            },
    {
        let msg = match parse_json(line) {
            Ok(msg) => msg,
            Err(_) => return None,
        };
        let kind = match text_field(&msg, "type") {
            Some(kind) => kind,
            None => return None,
        };
        let mut state = self.terminal(name);
        if text_eq(kind.as_str(), "connect") {
            // The connect greeting carries the real working directory (which
            // token filters match against), the current title, and the
            // detached/launched state.
            if let Some(cwd) = text_field(&msg, "cwd") {
                state.cwd = Some(cwd);
            }
            if let Some(title) = text_field(&msg, "title") {
                state.title = Some(title);
            }
            state.detached = match bool_field(&msg, "detached") {
                Some(b) => b,
                None => false,
            };
            state.launched = text_field(&msg, "launched");
            self.set(name, state);
            None
        } else if text_eq(kind.as_str(), "host_changed") {
            // A headless session's host role was claimed or released.
            match bool_field(&msg, "attached") {
                Some(attached) => {
                    state.detached = !attached;
                    self.set(name, state);
                    Some(
                        ServerToDevice::Detached { socket: name.to_owned(), detached: !attached },
                    )
                },
                None => None,
            }
        } else if text_eq(kind.as_str(), "bell") {
            match unsigned_field(&msg, "at") {
                Some(at) => {
                    state.last_bell_at = Some(at);
                    self.set(name, state);
                    Some(ServerToDevice::Bell { socket: name.to_owned(), last_bell_at: at })
                },
                None => None,
            }
        } else if text_eq(kind.as_str(), "title") {
            match text_field(&msg, "title") {
                Some(title) => {
                    state.title = Some(title.clone());
                    self.set(name, state);
                    Some(ServerToDevice::Title { socket: name.to_owned(), title })
                },
                None => None,
            }
        } else {
            None
        }
    }

    /// A monitor connection ended: the next scan reconnects if the socket still
    /// exists.
    pub fn release(&mut self, name: &str)
        requires
            old(self).wf(),
        ensures
            final(self).wf(),
            final(self)@ == (TerminalsView {
                monitored: old(self)@.monitored.remove(name@),
                ..old(self)@
            }),
    {
        let ghost all = texts(self.monitored@);
        let mut kept: Vec<String> = Vec::new();
        let mut i: usize = 0;
        assert(texts(kept@).to_set() =~= all.take(0).to_set().remove(name@));
        while i < self.monitored.len()
            invariant
                i <= self.monitored@.len() == all.len(),
                all == texts(self.monitored@),
                self.entries == old(self).entries,
                self.monitored == old(self).monitored,
                texts(kept@).to_set() == all.take(i as int).to_set().remove(name@),
            decreases self.monitored@.len() - i,
        {
            let other = &self.monitored[i];
            let ghost before = texts(kept@);
            proof {
                assert(all[i as int] == other@);
                set_of_take(all, i as int);
            }
            if !text_eq(other.as_str(), name) {
                kept.push(other.clone());
                proof {
                    assert(texts(kept@) =~= before.push(other@));
                    set_of_push(before, other@);
                }
            }
            assert(texts(kept@).to_set() =~= all.take(i + 1).to_set().remove(name@));
            i += 1;
        }
        assert(all.take(i as int) =~= all);
        self.monitored = kept;
    }

    /// A scan found these live sessions: terminals whose socket is gone are
    /// forgotten, new ones remembered, and those to be monitored from now on
    /// returned.
    pub fn scan(&mut self, live: &Vec<String>) -> (r: Vec<String>)
        requires
            old(self).wf(),
        ensures
            final(self).wf(),
            final(self)@ == old(self)@.scanned(texts(live@)),
            texts(r@) == newcomers(texts(live@), old(self)@.monitored),
    {
        let ghost names = texts(live@);
        let ghost start = self@;
        let mut next = Terminals { entries: Vec::new(), monitored: Vec::new() };
        let mut fresh: Vec<String> = Vec::new();
        let mut i: usize = 0;
        proof {
            assert(entry_views(next.entries@) =~= Seq::<EntryView>::empty());
            assert(texts(fresh@) =~= Seq::<Seq<char>>::empty());
            assert(names.take(0) =~= Seq::<Seq<char>>::empty());
            assert(next@.known =~= start.scanned(names.take(0)).known);
        }
        while i < live.len()
            invariant
                i <= live@.len() == names.len(),
                names == texts(live@),
                self@ == start,
                start == old(self)@,
                self.wf(),
                next.wf(),
                next@.known == start.scanned(names.take(i as int)).known,
                texts(fresh@) == newcomers(names.take(i as int), start.monitored),
            decreases live@.len() - i,
        {
            let name = &live[i];
            let ghost before = texts(fresh@);
            let ghost taken = names.take(i as int);
            let state = self.terminal(name.as_str());
            next.set(name.as_str(), state);
            proof {
                assert(names[i as int] == name@);
                assert(names.take(i + 1).drop_last() =~= taken);
                set_of_take(names, i as int);
                assert forall|n: Seq<char>| names.take(i + 1).contains(n) == (taken.contains(n) || n
                    == name@) by {
                    assert(names.take(i + 1) =~= taken.push(name@));
                    if taken.contains(n) {
                        let k = choose|k: int| 0 <= k < taken.len() && taken[k] == n;
                        assert(taken.push(name@)[k] == n);
                    }
                    if n == name@ {
                        assert(taken.push(name@)[taken.len() as int] == n);
                    }
                }
                assert(next@.known =~= start.scanned(names.take(i + 1)).known);
            }
            let seen = has_before(live, i, name.as_str());
            if !crate::config::list_has(&self.monitored, name.as_str()) && !seen {
                fresh.push(name.clone());
                assert(texts(fresh@) =~= before.push(name@));
            }
            proof {
                assert(start.monitored.contains(name@) == texts(self.monitored@).contains(name@));
            }
            i += 1;
        }
        assert(names.take(i as int) =~= names);
        self.entries = next.entries;
        let mut k: usize = 0;
        let ghost watched = start.monitored;
        proof {
            assert(texts(self.monitored@).to_set() =~= watched.union(names.take(0).to_set()));
        }
        while k < live.len()
            invariant
                k <= live@.len() == names.len(),
                names == texts(live@),
                self.wf(),
                self@.known == start.scanned(names).known,
                texts(self.monitored@).to_set() == watched.union(names.take(k as int).to_set()),
            decreases live@.len() - k,
        {
            let ghost before = texts(self.monitored@);
            proof {
                assert(names[k as int] == live@[k as int]@);
                set_of_take(names, k as int);
            }
            if !crate::config::list_has(&self.monitored, live[k].as_str()) {
                self.monitored.push(live[k].clone());
                proof {
                    assert(texts(self.monitored@) =~= before.push(live@[k as int]@));
                    set_of_push(before, live@[k as int]@);
                }
            } else {
                assert(before.to_set().contains(live@[k as int]@));
            }
            assert(texts(self.monitored@).to_set() =~= watched.union(
                names.take(k + 1).to_set(),
            ));
            k += 1;
        }
        assert(names.take(k as int) =~= names);
        fresh
    }
}

/// Whether `name` stands in `list` below index `n`.
fn has_before(list: &Vec<String>, n: usize, name: &str) -> (r: bool)
    requires
        n <= list@.len(),
    ensures
        r == texts(list@).take(n as int).contains(name@),
{
    let ghost taken = texts(list@).take(n as int);
    let mut i: usize = 0;
    while i < n
        invariant
            i <= n <= list@.len(),
            taken == texts(list@).take(n as int),
            forall|k: int| 0 <= k < i ==> #[trigger] taken[k] != name@,
        decreases n - i,
    {
        assert(taken[i as int] == list@[i as int]@);
        if text_eq(list[i].as_str(), name) {
            assert(taken.contains(name@));
            return true;
        }
        i += 1;
    }
    assert(!taken.contains(name@));
    false
}

proof fn set_of_push(s: Seq<Seq<char>>, x: Seq<char>)
    ensures
        s.push(x).to_set() == s.to_set().insert(x),
{
    assert forall|y: Seq<char>| s.push(x).to_set().contains(y) == s.to_set().insert(x).contains(
        y,
    ) by {
        if s.contains(y) {
            let k = choose|k: int| 0 <= k < s.len() && s[k] == y;
            assert(s.push(x)[k] == y);
        }
        if y == x {
            assert(s.push(x)[s.len() as int] == y);
        }
    }
    assert(s.push(x).to_set() =~= s.to_set().insert(x));
}

proof fn set_of_take(s: Seq<Seq<char>>, i: int)
    requires
        0 <= i < s.len(),
    ensures
        s.take(i + 1).to_set() == s.take(i).to_set().insert(s[i]),
{
    assert(s.take(i + 1) =~= s.take(i).push(s[i]));
    set_of_push(s.take(i), s[i]);
}

/// After a scan, exactly the live sessions are known, each with what was known
/// of it before, and all of them are monitored.
pub proof fn scans_track_live_sessions(t: TerminalsView, live: Seq<Seq<char>>, name: Seq<char>)
    ensures
        t.scanned(live).known.dom().contains(name) == live.contains(name),
        live.contains(name) ==> t.scanned(live).terminal(name) == t.terminal(name),
        live.contains(name) ==> t.scanned(live).monitored.contains(name),
        !live.contains(name) ==> t.scanned(live).terminal(name) == unknown(),
{
}

/// A monitored session's messages change nothing that is known of another.
pub proof fn messages_stay_with_their_terminal(
    t: TerminalsView,
    name: Seq<char>,
    msg: Json,
    other: Seq<char>,
)
    requires
        other != name,
    ensures
        t.after_message(name, msg).0.terminal(other) == t.terminal(other),
{
}

} // verus!
