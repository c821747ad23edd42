//! What a device gets to see and may ask for: the laws of the gateway.

use crate::config::{
    find_preset, place, ConfigView, GrantView, NamedPresetView, RuleView, TokenView,
};
use crate::filter::regex_finds;
use crate::json::{json_parsed, Json};
use crate::paths::{sanitized, socket_name_carries_pid, socket_text};
use crate::protocol::ServerMsg;
use crate::server::{
    add_args, add_request, admission, asked_grant, clash, delivery, expanded, filter_index,
    find_token, launch_choice, launch_outcome, listed, missing_preset, request, session_info,
    visible, AddView, Delivery, RequestView,
};
use crate::terminals::{newcomers, TerminalsView};
use crate::text::{decimal, debug_text, decimal_reads_back, find_is_first, is_white, lossy_text, trimmed_end, trimmed_start};
use crate::token::is_token;
use crate::viewing::is_kind;
use vstd::prelude::*;
use vstd::string::*;

verus! {

/// The last thing that was said, or what held before where nothing was.
pub open spec fn latest<A>(said: Seq<Option<A>>, before: A) -> A
    decreases said.len(),
{
    if said.len() == 0 {
        before
    } else {
        match said.last() {
            Some(a) => a,
            None => latest(said.drop_last(), before),
        }
    }
}

/// What is known of the terminals after the monitor of one of them passed on
/// messages, one after another.
pub open spec fn reported(t: TerminalsView, name: Seq<char>, msgs: Seq<Json>) -> TerminalsView
    decreases msgs.len(),
{
    if msgs.len() == 0 {
        t
    } else {
        reported(t, name, msgs.drop_last()).after_message(name, msgs.last()).0
    }
}

/// When a message says that a bell rang.
pub open spec fn bell_said(msg: Json) -> Option<Option<u64>> {
    match msg.field("at"@) {
        Some(Json::Number(Some(at))) if is_kind(msg, "bell"@) && 0 <= at <= u64::MAX => Some(
            Some(at as u64),
        ),
        _ => None,
    }
}

/// The title a message tells.
pub open spec fn title_said(msg: Json) -> Option<Option<Seq<char>>> {
    match msg.field("title"@) {
        Some(Json::Text(title)) if is_kind(msg, "title"@) || is_kind(msg, "connect"@) => Some(
            Some(title),
        ),
        _ => None,
    }
}

/// The working directory a message tells.
pub open spec fn cwd_said(msg: Json) -> Option<Option<Seq<char>>> {
    match msg.field("cwd"@) {
        Some(Json::Text(cwd)) if is_kind(msg, "connect"@) => Some(Some(cwd)),
        _ => None,
    }
}

/// Whether a message says that nobody is attached to a session without a host
/// terminal: its greeting does, or else that somebody came or left.
pub open spec fn detached_said(msg: Json) -> Option<bool> {
    if is_kind(msg, "connect"@) {
        Some(msg.field("detached"@) == Some(Json::Bool(true)))
    } else {
        match msg.field("attached"@) {
            Some(Json::Bool(attached)) if is_kind(msg, "host_changed"@) => Some(!attached),
            _ => None,
        }
    }
}

/// The preset that a greeting says the session was launched from.
pub open spec fn launched_said(msg: Json) -> Option<Option<Seq<char>>> {
    if is_kind(msg, "connect"@) {
        match msg.field("launched"@) {
            Some(Json::Text(preset)) => Some(Some(preset)),
            _ => Some(None),
        }
    } else {
        None
    }
}

proof fn report_kinds()
    ensures
        "bell"@.len() == 4,
        "title"@.len() == 5,
        "connect"@.len() == 7,
        "host_changed"@.len() == 12,
{
    reveal_strlit("bell");
    reveal_strlit("title");
    reveal_strlit("connect");
    reveal_strlit("host_changed");
}

/// What is known of a terminal is what its monitor last reported: the time of
/// the last bell, the last title, the working directory, whether it is
/// detached, and what it was launched from.
pub proof fn last_reports_are_known(t: TerminalsView, name: Seq<char>, msgs: Seq<Json>)
    ensures
        ({
            let before = t.terminal(name);
            let now = reported(t, name, msgs).terminal(name);
            &&& now.last_bell_at == latest(
                msgs.map_values(|m: Json| bell_said(m)),
                before.last_bell_at,
            )
            &&& now.title == latest(msgs.map_values(|m: Json| title_said(m)), before.title)
            &&& now.cwd == latest(msgs.map_values(|m: Json| cwd_said(m)), before.cwd)
            &&& now.detached == latest(msgs.map_values(|m: Json| detached_said(m)), before.detached)
            &&& now.launched == latest(msgs.map_values(|m: Json| launched_said(m)), before.launched)
        }),
    decreases msgs.len(),
{
    report_kinds();
    if msgs.len() > 0 {
        let fore = msgs.drop_last();
        let msg = msgs.last();
        last_reports_are_known(t, name, fore);
        assert(msgs.map_values(|m: Json| bell_said(m)).drop_last() =~= fore.map_values(
            |m: Json| bell_said(m),
        ));
        assert(msgs.map_values(|m: Json| title_said(m)).drop_last() =~= fore.map_values(
            |m: Json| title_said(m),
        ));
        assert(msgs.map_values(|m: Json| cwd_said(m)).drop_last() =~= fore.map_values(
            |m: Json| cwd_said(m),
        ));
        assert(msgs.map_values(|m: Json| detached_said(m)).drop_last() =~= fore.map_values(
            |m: Json| detached_said(m),
        ));
        assert(msgs.map_values(|m: Json| launched_said(m)).drop_last() =~= fore.map_values(
            |m: Json| launched_said(m),
        ));
    }
}

/// The list a device gets is made of the live terminals that its filter shows,
/// in order, and each entry tells what is known of its terminal: the time of
/// its last bell, its title, whether it is detached, and what it was launched
/// from.
pub proof fn lists_tell_what_is_known(
    live: Seq<Seq<char>>,
    t: TerminalsView,
    rules: Seq<RuleView>,
)
    ensures
        ({
            let list = listed(live, t, rules);
            let shown = live.filter(|name: Seq<char>| visible(rules, t, name));
            &&& list.len() == shown.len()
            &&& forall|i: int|
                0 <= i < list.len() ==> {
                    let entry = #[trigger] list[i];
                    &&& entry.socket == shown[i]
                    &&& entry.last_bell_at == t.terminal(shown[i]).last_bell_at
                    &&& entry.title == t.terminal(shown[i]).title
                    &&& entry.detached == t.terminal(shown[i]).detached
                    &&& entry.launched == t.terminal(shown[i]).launched
                }
        }),
    decreases live.len(),
{
    reveal(Seq::filter);
    if live.len() > 0 {
        lists_tell_what_is_known(live.drop_last(), t, rules);
    }
}

/// The list says of a terminal what its monitor last reported, from when it was
/// found on: so after a bell at some time, with none reported after it, its
/// entry has that time.
pub proof fn lists_tell_the_last_reports(
    live: Seq<Seq<char>>,
    t: TerminalsView,
    rules: Seq<RuleView>,
    name: Seq<char>,
    msgs: Seq<Json>,
    i: int,
)
    requires
        0 <= i < listed(live, reported(t, name, msgs), rules).len(),
        listed(live, reported(t, name, msgs), rules)[i].socket == name,
    ensures
        ({
            let entry = listed(live, reported(t, name, msgs), rules)[i];
            let before = t.terminal(name);
            &&& entry.last_bell_at == latest(
                msgs.map_values(|m: Json| bell_said(m)),
                before.last_bell_at,
            )
            &&& entry.title == latest(msgs.map_values(|m: Json| title_said(m)), before.title)
            &&& entry.detached == latest(
                msgs.map_values(|m: Json| detached_said(m)),
                before.detached,
            )
            &&& entry.launched == latest(
                msgs.map_values(|m: Json| launched_said(m)),
                before.launched,
            )
        }),
{
    last_reports_are_known(t, name, msgs);
    lists_tell_what_is_known(live, reported(t, name, msgs), rules);
}

/// A bell that a terminal's monitor reports is passed on to the devices, and
/// from then on the terminal's entry in the list has its time; and likewise a
/// new title, and that somebody attached or detached.
pub proof fn events_are_passed_on(
    live: Seq<Seq<char>>,
    t: TerminalsView,
    rules: Seq<RuleView>,
    name: Seq<char>,
    msg: Json,
    i: int,
)
    requires
        0 <= i < listed(live, t.after_message(name, msg).0, rules).len(),
        listed(live, t.after_message(name, msg).0, rules)[i].socket == name,
    ensures
        ({
            let (after, event) = t.after_message(name, msg);
            let entry = listed(live, after, rules)[i];
            let before = t.terminal(name);
            &&& after.monitored == t.monitored
            &&& bell_said(msg) matches Some(Some(at)) ==> entry.last_bell_at == Some(at) && event
                == Some(ServerMsg::Bell { socket: name, last_bell_at: at })
            &&& bell_said(msg) is None ==> entry.last_bell_at == before.last_bell_at
            &&& title_said(msg) matches Some(Some(title)) ==> entry.title == Some(title) && (
            is_kind(msg, "title"@) ==> event == Some(ServerMsg::Title { socket: name, title }))
            &&& title_said(msg) is None ==> entry.title == before.title
            &&& detached_said(msg) matches Some(detached) ==> entry.detached == detached && (is_kind(
                msg,
                "host_changed"@,
            ) ==> event == Some(ServerMsg::Detached { socket: name, detached }))
            &&& detached_said(msg) is None ==> entry.detached == before.detached
            &&& is_kind(msg, "connect"@) ==> event is None
        }),
{
    report_kinds();
    lists_tell_what_is_known(live, t.after_message(name, msg).0, rules);
}

/// The entry of a terminal has the process and the directory that its socket
/// was named for.
pub proof fn entries_tell_process_and_directory(t: TerminalsView, pid: u32, cwd: Seq<char>)
    ensures
        session_info(t, socket_text(pid, cwd)).socket == socket_text(pid, cwd),
        session_info(t, socket_text(pid, cwd)).pid == pid,
        session_info(t, socket_text(pid, cwd)).cwd_hint == sanitized(cwd),
{
    let name = socket_text(pid, cwd);
    let digits = decimal(pid as nat);
    socket_name_carries_pid(pid, cwd);
    reveal_strlit("-");
    decimal_reads_back(pid as nat);
    assert forall|k: int| 0 <= k < digits.len() implies #[trigger] name[k] != '-' by {
        assert(name[k] == digits[k]);
        assert(crate::text::is_digit(digits[k]));
    }
    find_is_first(name, '-', 0, digits.len() as int);
    assert(name.skip((digits.len() + 1) as int) =~= sanitized(cwd));
}

proof fn request_kinds()
    ensures
        "list"@.len() == 4,
        "connect"@.len() == 7,
        "launch"@.len() == 6,
        "disconnect"@.len() == 10,
        "input"@.len() == 5,
{
    reveal_strlit("list");
    reveal_strlit("connect");
    reveal_strlit("launch");
    reveal_strlit("disconnect");
    reveal_strlit("input");
}

/// The answer that says what is wrong.
pub open spec fn told_off(message: Seq<char>) -> RequestView {
    RequestView::Reply(ServerMsg::Error { message })
}

/// What cannot be read, or does not say what it is, is answered by an error.
/// A list, a launch and a disconnect are for the server; a launch without a
/// preset is for a shell. Everything else is passed on to the session that the
/// device is connected to, as long as there is one, but for the input of a
/// token that may only read.
pub proof fn requests_are_told_apart(
    text: Seq<char>,
    connected: bool,
    c: ConfigView,
    token: TokenView,
    rules: Seq<RuleView>,
    t: TerminalsView,
    msg: Json,
    e: Seq<char>,
)
    ensures
        ({
            let r = request(text, connected, c, token, rules, t);
            let kind = msg.field("type"@);
            &&& json_parsed(text) == Err::<Json, Seq<char>>(e) ==> r == told_off(
                "invalid JSON: "@ + e,
            )
            &&& json_parsed(text) == Ok::<Json, Seq<char>>(msg) ==> {
                &&& !(kind matches Some(Json::Text(_))) ==> r == told_off("message has no type"@)
                &&& is_kind(msg, "list"@) ==> r == RequestView::List
                &&& is_kind(msg, "disconnect"@) ==> r == RequestView::Disconnect
                &&& is_kind(msg, "launch"@) ==> r == (RequestView::Launch {
                    preset: match msg.field("command"@) {
                        Some(Json::Text(preset)) => preset,
                        _ => "shell"@,
                    },
                    cwd: match msg.field("cwd"@) {
                        Some(Json::Text(cwd)) => Some(cwd),
                        _ => None,
                    },
                })
                &&& (kind matches Some(Json::Text(_))) && !is_kind(msg, "list"@) && !is_kind(
                    msg,
                    "disconnect"@,
                ) && !is_kind(msg, "launch"@) && !is_kind(msg, "connect"@) ==> r == (
                if is_kind(msg, "input"@) && token.readonly {
                    told_off("server is read-only"@)
                } else if connected {
                    RequestView::Forward
                } else {
                    told_off("not connected to a session"@)
                })
            }
        }),
{
    request_kinds();
}

proof fn place_found(list: Seq<Seq<char>>, text: Seq<char>, from: int)
    requires
        0 <= from <= list.len(),
    ensures
        match place(list, text, from) {
            Some(k) => from <= k < list.len() && list[k] == text && forall|j: int|
                from <= j < k ==> #[trigger] list[j] != text,
            None => forall|j: int| from <= j < list.len() ==> #[trigger] list[j] != text,
        },
    decreases list.len() - from,
{
    if from < list.len() && list[from] != text {
        place_found(list, text, from + 1);
    }
}

/// A device is connected to the terminal that it names, if that can be one's
/// name and its filter shows it, and is told otherwise which of these fails.
/// The session gets to know how it ranks: at its place in the list of those
/// that take precedence, or behind all of them; and how the host ranks: at its
/// place, or behind everybody.
pub proof fn connects_carry_the_ranks(
    text: Seq<char>,
    connected: bool,
    c: ConfigView,
    token: TokenView,
    rules: Seq<RuleView>,
    t: TerminalsView,
    msg: Json,
)
    requires
        json_parsed(text) == Ok::<Json, Seq<char>>(msg),
        is_kind(msg, "connect"@),
    ensures
        ({
            let r = request(text, connected, c, token, rules, t);
            match msg.field("socket"@) {
                Some(Json::Text(name)) => if !crate::paths::valid_socket_text(name) {
                    r == told_off("invalid socket name"@)
                } else if !visible(rules, t, name) {
                    r == told_off("terminal does not match your token's filter"@)
                } else {
                    match r {
                        RequestView::Connect { socket, size_rank, host_size_rank } => {
                            let order = c.size_precedence;
                            &&& socket == name
                            &&& if order.contains(token.name) {
                                &&& 0 <= size_rank < order.len()
                                &&& order[size_rank] == token.name
                                &&& forall|k: int|
                                    0 <= k < size_rank ==> #[trigger] order[k] != token.name
                            } else {
                                size_rank == order.len()
                            }
                            &&& if order.contains("host"@) {
                                &&& 0 <= host_size_rank < order.len()
                                &&& order[host_size_rank] == "host"@
                                &&& forall|k: int|
                                    0 <= k < host_size_rank ==> #[trigger] order[k] != "host"@
                            } else {
                                host_size_rank == order.len() + 1
                            }
                        },
                        _ => false,
                    }
                },
                _ => r == told_off("connect requires a socket name"@),
            }
        }),
{
    request_kinds();
    place_found(c.size_precedence, token.name, 0);
    place_found(c.size_precedence, "host"@, 0);
    if c.size_precedence.contains(token.name) {
        let k = choose|k: int|
            0 <= k < c.size_precedence.len() && c.size_precedence[k] == token.name;
        assert(c.size_precedence[k] == token.name);
    }
    if c.size_precedence.contains("host"@) {
        let k = choose|k: int| 0 <= k < c.size_precedence.len() && c.size_precedence[k] == "host"@;
        assert(c.size_precedence[k] == "host"@);
    }
}

proof fn token_found(tokens: Seq<TokenView>, given: Seq<char>, from: int)
    requires
        0 <= from <= tokens.len(),
    ensures
        match find_token(tokens, given, from) {
            Some(k) => from <= k < tokens.len() && is_token(given, tokens[k].token_hash)
                && forall|j: int|
                from <= j < k ==> !is_token(given, (#[trigger] tokens[j]).token_hash),
            None => forall|j: int|
                from <= j < tokens.len() ==> !is_token(given, (#[trigger] tokens[j]).token_hash),
        },
    decreases tokens.len() - from,
{
    if from < tokens.len() && !is_token(given, tokens[from].token_hash) {
        token_found(tokens, given, from + 1);
    }
}

/// A device is let in exactly when its first message introduces it, in protocol
/// version 1, with a token whose hash is among those stored; it then is whoever
/// the first of these names. Otherwise it is told the first of these that fails.
pub proof fn only_known_tokens_are_let_in(
    tokens: Seq<TokenView>,
    msg_type: Seq<char>,
    version: u32,
    given: Seq<char>,
)
    ensures
        match admission(tokens, msg_type, version, given) {
            Ok(i) => {
                &&& msg_type == "init"@
                &&& version == 1
                &&& 0 <= i < tokens.len()
                &&& is_token(given, tokens[i].token_hash)
                &&& forall|k: int| 0 <= k < i ==> !is_token(given, (#[trigger] tokens[k]).token_hash)
            },
            Err(message) => {
                ||| msg_type != "init"@ && message == "first message must be init"@
                ||| msg_type == "init"@ && version != 1 && message
                    == "unsupported protocol version "@ + decimal(version as nat)
                ||| msg_type == "init"@ && version == 1 && message == "authentication failed"@
                    && forall|k: int|
                    0 <= k < tokens.len() ==> !is_token(given, (#[trigger] tokens[k]).token_hash)
            },
        },
{
    token_found(tokens, given, 0);
}

/// A terminal is shown by rules exactly if there is none, or one of them
/// matches it: in its working directory and in its title, as far as the rule
/// names a pattern for them, and what is not known of it matches none.
pub proof fn rules_decide_what_is_shown(rules: Seq<RuleView>, t: TerminalsView, name: Seq<char>)
    ensures
        visible(rules, t, name) == (rules.len() == 0 || exists|i: int|
            0 <= i < rules.len() && ((#[trigger] rules[i]).path matches Some(p) ==> t.terminal(
                name,
            ).cwd matches Some(cwd) && regex_finds(p, cwd)) && (rules[i].windowtitle matches Some(p)
                ==> t.terminal(name).title matches Some(title) && regex_finds(p, title))),
{
    let cwd = t.terminal(name).cwd;
    let title = t.terminal(name).title;
    if rules.len() > 0 && visible(rules, t, name) {
        let i = choose|i: int|
            0 <= i < rules.len() && crate::filter::rule_admits(#[trigger] rules[i], cwd, title);
        assert(rules[i].path matches Some(p) ==> cwd matches Some(d) && regex_finds(p, d));
    }
    if exists|i: int|
        0 <= i < rules.len() && ((#[trigger] rules[i]).path matches Some(p) ==> t.terminal(
            name,
        ).cwd matches Some(cwd) && regex_finds(p, cwd)) && (rules[i].windowtitle matches Some(p)
            ==> t.terminal(name).title matches Some(title) && regex_finds(p, title)) {
        let i = choose|i: int|
            0 <= i < rules.len() && ((#[trigger] rules[i]).path matches Some(p) ==> t.terminal(
                name,
            ).cwd matches Some(cwd) && regex_finds(p, cwd)) && (rules[i].windowtitle matches Some(p)
                ==> t.terminal(name).title matches Some(title) && regex_finds(p, title));
        assert(crate::filter::rule_admits(rules[i], cwd, title));
    }
}

/// What happens at a terminal reaches the devices that are shown it. A device
/// that is connected to a terminal it is no longer shown loses it; one that is
/// not gets to know nothing. What is about no terminal reaches every device.
pub proof fn events_reach_who_may_see_them(
    rules: Seq<RuleView>,
    t: TerminalsView,
    attached: Option<Seq<char>>,
    socket: Seq<char>,
    at: u64,
    title: Seq<char>,
    detached: bool,
    event: ServerMsg,
)
    ensures
        ({
            let due = if visible(rules, t, socket) {
                Delivery::Event
            } else if attached == Some(socket) {
                Delivery::Revoked
            } else {
                Delivery::Nothing
            };
            &&& delivery(ServerMsg::Bell { socket, last_bell_at: at }, rules, t, attached) == due
            &&& delivery(ServerMsg::Title { socket, title }, rules, t, attached) == due
            &&& delivery(ServerMsg::Detached { socket, detached }, rules, t, attached) == due
            &&& !(event is Bell) && !(event is Title) && !(event is Detached) ==> delivery(
                event,
                rules,
                t,
                attached,
            ) == Delivery::Event
        }),
{
}

proof fn newcomers_found(live: Seq<Seq<char>>, monitored: Set<Seq<char>>)
    ensures
        forall|name: Seq<char>|
            newcomers(live, monitored).contains(name) <==> #[trigger] live.contains(name)
                && !monitored.contains(name),
        newcomers(live, monitored).no_duplicates(),
    decreases live.len(),
{
    if live.len() > 0 {
        let fore = live.drop_last();
        let last = live.last();
        newcomers_found(fore, monitored);
        let before = newcomers(fore, monitored);
        let all = newcomers(live, monitored);
        assert forall|name: Seq<char>|
            all.contains(name) <==> #[trigger] live.contains(name) && !monitored.contains(
                name,
            ) by {
            assert(fore.contains(name) ==> before.contains(name) || monitored.contains(name));
            assert(live.contains(name) == (fore.contains(name) || name == last)) by {
                if live.contains(name) {
                    let k = choose|k: int| 0 <= k < live.len() && live[k] == name;
                    if k < fore.len() {
                        assert(fore[k] == name);
                    }
                }
                if fore.contains(name) {
                    let k = choose|k: int| 0 <= k < fore.len() && fore[k] == name;
                    assert(live[k] == name);
                }
                assert(live[live.len() - 1] == last);
            }
            if monitored.contains(last) || fore.contains(last) {
            } else {
                assert(all =~= before.push(last));
                if all.contains(name) {
                    let k = choose|k: int| 0 <= k < all.len() && all[k] == name;
                    if k < before.len() {
                        assert(before[k] == name);
                        assert(before.contains(name));
                    }
                }
                if before.contains(name) {
                    let k = choose|k: int| 0 <= k < before.len() && before[k] == name;
                    assert(all[k] == name);
                }
                assert(all[before.len() as int] == last);
            }
        }
        if !(monitored.contains(last) || fore.contains(last)) {
            assert(!before.contains(last)) by {
                if before.contains(last) {
                    assert(fore.contains(last));
                }
            }
        }
    }
}

/// A scan starts one monitor for each live terminal that has none yet.
pub proof fn scans_find_the_newcomers(live: Seq<Seq<char>>, monitored: Set<Seq<char>>, name: Seq<char>)
    ensures
        newcomers(live, monitored).contains(name) <==> live.contains(name) && !monitored.contains(
            name,
        ),
        newcomers(live, monitored).no_duplicates(),
{
    newcomers_found(live, monitored);
}

proof fn preset_found(presets: Seq<NamedPresetView>, name: Seq<char>, from: int)
    requires
        0 <= from <= presets.len(),
    ensures
        match find_preset(presets, name, from) {
            Some(k) => from <= k < presets.len() && presets[k].name == name && forall|j: int|
                from <= j < k ==> (#[trigger] presets[j]).name != name,
            None => forall|j: int|
                from <= j < presets.len() ==> (#[trigger] presets[j]).name != name,
        },
    decreases presets.len() - from,
{
    if from < presets.len() && presets[from].name != name {
        preset_found(presets, name, from + 1);
    }
}

/// Whether a token may launch a preset: it may write, and is granted every
/// preset, or that one by name.
pub open spec fn may_launch(token: TokenView, preset: Seq<char>) -> bool {
    !token.readonly && match token.launch {
        GrantView::Flag(all) => all,
        GrantView::Named(names) => exists|k: int|
            0 <= k < names.len() && #[trigger] names[k] == preset,
    }
}

/// A launch goes ahead exactly if the token may launch that preset, there is
/// one of that name, and a working directory is asked for only where the preset
/// allows it. It starts in the one asked for, or else in the preset's own, or
/// else at home.
pub proof fn launches_follow_the_preset(
    c: ConfigView,
    token: TokenView,
    preset: Seq<char>,
    cwd: Option<Seq<char>>,
)
    ensures
        ({
            let r = launch_choice(c, token, preset, cwd);
            let known = exists|k: int|
                0 <= k < c.launch.len() && (#[trigger] c.launch[k]).name == preset;
            &&& !may_launch(token, preset) ==> r == Err::<(int, Seq<char>), Seq<char>>(
                "your token may not launch "@ + debug_text(preset),
            )
            &&& may_launch(token, preset) && !known ==> r == Err::<(int, Seq<char>), Seq<char>>(
                "no launch preset named "@ + debug_text(preset),
            )
            &&& may_launch(token, preset) && known ==> exists|k: int|
                0 <= k < c.launch.len() && (#[trigger] c.launch[k]).name == preset && (forall|j: int|
                    0 <= j < k ==> (#[trigger] c.launch[j]).name != preset) && r == (match cwd {
                    Some(dir) if !c.launch[k].preset.allow_cwd => Err::<
                        (int, Seq<char>),
                        Seq<char>,
                    >(
                        "preset "@ + debug_text(preset)
                            + " does not allow overriding the working directory"@,
                    ),
                    Some(dir) => Ok((k, dir)),
                    None => Ok(
                        (
                            k,
                            if c.launch[k].preset.cwd is Some {
                                c.launch[k].preset.cwd->Some_0
                            } else {
                                "~"@
                            },
                        ),
                    ),
                })
        }),
{
    preset_found(c.launch, preset, 0);
    if let GrantView::Named(names) = token.launch {
        if names.contains(preset) {
            let k = choose|k: int| 0 <= k < names.len() && names[k] == preset;
            assert(names[k] == preset);
        } else {
            assert forall|k: int| 0 <= k < names.len() implies #[trigger] names[k] != preset by {
                assert(names.contains(names[k]));
            }
        }
    }
    if let Some(k) = find_preset(c.launch, preset, 0) {
        assert(c.launch[k].name == preset);
    }
}

/// A leading `~` stands for the home directory where it is a whole component of
/// the path; any other path is as it is.
pub proof fn home_is_expanded(rest: Seq<char>, home: Seq<char>, path: Seq<char>)
    ensures
        expanded("~"@, Some(home)) =~= home,
        expanded("~/"@ + rest, Some(home)) =~= home + "/"@ + rest,
        expanded(path, None) == path,
        path.len() == 0 || path[0] != '~' || (path.len() > 1 && path[1] != '/') ==> expanded(
            path,
            Some(home),
        ) == path,
{
    reveal_strlit("~");
    reveal_strlit("~/");
    reveal_strlit("/");
}

proof fn end_is_trimmed(s: Seq<char>)
    ensures
        trimmed_end(s).len() <= s.len(),
        trimmed_end(s) == s.take(trimmed_end(s).len() as int),
        forall|k: int| trimmed_end(s).len() <= k < s.len() ==> is_white(#[trigger] s[k]),
        trimmed_end(s).len() > 0 ==> !is_white(trimmed_end(s).last()),
    decreases s.len(),
{
    if s.len() > 0 && is_white(s.last()) {
        end_is_trimmed(s.drop_last());
        assert forall|k: int| trimmed_end(s).len() <= k < s.len() implies is_white(
            #[trigger] s[k],
        ) by {
            if k < s.len() - 1 {
                assert(s.drop_last()[k] == s[k]);
            }
        }
        assert(s.take(trimmed_end(s).len() as int) =~= s.drop_last().take(
            trimmed_end(s).len() as int,
        ));
    } else {
        assert(s.take(s.len() as int) =~= s);
    }
}

proof fn start_is_trimmed(s: Seq<char>) -> (n: int)
    ensures
        0 <= n <= s.len(),
        trimmed_start(s) == s.skip(n),
        forall|k: int| 0 <= k < n ==> is_white(#[trigger] s[k]),
        trimmed_start(s).len() > 0 ==> !is_white(trimmed_start(s)[0]),
    decreases s.len(),
{
    if s.len() > 0 && is_white(s[0]) {
        let n = start_is_trimmed(s.skip(1));
        assert(s.skip(1).skip(n) =~= s.skip(n + 1));
        assert forall|k: int| 0 <= k < n + 1 implies is_white(#[trigger] s[k]) by {
            if k > 0 {
                assert(s.skip(1)[k - 1] == s[k]);
            }
        }
        n + 1
    } else {
        assert(s.skip(0) =~= s);
        0
    }
}

/// `all` is `part` with white space around it, and `part` has none at its ends.
pub open spec fn trims_to(all: Seq<char>, part: Seq<char>) -> bool {
    &&& part.len() > 0 ==> !is_white(part[0]) && !is_white(part.last())
    &&& exists|from: int, to: int|
        0 <= from <= to <= all.len() && #[trigger] all.subrange(from, to) == part && (forall|k: int|
            (0 <= k < from || to <= k < all.len()) ==> is_white(#[trigger] all[k]))
}

proof fn both_ends_are_trimmed(s: Seq<char>)
    ensures
        trims_to(s, trimmed_start(trimmed_end(s))),
{
    let e = trimmed_end(s);
    end_is_trimmed(s);
    let n = start_is_trimmed(e);
    let part = trimmed_start(e);
    assert(s.subrange(n, e.len() as int) =~= part);
    assert forall|k: int| (0 <= k < n || e.len() <= k < s.len()) implies is_white(
        #[trigger] s[k],
    ) by {
        if k < n {
            assert(e[k] == s[k]);
        }
    }
    if part.len() > 0 {
        assert(part.last() == e.last());
    }
}

/// A launch that failed is answered by what the wrapper said; one that worked
/// by the socket that it printed, if that can be one's name. White space around
/// either is not part of it.
pub proof fn launches_are_answered(success: bool, stdout: Seq<u8>, stderr: Seq<u8>)
    ensures
        match launch_outcome(success, stdout, stderr) {
            Ok(socket) => success && trims_to(lossy_text(stdout), socket)
                && crate::paths::valid_socket_text(socket),
            Err(message) => {
                ||| !success && exists|said: Seq<char>|
                    trims_to(lossy_text(stderr), said) && message
                        == #[trigger] ("g2mirror --detached failed: "@ + said)
                ||| success && exists|socket: Seq<char>|
                    trims_to(lossy_text(stdout), socket) && !crate::paths::valid_socket_text(socket)
                        && message == "g2mirror --detached printed an unexpected socket name "@
                        + #[trigger] debug_text(socket)
            },
        },
{
    both_ends_are_trimmed(lossy_text(stdout));
    both_ends_are_trimmed(lossy_text(stderr));
    let said = trimmed_start(trimmed_end(lossy_text(stderr)));
    let socket = trimmed_start(trimmed_end(lossy_text(stdout)));
    if !success {
        assert(launch_outcome(success, stdout, stderr) == Err::<Seq<char>, Seq<char>>(
            "g2mirror --detached failed: "@ + said,
        ));
    }
}

/// The flags of a request to add a token.
pub open spec fn asked_flags(
    name: Seq<char>,
    writable: bool,
    launch_all: bool,
    presets: Seq<Seq<char>>,
) -> Seq<Seq<char>>
    decreases presets.len(),
{
    if presets.len() == 0 {
        seq![name] + (if writable {
            seq!["--writable"@]
        } else {
            Seq::empty()
        }) + (if launch_all {
            seq!["--launch-all"@]
        } else {
            Seq::empty()
        })
    } else {
        asked_flags(name, writable, launch_all, presets.drop_last()) + seq![
            "--launch"@,
            presets.last(),
        ]
    }
}

proof fn add_flags()
    ensures
        "--writable"@.len() == 10,
        "--launch"@.len() == 8,
        "--launch-all"@.len() == 12,
        "--writable"@[0] == '-',
        "--launch"@[0] == '-',
        "--launch-all"@[0] == '-',
{
    reveal_strlit("--writable");
    reveal_strlit("--launch");
    reveal_strlit("--launch-all");
}

proof fn add_args_go_on(a: Seq<Seq<char>>, b: Seq<Seq<char>>, i: nat, start: AddView, done: AddView)
    requires
        i <= a.len(),
        add_args(a, i, start) == Ok::<AddView, Seq<char>>(done),
    ensures
        add_args(a + b, i, start) == add_args(a + b, a.len(), done),
    decreases a.len() - i,
{
    add_flags();
    if i < a.len() {
        let arg = a[i as int];
        assert((a + b)[i as int] == arg);
        if arg == "--writable"@ {
            add_args_go_on(a, b, i + 1, AddView { writable: true, ..start }, done);
        } else if arg == "--launch-all"@ {
            add_args_go_on(a, b, i + 1, AddView { launch_all: true, ..start }, done);
        } else if arg == "--launch"@ {
            assert(i + 1 < a.len());
            assert((a + b)[i as int + 1] == a[i as int + 1]);
            add_args_go_on(
                a,
                b,
                i + 2,
                AddView { presets: start.presets.push(a[i as int + 1]), ..start },
                done,
            );
        } else {
            add_args_go_on(a, b, i + 1, AddView { name: Some(arg), ..start }, done);
        }
    }
}

proof fn asked_flags_are_read(
    name: Seq<char>,
    writable: bool,
    launch_all: bool,
    presets: Seq<Seq<char>>,
)
    requires
        name.len() == 0 || name[0] != '-',
    ensures
        add_args(
            asked_flags(name, writable, launch_all, presets),
            0,
            AddView { name: None, writable: false, launch_all: false, presets: Seq::empty() },
        ) == Ok::<AddView, Seq<char>>(
            AddView { name: Some(name), writable, launch_all, presets },
        ),
    decreases presets.len(),
{
    add_flags();
    let start = AddView { name: None, writable: false, launch_all: false, presets: Seq::empty() };
    let args = asked_flags(name, writable, launch_all, presets);
    if presets.len() == 0 {
        reveal_with_fuel(add_args, 4);
        assert(args[0] == name);
        assert(presets =~= Seq::empty());
        if writable {
            assert(args[1] == "--writable"@);
            if launch_all {
                assert(args[2] == "--launch-all"@);
            }
        } else if launch_all {
            assert(args[1] == "--launch-all"@);
        }
    } else {
        let fore = presets.drop_last();
        asked_flags_are_read(name, writable, launch_all, fore);
        let a = asked_flags(name, writable, launch_all, fore);
        let b = seq!["--launch"@, presets.last()];
        let done = AddView { name: Some(name), writable, launch_all, presets: fore };
        add_args_go_on(a, b, 0, start, done);
        assert(args == a + b);
        assert(args[a.len() as int] == "--launch"@);
        assert(args[a.len() as int + 1] == presets.last());
        reveal_with_fuel(add_args, 2);
        assert(fore.push(presets.last()) =~= presets);
    }
}

/// A token that is asked for by name and options is the one that is added: it
/// may write only where that is asked for, and launches what is asked for. The
/// name of the host is refused, and so is a launch without the right to write.
pub proof fn token_requests_are_read(
    name: Seq<char>,
    writable: bool,
    launch_all: bool,
    presets: Seq<Seq<char>>,
)
    requires
        name.len() == 0 || name[0] != '-',
    ensures
        add_request(asked_flags(name, writable, launch_all, presets)) == (if name == "host"@ {
            Err::<AddView, Seq<char>>(
                "\"host\" is reserved (it stands for the host terminal in size_precedence)"@,
            )
        } else if !writable && (launch_all || presets.len() > 0) {
            Err(
                "a launch grant requires --writable (a read-only token cannot type into the shells it starts)"@,
            )
        } else {
            Ok(AddView { name: Some(name), writable, launch_all, presets })
        }),
{
    asked_flags_are_read(name, writable, launch_all, presets);
}

/// A request without a name is answered by how to use it; an option that is not
/// known, or a second name, by naming it; and a launch without a preset by what
/// is missing.
pub proof fn bad_token_requests_are_refused(so_far: AddView, args: Seq<Seq<char>>, i: nat)
    requires
        i < args.len(),
    ensures
        ({
            let arg = args[i as int];
            &&& add_request(Seq::empty()) == Err::<AddView, Seq<char>>(
                "usage: g2mirror-server --add-token <name> [--writable] [--launch <preset>]... [--launch-all]"@,
            )
            &&& arg == "--launch"@ && i + 1 == args.len() ==> add_args(args, i, so_far) == Err::<
                AddView,
                Seq<char>,
            >("--launch requires a preset name"@)
            &&& arg != "--launch"@ && arg != "--launch-all"@ && arg != "--writable"@ && (
            so_far.name is Some || (arg.len() > 0 && arg[0] == '-')) ==> add_args(args, i, so_far)
                == Err::<AddView, Seq<char>>("unexpected argument: "@ + arg)
        }),
{
    add_flags();
}

/// The grant of an added token lets it launch every preset, where that is asked
/// for, or just those that are named.
pub proof fn grants_are_those_asked_for(a: AddView, preset: Seq<char>)
    ensures
        asked_grant(a).allows(preset) == (a.launch_all || a.presets.contains(preset)),
        asked_grant(a).is_none() == (!a.launch_all && a.presets.len() == 0),
{
}

proof fn missing_is_first(c: ConfigView, names: Seq<Seq<char>>, i: int)
    requires
        0 <= i <= names.len(),
    ensures
        match missing_preset(c, names, i) {
            Some(name) => exists|k: int|
                i <= k < names.len() && #[trigger] names[k] == name && find_preset(c.launch, name, 0)
                    is None,
            None => forall|k: int|
                i <= k < names.len() ==> find_preset(c.launch, #[trigger] names[k], 0) is Some,
        },
    decreases names.len() - i,
{
    if i < names.len() {
        if find_preset(c.launch, names[i], 0) is None {
            assert(names[i] == names[i]);
        } else {
            missing_is_first(c, names, i + 1);
        }
    }
}

/// A new token fits the configuration exactly if no other has its name, and
/// every preset that it names is there.
pub proof fn new_tokens_fit_the_configuration(c: ConfigView, name: Seq<char>, grant: GrantView)
    ensures
        clash(c, name, grant) is None <==> {
            &&& forall|i: int| 0 <= i < c.tokens().len() ==> (#[trigger] c.tokens()[i]).name != name
            &&& match grant {
                GrantView::Named(names) => forall|k: int|
                    0 <= k < names.len() ==> exists|j: int|
                        0 <= j < c.launch.len() && (#[trigger] c.launch[j]).name
                            == #[trigger] names[k],
                GrantView::Flag(_) => true,
            }
        },
        (exists|i: int| 0 <= i < c.tokens().len() && (#[trigger] c.tokens()[i]).name == name)
            ==> clash(c, name, grant) == Some("a token named \""@ + name + "\" already exists"@),
        (forall|i: int| 0 <= i < c.tokens().len() ==> (#[trigger] c.tokens()[i]).name != name)
            && clash(c, name, grant) is Some ==> (grant matches GrantView::Named(names) && exists|
            k: int,
        |
            0 <= k < names.len() && find_preset(c.launch, #[trigger] names[k], 0) is None && clash(
                c,
                name,
                grant,
            ) == Some(
                "no launch preset named "@ + debug_text(names[k]) + " in the config"@,
            )),
{
    if let GrantView::Named(names) = grant {
        missing_is_first(c, names, 0);
        assert forall|k: int| 0 <= k < names.len() implies (find_preset(
            c.launch,
            #[trigger] names[k],
            0,
        ) is Some) == (exists|j: int|
            0 <= j < c.launch.len() && (#[trigger] c.launch[j]).name == names[k]) by {
            preset_found(c.launch, names[k], 0);
        }
        if let Some(name) = missing_preset(c, names, 0) {
            let k = choose|k: int|
                0 <= k < names.len() && #[trigger] names[k] == name && find_preset(
                    c.launch,
                    name,
                    0,
                ) is None;
            preset_found(c.launch, names[k], 0);
            assert(!(exists|j: int|
                0 <= j < c.launch.len() && (#[trigger] c.launch[j]).name == names[k]));
        }
    }
}

/// The filter of a token is the one that was last compiled for its name.
pub proof fn filters_are_found_by_name(tokens: Seq<TokenView>, name: Seq<char>)
    ensures
        match filter_index(tokens, name) {
            Some(k) => 0 <= k < tokens.len() && tokens[k].name == name && forall|j: int|
                k < j < tokens.len() ==> (#[trigger] tokens[j]).name != name,
            None => forall|j: int| 0 <= j < tokens.len() ==> (#[trigger] tokens[j]).name != name,
        },
    decreases tokens.len(),
{
    if tokens.len() > 0 && tokens.last().name != name {
        filters_are_found_by_name(tokens.drop_last(), name);
        assert forall|j: int|
            0 <= j < tokens.len() - 1 implies #[trigger] tokens[j] == tokens.drop_last()[j] by {}
    }
}

/// Of a terminal that nothing was reported of, nothing is told: no bell, no
/// title, no directory, not that it is detached, nor what it was launched from.
/// One that is gone is forgotten, so that a later one of its name starts over.
pub proof fn gone_terminals_are_forgotten(
    t: TerminalsView,
    live: Seq<Seq<char>>,
    again: Seq<Seq<char>>,
    name: Seq<char>,
)
    requires
        !live.contains(name),
    ensures
        ({
            let entry = session_info(t.scanned(live).scanned(again), name);
            &&& entry.last_bell_at is None
            &&& entry.title is None
            &&& !entry.detached
            &&& entry.launched is None
            &&& t.scanned(live).scanned(again).terminal(name).cwd is None
        }),
{
}

} // verus!
