//! What the viewer shows and sends: the laws of its list, of its keys and of
//! the messages of the server.

use crate::keys::{keys_of, ListKey};
use crate::json::{json_parsed, Json};
use crate::live::{refresh_bytes, FeedView, ScreenView, ShownView, StepView};
use crate::mirror::{MirrorView, View};
use crate::protocol::{base64_bytes, base64_text, InfoView};
use crate::session_model::without_controls;
use crate::attach::handy;
use crate::text::decimal;
use crate::viewer::{
    connection, detach_pos, entries_text, entry_text, find_socket, handshake_outcome, last_of_char,
    list_screen, AppView, ModeView, StepAct, ViewerMsg,
};
use vstd::prelude::*;
use vstd::string::*;
use vstd::utf8::*;
use vstd::view::View as _;

verus! {

proof fn kinds()
    ensures
        "sessions"@.len() == 8,
        "sessions"@[1] == 'e',
        "snapshot"@.len() == 8,
        "snapshot"@[1] == 'n',
        "bell"@.len() == 4,
        "bell"@[0] == 'b',
        "exit"@.len() == 4,
        "exit"@[0] == 'e',
        "title"@.len() == 5,
        "title"@[0] == 't',
        "error"@.len() == 5,
        "error"@[0] == 'e',
        "output"@.len() == 6,
        "connect"@.len() == 7,
        "disconnected"@.len() == 12,
        "history_lines"@.len() == 13,
{
    reveal_strlit("sessions");
    reveal_strlit("snapshot");
    reveal_strlit("bell");
    reveal_strlit("exit");
    reveal_strlit("title");
    reveal_strlit("error");
    reveal_strlit("output");
    reveal_strlit("connect");
    reveal_strlit("disconnected");
    reveal_strlit("history_lines");
}

/// Whether a message says that it is of this kind.
pub open spec fn is_kind(msg: Json, kind: Seq<char>) -> bool {
    msg.field("type"@) == Some(Json::Text(kind))
}

/// The list of terminals, where it is what the screen shows.
pub open spec fn shown_list(a: AppView, now: u64) -> Seq<StepAct> {
    if a.mode is List {
        seq![StepAct::Write(encode_utf8(list_screen(a, now)))]
    } else {
        Seq::empty()
    }
}

/// A message with the live terminals replaces the list. The selection stays
/// where it is as long as the new list has an entry there, and otherwise moves
/// to the last entry. Nothing else changes, and the list is drawn anew if it is
/// what the screen shows.
pub proof fn lists_keep_the_selection(a: AppView, msg: Json, sessions: Seq<InfoView>, now: u64)
    requires
        is_kind(msg, "sessions"@),
    ensures
        ({
            let (next, acts) = a.on_message(msg, sessions, now);
            let last: int = if sessions.len() > 0 {
                sessions.len() - 1
            } else {
                0
            };
            &&& next == (AppView { sessions: next.sessions, selected: next.selected, ..a })
            &&& next.sessions == sessions
            &&& a.selected < sessions.len() ==> next.selected == a.selected
            &&& a.selected >= sessions.len() ==> next.selected == last
            &&& acts == shown_list(next, now)
        }),
{
    kinds();
}

proof fn socket_is_found(sessions: Seq<InfoView>, socket: Seq<char>, from: int)
    requires
        0 <= from <= sessions.len(),
    ensures
        match find_socket(sessions, socket, from) {
            Some(k) => from <= k < sessions.len() && sessions[k].socket == socket && forall|j: int|
                from <= j < k ==> (#[trigger] sessions[j]).socket != socket,
            None => forall|j: int|
                from <= j < sessions.len() ==> (#[trigger] sessions[j]).socket != socket,
        },
    decreases sessions.len() - from,
{
    if from < sessions.len() && sessions[from].socket != socket {
        socket_is_found(sessions, socket, from + 1);
    }
}

/// A bell of a listed terminal sets the time of its last bell, and a new title
/// its title, as the message tells them; every other entry, and every other
/// part of that one, stays. Nothing happens to the list where the terminal is
/// not on it.
pub proof fn events_update_their_entry(
    a: AppView,
    msg: Json,
    sessions: Seq<InfoView>,
    now: u64,
    socket: Seq<char>,
    i: int,
)
    requires
        is_kind(msg, "bell"@) || is_kind(msg, "title"@),
        msg.field("socket"@) == Some(Json::Text(socket)),
        0 <= i < a.sessions.len(),
    ensures
        ({
            let (next, acts) = a.on_message(msg, sessions, now);
            let told = a.sessions[i].socket == socket && forall|k: int|
                0 <= k < i ==> (#[trigger] a.sessions[k]).socket != socket;
            let entry = next.sessions[i];
            &&& next == (AppView { sessions: next.sessions, ..a })
            &&& next.sessions.len() == a.sessions.len()
            &&& !told ==> entry == a.sessions[i]
            &&& told && is_kind(msg, "bell"@) ==> {
                &&& entry == (InfoView { last_bell_at: entry.last_bell_at, ..a.sessions[i] })
                &&& entry.last_bell_at == msg.unsigned_field("last_bell_at"@)
            }
            &&& told && is_kind(msg, "title"@) ==> {
                &&& entry == (InfoView { title: entry.title, ..a.sessions[i] })
                &&& entry.title == msg.text_field("title"@)
            }
            &&& acts == shown_list(next, now)
        }),
{
    kinds();
    socket_is_found(a.sessions, socket, 0);
}

/// A title that comes without a terminal's name is that of the viewed session:
/// it is set on the terminal once the session is shown there, without its
/// control characters. A connection's greeting is answered by asking to view,
/// and tells whether input is taken and where the history begins.
pub proof fn stream_events_reach_the_terminal(
    a: AppView,
    msg: Json,
    sessions: Seq<InfoView>,
    now: u64,
)
    ensures
        ({
            let (next, acts) = a.on_message(msg, sessions, now);
            let live = a.mode matches ModeView::Attached(FeedView::Live(_));
            &&& is_kind(msg, "title"@) && msg.field("socket"@) is None ==> {
                &&& next == a
                &&& acts =~= (match msg.text_field("title"@) {
                    Some(title) if live => {
                        let bytes = encode_utf8("\x1b]2;"@ + without_controls(title) + "\x07"@);
                        if bytes.len() > 0 {
                            seq![StepAct::Write(bytes)]
                        } else {
                            Seq::empty()
                        }
                    },
                    _ => Seq::empty(),
                })
            }
            &&& is_kind(msg, "connect"@) && a.mode is Connecting ==> {
                &&& next == (AppView {
                    mode: ModeView::Attached(FeedView::Waiting),
                    status: "attaching..."@,
                    session_readonly: msg.field("readonly"@) == Some(Json::Bool(true)),
                    history_oldest: match msg.field("history"@) {
                        Some(history) => match history.unsigned_field("oldest"@) {
                            Some(n) => n,
                            None => 0,
                        },
                        None => 0,
                    },
                    ..a
                })
                &&& acts =~= seq![
                    StepAct::Send(ViewerMsg::View),
                    StepAct::Write(encode_utf8(list_screen(next, now))),
                ]
            }
            &&& is_kind(msg, "connect"@) && !(a.mode is Connecting) ==> next == a && acts
                =~= Seq::<StepAct>::empty()
        }),
{
    kinds();
}

/// What leaving a session does: a terminal that shows it is restored and the
/// list's screen entered, the list drawn, and a new one asked for.
pub open spec fn left(a: AppView, now: u64) -> Seq<StepAct> {
    (match a.mode {
        ModeView::Attached(FeedView::Live(m)) => {
            let bytes = m.cleanup_bytes() + encode_utf8("\x1b[?1049h\x1b[?25l"@);
            if bytes.len() > 0 {
                seq![StepAct::Write(bytes)]
            } else {
                Seq::empty()
            }
        },
        _ => Seq::empty(),
    }) + seq![
        StepAct::Write(
            encode_utf8(
                list_screen(
                    AppView { mode: ModeView::List, session_readonly: false, ..a },
                    now,
                ),
            ),
        ),
        StepAct::Send(ViewerMsg::List),
    ]
}

/// The end of a session is noted, and shown with the list that the disconnect
/// after it leads back to; a disconnect for another reason states that. An
/// error leads back to the list too, with what it says, but does not disturb a
/// session that is shown.
pub proof fn endings_lead_back_to_the_list(
    a: AppView,
    msg: Json,
    sessions: Seq<InfoView>,
    now: u64,
)
    ensures
        ({
            let (next, acts) = a.on_message(msg, sessions, now);
            let live = a.mode matches ModeView::Attached(FeedView::Live(_));
            let ended = a.status.len() >= 13 && a.status.take(13) == "session ended"@;
            &&& is_kind(msg, "exit"@) ==> {
                &&& next == (AppView { status: next.status, ..a })
                &&& acts =~= Seq::<StepAct>::empty()
                &&& next.status =~= "session ended ("@ + (match msg.integer_field("status"@) {
                    None => "killed by a signal"@,
                    Some(n) => if n >= 0 {
                        "exit status "@ + decimal(n as nat)
                    } else {
                        "exit status "@ + ("-"@ + decimal((-n) as nat))
                    },
                }) + ")"@
            }
            &&& is_kind(msg, "disconnected"@) ==> {
                let status = if ended {
                    a.status
                } else {
                    "disconnected ("@ + (match msg.text_field("reason"@) {
                        Some(reason) => reason,
                        None => "unknown"@,
                    }) + ")"@
                };
                &&& next == (AppView {
                    mode: ModeView::List,
                    session_readonly: false,
                    status,
                    ..a
                })
                &&& acts =~= left(AppView { status, ..a }, now)
            }
            &&& is_kind(msg, "error"@) && live ==> next == a && acts =~= Seq::<StepAct>::empty()
            &&& is_kind(msg, "error"@) && !live ==> {
                let status = "error: "@ + match msg.text_field("message"@) {
                    Some(m) => m,
                    None => "unknown error"@,
                };
                &&& a.mode is List ==> next == (AppView { status, ..a }) && acts =~= shown_list(
                    next,
                    now,
                )
                &&& !(a.mode is List) ==> {
                    &&& next == (AppView {
                        mode: ModeView::List,
                        session_readonly: false,
                        status,
                        ..a
                    })
                    &&& acts =~= left(AppView { status, ..a }, now)
                }
            }
        }),
{
    kinds();
    reveal_strlit("session ended");
}

proof fn entries_are_lines(sessions: Seq<InfoView>, selected: nat, cols: u16, now: u64)
    ensures
        entries_text(sessions, selected, cols, now) == Seq::new(
            sessions.len(),
            |i: int| entry_text(sessions[i], i == selected, cols, now) + "\r\n"@,
        ).flatten(),
    decreases sessions.len(),
{
    let lines = Seq::new(
        sessions.len(),
        |i: int| entry_text(sessions[i], i == selected, cols, now) + "\r\n"@,
    );
    lines.lemma_flatten_and_flatten_alt_are_equivalent();
    if sessions.len() > 0 {
        let fore = sessions.drop_last();
        entries_are_lines(fore, selected, cols, now);
        let less = Seq::new(
            fore.len(),
            |i: int| entry_text(fore[i], i == selected, cols, now) + "\r\n"@,
        );
        less.lemma_flatten_and_flatten_alt_are_equivalent();
        assert(lines.drop_last() =~= less);
        assert(entries_text(sessions, selected, cols, now) =~= lines.drop_last().flatten_alt()
            + lines.last());
    }
}

/// The list shows where it is connected to, the status, a line for each
/// session in order, the selected one marked, and what the keys do.
pub proof fn list_shows_every_session(a: AppView, now: u64)
    ensures
        list_screen(a, now) =~= "\x1b[H\x1b[2Jg2mirror-view \u{2014} "@ + a.addr + (
        if a.token_readonly {
            " (read-only)"@
        } else {
            Seq::empty()
        }) + "\r\n"@ + a.status + "\r\n\r\n"@ + (if a.sessions.len() == 0 {
            "  no live terminals\r\n"@
        } else {
            Seq::new(
                a.sessions.len(),
                |i: int| entry_text(a.sessions[i], i == a.selected, a.cols, now) + "\r\n"@,
            ).flatten()
        })
            + "\r\n  \u{2191}/\u{2193} select \u{b7} enter attach \u{b7} r refresh \u{b7} q quit \u{b7} ^D detaches a view"@,
{
    entries_are_lines(a.sessions, a.selected, a.cols, now);
}

/// A session's line tells its process, directory and title, and how long ago
/// its last bell was. It is cut to the width of the screen. The selected one
/// has a mark, and is drawn in inverse.
pub proof fn entries_tell_the_session(s: InfoView, cols: u16, now: u64)
    ensures
        ({
            let pid = decimal(s.pid as nat);
            let gap: int = if pid.len() < 8 {
                8 - pid.len()
            } else {
                0
            };
            let told = pid + Seq::new(gap as nat, |i: int| ' ') + " "@ + s.cwd_hint + "  "@ + (
            match s.title {
                Some(title) => title,
                None => Seq::empty(),
            }) + (match s.last_bell_at {
                Some(at) => "  [bell "@ + handy(
                    (if now > at {
                        (now - at) / 1000
                    } else {
                        0
                    }) as u64,
                ) + " ago"@ + "]"@,
                None => Seq::empty(),
            });
            let shown: int = if told.len() + 2 > cols {
                cols as int
            } else {
                (told.len() + 2) as int
            };
            &&& entry_text(s, false, cols, now) =~= ("  "@ + told).take(shown)
            &&& entry_text(s, true, cols, now) =~= "\x1b[7m"@ + ("> "@ + told).take(shown)
                + "\x1b[0m"@
        }),
{
    reveal_strlit("  ");
    reveal_strlit("> ");
    let pid = decimal(s.pid as nat);
    let gap: int = if pid.len() < 8 {
        8 - pid.len()
    } else {
        0
    };
    let pad = Seq::new(gap as nat, |i: int| ' ');
    assert(crate::attach::left_aligned(pid, 8) =~= pid + pad);
    let bell = match s.last_bell_at {
        Some(at) => "  [bell "@ + handy(
            (if now > at {
                (now - at) / 1000
            } else {
                0
            }) as u64,
        ) + " ago"@ + "]"@,
        None => Seq::empty(),
    };
    let title = match s.title {
        Some(title) => title,
        None => Seq::empty(),
    };
    if let Some(at) = s.last_bell_at {
        assert(bell =~= "  [bell "@ + crate::viewer::ago_text(at, now) + "]"@);
    }
    let told = pid + pad + " "@ + s.cwd_hint + "  "@ + title + bell;
    let plain = "  "@ + crate::attach::left_aligned(pid, 8) + " "@ + s.cwd_hint + "  "@ + title
        + bell;
    assert(plain =~= "  "@ + told);
    let marked = "> "@ + crate::attach::left_aligned(pid, 8) + " "@ + s.cwd_hint + "  "@ + title
        + bell;
    assert(marked =~= "> "@ + told);
    assert(plain.take(plain.len() as int) =~= plain);
    assert(marked.take(marked.len() as int) =~= marked);
}

/// Each key of the list does its own thing: up and down move the selection by
/// one entry within the list, enter connects to the selected terminal if there
/// is one, refresh asks for a new list, and quit ends the viewer.
pub proof fn list_keys_do_their_thing(a: AppView)
    requires
        a.selected < a.sessions.len() || a.selected == 0,
    ensures
        ({
            let none = Seq::<StepAct>::empty();
            let up = a.after_list_key(ListKey::Up);
            let down = a.after_list_key(ListKey::Down);
            &&& up == (AppView { selected: up.selected, ..a })
            &&& a.selected > 0 ==> up.selected == a.selected - 1
            &&& a.selected == 0 ==> up.selected == 0
            &&& a.list_key_act(ListKey::Up) =~= none
            &&& down == (AppView { selected: down.selected, ..a })
            &&& a.selected + 1 < a.sessions.len() ==> down.selected == a.selected + 1
            &&& a.selected + 1 >= a.sessions.len() ==> down.selected == a.selected
            &&& a.list_key_act(ListKey::Down) =~= none
            &&& a.after_list_key(ListKey::Refresh) == a
            &&& a.list_key_act(ListKey::Refresh) =~= seq![StepAct::Send(ViewerMsg::List)]
            &&& a.after_list_key(ListKey::Quit) == (AppView { quit: true, ..a })
            &&& a.list_key_act(ListKey::Quit) =~= none
            &&& a.sessions.len() == 0 ==> a.after_list_key(ListKey::Enter) == a && a.list_key_act(
                ListKey::Enter,
            ) =~= none
            &&& a.sessions.len() > 0 ==> {
                let socket = a.sessions[a.selected as int].socket;
                &&& a.list_key_act(ListKey::Enter) =~= seq![
                    StepAct::Send(ViewerMsg::Connect { socket }),
                ]
                &&& a.after_list_key(ListKey::Enter) == (AppView {
                    mode: ModeView::Connecting,
                    status: "connecting to "@ + socket + "..."@,
                    ..a
                })
            }
        }),
{
}

/// Keys of the list take effect one after another, and none does after the one
/// that quits.
pub proof fn list_keys_take_turns(a: AppView, keys: Seq<ListKey>, key: ListKey)
    ensures
        !keys.contains(ListKey::Quit) ==> {
            &&& a.after_list_keys(keys.push(key)) == a.after_list_keys(keys).after_list_key(key)
            &&& a.list_key_acts(keys.push(key)) == a.list_key_acts(keys) + (if key
                == ListKey::Quit {
                Seq::empty()
            } else {
                a.after_list_keys(keys).list_key_act(key)
            })
        },
        keys.contains(ListKey::Quit) ==> {
            &&& a.after_list_keys(keys.push(key)) == a.after_list_keys(keys)
            &&& a.list_key_acts(keys.push(key)) == a.list_key_acts(keys)
        },
    decreases keys.len(),
{
    let more = keys.push(key);
    if keys.len() == 0 {
        reveal_with_fuel(AppView::after_list_keys, 2);
        reveal_with_fuel(AppView::list_key_acts, 2);
        assert(more[0] == key);
        assert(more.skip(1) =~= keys);
        assert(a.list_key_acts(more) =~= a.list_key_acts(keys) + (if key == ListKey::Quit {
            Seq::empty()
        } else {
            a.list_key_act(key)
        }));
    } else {
        assert(more[0] == keys[0]);
        let rest = keys.skip(1);
        assert(more.skip(1) =~= rest.push(key));
        assert(keys =~= seq![keys[0]] + rest);
        if keys[0] == ListKey::Quit {
            assert(keys.contains(keys[0]));
        } else {
            let next = a.after_list_key(keys[0]);
            list_keys_take_turns(next, rest, key);
            assert(keys.contains(ListKey::Quit) == rest.contains(ListKey::Quit)) by {
                if keys.contains(ListKey::Quit) {
                    let k = choose|k: int| 0 <= k < keys.len() && keys[k] == ListKey::Quit;
                    assert(rest[k - 1] == ListKey::Quit);
                }
                if rest.contains(ListKey::Quit) {
                    let k = choose|k: int| 0 <= k < rest.len() && rest[k] == ListKey::Quit;
                    assert(keys[k + 1] == ListKey::Quit);
                }
            }
            if !keys.contains(ListKey::Quit) {
                assert(a.list_key_acts(more) =~= a.list_key_acts(keys) + (if key
                    == ListKey::Quit {
                    Seq::empty()
                } else {
                    a.after_list_keys(keys).list_key_act(key)
                }));
            }
        }
    }
}

proof fn detach_is_first(bytes: Seq<u8>, from: int, at: int)
    requires
        0 <= from <= at <= bytes.len(),
        forall|k: int| from <= k < at ==> #[trigger] bytes[k] != 4,
        at < bytes.len() ==> bytes[at] == 4,
    ensures
        detach_pos(bytes, from) == at,
    decreases at - from,
{
    if from < at {
        detach_is_first(bytes, from + 1, at);
    }
}

/// What is typed into a session: the terminal is repainted where a form feed is
/// among it, and all of it is sent, in one message, unless the viewer may not
/// or the session takes no input.
pub open spec fn typed(a: AppView, feed: FeedView, input: Seq<u8>) -> Seq<StepAct> {
    (if (exists|k: int| 0 <= k < input.len() && #[trigger] input[k] == 12) && refresh_bytes(
        feed,
    ).len() > 0 {
        seq![StepAct::Write(refresh_bytes(feed))]
    } else {
        Seq::empty()
    }) + (if input.len() > 0 && !(a.token_readonly || a.session_readonly) {
        seq![StepAct::Send(ViewerMsg::Input { data: base64_text(input) })]
    } else {
        Seq::empty()
    })
}

/// Keys typed while a session is shown go to it, up to the first that detaches.
/// That one ends the view and leads back to the list, and what comes behind it
/// is dropped.
pub proof fn keys_go_to_the_shown_session(
    a: AppView,
    m: MirrorView,
    bytes: Seq<u8>,
    now: u64,
    at: int,
)
    requires
        a.mode == ModeView::Attached(FeedView::Live(m)),
        0 <= at <= bytes.len(),
        forall|k: int| 0 <= k < at ==> #[trigger] bytes[k] != 4,
        at < bytes.len() ==> bytes[at] == 4,
    ensures
        ({
            let sent = typed(a, FeedView::Live(m), bytes.take(at));
            if at == bytes.len() {
                &&& a.after_keys(bytes) == a
                &&& a.key_acts(bytes, now) =~= sent
            } else {
                &&& a.after_keys(bytes) == (AppView {
                    mode: ModeView::List,
                    session_readonly: false,
                    status: "detached"@,
                    ..a
                })
                &&& a.key_acts(bytes, now) =~= sent + seq![
                    StepAct::Send(ViewerMsg::Unview),
                    StepAct::Send(ViewerMsg::Disconnect),
                ] + left(AppView { status: "detached"@, ..a }, now)
            }
        }),
{
    detach_is_first(bytes, 0, at);
    let input = bytes.take(at);
    if input.contains(12u8) {
        let k = choose|k: int| 0 <= k < input.len() && input[k] == 12u8;
        assert(input[k] == 12);
    } else {
        assert forall|k: int| 0 <= k < input.len() implies #[trigger] input[k] != 12 by {
            assert(input.contains(input[k]));
        }
    }
}

/// While a session is being connected to, the key that detaches gives it up,
/// and no other does anything.
pub proof fn connecting_can_be_given_up(a: AppView, bytes: Seq<u8>, now: u64)
    requires
        !(a.mode is List),
        !(a.mode matches ModeView::Attached(FeedView::Live(_))),
    ensures
        (exists|k: int| 0 <= k < bytes.len() && #[trigger] bytes[k] == 4) ==> {
            &&& a.after_keys(bytes) == (AppView { status: "detached"@, ..a })
            &&& a.key_acts(bytes, now) =~= seq![StepAct::Send(ViewerMsg::Disconnect)]
        },
        (forall|k: int| 0 <= k < bytes.len() ==> #[trigger] bytes[k] != 4) ==> {
            &&& a.after_keys(bytes) == a
            &&& a.key_acts(bytes, now) =~= Seq::<StepAct>::empty()
        },
{
    if exists|k: int| 0 <= k < bytes.len() && #[trigger] bytes[k] == 4 {
        let k = choose|k: int| 0 <= k < bytes.len() && #[trigger] bytes[k] == 4;
        assert(bytes.contains(bytes[k]));
    }
}

/// A resize of the viewer's terminal is noted; a session that is shown is drawn
/// anew at the new size, and so is the list.
pub proof fn resizes_redraw(a: AppView, rows: u16, cols: u16, now: u64)
    ensures
        ({
            let next = a.after_winch(rows, cols);
            &&& next == (AppView { rows, cols, mode: next.mode, ..a })
            &&& a.mode is List ==> next.mode is List && a.winch_acts(rows, cols, now) =~= seq![
                StepAct::Write(encode_utf8(list_screen(next, now))),
            ]
            &&& match a.mode {
                ModeView::Attached(FeedView::Live(m)) => {
                    let framed = MirrorView { host_rows: rows, host_cols: cols, ..m };
                    let bytes = framed.zone_bytes() + framed.crop_bytes() + encode_utf8(
                        "\x1b[0m\x1b[H\x1b[2J"@,
                    ) + framed.full_bytes();
                    &&& next.mode == ModeView::Attached(FeedView::Live(m.resized(rows, cols)))
                    &&& a.winch_acts(rows, cols, now) =~= (if m.view is Some && bytes.len() > 0 {
                        seq![StepAct::Write(bytes)]
                    } else {
                        Seq::empty()
                    })
                },
                ModeView::List => true,
                _ => next.mode == a.mode && a.winch_acts(rows, cols, now)
                    =~= Seq::<StepAct>::empty(),
            }
        }),
{
}

proof fn last_is_last(s: Seq<char>, c: char, at: int)
    requires
        0 <= at < s.len(),
        s[at] == c,
        forall|k: int| at < k < s.len() ==> #[trigger] s[k] != c,
    ensures
        last_of_char(s, c) == Some(at),
    decreases s.len(),
{
    if at < s.len() - 1 {
        last_is_last(s.drop_last(), c, at);
    }
}

proof fn last_is_none(s: Seq<char>, c: char)
    requires
        forall|k: int| 0 <= k < s.len() ==> #[trigger] s[k] != c,
    ensures
        last_of_char(s, c) is None,
    decreases s.len(),
{
    if s.len() > 0 {
        last_is_none(s.drop_last(), c);
    }
}

/// A connection string of a token and a host gives them back: the token as it
/// is, and the host behind the scheme's own, with port 8737, or 443 where the
/// connection is encrypted.
pub proof fn connection_strings_are_read(token: Seq<char>, host: Seq<char>)
    requires
        token.len() > 0,
        host.len() > 0,
        forall|k: int| 0 <= k < host.len() ==> #[trigger] host[k] != '@' && host[k] != ':',
    ensures
        connection("g2mirror://"@ + token + "@"@ + host) == Ok::<
            (Seq<char>, Seq<char>),
            Seq<char>,
        >((token, "ws://"@ + host + (":"@ + decimal(8737)))),
        connection("g2mirrors://"@ + token + "@"@ + host) == Ok::<
            (Seq<char>, Seq<char>),
            Seq<char>,
        >((token, "wss://"@ + host + ":443"@)),
{
    reveal_strlit("g2mirror://");
    reveal_strlit("g2mirrors://");
    reveal_strlit("@");
    last_is_none(host, ':');
    let plain = "g2mirror://"@ + token + "@"@ + host;
    let tls = "g2mirrors://"@ + token + "@"@ + host;
    let rest = token + "@"@ + host;
    assert(plain.take(11) =~= "g2mirror://"@);
    assert(tls.take(12) =~= "g2mirrors://"@);
    assert(plain[8] == ':');
    assert(plain.take(12)[8] == ':');
    assert("g2mirrors://"@[8] == 's');
    assert(plain.skip(11) =~= rest);
    assert(tls.skip(12) =~= rest);
    assert(rest[token.len() as int] == '@');
    assert forall|k: int| token.len() < k < rest.len() implies #[trigger] rest[k] != '@' by {
        assert(rest[k] == host[k - token.len() - 1]);
    }
    last_is_last(rest, '@', token.len() as int);
    assert(rest.take(token.len() as int) =~= token);
    assert(rest.skip((token.len() + 1) as int) =~= host);
}

/// A host that names its port keeps it.
pub proof fn given_ports_are_kept(token: Seq<char>, name: Seq<char>, port: Seq<char>)
    requires
        token.len() > 0,
        name.len() > 0,
        forall|k: int| 0 <= k < name.len() ==> #[trigger] name[k] != '@',
        forall|k: int|
            0 <= k < port.len() ==> #[trigger] port[k] != '@' && port[k] != ':' && port[k] != ']',
    ensures
        connection("g2mirror://"@ + token + "@"@ + (name + ":"@ + port)) == Ok::<
            (Seq<char>, Seq<char>),
            Seq<char>,
        >((token, "ws://"@ + (name + ":"@ + port))),
        connection("g2mirrors://"@ + token + "@"@ + (name + ":"@ + port)) == Ok::<
            (Seq<char>, Seq<char>),
            Seq<char>,
        >((token, "wss://"@ + (name + ":"@ + port))),
{
    reveal_strlit("g2mirror://");
    reveal_strlit("g2mirrors://");
    reveal_strlit("@");
    reveal_strlit(":");
    let host = name + ":"@ + port;
    let plain = "g2mirror://"@ + token + "@"@ + host;
    let tls = "g2mirrors://"@ + token + "@"@ + host;
    let rest = token + "@"@ + host;
    assert(plain.take(11) =~= "g2mirror://"@);
    assert(tls.take(12) =~= "g2mirrors://"@);
    assert(plain.take(12)[8] == ':');
    assert("g2mirrors://"@[8] == 's');
    assert(plain.skip(11) =~= rest);
    assert(tls.skip(12) =~= rest);
    assert(rest[token.len() as int] == '@');
    assert forall|k: int| 0 <= k < host.len() implies #[trigger] host[k] != '@' by {
        if k < name.len() {
            assert(host[k] == name[k]);
        } else if k > name.len() {
            assert(host[k] == port[k - name.len() - 1]);
        }
    }
    assert forall|k: int| token.len() < k < rest.len() implies #[trigger] rest[k] != '@' by {
        assert(rest[k] == host[k - token.len() - 1]);
    }
    last_is_last(rest, '@', token.len() as int);
    assert(rest.take(token.len() as int) =~= token);
    assert(rest.skip((token.len() + 1) as int) =~= host);
    assert forall|k: int| name.len() < k < host.len() implies #[trigger] host[k] != ':' by {
        assert(host[k] == port[k - name.len() - 1]);
    }
    last_is_last(host, ':', name.len() as int);
    let suffix = host.skip(name.len() as int);
    assert(!suffix.contains(']')) by {
        if suffix.contains(']') {
            let k = choose|k: int| 0 <= k < suffix.len() && suffix[k] == ']';
            if k > 0 {
                assert(suffix[k] == port[k - 1]);
            }
        }
    }
}

/// A reply that does not start the session is an error that says why; one that
/// does tells whether input is taken, which it is only where it says so.
pub proof fn handshakes_are_judged(text: Seq<char>, reply: Json, e: Seq<char>)
    ensures
        json_parsed(text) == Err::<Json, Seq<char>>(e) ==> handshake_outcome(text) == Err::<
            bool,
            Seq<char>,
        >("bad handshake reply: "@ + e),
        json_parsed(text) == Ok::<Json, Seq<char>>(reply) && is_kind(reply, "init"@)
            ==> handshake_outcome(text) == Ok::<bool, Seq<char>>(
            reply.field("readonly"@) != Some(Json::Bool(false)),
        ),
        json_parsed(text) == Ok::<Json, Seq<char>>(reply) && !is_kind(reply, "init"@)
            ==> handshake_outcome(text) == Err::<bool, Seq<char>>(
            "server rejected the connection: "@ + (match reply.field("message"@) {
                Some(Json::Text(message)) => message,
                _ => "unknown error"@,
            }),
        ),
{
}

/// A number of a message as a size: its lowest sixteen bits, and zero where
/// there is none.
pub open spec fn size_told(msg: Json, name: Seq<char>) -> u16 {
    match msg.unsigned_field(name) {
        Some(n) => (n as int % 65536) as u16,
        None => 0,
    }
}

/// What a step of the stream asks of the viewer: the history is requested from
/// where the step says, and what it draws is written.
pub open spec fn stream_done(step: StepView) -> Seq<StepAct> {
    (if step.request is Some {
        seq![StepAct::Send(ViewerMsg::History { before: step.request->Some_0 })]
    } else {
        Seq::empty()
    }) + (if step.output.len() > 0 {
        seq![StepAct::Write(step.output)]
    } else {
        Seq::empty()
    })
}

/// Once connected, the messages of a session drive its stream: snapshots, at
/// the size they state or else at the size that was asked for, output, and
/// history lines, each as it is decoded. What cannot be decoded, or comes while
/// nothing is attached, is passed over. The status goes once the stream is live.
pub proof fn sessions_drive_the_stream(
    a: AppView,
    feed: FeedView,
    msg: Json,
    sessions: Seq<InfoView>,
    now: u64,
    bytes: Seq<u8>,
    text: Seq<char>,
)
    requires
        a.mode == ModeView::Attached(feed),
        msg.field("data"@) == Some(Json::Text(text)),
        base64_bytes(text) == Ok::<Seq<u8>, Seq<char>>(bytes),
    ensures
        ({
            let (next, acts) = a.on_message(msg, sessions, now);
            let screen = ScreenView {
                rows: a.rows,
                cols: a.cols,
                lead: "\x1b[?25h\x1b[?1049l"@,
                history_oldest: a.history_oldest,
            };
            let rows = size_told(msg, "height"@);
            let cols = size_told(msg, "width"@);
            let view = if rows > 0 && cols > 0 {
                View { rows, cols, simulated: false }
            } else {
                View { rows: a.init_rows, cols: a.init_cols, simulated: false }
            };
            let before = match msg.unsigned_field("history_next"@) {
                Some(n) => n,
                None => 0,
            };
            &&& is_kind(msg, "snapshot"@) ==> {
                let step = feed.snapshot_step(view, bytes, before, screen);
                &&& next == (AppView {
                    mode: ModeView::Attached(feed.after_snapshot(view, bytes, before, screen)),
                    status: if step.went_live {
                        Seq::empty()
                    } else {
                        a.status
                    },
                    ..a
                })
                &&& acts =~= stream_done(step)
            }
            &&& is_kind(msg, "output"@) ==> {
                &&& next == (AppView { mode: ModeView::Attached(feed.after_output(bytes)), ..a })
                &&& acts =~= stream_done(feed.output_step(bytes))
            }
        }),
{
    kinds();
}

/// The history lines of a message, each with its data and whether it wraps.
pub open spec fn lines_told(msg: Json) -> Seq<ShownView> {
    match msg.field("lines"@) {
        Some(Json::Array(list)) => Seq::new(
            list.len(),
            |i: int|
                ShownView {
                    data: match list[i].field("data"@) {
                        Some(Json::Text(data)) => Some(data),
                        _ => None,
                    },
                    wrapped: list[i].field("wrapped"@) == Some(Json::Bool(true)),
                },
        ),
        _ => Seq::empty(),
    }
}

/// A history reply is handed to the stream that is attached, line by line.
pub proof fn history_reaches_the_stream(
    a: AppView,
    feed: FeedView,
    msg: Json,
    sessions: Seq<InfoView>,
    now: u64,
)
    requires
        a.mode == ModeView::Attached(feed),
        is_kind(msg, "history_lines"@),
    ensures
        ({
            let (next, acts) = a.on_message(msg, sessions, now);
            let screen = ScreenView {
                rows: a.rows,
                cols: a.cols,
                lead: "\x1b[?25h\x1b[?1049l"@,
                history_oldest: a.history_oldest,
            };
            let step = feed.history_step(screen, lines_told(msg));
            &&& next == (AppView {
                mode: ModeView::Attached(feed.after_history(screen, lines_told(msg))),
                status: if step.went_live {
                    Seq::empty()
                } else {
                    a.status
                },
                ..a
            })
            &&& acts =~= stream_done(step)
        }),
{
    kinds();
    assert(AppView::history_lines(msg) =~= lines_told(msg));
}

/// A stream's message does nothing while no session is attached, or where its
/// data cannot be decoded; and a message of no known kind never does anything.
pub proof fn stray_messages_do_nothing(a: AppView, msg: Json, sessions: Seq<InfoView>, now: u64)
    requires
        ({
            ||| !(a.mode is Attached) && (is_kind(msg, "snapshot"@) || is_kind(msg, "output"@)
                || is_kind(msg, "history_lines"@))
            ||| (is_kind(msg, "snapshot"@) || is_kind(msg, "output"@)) && (match msg.field("data"@) {
                Some(Json::Text(text)) => base64_bytes(text) is Err,
                _ => true,
            })
            ||| (forall|kind: Seq<char>| !is_kind(msg, kind))
            ||| is_kind(msg, "launched"@)
        }),
    ensures
        a.on_message(msg, sessions, now).0 == a,
        a.on_message(msg, sessions, now).1 =~= Seq::<StepAct>::empty(),
{
    kinds();
    reveal_strlit("launched");
    assert("launched"@.len() == 8 && "launched"@[1] == 'a');
    if let Some(kind) = msg.text_field("type"@) {
        assert(is_kind(msg, kind));
    }
}

proof fn list_keys_stay_with_the_list(a: AppView, keys: Seq<ListKey>)
    requires
        a.mode is List || a.mode is Connecting,
    ensures
        a.after_list_keys(keys).mode is List || a.after_list_keys(keys).mode is Connecting,
    decreases keys.len(),
{
    if keys.len() > 0 && keys[0] != ListKey::Quit {
        list_keys_stay_with_the_list(a.after_list_key(keys[0]), keys.skip(1));
    }
}

/// What is typed while the list is shown are keys of the list: they take effect
/// one after another, and the list is then drawn anew, unless they quit.
pub proof fn typing_drives_the_list(a: AppView, bytes: Seq<u8>, now: u64)
    requires
        a.mode is List,
    ensures
        ({
            let next = a.after_list_keys(keys_of(bytes));
            &&& a.after_keys(bytes) == next
            &&& a.key_acts(bytes, now) =~= a.list_key_acts(keys_of(bytes)) + (if next.quit {
                Seq::empty()
            } else {
                seq![StepAct::Write(encode_utf8(list_screen(next, now)))]
            })
        }),
{
    list_keys_stay_with_the_list(a, keys_of(bytes));
}

} // verus!
