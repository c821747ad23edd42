//! What is asked for on the command line, and which session it leads to: the
//! laws of attaching and wrapping.

use crate::attach::{
    attach_opts, attached_count, candidates, candidates_are_claimable, describe_text, detach_key,
    handy, key_name, line_text, list_text, listing, matches_pattern, no_args, picked_by,
    picker_lines, picker_text, refusal, same_word, sorted, sorting_is_a_permutation, tilde_text,
    AttachView, Picked, ProbeView,
};
use crate::keys::ListKey;
use crate::text::{
    debug_text, decimal, decimal_parses, decimal_reads_back, find_is_first, has_prefix,
    has_substring, is_digit, lower_text,
};
use crate::wrap::{as_args, no_flags, size_of, spaced, wrap_opts, ArgView, WrapView};
use vstd::prelude::*;
use vstd::string::*;

verus! {

/// A detach key is a letter or one of `@[\]^_` behind a prefix for control, and
/// stands for that control character, whichever prefix it has and whichever
/// case a letter is in.
pub proof fn detach_keys_are_control_characters(c: char)
    requires
        64 <= c as int <= 95 || 97 <= c as int <= 122,
    ensures
        ({
            let code: u8 = if c as int <= 95 {
                (c as u8 - 64) as u8
            } else {
                (c as u8 - 96) as u8
            };
            let key = Ok::<Option<u8>, Seq<char>>(Some(code));
            &&& code < 32
            &&& detach_key("ctrl-"@ + seq![c]) == key
            &&& detach_key("ctrl+"@ + seq![c]) == key
            &&& detach_key("C-"@ + seq![c]) == key
            &&& detach_key("^"@ + seq![c]) == key
        }),
{
    reveal_strlit("ctrl-");
    reveal_strlit("ctrl+");
    reveal_strlit("C-");
    reveal_strlit("^");
    reveal_strlit("none");
    let a = "ctrl-"@ + seq![c];
    let b = "ctrl+"@ + seq![c];
    let d = "C-"@ + seq![c];
    let e = "^"@ + seq![c];
    assert(a.take(5) =~= "ctrl-"@);
    assert(a.skip(5) =~= seq![c]);
    assert(b.take(5) =~= "ctrl+"@);
    assert(b.skip(5) =~= seq![c]);
    assert(d.take(2) =~= "C-"@);
    assert(d.skip(2) =~= seq![c]);
    assert(e.take(1) =~= "^"@);
    assert(e.skip(1) =~= seq![c]);
    assert(a.len() == 6 && b.len() == 6 && d.len() == 3 && e.len() == 2);
    assert(e.take(2)[0] == '^');
    assert("C-"@[0] == 'C');
}

/// No key at all is asked for by `none`, in upper or lower case. What has no
/// prefix for control, or more or less than one character behind it, or one
/// that names no control character, is refused.
pub proof fn other_detach_keys_are_refused(c: char, rest: Seq<char>, text: Seq<char>)
    ensures
        detach_key("none"@) == Ok::<Option<u8>, Seq<char>>(None),
        detach_key("NONE"@) == Ok::<Option<u8>, Seq<char>>(None),
        rest.len() != 1 ==> detach_key("ctrl-"@ + rest) is Err && detach_key("^"@ + rest) is Err,
        !(64 <= c as int <= 95) && !(97 <= c as int <= 122) ==> detach_key("ctrl-"@ + seq![c])
            is Err && detach_key("^"@ + seq![c]) is Err,
        key_name(text) is None && !same_word(text, "none"@) ==> detach_key(text) is Err,
{
    reveal_strlit("none");
    reveal_strlit("NONE");
    reveal_strlit("ctrl-");
    reveal_strlit("ctrl+");
    reveal_strlit("C-");
    reveal_strlit("^");
    let a = "ctrl-"@ + rest;
    let b = "^"@ + rest;
    assert(a.take(5) =~= "ctrl-"@);
    assert(a.skip(5) =~= rest);
    assert(a[0] == 'c');
    assert(b[0] == '^');
    assert(b.take(1) =~= "^"@);
    assert(b.skip(1) =~= rest);
    if b.len() >= 5 {
        assert(b.take(5)[0] == '^');
    }
    if b.len() >= 2 {
        assert(b.take(2)[0] == '^');
    }
    if a.len() == 4 {
        assert(a[0] == 'c');
    }
    assert("none"@[0] == 'n');
    assert(!same_word(a, "none"@)) by {
        assert(crate::attach::ascii_lower(a[0]) == 'c');
        assert(crate::attach::ascii_lower("none"@[0]) == 'n');
    }
    assert(!same_word(b, "none"@)) by {
        assert(crate::attach::ascii_lower(b[0]) == '^');
        assert(crate::attach::ascii_lower("none"@[0]) == 'n');
    }
    let d = "ctrl-"@ + seq![c];
    let e = "^"@ + seq![c];
    assert(d.take(5) =~= "ctrl-"@);
    assert(d.skip(5) =~= seq![c]);
    assert(e.take(1) =~= "^"@);
    assert(e.skip(1) =~= seq![c]);
    assert(d.len() == 6 && e.len() == 2);
}

/// The arguments for attaching with these options.
pub open spec fn attach_words(
    pattern: Option<Seq<char>>,
    force: bool,
    key: Option<char>,
) -> Seq<Seq<char>> {
    (if force {
        seq!["--force"@]
    } else {
        Seq::empty()
    }) + (match key {
        Some(c) => seq!["--detach-key"@, "ctrl-"@ + seq![c]],
        None => Seq::empty(),
    }) + (match pattern {
        Some(p) => seq![p],
        None => Seq::empty(),
    })
}

/// Attaching does as its arguments say: the pattern, whether a session is
/// claimed by force, and the key that detaches, which is otherwise control and
/// a backslash.
pub proof fn attach_arguments_are_read(
    pattern: Option<Seq<char>>,
    force: bool,
    key: Option<char>,
)
    requires
        pattern matches Some(p) ==> p.len() == 0 || p[0] != '-',
        key matches Some(c) ==> 97 <= c as int <= 122,
    ensures
        attach_opts(as_args(attach_words(pattern, force, key)), 0, no_args()) == Ok::<
            AttachView,
            Seq<char>,
        >(
            AttachView {
                pattern,
                force,
                detach_key: match key {
                    Some(c) => Some((c as u8 - 96) as u8),
                    None => Some(28u8),
                },
            },
        ),
{
    reveal_strlit("--force");
    reveal_strlit("--detach-key");
    assert("--force"@.len() == 7 && "--detach-key"@.len() == 12);
    assert("--force"@[0] == '-' && "--detach-key"@[0] == '-');
    if let Some(c) = key {
        detach_keys_are_control_characters(c);
    }
    let words = attach_words(pattern, force, key);
    let args = as_args(words);
    let f: int = if force {
        1
    } else {
        0
    };
    let k: int = if key is Some {
        2
    } else {
        0
    };
    if force {
        assert(args[0].text == "--force"@ && args[0].exact);
    }
    if let Some(c) = key {
        assert(args[f].text == "--detach-key"@ && args[f].exact);
        assert(args[f + 1].text == "ctrl-"@ + seq![c] && args[f + 1].exact);
    }
    if let Some(p) = pattern {
        assert(args[f + k].text == p && args[f + k].exact);
    }
    reveal_with_fuel(attach_opts, 4);
}

/// An option that is not known, a second pattern, and a detach key that is
/// missing or cannot be read are refused.
pub proof fn bad_attach_arguments_are_refused(args: Seq<ArgView>, i: nat, opts: AttachView)
    requires
        i < args.len(),
    ensures
        ({
            let arg = args[i as int];
            let known = arg.exact && (arg.text == "--force"@ || arg.text == "--detach-key"@);
            &&& !known && (!arg.exact || opts.pattern is Some || (arg.text.len() > 0
                && arg.text[0] == '-')) ==> attach_opts(args, i, opts) == Err::<
                AttachView,
                Seq<char>,
            >("unexpected --attach argument "@ + debug_text(arg.text))
            &&& arg.exact && arg.text == "--detach-key"@ && (i + 1 == args.len()
                || !args[i as int + 1].exact) ==> attach_opts(args, i, opts) == Err::<
                AttachView,
                Seq<char>,
            >("--detach-key requires a value (e.g. ctrl-\\, ctrl-g, none)"@)
            &&& arg.exact && arg.text == "--detach-key"@ && i + 1 < args.len()
                && args[i as int + 1].exact ==> (detach_key(args[i as int + 1].text) matches Err(m)
                ==> attach_opts(args, i, opts) == Err::<AttachView, Seq<char>>(m))
        }),
{
    reveal_strlit("--force");
    reveal_strlit("--detach-key");
    assert("--force"@.len() == 7 && "--detach-key"@.len() == 12);
}

/// Sessions are listed with the detached ones first, then those that have no
/// host terminal, and among their like by process; none is lost or doubled.
pub proof fn detached_sessions_come_first(probes: Seq<ProbeView>, i: int, j: int)
    requires
        0 <= i < j < probes.len(),
    ensures
        sorted(probes).to_multiset() == probes.to_multiset(),
        sorted(probes).len() == probes.len(),
        ({
            let a = sorted(probes)[i];
            let b = sorted(probes)[j];
            &&& b.detached ==> a.detached
            &&& a.detached == b.detached && b.headless ==> a.headless
            &&& a.detached == b.detached && a.headless == b.headless ==> a.pid <= b.pid
        }),
{
    sorting_is_a_permutation(probes);
    probes.to_multiset_ensures();
    sorted(probes).to_multiset_ensures();
}

/// A duration is rounded down to seconds up to 99 of them, to minutes up to 99
/// of them, and to hours beyond.
pub proof fn durations_are_rounded_down(secs: u64) -> (n: nat)
    ensures
        secs < 100 ==> handy(secs) =~= decimal(n) + "s"@ && n == secs,
        100 <= secs < 6000 ==> handy(secs) =~= decimal(n) + "m"@ && 60 * n <= secs < 60 * n + 60,
        6000 <= secs ==> handy(secs) =~= decimal(n) + "h"@ && 3600 * n <= secs < 3600 * n + 3600,
{
    if secs < 100 {
        secs as nat
    } else if secs < 6000 {
        (secs / 60) as nat
    } else {
        (secs / 3600) as nat
    }
}

/// The home directory is written `~` where a path starts with it.
pub proof fn home_is_abbreviated(home: Seq<char>, rest: Seq<char>, path: Seq<char>)
    ensures
        tilde_text(home + rest, Some(home)) =~= "~"@ + rest,
        tilde_text(path, None) == path,
        (path.len() < home.len() || path.take(home.len() as int) != home) ==> tilde_text(
            path,
            Some(home),
        ) == path,
{
    assert((home + rest).take(home.len() as int) =~= home);
    assert((home + rest).skip(home.len() as int) =~= rest);
}

/// A session's line tells whether it is detached or attached, or has a host
/// terminal; its process; its directory; its title, or else the preset that it
/// was launched from, or else its command; and how long it has been up.
pub proof fn lines_tell_the_session(p: ProbeView, home: Option<Seq<char>>)
    ensures
        ({
            let pid = decimal(p.pid as nat);
            let gap: int = if pid.len() < 6 {
                6 - pid.len()
            } else {
                0
            };
            let what = if p.title is Some {
                p.title->Some_0
            } else if p.launched is Some {
                "["@ + p.launched->Some_0 + "]"@
            } else {
                p.command
            };
            describe_text(p, home) =~= (if p.detached {
                "DETACHED"@
            } else if p.headless {
                "attached"@
            } else {
                "        "@
            }) + "  "@ + Seq::new(gap as nat, |i: int| ' ') + pid + "  "@ + tilde_text(p.cwd, home)
                + "  "@ + what + "  "@ + (match p.age {
                Some(secs) => "up "@ + handy(secs),
                None => Seq::empty(),
            })
        }),
{
    let pid = decimal(p.pid as nat);
    let gap: int = if pid.len() < 6 {
        6 - pid.len()
    } else {
        0
    };
    assert(crate::attach::right_aligned(pid, 6) =~= Seq::new(gap as nat, |i: int| ' ') + pid);
}

proof fn listings_are_lines(probes: Seq<ProbeView>, home: Option<Seq<char>>, indent: Seq<char>)
    ensures
        listing(probes, home, indent) == Seq::new(
            probes.len(),
            |i: int| indent + line_text(probes[i], home),
        ).flatten(),
    decreases probes.len(),
{
    let lines = Seq::new(probes.len(), |i: int| indent + line_text(probes[i], home));
    lines.lemma_flatten_and_flatten_alt_are_equivalent();
    if probes.len() > 0 {
        let fore = probes.drop_last();
        listings_are_lines(fore, home, indent);
        let less = Seq::new(fore.len(), |i: int| indent + line_text(fore[i], home));
        less.lemma_flatten_and_flatten_alt_are_equivalent();
        assert(lines.drop_last() =~= less);
        assert(listing(probes, home, indent) =~= less.flatten_alt() + lines.last());
    }
}

/// The list has a line for each session, in order, and says how to claim one
/// where one is detached.
pub proof fn listings_show_every_session(probes: Seq<ProbeView>, home: Option<Seq<char>>)
    ensures
        probes.len() == 0 ==> list_text(probes, home) == "no live g2mirror sessions"@,
        probes.len() > 0 ==> "\n"@ + list_text(probes, home) =~= Seq::new(
            probes.len(),
            |i: int| "\n"@ + line_text(probes[i], home),
        ).flatten() + (if exists|i: int| 0 <= i < probes.len() && (#[trigger] probes[i]).detached {
            "\n\nclaim a DETACHED session with: g2mirror -a [pid or pattern]"@
        } else {
            Seq::empty()
        }),
{
    reveal_strlit("\n");
    listings_are_lines(probes, home, "\n"@);
    if probes.len() > 0 {
        let lines = Seq::new(probes.len(), |i: int| "\n"@ + line_text(probes[i], home));
        assert(lines.flatten()[0] == '\n') by {
            assert(lines[0][0] == '\n');
        }
        assert("\n"@ + listing(probes, home, "\n"@).skip(1) =~= listing(probes, home, "\n"@));
    }
}

/// A pattern matches a session where it stands in its process, its directory,
/// its command, its title or the preset it was launched from, in upper or lower
/// case.
pub proof fn patterns_match_what_a_session_tells(p: ProbeView, pattern: Seq<char>)
    ensures
        matches_pattern(p, pattern) == {
            let low = lower_text(pattern);
            ||| has_substring(lower_text(decimal(p.pid as nat)), low)
            ||| has_substring(lower_text(p.cwd), low)
            ||| has_substring(lower_text(p.command), low)
            ||| p.title is Some && has_substring(lower_text(p.title->Some_0), low)
            ||| p.launched is Some && has_substring(lower_text(p.launched->Some_0), low)
        },
{
    let all = crate::attach::fields(p);
    let t: int = if p.title is Some {
        1
    } else {
        0
    };
    assert(all[0] == decimal(p.pid as nat));
    assert(all[1] == p.cwd);
    assert(all[2] == p.command);
    if p.title is Some {
        assert(all[3] == p.title->Some_0);
    }
    if p.launched is Some {
        assert(all[3 + t] == p.launched->Some_0);
    }
}

/// Attaching offers, in order, just the sessions that match the pattern, if
/// there is one, and are detached; by force also those that are attached, but
/// none that has a host terminal.
pub proof fn offers_are_the_sessions_asked_for(probes: Seq<ProbeView>, opts: AttachView, i: int)
    requires
        0 <= i < probes.len(),
    ensures
        candidates(probes, opts).contains(i as nat) == {
            let p = probes[i];
            &&& opts.pattern is Some ==> matches_pattern(p, opts.pattern->Some_0)
            &&& if opts.force {
                p.headless
            } else {
                p.detached
            }
        },
        forall|j: int, k: int|
            0 <= j < k < candidates(probes, opts).len() ==> candidates(probes, opts)[j]
                < candidates(probes, opts)[k],
{
    candidates_are_claimable(probes, opts);
    let list = candidates(probes, opts);
    if list.contains(i as nat) {
        let k = choose|k: int| 0 <= k < list.len() && list[k] == i as nat;
        assert(crate::attach::claimable(probes[list[k] as int], opts));
    }
}

proof fn attached_are_counted(probes: Seq<ProbeView>, opts: AttachView)
    ensures
        attached_count(probes, opts) == probes.filter(
            |p: ProbeView|
                p.headless && !p.detached && (opts.pattern is Some ==> matches_pattern(
                    p,
                    opts.pattern->Some_0,
                )),
        ).len(),
    decreases probes.len(),
{
    reveal(Seq::filter);
    if probes.len() > 0 {
        attached_are_counted(probes.drop_last(), opts);
    }
}

/// Where no session can be offered, it is said which were looked for; how many
/// could be taken over by force; and which there are, or how to start one.
pub proof fn refusals_tell_what_there_is(
    probes: Seq<ProbeView>,
    opts: AttachView,
    home: Option<Seq<char>>,
)
    ensures
        ({
            let taken = probes.filter(
                |p: ProbeView|
                    p.headless && !p.detached && (opts.pattern is Some ==> matches_pattern(
                        p,
                        opts.pattern->Some_0,
                    )),
            ).len();
            refusal(probes, opts, home) =~= (if opts.pattern is Some {
                "no detached session matches "@ + debug_text(opts.pattern->Some_0)
            } else {
                "no detached sessions"@
            }) + (if opts.force || taken == 0 {
                Seq::empty()
            } else {
                " ("@ + decimal(taken) + " already attached; --force takes one over)"@
            }) + (if probes.len() == 0 {
                "; start one with: g2mirror --detached <command>"@
            } else {
                "\nlive sessions:"@ + Seq::new(
                    probes.len(),
                    |i: int| "\n  "@ + line_text(probes[i], home),
                ).flatten()
            })
        }),
{
    attached_are_counted(probes, opts);
    listings_are_lines(probes, home, "\n  "@);
}

/// In the picker each key does its own thing: up and down move the selection by
/// one within the list, enter chooses what is selected, and quit cancels.
pub proof fn picker_keys_do_their_thing(keys: Seq<ListKey>, selected: nat, count: nat)
    requires
        selected < count <= usize::MAX,
    ensures
        picked_by(Seq::empty(), selected, count) == (selected, Picked::Undecided),
        ({
            let (at, picked) = picked_by(keys, selected, count);
            &&& at < count
            &&& picked_by(keys.push(ListKey::Up), selected, count) == (
                if at > 0 {
                    (at - 1) as nat
                } else {
                    at
                },
                picked,
            )
            &&& picked_by(keys.push(ListKey::Down), selected, count) == (
                if at + 1 < count {
                    at + 1
                } else {
                    at
                },
                picked,
            )
            &&& picked_by(keys.push(ListKey::Enter), selected, count) == (
                at,
                Picked::Chosen(at as usize),
            )
            &&& picked_by(keys.push(ListKey::Quit), selected, count) == (at, Picked::Cancelled)
            &&& picked_by(keys.push(ListKey::Refresh), selected, count) == (at, picked)
        }),
    decreases keys.len(),
{
    if keys.len() > 0 {
        picker_keys_do_their_thing(keys.drop_last(), selected, count);
    }
    assert(keys.push(ListKey::Up).drop_last() =~= keys);
    assert(keys.push(ListKey::Down).drop_last() =~= keys);
    assert(keys.push(ListKey::Enter).drop_last() =~= keys);
    assert(keys.push(ListKey::Quit).drop_last() =~= keys);
    assert(keys.push(ListKey::Refresh).drop_last() =~= keys);
}

/// The picker shows its lines in order, the selected one marked and inverse.
pub proof fn picker_shows_every_line(lines: Seq<Seq<char>>, selected: nat)
    ensures
        picker_lines(lines, selected) == Seq::new(
            lines.len(),
            |i: int|
                if i == selected {
                    "\x1b[7m> "@ + lines[i] + "\x1b[0m\r\n"@
                } else {
                    "  "@ + lines[i] + "\r\n"@
                },
        ).flatten(),
        picker_text(lines, selected)
            =~= "\x1b[H\x1b[2Jg2mirror \u{2014} pick a session to attach\r\n\r\n"@
            + picker_lines(lines, selected)
            + "\r\n  \u{2191}/\u{2193} select \u{b7} enter attach \u{b7} q cancel"@,
    decreases lines.len(),
{
    let all = Seq::new(
        lines.len(),
        |i: int|
            if i == selected {
                "\x1b[7m> "@ + lines[i] + "\x1b[0m\r\n"@
            } else {
                "  "@ + lines[i] + "\r\n"@
            },
    );
    all.lemma_flatten_and_flatten_alt_are_equivalent();
    if lines.len() > 0 {
        let fore = lines.drop_last();
        picker_shows_every_line(fore, selected);
        let less = Seq::new(
            fore.len(),
            |i: int|
                if i == selected {
                    "\x1b[7m> "@ + fore[i] + "\x1b[0m\r\n"@
                } else {
                    "  "@ + fore[i] + "\r\n"@
                },
        );
        less.lemma_flatten_and_flatten_alt_are_equivalent();
        assert(all.drop_last() =~= less);
        assert(picker_lines(lines, selected) =~= less.flatten_alt() + all.last());
    }
}

/// A size is two positive numbers, columns before rows, with an `x` between.
pub proof fn sizes_are_read(rows: u16, cols: u16)
    ensures
        size_of(decimal(cols as nat) + "x"@ + decimal(rows as nat)) == (if rows > 0 && cols > 0 {
            Some((rows, cols))
        } else {
            None
        }),
{
    let a = decimal(cols as nat);
    let b = decimal(rows as nat);
    let s = a + "x"@ + b;
    reveal_strlit("x");
    decimal_reads_back(cols as nat);
    decimal_reads_back(rows as nat);
    decimal_parses(cols as nat, u16::MAX as nat);
    decimal_parses(rows as nat, u16::MAX as nat);
    assert forall|k: int| 0 <= k < a.len() implies #[trigger] s[k] != 'x' by {
        assert(s[k] == a[k]);
        assert(is_digit(a[k]));
    }
    find_is_first(s, 'x', 0, a.len() as int);
    assert(s.take(a.len() as int) =~= a);
    assert(s.skip((a.len() + 1) as int) =~= b);
}

proof fn wrap_words()
    ensures
        "--title"@.len() == 7,
        "--title="@.len() == 8,
        "--title="@[7] == '=',
        "--title="@[2] == 't',
        "--readonly"@.len() == 10,
        "--readonly"@[2] == 'r',
        "--scrollback"@.len() == 12,
        "--scrollback"@[2] == 's',
        "--headless"@.len() == 10,
        "--headless"@[2] == 'h',
        "--detached"@.len() == 10,
        "--detached"@[2] == 'd',
        "--initial-size"@.len() == 14,
        "--initial-size"@[2] == 'i',
        "--launched"@.len() == 10,
        "--launched"@[2] == 'l',
        "--"@.len() == 2,
        "--"@[0] == '-',
{
    reveal_strlit("--title");
    reveal_strlit("--title=");
    reveal_strlit("--readonly");
    reveal_strlit("--scrollback");
    reveal_strlit("--headless");
    reveal_strlit("--detached");
    reveal_strlit("--initial-size");
    reveal_strlit("--launched");
    reveal_strlit("--");
}

/// Without options the first argument is the program: 24 rows and 80 columns
/// where there is no terminal to ask, ten thousand lines of history, a session
/// that takes input and is shown here.
pub proof fn programs_need_no_options(args: Seq<ArgView>)
    requires
        args.len() > 0,
        args[0].text.len() > 0,
        args[0].text[0] != '-',
    ensures
        wrap_opts(args, 0, no_flags()) == Ok::<WrapView, Option<Seq<char>>>(
            WrapView {
                title: None,
                readonly: false,
                scrollback: 10_000,
                headless: false,
                detached: false,
                initial_size: (24, 80),
                launched: None,
                program: 0,
            },
        ),
{
    reveal_strlit("--title");
    reveal_strlit("--title=");
    reveal_strlit("--readonly");
    reveal_strlit("--scrollback");
    reveal_strlit("--headless");
    reveal_strlit("--detached");
    reveal_strlit("--initial-size");
    reveal_strlit("--launched");
    reveal_strlit("--");
    if has_prefix(args[0].text, "--title="@) {
        assert(args[0].text.take(8)[0] == '-');
    }
}

/// A title may stand behind its option or behind an equals sign in it.
pub proof fn titles_have_two_forms(args: Seq<ArgView>, i: nat, opts: WrapView, title: Seq<char>)
    requires
        i < args.len(),
        args[i as int].exact,
    ensures
        args[i as int].text == "--title="@ + title ==> wrap_opts(args, i, opts) == wrap_opts(
            args,
            i + 1,
            WrapView { title: Some(title), ..opts },
        ),
        args[i as int].text == "--title"@ && i + 1 < args.len() && args[i as int + 1].text == title
            ==> wrap_opts(args, i, opts) == wrap_opts(
            args,
            i + 2,
            WrapView { title: Some(title), ..opts },
        ),
{
    wrap_words();
    if args[i as int].text == "--title="@ + title {
        let text = args[i as int].text;
        assert(text.len() == 8 + title.len());
        assert(text.take(8) =~= "--title="@);
        assert(text.skip(8) =~= title);
    }
}

/// An option whose value is missing or cannot be read, or that is not known, is
/// refused by naming it; and so are arguments without a program.
pub proof fn bad_wrap_arguments_are_refused(args: Seq<ArgView>, i: nat, opts: WrapView)
    requires
        i <= args.len(),
    ensures
        ({
            let r = wrap_opts(args, i, opts);
            let arg = args[i as int];
            let last = i + 1 == args.len();
            let next = args[i as int + 1];
            &&& i == args.len() ==> r == Err::<WrapView, Option<Seq<char>>>(None)
            &&& i < args.len() && arg.exact ==> {
                &&& arg.text == "--title"@ && last ==> r == Err::<WrapView, Option<Seq<char>>>(
                    Some("--title requires a value"@),
                )
                &&& arg.text == "--launched"@ && last ==> r == Err::<WrapView, Option<Seq<char>>>(
                    Some("--launched requires a preset name"@),
                )
                &&& arg.text == "--scrollback"@ && (last || !next.exact || crate::text::parsed(
                    next.text,
                    usize::MAX as nat,
                ) is None) ==> r == Err::<WrapView, Option<Seq<char>>>(
                    Some("--scrollback requires a number of lines"@),
                )
                &&& arg.text == "--initial-size"@ && (last || !next.exact || size_of(next.text)
                    is None) ==> r == Err::<WrapView, Option<Seq<char>>>(
                    Some("--initial-size requires <cols>x<rows>, e.g. 80x24"@),
                )
                &&& arg.text == "--"@ && last ==> r == Err::<WrapView, Option<Seq<char>>>(None)
                &&& arg.text == "--"@ && !last ==> r == Ok::<WrapView, Option<Seq<char>>>(
                    WrapView { program: i + 1, ..opts },
                )
            }
        }),
{
    wrap_words();
    if i < args.len() {
        let text = args[i as int].text;
        if has_prefix(text, "--title="@) {
            assert(text.take(8)[2] == 't');
            assert(text.take(8)[7] == '=');
        }
    }
}

/// Words of a command, with one space between each two.
pub proof fn commands_are_spaced(words: Seq<Seq<char>>)
    requires
        words.len() > 0,
    ensures
        spaced(words) == words[0] + Seq::new(
            (words.len() - 1) as nat,
            |i: int| " "@ + words[i + 1],
        ).flatten(),
    decreases words.len(),
{
    let rest = Seq::new((words.len() - 1) as nat, |i: int| " "@ + words[i + 1]);
    rest.lemma_flatten_and_flatten_alt_are_equivalent();
    if words.len() == 1 {
        assert(spaced(words) =~= words[0] + rest.flatten());
    } else {
        let fore = words.drop_last();
        commands_are_spaced(fore);
        let less = Seq::new((fore.len() - 1) as nat, |i: int| " "@ + fore[i + 1]);
        less.lemma_flatten_and_flatten_alt_are_equivalent();
        assert(rest.drop_last() =~= less);
        assert(spaced(words) =~= words[0] + (less.flatten_alt() + rest.last()));
    }
}

} // verus!
