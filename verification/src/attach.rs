//! `g2mirror --list` and `g2mirror --attach`: what probing the local session
//! sockets learned, and claiming a detached (headless) session into the
//! current terminal.
//!
//! The attach client is a session-protocol viewer that declares
//! `role: host`, so its terminal size occupies the `"host"` slot of the
//! server's `size_precedence` order. History is printed into this terminal's
//! native scrollback, the live viewport is mirrored bottom-anchored, and
//! Ctrl+L re-pushes hidden top rows. Ctrl+\ detaches, leaving the session
//! running.

use crate::keys::{move_down, move_up, one_down, one_up, parse_list_keys, keys_of, ListKey};
use crate::text::{
    chars_of, contains_text, debug_string, debug_text, decimal, decimal_string, has_prefix,
    has_substring, lower_string, lower_text, opt_text, prefix_at, push_decimal, starts_with,
    text_eq, text_of, trim_end, trimmed_end,
};
use crate::wrap::{arg_views, is_flag, Arg, ArgView};
use vstd::prelude::*;
use vstd::string::*;
use vstd::utf8::*;
use vstd::view::View as _;

verus! {

/// Default detach key: Ctrl+\. Unlike the viewer's Ctrl+D, ^D must reach a
/// claimed shell (it means "exit"), and ^\ (SIGQUIT) is rarely wanted.
pub const DEFAULT_DETACH_KEY: u8 = 0x1c;

/// How long a probe may spend connecting to + greeting one socket, in
/// milliseconds.
pub const PROBE_TIMEOUT_MS: u64 = 2_000;

pub struct AttachOpts {
    pub pattern: Option<String>,
    pub force: bool,
    pub detach_key: Option<u8>,
}

pub ghost struct AttachView {
    pub pattern: Option<Seq<char>>,
    pub force: bool,
    pub detach_key: Option<u8>,
}

impl vstd::view::View for AttachOpts {
    type V = AttachView;

    open spec fn view(&self) -> AttachView {
        AttachView {
            pattern: opt_text(self.pattern),
            force: self.force,
            detach_key: self.detach_key,
        }
    }
}

/// An ASCII letter in lower case; any other character itself.
pub open spec fn ascii_lower(c: char) -> char {
    if 'A' <= c && c <= 'Z' {
        ((c as u8 + 32) as u8) as char
    } else {
        c
    }
}

/// Whether two texts are equal but for the case of ASCII letters.
pub open spec fn same_word(a: Seq<char>, b: Seq<char>) -> bool {
    a.len() == b.len() && forall|i: int|
        0 <= i < a.len() ==> ascii_lower(#[trigger] a[i]) == ascii_lower(b[i])
}

pub fn lower(c: char) -> (r: char)
    ensures
        r == ascii_lower(c),
{
    if c >= 'A' && c <= 'Z' {
        (c as u8 + 32) as char
    } else {
        c
    }
}

fn words_match(a: &Vec<char>, b: &Vec<char>) -> (r: bool)
    ensures
        r == same_word(a@, b@),
{
    if a.len() != b.len() {
        return false;
    }
    let mut i: usize = 0;
    while i < a.len()
        invariant
            i <= a@.len() == b@.len(),
            forall|k: int| 0 <= k < i ==> ascii_lower(#[trigger] a@[k]) == ascii_lower(b@[k]),
        decreases a@.len() - i,
    {
        if lower(a[i]) != lower(b[i]) {
            return false;
        }
        i += 1;
    }
    true
}

/// What follows the prefix of a written control key, if it has one.
pub open spec fn key_name(s: Seq<char>) -> Option<Seq<char>> {
    if has_prefix(s, "ctrl-"@) || has_prefix(s, "ctrl+"@) {
        Some(s.skip(5))
    } else if has_prefix(s, "C-"@) {
        Some(s.skip(2))
    } else if has_prefix(s, "^"@) {
        Some(s.skip(1))
    } else {
        None
    }
}

/// The control character a key's name stands for.
pub open spec fn control_code(c: char) -> Option<u8> {
    if '@' <= c && c <= '_' {
        Some((c as u8 - 64) as u8)
    } else if 'a' <= c && c <= 'z' {
        Some((c as u8 - 96) as u8)
    } else {
        None
    }
}

/// What a written detach key means: none, a control character, or what is
/// wrong with it.
pub open spec fn detach_key(s: Seq<char>) -> Result<Option<u8>, Seq<char>> {
    if same_word(s, "none"@) {
        Ok(None)
    } else {
        match key_name(s) {
            None => Err(
                "cannot parse detach key "@ + debug_text(s) + " (want e.g. ctrl-\\ or none)"@,
            ),
            Some(name) => if name.len() != 1 || name[0] > '\u{7f}' {
                Err(
                    "cannot parse detach key "@ + debug_text(s)
                        + ": want a single character after the prefix"@,
                )
            } else {
                match control_code(name[0]) {
                    Some(code) => Ok(Some(code)),
                    None => Err(debug_text(s) + " does not name a control character"@),
                }
            },
        }
    }
}

/// `none`, or a control key written as `ctrl-x`, `C-x`, or `^x`.
pub fn parse_detach_key(s: &str) -> (r: Result<Option<u8>, String>)
    ensures
        match detach_key(s@) {
            Ok(key) => r matches Ok(k) && k == key,
            Err(message) => r matches Err(m) && m@ == message,
        },
{
    let chars = chars_of(s);
    if words_match(&chars, &chars_of("none")) {
        return Ok(None);
    }
    proof {
        reveal_strlit("ctrl-");
        reveal_strlit("ctrl+");
        reveal_strlit("C-");
        reveal_strlit("^");
    }
    let at: usize = if starts_with(&chars, "ctrl-") || starts_with(&chars, "ctrl+") {
        5
    } else if starts_with(&chars, "C-") {
        2
    } else if starts_with(&chars, "^") {
        1
    } else {
        let mut message = "cannot parse detach key ".to_owned();
        message.append(debug_string(s).as_str());
        message.append(" (want e.g. ctrl-\\ or none)");
        return Err(message);
    };
    let ghost name = chars@.skip(at as int);
    assert(key_name(s@) == Some(name));
    if chars.len() - at != 1 || chars[at] > '\u{7f}' {
        let mut message = "cannot parse detach key ".to_owned();
        message.append(debug_string(s).as_str());
        message.append(": want a single character after the prefix");
        return Err(message);
    }
    let c = chars[at];
    assert(name[0] == c);
    if c >= '@' && c <= '_' {
        Ok(Some(c as u8 - 64))
    } else if c >= 'a' && c <= 'z' {
        Ok(Some(c as u8 - 96))
    } else {
        let mut message = debug_string(s);
        message.append(" does not name a control character");
        Err(message)
    }
}

/// The options that the arguments from `i` on give, on top of `opts`, or what
/// is wrong with them.
pub open spec fn attach_opts(args: Seq<ArgView>, i: nat, opts: AttachView) -> Result<
    AttachView,
    Seq<char>,
>
    decreases args.len() - i,
{
    if i >= args.len() {
        Ok(opts)
    } else {
        let arg = args[i as int];
        if is_flag(arg, "--force"@) {
            attach_opts(args, i + 1, AttachView { force: true, ..opts })
        } else if is_flag(arg, "--detach-key"@) {
            if i + 1 < args.len() && args[i as int + 1].exact {
                match detach_key(args[i as int + 1].text) {
                    Ok(key) => attach_opts(args, i + 2, AttachView { detach_key: key, ..opts }),
                    Err(message) => Err(message),
                }
            } else {
                Err("--detach-key requires a value (e.g. ctrl-\\, ctrl-g, none)"@)
            }
        } else if arg.exact && !(arg.text.len() > 0 && arg.text[0] == '-') && opts.pattern is None {
            attach_opts(args, i + 1, AttachView { pattern: Some(arg.text), ..opts })
        } else {
            Err("unexpected --attach argument "@ + debug_text(arg.text))
        }
    }
}

/// The options without any argument.
pub open spec fn no_args() -> AttachView {
    AttachView { pattern: None, force: false, detach_key: Some(DEFAULT_DETACH_KEY) }
}

pub fn parse_attach_args(args: &Vec<Arg>) -> (r: Result<AttachOpts, String>)
    ensures
        match attach_opts(arg_views(args@), 0, no_args()) {
            Ok(opts) => r matches Ok(o) && o@ == opts,
            Err(message) => r matches Err(m) && m@ == message,
        },
{
    let ghost views = arg_views(args@);
    let ghost whole = attach_opts(views, 0, no_args());
    let mut opts = AttachOpts { pattern: None, force: false, detach_key: Some(DEFAULT_DETACH_KEY) };
    let mut i: usize = 0;
    while i < args.len()
        invariant
            i <= args@.len() == views.len(),
            views == arg_views(args@),
            whole == attach_opts(views, 0, no_args()),
            attach_opts(views, i as nat, opts@) == whole,
        decreases args@.len() - i,
    {
        let arg = &args[i];
        assert(views[i as int] == arg@);
        let chars = chars_of(arg.text.as_str());
        if arg.exact && text_eq(arg.text.as_str(), "--force") {
            opts.force = true;
            i += 1;
        } else if arg.exact && text_eq(arg.text.as_str(), "--detach-key") {
            if i + 1 < args.len() && args[i + 1].exact {
                assert(views[i + 1] == args@[i + 1]@);
                match parse_detach_key(args[i + 1].text.as_str()) {
                    Ok(key) => {
                        opts.detach_key = key;
                    },
                    Err(message) => {
                        return Err(message);
                    },
                }
                i += 2;
            } else {
                if i + 1 < args.len() {
                    assert(views[i + 1] == args@[i + 1]@);
                }
                return Err(
                    "--detach-key requires a value (e.g. ctrl-\\, ctrl-g, none)".to_owned(),
                );
            }
        } else if arg.exact && !(chars.len() > 0 && chars[0] == '-') && opts.pattern.is_none() {
            opts.pattern = Some(arg.text.clone());
            i += 1;
        } else {
            let mut message = "unexpected --attach argument ".to_owned();
            message.append(debug_string(arg.text.as_str()).as_str());
            return Err(message);
        }
    }
    Ok(opts)
}

/// What a probe of one session socket learned (the `connect` greeting).
pub struct Probe {
    pub path: String,
    pub pid: u32,
    pub command: String,
    pub cwd: String,
    pub title: Option<String>,
    pub headless: bool,
    pub detached: bool,
    pub launched: Option<String>,
    /// Socket file age in seconds: effectively the session's uptime.
    pub age: Option<u64>,
}

pub ghost struct ProbeView {
    pub path: Seq<char>,
    pub pid: u32,
    pub command: Seq<char>,
    pub cwd: Seq<char>,
    pub title: Option<Seq<char>>,
    pub headless: bool,
    pub detached: bool,
    pub launched: Option<Seq<char>>,
    pub age: Option<u64>,
}

impl vstd::view::View for Probe {
    type V = ProbeView;

    open spec fn view(&self) -> ProbeView {
        ProbeView {
            path: self.path@,
            pid: self.pid,
            command: self.command@,
            cwd: self.cwd@,
            title: opt_text(self.title),
            headless: self.headless,
            detached: self.detached,
            launched: opt_text(self.launched),
            age: self.age,
        }
    }
}

pub open spec fn probe_views(probes: Seq<Probe>) -> Seq<ProbeView> {
    probes.map_values(|p: Probe| p@)
}

/// Whether `a` is listed strictly before `b`: detached sessions first, then
/// headless ones, then by pid.
pub open spec fn listed_before(a: ProbeView, b: ProbeView) -> bool {
    if a.detached != b.detached {
        a.detached
    } else if a.headless != b.headless {
        a.headless
    } else {
        a.pid < b.pid
    }
}

/// Where `p` goes in a sorted list of which the first `n` are looked at: behind
/// everything it is not listed before.
pub open spec fn slot(sorted: Seq<ProbeView>, p: ProbeView, n: nat) -> nat
    decreases n,
{
    if n > 0 && listed_before(p, sorted[n - 1]) {
        slot(sorted, p, (n - 1) as nat)
    } else {
        n
    }
}

/// The probes in the order they are listed; those that rank equal keep theirs.
pub open spec fn sorted(probes: Seq<ProbeView>) -> Seq<ProbeView>
    decreases probes.len(),
{
    if probes.len() == 0 {
        Seq::empty()
    } else {
        let rest = sorted(probes.drop_last());
        rest.insert(slot(rest, probes.last(), rest.len()) as int, probes.last())
    }
}

fn comes_before(a: &Probe, b: &Probe) -> (r: bool)
    ensures
        r == listed_before(a@, b@),
{
    if a.detached != b.detached {
        a.detached
    } else if a.headless != b.headless {
        a.headless
    } else {
        a.pid < b.pid
    }
}

/// Detached sessions sort first (then headless, then by pid).
pub fn sort_probes(probes: Vec<Probe>) -> (r: Vec<Probe>)
    ensures
        probe_views(r@) == sorted(probe_views(probes@)),
{
    let ghost views = probe_views(probes@);
    let mut rest = probes;
    // Taken from the end, so that the first probe is on top.
    let mut stack: Vec<Probe> = Vec::new();
    assert(views =~= probe_views(rest@) + probe_views(stack@).reverse());
    while rest.len() > 0
        invariant
            views == probe_views(rest@) + probe_views(stack@).reverse(),
        decreases rest@.len(),
    {
        let ghost front = probe_views(rest@);
        let ghost back = probe_views(stack@).reverse();
        match rest.pop() {
            Some(p) => {
                stack.push(p);
                proof {
                    assert(front =~= probe_views(rest@).push(p@));
                    assert(probe_views(stack@).reverse() =~= seq![p@] + back);
                    assert(views =~= probe_views(rest@) + probe_views(stack@).reverse());
                }
            },
            None => {},
        }
    }
    assert(views =~= probe_views(stack@).reverse());
    let mut out: Vec<Probe> = Vec::new();
    assert(views.take(0) =~= Seq::<ProbeView>::empty());
    assert(probe_views(out@) =~= sorted(views.take(0)));
    while stack.len() > 0
        invariant
            stack@.len() <= views.len(),
            forall|k: int|
                0 <= k < stack@.len() ==> #[trigger] stack@[k]@ == views[views.len() - 1 - k],
            probe_views(out@) == sorted(views.take(views.len() - stack@.len())),
        decreases stack@.len(),
    {
        let ghost done = views.len() - stack@.len();
        match stack.pop() {
            Some(p) => {
                let ghost before = probe_views(out@);
                let mut at: usize = out.len();
                while at > 0 && comes_before(&p, &out[at - 1])
                    invariant
                        at <= out@.len(),
                        before == probe_views(out@),
                        slot(before, p@, at as nat) == slot(before, p@, before.len()),
                    ensures
                        at <= out@.len(),
                        at == slot(before, p@, before.len()),
                    decreases at,
                {
                    assert(before[at - 1] == out@[at - 1]@);
                    at -= 1;
                }
                proof {
                    if at > 0 {
                        assert(before[at - 1] == out@[at - 1]@);
                    }
                }
                out.insert(at, p);
                proof {
                    assert(views.take(done + 1).drop_last() =~= views.take(done));
                    assert(views.take(done + 1).last() == p@);
                    assert(probe_views(out@) =~= before.insert(at as int, p@));
                }
            },
            None => {},
        }
    }
    assert(views.take(views.len() as int) =~= views);
    out
}

/// Whether a list is in order.
pub open spec fn in_order(list: Seq<ProbeView>) -> bool {
    forall|i: int, j: int| 0 <= i < j < list.len() ==> !listed_before(#[trigger] list[j], #[trigger] list[i])
}

proof fn slot_bounds(list: Seq<ProbeView>, p: ProbeView, n: nat)
    requires
        n <= list.len(),
    ensures
        slot(list, p, n) <= n,
        forall|k: int| slot(list, p, n) <= k < n ==> listed_before(p, #[trigger] list[k]),
        slot(list, p, n) > 0 ==> !listed_before(p, list[slot(list, p, n) - 1]),
    decreases n,
{
    if n > 0 && listed_before(p, list[n - 1]) {
        slot_bounds(list, p, (n - 1) as nat);
    }
}

/// Sorting puts the list in order and neither loses nor adds a probe.
pub proof fn sorting_is_a_permutation(probes: Seq<ProbeView>)
    ensures
        in_order(sorted(probes)),
        sorted(probes).to_multiset() == probes.to_multiset(),
    decreases probes.len(),
{
    broadcast use vstd::seq_lib::group_to_multiset_ensures;
    if probes.len() > 0 {
        let rest = sorted(probes.drop_last());
        let p = probes.last();
        sorting_is_a_permutation(probes.drop_last());
        slot_bounds(rest, p, rest.len());
        let at = slot(rest, p, rest.len()) as int;
        let out = rest.insert(at, p);
        assert forall|i: int, j: int| 0 <= i < j < out.len() implies !listed_before(
            #[trigger] out[j],
            #[trigger] out[i],
        ) by {
            let ri = if i < at {
                i
            } else {
                i - 1
            };
            let rj = if j < at {
                j
            } else {
                j - 1
            };
            if i == at {
                assert(out[j] == rest[j - 1]);
                assert(listed_before(p, rest[j - 1]));
            } else if j == at {
                assert(out[i] == rest[i]);
                if i < at - 1 {
                    assert(!listed_before(rest[at - 1], rest[i]));
                }
            } else {
                assert(out[i] == rest[ri]);
                assert(out[j] == rest[rj]);
            }
        }
        assert(probes.drop_last().push(p) =~= probes);
        let a = rest.take(at);
        let b = rest.skip(at);
        assert(a + b =~= rest);
        assert(a.push(p) + b =~= out);
        vstd::seq_lib::lemma_multiset_commutative(a, b);
        vstd::seq_lib::lemma_multiset_commutative(a.push(p), b);
        assert(out.to_multiset() =~= rest.to_multiset().insert(p));
    }
}

/// `path` with the home directory abbreviated.
pub open spec fn tilde_text(path: Seq<char>, home: Option<Seq<char>>) -> Seq<char> {
    match home {
        Some(h) => if has_prefix(path, h) {
            "~"@ + path.skip(h.len() as int)
        } else {
            path
        },
        None => path,
    }
}

pub fn tilde(path: &str, home: &Option<String>) -> (r: String)
    ensures
        r@ == tilde_text(path@, opt_text(*home)),
{
    match home {
        Some(h) => {
            let chars = chars_of(path);
            let home_chars = chars_of(h.as_str());
            assert(path@.skip(0) =~= path@);
            if prefix_at(&chars, 0, &home_chars) {
                let mut out = "~".to_owned();
                let from: usize = home_chars.len();
                let len: usize = chars.len();
                out.append(text_of(&chars, from, len).as_str());
                assert(path@.skip(from as int) =~= chars@.subrange(from as int, len as int));
                out
            } else {
                path.to_owned()
            }
        },
        None => path.to_owned(),
    }
}

/// A duration in its largest handy unit.
pub open spec fn handy(secs: u64) -> Seq<char> {
    if secs <= 99 {
        decimal(secs as nat) + "s"@
    } else if secs <= 5999 {
        decimal((secs / 60) as nat) + "m"@
    } else {
        decimal((secs / 3600) as nat) + "h"@
    }
}

/// A duration in its largest handy unit: "12s", "5m", "2h".
pub fn handy_time(secs: u64) -> (r: String)
    ensures
        r@ == handy(secs),
{
    if secs <= 99 {
        let mut out = decimal_string(secs);
        out.append("s");
        out
    } else if secs <= 5999 {
        let mut out = decimal_string(secs / 60);
        out.append("m");
        out
    } else {
        let mut out = decimal_string(secs / 3600);
        out.append("h");
        out
    }
}

/// How long a session has been up, by its socket's age in seconds.
pub open spec fn uptime_text(age: Option<u64>) -> Seq<char> {
    match age {
        Some(secs) => "up "@ + handy(secs),
        None => Seq::empty(),
    }
}

pub fn uptime(age: Option<u64>) -> (r: String)
    ensures
        r@ == uptime_text(age),
{
    match age {
        Some(secs) => {
            let mut out = "up ".to_owned();
            out.append(handy_time(secs).as_str());
            out
        },
        None => String::new(),
    }
}

/// `n` spaces.
pub open spec fn spaces(n: nat) -> Seq<char> {
    Seq::new(n, |i: int| ' ')
}

/// `s` right-aligned to `width`.
pub open spec fn right_aligned(s: Seq<char>, width: nat) -> Seq<char> {
    if s.len() < width {
        spaces((width - s.len()) as nat) + s
    } else {
        s
    }
}

/// `s` left-aligned to `width`.
pub open spec fn left_aligned(s: Seq<char>, width: nat) -> Seq<char> {
    if s.len() < width {
        s + spaces((width - s.len()) as nat)
    } else {
        s
    }
}

fn push_spaces(out: &mut String, n: usize)
    ensures
        final(out)@ == old(out)@ + spaces(n as nat),
{
    let mut i: usize = 0;
    assert(out@ =~= old(out)@ + spaces(0));
    while i < n
        invariant
            i <= n,
            out@ == old(out)@ + spaces(i as nat),
        decreases n - i,
    {
        out.push(' ');
        i += 1;
        assert(out@ =~= old(out)@ + spaces(i as nat));
    }
}

/// `s` right-aligned to `width`.
pub fn align_right(s: &str, width: usize) -> (r: String)
    ensures
        r@ == right_aligned(s@, width as nat),
{
    let len: usize = chars_of(s).len();
    let mut out = String::new();
    if len < width {
        push_spaces(&mut out, width - len);
    }
    out.append(s);
    assert(out@ =~= right_aligned(s@, width as nat));
    out
}

/// `s` left-aligned to `width`.
pub fn align_left(s: &str, width: usize) -> (r: String)
    ensures
        r@ == left_aligned(s@, width as nat),
{
    let len: usize = chars_of(s).len();
    let mut out = s.to_owned();
    if len < width {
        push_spaces(&mut out, width - len);
    }
    assert(out@ =~= left_aligned(s@, width as nat));
    out
}

/// What a session is called: its title, else its preset, else its command.
pub open spec fn what_text(p: ProbeView) -> Seq<char> {
    match (p.title, p.launched) {
        (Some(t), _) => t,
        (None, Some(l)) => "["@ + l + "]"@,
        (None, None) => p.command,
    }
}

/// A session's line in a list, before trailing blanks are trimmed.
pub open spec fn describe_text(p: ProbeView, home: Option<Seq<char>>) -> Seq<char> {
    (if p.detached {
        "DETACHED"@
    } else if p.headless {
        "attached"@
    } else {
        "        "@
    }) + "  "@ + right_aligned(decimal(p.pid as nat), 6) + "  "@ + tilde_text(p.cwd, home) + "  "@
        + what_text(p) + "  "@ + uptime_text(p.age)
}

/// A session's line in a list.
pub open spec fn line_text(p: ProbeView, home: Option<Seq<char>>) -> Seq<char> {
    trimmed_end(describe_text(p, home))
}

pub fn describe(p: &Probe, home: &Option<String>) -> (r: String)
    ensures
        r@ == describe_text(p@, opt_text(*home)),
{
    let mut out = if p.detached {
        "DETACHED".to_owned()
    } else if p.headless {
        "attached".to_owned()
    } else {
        "        ".to_owned()
    };
    out.append("  ");
    out.append(align_right(decimal_string(p.pid as u64).as_str(), 6).as_str());
    out.append("  ");
    out.append(tilde(p.cwd.as_str(), home).as_str());
    out.append("  ");
    match (&p.title, &p.launched) {
        (Some(t), _) => {
            out.append(t.as_str());
        },
        (None, Some(l)) => {
            let mut what = "[".to_owned();
            what.append(l.as_str());
            what.append("]");
            out.append(what.as_str());
        },
        (None, None) => {
            out.append(p.command.as_str());
        },
    }
    out.append("  ");
    out.append(uptime(p.age).as_str());
    out
}

/// The lines of a list of sessions, each preceded by `indent` on a new line.
pub open spec fn listing(probes: Seq<ProbeView>, home: Option<Seq<char>>, indent: Seq<char>) -> Seq<
    char,
>
    decreases probes.len(),
{
    if probes.len() == 0 {
        Seq::empty()
    } else {
        listing(probes.drop_last(), home, indent) + indent + line_text(probes.last(), home)
    }
}

fn push_listing(out: &mut String, probes: &Vec<Probe>, home: &Option<String>, indent: &str)
    ensures
        final(out)@ == old(out)@ + listing(probe_views(probes@), opt_text(*home), indent@),
{
    let ghost views = probe_views(probes@);
    let ghost start = out@;
    let mut i: usize = 0;
    assert(out@ =~= start + listing(views.take(0), opt_text(*home), indent@));
    while i < probes.len()
        invariant
            i <= probes@.len() == views.len(),
            views == probe_views(probes@),
            out@ == start + listing(views.take(i as int), opt_text(*home), indent@),
        decreases probes@.len() - i,
    {
        out.append(indent);
        out.append(trim_end(describe(&probes[i], home).as_str()).as_str());
        proof {
            assert(views.take(i + 1).drop_last() =~= views.take(i as int));
            assert(views.take(i + 1).last() == probes@[i as int]@);
            assert(out@ =~= start + listing(views.take(i + 1), opt_text(*home), indent@));
        }
        i += 1;
    }
    assert(views.take(i as int) =~= views);
}

/// Whether some session can be claimed.
pub open spec fn any_detached(probes: Seq<ProbeView>) -> bool {
    exists|i: int| 0 <= i < probes.len() && (#[trigger] probes[i]).detached
}

/// What `g2mirror --list` prints, without the newline at its end.
pub open spec fn list_text(probes: Seq<ProbeView>, home: Option<Seq<char>>) -> Seq<char> {
    if probes.len() == 0 {
        "no live g2mirror sessions"@
    } else {
        listing(probes, home, "\n"@).skip(1) + (if any_detached(probes) {
            "\n\nclaim a DETACHED session with: g2mirror -a [pid or pattern]"@
        } else {
            Seq::empty()
        })
    }
}

/// What `g2mirror --list` prints, without the newline at its end.
pub fn list_sessions(probes: &Vec<Probe>, home: &Option<String>) -> (r: String)
    ensures
        r@ == list_text(probe_views(probes@), opt_text(*home)),
{
    if probes.len() == 0 {
        return "no live g2mirror sessions".to_owned();
    }
    let mut lines = String::new();
    push_listing(&mut lines, probes, home, "\n");
    let chars = chars_of(lines.as_str());
    let len: usize = chars.len();
    proof {
        reveal_strlit("\n");
        let views = probe_views(probes@);
        assert(listing(views, opt_text(*home), "\n"@).len() > 0);
        assert(lines@ =~= listing(views, opt_text(*home), "\n"@));
        assert(chars@.subrange(1, len as int) =~= lines@.skip(1));
    }
    let mut out = text_of(&chars, 1, len);
    let mut detached = false;
    let mut i: usize = 0;
    while i < probes.len()
        invariant
            i <= probes@.len(),
            detached == exists|k: int|
                0 <= k < i && (#[trigger] probe_views(probes@)[k]).detached,
        decreases probes@.len() - i,
    {
        assert(probe_views(probes@)[i as int] == probes@[i as int]@);
        if probes[i].detached {
            detached = true;
        }
        i += 1;
    }
    if detached {
        out.append("\n\nclaim a DETACHED session with: g2mirror -a [pid or pattern]");
    } else {
        assert(out@ + Seq::<char>::empty() =~= out@);
    }
    out
}

/// The fields a human would identify a session by.
pub open spec fn fields(p: ProbeView) -> Seq<Seq<char>> {
    seq![decimal(p.pid as nat), p.cwd, p.command] + (match p.title {
        Some(t) => seq![t],
        None => Seq::empty(),
    }) + (match p.launched {
        Some(l) => seq![l],
        None => Seq::empty(),
    })
}

/// Case-insensitive substring match against the fields a human would identify
/// a session by.
pub open spec fn matches_pattern(p: ProbeView, pattern: Seq<char>) -> bool {
    exists|i: int|
        0 <= i < fields(p).len() && has_substring(
            lower_text(#[trigger] fields(p)[i]),
            lower_text(pattern),
        )
}

fn field_matches(field: &str, pattern: &str) -> (r: bool)
    ensures
        r == has_substring(lower_text(field@), pattern@),
{
    contains_text(lower_string(field).as_str(), pattern)
}

/// Case-insensitive substring match against the fields a human would
/// identify a session by.
pub fn probe_matches(p: &Probe, pattern: &str) -> (r: bool)
    ensures
        r == matches_pattern(p@, pattern@),
{
    let lowered = lower_string(pattern);
    let pid = decimal_string(p.pid as u64);
    let by_pid = field_matches(pid.as_str(), lowered.as_str());
    let by_cwd = field_matches(p.cwd.as_str(), lowered.as_str());
    let by_command = field_matches(p.command.as_str(), lowered.as_str());
    let by_title = match &p.title {
        Some(t) => field_matches(t.as_str(), lowered.as_str()),
        None => false,
    };
    let by_launched = match &p.launched {
        Some(l) => field_matches(l.as_str(), lowered.as_str()),
        None => false,
    };
    proof {
        let all = fields(p@);
        assert(all[0] == pid@);
        assert(all[1] == p@.cwd);
        assert(all[2] == p@.command);
        if let Some(t) = p@.title {
            assert(all[3] == t);
        }
        if let Some(l) = p@.launched {
            assert(all[all.len() - 1] == l);
        }
        if matches_pattern(p@, pattern@) {
            let i = choose|i: int|
                0 <= i < all.len() && has_substring(
                    lower_text(#[trigger] all[i]),
                    lower_text(pattern@),
                );
            assert(i == 0 || i == 1 || i == 2 || i == 3 || i == 4);
        }
    }
    by_pid || by_cwd || by_command || by_title || by_launched
}

/// Whether a session is one the pattern asks for.
pub open spec fn wanted(p: ProbeView, pattern: Option<Seq<char>>) -> bool {
    match pattern {
        Some(text) => matches_pattern(p, text),
        None => true,
    }
}

/// Whether a session can be claimed: without --force only detached ones; with
/// it, any headless one (taking the role over). Sessions with a real host
/// terminal are never claimable.
pub open spec fn claimable(p: ProbeView, opts: AttachView) -> bool {
    (if opts.force {
        p.headless
    } else {
        p.detached
    }) && wanted(p, opts.pattern)
}

/// Whether a session is the pattern's, but already attached.
pub open spec fn already_attached(p: ProbeView, opts: AttachView) -> bool {
    p.headless && !p.detached && wanted(p, opts.pattern)
}

/// The indices of the sessions that can be claimed, in order.
pub open spec fn candidates(probes: Seq<ProbeView>, opts: AttachView) -> Seq<nat>
    decreases probes.len(),
{
    if probes.len() == 0 {
        Seq::empty()
    } else {
        let before = candidates(probes.drop_last(), opts);
        if claimable(probes.last(), opts) {
            before.push((probes.len() - 1) as nat)
        } else {
            before
        }
    }
}

/// How many sessions of the pattern are already attached.
pub open spec fn attached_count(probes: Seq<ProbeView>, opts: AttachView) -> nat
    decreases probes.len(),
{
    if probes.len() == 0 {
        0
    } else {
        attached_count(probes.drop_last(), opts) + (if already_attached(probes.last(), opts) {
            1nat
        } else {
            0
        })
    }
}

/// What is said when nothing can be claimed.
pub open spec fn refusal(probes: Seq<ProbeView>, opts: AttachView, home: Option<Seq<char>>) -> Seq<
    char,
> {
    (match opts.pattern {
        Some(pattern) => "no detached session matches "@ + debug_text(pattern),
        None => "no detached sessions"@,
    }) + (if !opts.force && attached_count(probes, opts) > 0 {
        " ("@ + decimal(attached_count(probes, opts))
            + " already attached; --force takes one over)"@
    } else {
        Seq::empty()
    }) + (if probes.len() == 0 {
        "; start one with: g2mirror --detached <command>"@
    } else {
        "\nlive sessions:"@ + listing(probes, home, "\n  "@)
    })
}

/// The sessions that can be claimed, by index, or what is said when there is
/// none.
pub fn find_candidates(probes: &Vec<Probe>, opts: &AttachOpts, home: &Option<String>) -> (r: Result<
    Vec<usize>,
    String,
>)
    ensures
        ({
            let views = probe_views(probes@);
            if candidates(views, opts@).len() == 0 {
                r matches Err(m) && m@ == refusal(views, opts@, opt_text(*home))
            } else {
                r matches Ok(found) && found@.map_values(|i: usize| i as nat) == candidates(
                    views,
                    opts@,
                )
            }
        }),
{
    let ghost views = probe_views(probes@);
    let mut found: Vec<usize> = Vec::new();
    let mut attached: u64 = 0;
    let mut i: usize = 0;
    assert(found@.map_values(|i: usize| i as nat) =~= candidates(views.take(0), opts@));
    while i < probes.len()
        invariant
            i <= probes@.len() == views.len(),
            views == probe_views(probes@),
            found@.map_values(|i: usize| i as nat) == candidates(views.take(i as int), opts@),
            attached == attached_count(views.take(i as int), opts@),
            attached <= i,
        decreases probes@.len() - i,
    {
        let p = &probes[i];
        let matched = match &opts.pattern {
            Some(pattern) => probe_matches(p, pattern.as_str()),
            None => true,
        };
        let claim = if opts.force {
            p.headless
        } else {
            p.detached
        };
        let ghost before = found@.map_values(|i: usize| i as nat);
        proof {
            assert(views.take(i + 1).drop_last() =~= views.take(i as int));
            assert(views.take(i + 1).last() == p@);
        }
        if claim && matched {
            found.push(i);
            assert(found@.map_values(|i: usize| i as nat) =~= before.push(i as nat));
        }
        if p.headless && !p.detached && matched {
            attached += 1;
        }
        i += 1;
    }
    assert(views.take(i as int) =~= views);
    assert(found@.len() == found@.map_values(|i: usize| i as nat).len());
    if found.len() > 0 {
        return Ok(found);
    }
    let mut message = match &opts.pattern {
        Some(pattern) => {
            let mut m = "no detached session matches ".to_owned();
            m.append(debug_string(pattern.as_str()).as_str());
            m
        },
        None => "no detached sessions".to_owned(),
    };
    let ghost head = message@;
    if !opts.force && attached > 0 {
        let mut note = " (".to_owned();
        push_decimal(&mut note, attached);
        note.append(" already attached; --force takes one over)");
        message.append(note.as_str());
    } else {
        assert(message@ =~= head + Seq::<char>::empty());
    }
    if probes.len() == 0 {
        message.append("; start one with: g2mirror --detached <command>");
    } else {
        let mut sessions = "\nlive sessions:".to_owned();
        push_listing(&mut sessions, probes, home, "\n  ");
        message.append(sessions.as_str());
    }
    Err(message)
}

/// What a picker is left with: still choosing, cancelled, or a choice.
#[derive(Clone, Copy, PartialEq, Eq, Structural, Debug)]
pub enum Picked {
    Undecided,
    Cancelled,
    Chosen(usize),
}

/// A picker's selection and decision after more keys.
pub open spec fn picked_by(keys: Seq<ListKey>, selected: nat, count: nat) -> (nat, Picked)
    decreases keys.len(),
{
    if keys.len() == 0 {
        (selected, Picked::Undecided)
    } else {
        let (at, picked) = picked_by(keys.drop_last(), selected, count);
        match keys.last() {
            ListKey::Up => (one_up(at), picked),
            ListKey::Down => (one_down(at, count), picked),
            ListKey::Enter => (at, Picked::Chosen(at as usize)),
            ListKey::Quit => (at, Picked::Cancelled),
            ListKey::Refresh => (at, picked),
        }
    }
}

/// Keys in a picker of `count` entries (arrows/enter/q): the selection after
/// them, and what was decided; the last decision of a batch stands.
pub fn pick_keys(bytes: &[u8], selected: usize, count: usize) -> (r: (usize, Picked))
    requires
        selected < count,
    ensures
        (r.0 as nat, r.1) == picked_by(keys_of(bytes@), selected as nat, count as nat),
        r.0 < count,
{
    let keys = parse_list_keys(bytes);
    let mut at: usize = selected;
    let mut picked = Picked::Undecided;
    let mut i: usize = 0;
    while i < keys.len()
        invariant
            i <= keys@.len(),
            selected < count,
            at < count,
            (at as nat, picked) == picked_by(keys@.take(i as int), selected as nat, count as nat),
        decreases keys@.len() - i,
    {
        proof {
            assert(keys@.take(i + 1).drop_last() =~= keys@.take(i as int));
        }
        match keys[i] {
            ListKey::Up => {
                at = move_up(at);
            },
            ListKey::Down => {
                at = move_down(at, count);
            },
            ListKey::Enter => {
                picked = Picked::Chosen(at);
            },
            ListKey::Quit => {
                picked = Picked::Cancelled;
            },
            ListKey::Refresh => {},
        }
        i += 1;
    }
    assert(keys@.take(i as int) =~= keys@);
    (at, picked)
}

/// A picker's lines, the selected one marked.
pub open spec fn picker_lines(
    lines: Seq<Seq<char>>,
    selected: nat,
) -> Seq<char>
    decreases lines.len(),
{
    if lines.len() == 0 {
        Seq::empty()
    } else {
        picker_lines(lines.drop_last(), selected) + (if lines.len() - 1 == selected {
            "\x1b[7m> "@ + lines.last() + "\x1b[0m\r\n"@
        } else {
            "  "@ + lines.last() + "\r\n"@
        })
    }
}

/// A picker's screen.
pub open spec fn picker_text(lines: Seq<Seq<char>>, selected: nat) -> Seq<char> {
    "\x1b[H\x1b[2Jg2mirror \u{2014} pick a session to attach\r\n\r\n"@ + picker_lines(
        lines,
        selected,
    ) + "\r\n  \u{2191}/\u{2193} select \u{b7} enter attach \u{b7} q cancel"@
}

/// A minimal alt-screen picker among several candidates, of which each line is
/// given by its index among the probes.
pub fn picker_screen(
    probes: &Vec<Probe>,
    found: &Vec<usize>,
    home: &Option<String>,
    selected: usize,
) -> (r: String)
    requires
        forall|k: int| 0 <= k < found@.len() ==> (#[trigger] found@[k]) < probes@.len(),
    ensures
        r@ == picker_text(
            found@.map_values(
                |i: usize| line_text(probe_views(probes@)[i as int], opt_text(*home)),
            ),
            selected as nat,
        ),
{
    let ghost lines = found@.map_values(
        |i: usize| line_text(probe_views(probes@)[i as int], opt_text(*home)),
    );
    let mut out = "\x1b[H\x1b[2Jg2mirror \u{2014} pick a session to attach\r\n\r\n".to_owned();
    let ghost head = out@;
    let mut i: usize = 0;
    assert(out@ =~= head + picker_lines(lines.take(0), selected as nat));
    while i < found.len()
        invariant
            i <= found@.len() == lines.len(),
            forall|k: int| 0 <= k < found@.len() ==> (#[trigger] found@[k]) < probes@.len(),
            forall|k: int|
                0 <= k < found@.len() ==> #[trigger] lines[k] == line_text(
                    probe_views(probes@)[found@[k] as int],
                    opt_text(*home),
                ),
            out@ == head + picker_lines(lines.take(i as int), selected as nat),
        decreases found@.len() - i,
    {
        let line = trim_end(describe(&probes[found[i]], home).as_str());
        proof {
            assert(probe_views(probes@)[found@[i as int] as int] == probes@[found@[i as int] as int]@);
            assert(lines[i as int] == line@);
            assert(lines.take(i + 1).drop_last() =~= lines.take(i as int));
        }
        let mut row = if i == selected {
            "\x1b[7m> ".to_owned()
        } else {
            "  ".to_owned()
        };
        row.append(line.as_str());
        if i == selected {
            row.append("\x1b[0m\r\n");
        } else {
            row.append("\r\n");
        }
        out.append(row.as_str());
        assert(out@ =~= head + picker_lines(lines.take(i + 1), selected as nat));
        i += 1;
    }
    assert(lines.take(i as int) =~= lines);
    out.append("\r\n  \u{2191}/\u{2193} select \u{b7} enter attach \u{b7} q cancel");
    out
}

/// Only claimable sessions are offered, each once and in list order.
pub proof fn candidates_are_claimable(probes: Seq<ProbeView>, opts: AttachView)
    ensures
        forall|k: int|
            0 <= k < candidates(probes, opts).len() ==> (#[trigger] candidates(probes, opts)[k])
                < probes.len() && claimable(probes[candidates(probes, opts)[k] as int], opts),
        forall|j: int, k: int|
            0 <= j < k < candidates(probes, opts).len() ==> candidates(probes, opts)[j]
                < candidates(probes, opts)[k],
        forall|i: int|
            0 <= i < probes.len() && claimable(#[trigger] probes[i], opts) ==> candidates(
                probes,
                opts,
            ).contains(i as nat),
    decreases probes.len(),
{
    if probes.len() > 0 {
        let rest = probes.drop_last();
        candidates_are_claimable(rest, opts);
        let before = candidates(rest, opts);
        let all = candidates(probes, opts);
        assert forall|i: int| 0 <= i < probes.len() && claimable(
            #[trigger] probes[i],
            opts,
        ) implies all.contains(i as nat) by {
            if i < rest.len() {
                assert(rest[i] == probes[i]);
                assert(before.contains(i as nat));
                let k = choose|k: int| 0 <= k < before.len() && before[k] == i as nat;
                assert(all[k] == i as nat);
            } else {
                assert(all.last() == i as nat);
            }
        }
    }
}

} // verus!
