//! Options for wrapping a command (`g2mirror [flags] <command>`), whether
//! hosted in this terminal, headless, or being daemonized via `--detached`.

use crate::history::DEFAULT_MAX_LINES;
use crate::terminal::{is_positive, positive};
use crate::text::{
    chars_of, decimal, decimal_parses, decimal_reads_back, find, find_char, find_is_first,
    has_prefix, opt_text, parse_number, parsed, push_decimal, starts_with, text_eq, text_of,
};
use vstd::prelude::*;
use vstd::string::*;

verus! {

/// One command-line argument: its text, and whether that is the argument
/// exactly (an argument need not be valid UTF-8).
pub struct Arg {
    pub text: String,
    pub exact: bool,
}

pub ghost struct ArgView {
    pub text: Seq<char>,
    pub exact: bool,
}

impl View for Arg {
    type V = ArgView;

    open spec fn view(&self) -> ArgView {
        ArgView { text: self.text@, exact: self.exact }
    }
}

/// The views of a list of arguments.
pub open spec fn arg_views(args: Seq<Arg>) -> Seq<ArgView> {
    args.map_values(|a: Arg| a@)
}

/// What the command line asks for.
pub enum Invocation {
    /// List live sessions.
    List,
    /// Attach to a session; the arguments after the first say which.
    Attach,
    /// Wrap a command.
    Wrap,
}

/// Whether an argument is exactly this text.
pub open spec fn is_flag(arg: ArgView, text: Seq<char>) -> bool {
    arg.exact && arg.text == text
}

fn flag_is(arg: &Arg, text: &str) -> (r: bool)
    ensures
        r == is_flag(arg@, text@),
{
    arg.exact && text_eq(arg.text.as_str(), text)
}

/// What the command line asks for, by its first argument; an error message
/// where it makes no sense.
pub fn invocation(args: &Vec<Arg>) -> (r: Result<Invocation, String>)
    ensures
        ({
            let views = arg_views(args@);
            let list = views.len() > 0 && (is_flag(views[0], "--list"@) || is_flag(views[0], "-l"@));
            let attach = views.len() > 0 && (is_flag(views[0], "--attach"@) || is_flag(
                views[0],
                "-a"@,
            ));
            if list {
                if views.len() > 1 {
                    r matches Err(m) && m@ == "--list takes no further arguments"@
                } else {
                    r matches Ok(i) && i is List
                }
            } else if attach {
                r matches Ok(i) && i is Attach
            } else {
                r matches Ok(i) && i is Wrap
            }
        }),
{
    if args.len() == 0 {
        return Ok(Invocation::Wrap);
    }
    let first = &args[0];
    assert(arg_views(args@)[0] == first@);
    if flag_is(first, "--list") || flag_is(first, "-l") {
        if args.len() > 1 {
            Err("--list takes no further arguments".to_owned())
        } else {
            Ok(Invocation::List)
        }
    } else if flag_is(first, "--attach") || flag_is(first, "-a") {
        Ok(Invocation::Attach)
    } else {
        Ok(Invocation::Wrap)
    }
}

/// `<cols>x<rows>` (the order sizes are usually spoken in) -> (rows, cols).
pub open spec fn size_of(s: Seq<char>) -> Option<(u16, u16)> {
    let x = find(s, 'x');
    let cols = parsed(s.take(x), u16::MAX as nat);
    let rows = parsed(s.skip(x + 1), u16::MAX as nat);
    if x < s.len() && (cols matches Some(c) && c > 0) && (rows matches Some(r) && r > 0) {
        Some((rows->0 as u16, cols->0 as u16))
    } else {
        None
    }
}

/// `<cols>x<rows>` (the order sizes are usually spoken in) -> (rows, cols).
pub fn parse_size(s: &str) -> (r: Option<(u16, u16)>)
    ensures
        r == size_of(s@),
{
    let chars = chars_of(s);
    let len: usize = chars.len();
    let x: usize = find_char(&chars, 'x', 0);
    if x >= len {
        return None;
    }
    assert(s@.take(x as int) =~= chars@.subrange(0, x as int));
    assert(s@.skip(x + 1) =~= chars@.subrange(x + 1, len as int));
    let cols = parse_number(&chars, 0, x, u16::MAX as u64);
    let rows = parse_number(&chars, x + 1, len, u16::MAX as u64);
    match (cols, rows) {
        (Some(c), Some(r)) => {
            if c > 0 && r > 0 {
                Some((r as u16, c as u16))
            } else {
                None
            }
        },
        _ => None,
    }
}

/// The size to run a terminal at, as (rows, cols). A pty can report 0x0 (e.g.
/// under `script` without a real terminal); fall back rather than running the
/// mirror at degenerate dimensions.
pub fn usable_size(rows: u16, cols: u16) -> (r: (u16, u16))
    ensures
        r == (if positive(rows, cols) {
            (rows, cols)
        } else {
            (24u16, 80u16)
        }),
        positive(r.0, r.1),
{
    if is_positive(rows, cols) {
        (rows, cols)
    } else {
        (24, 80)
    }
}

/// Options for wrapping a command.
pub struct WrapOpts {
    pub title: Option<String>,
    pub readonly: bool,
    pub scrollback: usize,
    /// Run without a host terminal: no raw mode, no stdin, no host rendering;
    /// the session lives until the command exits and is claimable with
    /// `--attach`.
    pub headless: bool,
    /// Start a headless copy in the background instead of running here.
    pub detached: bool,
    /// Headless pty size until the first viewer resizes it: (rows, cols).
    pub initial_size: (u16, u16),
    /// Server launch preset name, reported in the connect greeting.
    pub launched: Option<String>,
    /// Index of the program among the arguments; its own arguments follow.
    pub program: usize,
}

pub ghost struct WrapView {
    pub title: Option<Seq<char>>,
    pub readonly: bool,
    pub scrollback: nat,
    pub headless: bool,
    pub detached: bool,
    pub initial_size: (u16, u16),
    pub launched: Option<Seq<char>>,
    pub program: nat,
}

impl View for WrapOpts {
    type V = WrapView;

    open spec fn view(&self) -> WrapView {
        WrapView {
            title: opt_text(self.title),
            readonly: self.readonly,
            scrollback: self.scrollback as nat,
            headless: self.headless,
            detached: self.detached,
            initial_size: self.initial_size,
            launched: opt_text(self.launched),
            program: self.program as nat,
        }
    }
}

/// The options without any flag.
pub open spec fn no_flags() -> WrapView {
    WrapView {
        title: None,
        readonly: false,
        scrollback: DEFAULT_MAX_LINES as nat,
        headless: false,
        detached: false,
        initial_size: (24, 80),
        launched: None,
        program: 0,
    }
}

/// The options that the arguments from `i` on give, on top of `opts`; or what
/// to tell before showing the usage, where there is something to tell.
pub open spec fn wrap_opts(args: Seq<ArgView>, i: nat, opts: WrapView) -> Result<
    WrapView,
    Option<Seq<char>>,
>
    decreases args.len() - i,
{
    if i >= args.len() {
        Err(None)
    } else {
        let arg = args[i as int];
        let value: Option<ArgView> = if i + 1 < args.len() {
            Some(args[i as int + 1])
        } else {
            None
        };
        if !arg.exact {
            Ok(WrapView { program: i, ..opts })
        } else if arg.text == "--title"@ {
            match value {
                Some(v) => wrap_opts(args, i + 2, WrapView { title: Some(v.text), ..opts }),
                None => Err(Some("--title requires a value"@)),
            }
        } else if has_prefix(arg.text, "--title="@) {
            wrap_opts(
                args,
                i + 1,
                WrapView { title: Some(arg.text.skip("--title="@.len() as int)), ..opts },
            )
        } else if arg.text == "--readonly"@ {
            wrap_opts(args, i + 1, WrapView { readonly: true, ..opts })
        } else if arg.text == "--scrollback"@ {
            match lines_of(value) {
                Some(lines) => wrap_opts(args, i + 2, WrapView { scrollback: lines, ..opts }),
                None => Err(Some("--scrollback requires a number of lines"@)),
            }
        } else if arg.text == "--headless"@ {
            wrap_opts(args, i + 1, WrapView { headless: true, ..opts })
        } else if arg.text == "--detached"@ {
            wrap_opts(args, i + 1, WrapView { detached: true, ..opts })
        } else if arg.text == "--initial-size"@ {
            match dims_of(value) {
                Some(size) => wrap_opts(args, i + 2, WrapView { initial_size: size, ..opts }),
                None => Err(Some("--initial-size requires <cols>x<rows>, e.g. 80x24"@)),
            }
        } else if arg.text == "--launched"@ {
            match value {
                Some(v) => wrap_opts(args, i + 2, WrapView { launched: Some(v.text), ..opts }),
                None => Err(Some("--launched requires a preset name"@)),
            }
        } else if arg.text == "--"@ {
            match value {
                Some(_) => Ok(WrapView { program: i + 1, ..opts }),
                None => Err(None),
            }
        } else if arg.text.len() > 1 && arg.text[0] == '-' {
            Err(Some("unknown option "@ + arg.text))
        } else {
            Ok(WrapView { program: i, ..opts })
        }
    }
}

/// The number of lines a flag's value gives.
pub open spec fn lines_of(value: Option<ArgView>) -> Option<nat> {
    match value {
        Some(v) => if v.exact {
            parsed(v.text, usize::MAX as nat)
        } else {
            None
        },
        None => None,
    }
}

/// The dimensions a flag's value gives.
pub open spec fn dims_of(value: Option<ArgView>) -> Option<(u16, u16)> {
    match value {
        Some(v) => if v.exact {
            size_of(v.text)
        } else {
            None
        },
        None => None,
    }
}

/// The options a command line gives; `Err` where the usage is to be shown,
/// after what went wrong where there is something to tell.
pub fn parse_wrap_args(args: &Vec<Arg>) -> (r: Result<WrapOpts, Option<String>>)
    ensures
        match wrap_opts(arg_views(args@), 0, no_flags()) {
            Ok(opts) => r matches Ok(o) && o@ == opts && o.program < args@.len(),
            Err(message) => r matches Err(m) && opt_text(m) == message,
        },
{
    let ghost views = arg_views(args@);
    let ghost whole = wrap_opts(views, 0, no_flags());
    let mut opts = WrapOpts {
        title: None,
        readonly: false,
        scrollback: DEFAULT_MAX_LINES,
        headless: false,
        detached: false,
        initial_size: (24, 80),
        launched: None,
        program: 0,
    };
    let mut i: usize = 0;
    while i < args.len()
        invariant
            i <= args@.len() == views.len(),
            views == arg_views(args@),
            whole == wrap_opts(views, 0, no_flags()),
            wrap_opts(views, i as nat, opts@) == whole,
        decreases args@.len() - i,
    {
        let arg = &args[i];
        assert(views[i as int] == arg@);
        let has_value: bool = i + 1 < args.len();
        if has_value {
            assert(views[i + 1] == args@[i + 1]@);
        }
        let chars = chars_of(arg.text.as_str());
        if !arg.exact {
            opts.program = i;
            return Ok(opts);
        } else if text_eq(arg.text.as_str(), "--title") {
            if !has_value {
                return Err(Some("--title requires a value".to_owned()));
            }
            opts.title = Some(args[i + 1].text.clone());
            i += 2;
        } else if starts_with(&chars, "--title=") {
            proof {
                reveal_strlit("--title=");
            }
            let len: usize = chars.len();
            opts.title = Some(text_of(&chars, 8, len));
            assert(chars@.subrange(8, len as int) =~= arg.text@.skip("--title="@.len() as int));
            i += 1;
        } else if text_eq(arg.text.as_str(), "--readonly") {
            opts.readonly = true;
            i += 1;
        } else if text_eq(arg.text.as_str(), "--scrollback") {
            let lines = if has_value {
                lines_value(&args[i + 1])
            } else {
                None
            };
            match lines {
                Some(n) => {
                    opts.scrollback = n;
                },
                None => {
                    return Err(Some("--scrollback requires a number of lines".to_owned()));
                },
            }
            i += 2;
        } else if text_eq(arg.text.as_str(), "--headless") {
            opts.headless = true;
            i += 1;
        } else if text_eq(arg.text.as_str(), "--detached") {
            opts.detached = true;
            i += 1;
        } else if text_eq(arg.text.as_str(), "--initial-size") {
            let size = if has_value && args[i + 1].exact {
                parse_size(args[i + 1].text.as_str())
            } else {
                None
            };
            match size {
                Some(s) => {
                    opts.initial_size = s;
                },
                None => {
                    return Err(
                        Some("--initial-size requires <cols>x<rows>, e.g. 80x24".to_owned()),
                    );
                },
            }
            i += 2;
        } else if text_eq(arg.text.as_str(), "--launched") {
            if !has_value {
                return Err(Some("--launched requires a preset name".to_owned()));
            }
            opts.launched = Some(args[i + 1].text.clone());
            i += 2;
        } else if text_eq(arg.text.as_str(), "--") {
            if !has_value {
                return Err(None);
            }
            opts.program = i + 1;
            return Ok(opts);
        } else if chars.len() > 1 && chars[0] == '-' {
            let mut message = "unknown option ".to_owned();
            message.append(arg.text.as_str());
            return Err(Some(message));
        } else {
            opts.program = i;
            return Ok(opts);
        }
    }
    Err(None)
}

/// The number of lines a flag's value gives.
fn lines_value(arg: &Arg) -> (r: Option<usize>)
    ensures
        match lines_of(Some(arg@)) {
            Some(n) => r matches Some(k) && k == n,
            None => r is None,
        },
{
    if !arg.exact {
        return None;
    }
    let chars = chars_of(arg.text.as_str());
    let len: usize = chars.len();
    assert(chars@.subrange(0, len as int) =~= arg.text@);
    match parse_number(&chars, 0, len, usize::MAX as u64) {
        Some(n) => Some(n as usize),
        None => None,
    }
}

/// The flags that give a headless copy of the wrapper the same options.
pub open spec fn headless_flags(opts: WrapView) -> Seq<Seq<char>> {
    seq!["--headless"@] + (match opts.title {
        Some(t) => seq!["--title"@, t],
        None => Seq::empty(),
    }) + (if opts.readonly {
        seq!["--readonly"@]
    } else {
        Seq::empty()
    }) + seq!["--scrollback"@, decimal(opts.scrollback)] + seq![
        "--initial-size"@,
        decimal(opts.initial_size.1 as nat) + "x"@ + decimal(opts.initial_size.0 as nat),
    ] + (match opts.launched {
        Some(l) => seq!["--launched"@, l],
        None => Seq::empty(),
    }) + seq!["--"@]
}

/// The texts of a list of strings.
pub open spec fn texts(strings: Seq<String>) -> Seq<Seq<char>> {
    strings.map_values(|s: String| s@)
}

fn push_owned(out: &mut Vec<String>, text: String)
    ensures
        texts(final(out)@) == texts(old(out)@).push(text@),
{
    out.push(text);
    assert(texts(out@) =~= texts(old(out)@).push(text@));
}

/// The flags that start a headless copy of the wrapper with the same options
/// (`--detached`); the program and its arguments follow them.
pub fn headless_args(opts: &WrapOpts) -> (r: Vec<String>)
    ensures
        texts(r@) == headless_flags(opts@),
{
    let mut out: Vec<String> = Vec::new();
    assert(texts(out@) =~= Seq::<Seq<char>>::empty());
    push_owned(&mut out, "--headless".to_owned());
    if let Some(t) = &opts.title {
        push_owned(&mut out, "--title".to_owned());
        push_owned(&mut out, t.clone());
    }
    if opts.readonly {
        push_owned(&mut out, "--readonly".to_owned());
    }
    push_owned(&mut out, "--scrollback".to_owned());
    push_owned(&mut out, crate::text::decimal_string(opts.scrollback as u64));
    push_owned(&mut out, "--initial-size".to_owned());
    let mut size = crate::text::decimal_string(opts.initial_size.1 as u64);
    size.append("x");
    push_decimal(&mut size, opts.initial_size.0 as u64);
    push_owned(&mut out, size);
    if let Some(l) = &opts.launched {
        push_owned(&mut out, "--launched".to_owned());
        push_owned(&mut out, l.clone());
    }
    push_owned(&mut out, "--".to_owned());
    assert(texts(out@) =~= headless_flags(opts@));
    out
}

/// How long a headless copy may take to create its session socket, in
/// milliseconds.
pub const STARTUP_LIMIT_MS: u64 = 5_000;

/// How long to wait before looking for the session socket again, in
/// milliseconds.
pub const STARTUP_POLL_MS: u64 = 20;

/// How far a headless copy has come.
#[derive(Debug, Clone, Copy, PartialEq, Eq, Structural)]
pub enum Startup {
    /// Its session socket exists.
    Ready,
    /// It is gone.
    Exited,
    /// It took too long.
    TimedOut,
    /// Look again in a while.
    Wait,
}

/// What to make of a headless copy that was started `waited_ms` ago. Only a
/// session socket is success: a launch that prints a socket name nothing will
/// ever answer on helps nobody.
pub fn startup_step(socket_exists: bool, child_exited: bool, waited_ms: u64) -> (r: Startup)
    ensures
        r == (if socket_exists {
            Startup::Ready
        } else if child_exited {
            Startup::Exited
        } else if waited_ms >= STARTUP_LIMIT_MS {
            Startup::TimedOut
        } else {
            Startup::Wait
        }),
{
    if socket_exists {
        Startup::Ready
    } else if child_exited {
        Startup::Exited
    } else if waited_ms >= STARTUP_LIMIT_MS {
        Startup::TimedOut
    } else {
        Startup::Wait
    }
}

/// The wrapper's exit code: the child's own, or 128 plus the signal that
/// killed it.
pub fn exit_code(code: Option<i32>, signal: Option<i32>) -> (r: i32)
    requires
        signal matches Some(s) ==> s <= i32::MAX - 128,
    ensures
        r == match (code, signal) {
            (Some(c), _) => c as int,
            (None, Some(s)) => 128 + s,
            (None, None) => 1,
        },
{
    match (code, signal) {
        (Some(c), _) => c,
        (None, Some(s)) => 128 + s,
        (None, None) => 1,
    }
}

/// `words` with a space between each two.
pub open spec fn spaced(words: Seq<Seq<char>>) -> Seq<char>
    decreases words.len(),
{
    if words.len() == 0 {
        Seq::empty()
    } else if words.len() == 1 {
        words[0]
    } else {
        spaced(words.drop_last()) + " "@ + words.last()
    }
}

/// A command line as it is shown: the program and its arguments.
pub fn command_line(words: &Vec<String>) -> (r: String)
    ensures
        r@ == spaced(texts(words@)),
{
    let ghost all = texts(words@);
    let mut out = String::new();
    let mut i: usize = 0;
    assert(spaced(all.take(0)) =~= out@);
    while i < words.len()
        invariant
            i <= words@.len() == all.len(),
            all == texts(words@),
            out@ == spaced(all.take(i as int)),
        decreases words@.len() - i,
    {
        if i > 0 {
            out.append(" ");
        }
        out.append(words[i].as_str());
        proof {
            assert(all.take(i + 1).drop_last() =~= all.take(i as int));
            assert(all.take(i + 1).last() == words@[i as int]@);
            if i == 0 {
                assert(all.take(1)[0] == words@[0]@);
                assert(out@ =~= spaced(all.take(1)));
            }
        }
        i += 1;
    }
    assert(all.take(i as int) =~= all);
    out
}

/// The arguments a headless copy is started with, before the program.
pub open spec fn as_args(flags: Seq<Seq<char>>) -> Seq<ArgView> {
    flags.map_values(|text: Seq<char>| ArgView { text, exact: true })
}

proof fn flags_differ()
    ensures
        "--headless"@ != "--title"@,
        "--headless"@ != "--readonly"@,
        "--headless"@ != "--scrollback"@,
        !has_prefix("--headless"@, "--title="@),
        "--detached"@ != "--title"@,
        "--detached"@ != "--readonly"@,
        "--detached"@ != "--scrollback"@,
        "--detached"@ != "--headless"@,
        !has_prefix("--detached"@, "--title="@),
        "--readonly"@ != "--title"@,
        !has_prefix("--readonly"@, "--title="@),
        "--scrollback"@ != "--title"@,
        "--scrollback"@ != "--readonly"@,
        !has_prefix("--scrollback"@, "--title="@),
        "--initial-size"@ != "--title"@,
        "--initial-size"@ != "--readonly"@,
        "--initial-size"@ != "--scrollback"@,
        "--initial-size"@ != "--headless"@,
        "--initial-size"@ != "--detached"@,
        !has_prefix("--initial-size"@, "--title="@),
        "--launched"@ != "--title"@,
        "--launched"@ != "--readonly"@,
        "--launched"@ != "--scrollback"@,
        "--launched"@ != "--headless"@,
        "--launched"@ != "--detached"@,
        "--launched"@ != "--initial-size"@,
        !has_prefix("--launched"@, "--title="@),
        "--"@ != "--title"@,
        "--"@ != "--readonly"@,
        "--"@ != "--scrollback"@,
        "--"@ != "--headless"@,
        "--"@ != "--detached"@,
        "--"@ != "--initial-size"@,
        "--"@ != "--launched"@,
        !has_prefix("--"@, "--title="@),
{
    reveal_strlit("--headless");
    reveal_strlit("--title");
    reveal_strlit("--title=");
    reveal_strlit("--readonly");
    reveal_strlit("--scrollback");
    reveal_strlit("--initial-size");
    reveal_strlit("--detached");
    reveal_strlit("--launched");
    reveal_strlit("--");
    let p = "--title="@;
    assert("--"@.len() == 2);
    assert("--title"@.len() == 7);
    assert("--readonly"@.len() == 10);
    assert("--headless"@[2] == 'h');
    assert("--title"@[2] == 't');
    assert("--readonly"@[2] == 'r');
    assert("--scrollback"@[2] == 's');
    assert("--initial-size"@[2] == 'i');
    assert("--detached"@[2] == 'd');
    assert("--launched"@[2] == 'l');
    assert(p[2] == 't');
    assert("--headless"@.take(8)[2] == 'h');
    assert("--readonly"@.take(8)[2] == 'r');
    assert("--scrollback"@.take(8)[2] == 's');
    assert("--initial-size"@.take(8)[2] == 'i');
    assert("--launched"@.take(8)[2] == 'l');
    assert("--detached"@.take(8)[2] == 'd');
}

proof fn size_reads_back(rows: u16, cols: u16)
    requires
        rows > 0,
        cols > 0,
    ensures
        size_of(decimal(cols as nat) + "x"@ + decimal(rows as nat)) == Some((rows, cols)),
{
    reveal_strlit("x");
    let c = decimal(cols as nat);
    let r = decimal(rows as nat);
    let s = c + "x"@ + r;
    decimal_reads_back(cols as nat);
    decimal_reads_back(rows as nat);
    decimal_parses(cols as nat, u16::MAX as nat);
    decimal_parses(rows as nat, u16::MAX as nat);
    assert forall|i: int| 0 <= i < c.len() implies s[i] != 'x' by {
        assert(crate::text::is_digit(c[i]));
    }
    find_is_first(s, 'x', 0, c.len() as int);
    assert(s.take(c.len() as int) =~= c);
    assert(s.skip(c.len() as int + 1) =~= r);
}

/// Where the flags of a headless copy stand.
proof fn flag_positions(opts: WrapView, t: int, r: int, l: int)
    requires
        t == if opts.title is Some {
            2int
        } else {
            0
        },
        r == if opts.readonly {
            1int
        } else {
            0
        },
        l == if opts.launched is Some {
            2int
        } else {
            0
        },
    ensures
        ({
            let flags = headless_flags(opts);
            &&& flags.len() == 6 + t + r + l
            &&& flags[0] == "--headless"@
            &&& opts.title matches Some(title) ==> flags[1] == "--title"@ && flags[2] == title
            &&& opts.readonly ==> flags[1 + t] == "--readonly"@
            &&& flags[1 + t + r] == "--scrollback"@
            &&& flags[2 + t + r] == decimal(opts.scrollback)
            &&& flags[3 + t + r] == "--initial-size"@
            &&& flags[4 + t + r] == decimal(opts.initial_size.1 as nat) + "x"@ + decimal(
                opts.initial_size.0 as nat,
            )
            &&& opts.launched matches Some(name) ==> flags[5 + t + r] == "--launched"@ && flags[6
                + t + r] == name
            &&& flags[5 + t + r + l] == "--"@
        }),
{
}

pub(crate) proof fn step_headless(args: Seq<ArgView>, i: nat, o: WrapView)
    requires
        i < args.len(),
        is_flag(args[i as int], "--headless"@),
    ensures
        wrap_opts(args, i, o) == wrap_opts(args, i + 1, WrapView { headless: true, ..o }),
{
    flags_differ();
}

pub(crate) proof fn step_detached(args: Seq<ArgView>, i: nat, o: WrapView)
    requires
        i < args.len(),
        is_flag(args[i as int], "--detached"@),
    ensures
        wrap_opts(args, i, o) == wrap_opts(args, i + 1, WrapView { detached: true, ..o }),
{
    flags_differ();
}

pub(crate) proof fn step_title(args: Seq<ArgView>, i: nat, o: WrapView)
    requires
        i + 1 < args.len(),
        is_flag(args[i as int], "--title"@),
    ensures
        wrap_opts(args, i, o) == wrap_opts(
            args,
            i + 2,
            WrapView { title: Some(args[i as int + 1].text), ..o },
        ),
{
}

pub(crate) proof fn step_readonly(args: Seq<ArgView>, i: nat, o: WrapView)
    requires
        i < args.len(),
        is_flag(args[i as int], "--readonly"@),
    ensures
        wrap_opts(args, i, o) == wrap_opts(args, i + 1, WrapView { readonly: true, ..o }),
{
    flags_differ();
}

pub(crate) proof fn step_scrollback(args: Seq<ArgView>, i: nat, o: WrapView, lines: nat)
    requires
        i + 1 < args.len(),
        is_flag(args[i as int], "--scrollback"@),
        is_flag(args[i as int + 1], decimal(lines)),
        lines <= usize::MAX,
    ensures
        wrap_opts(args, i, o) == wrap_opts(args, i + 2, WrapView { scrollback: lines, ..o }),
{
    flags_differ();
    decimal_parses(lines, usize::MAX as nat);
}

pub(crate) proof fn step_size(args: Seq<ArgView>, i: nat, o: WrapView, size: (u16, u16))
    requires
        i + 1 < args.len(),
        is_flag(args[i as int], "--initial-size"@),
        args[i as int + 1].exact,
        size_of(args[i as int + 1].text) == Some(size),
    ensures
        wrap_opts(args, i, o) == wrap_opts(args, i + 2, WrapView { initial_size: size, ..o }),
{
    flags_differ();
}

pub(crate) proof fn step_launched(args: Seq<ArgView>, i: nat, o: WrapView)
    requires
        i + 1 < args.len(),
        is_flag(args[i as int], "--launched"@),
    ensures
        wrap_opts(args, i, o) == wrap_opts(
            args,
            i + 2,
            WrapView { launched: Some(args[i as int + 1].text), ..o },
        ),
{
    flags_differ();
}

pub(crate) proof fn step_end(args: Seq<ArgView>, i: nat, o: WrapView)
    requires
        i + 1 < args.len(),
        is_flag(args[i as int], "--"@),
    ensures
        wrap_opts(args, i, o) == (Ok::<WrapView, Option<Seq<char>>>(
            WrapView { program: i + 1, ..o },
        )),
{
    flags_differ();
}

/// A headless copy gets exactly the options it was started with: parsing its
/// command line gives them back, headless, with the program right behind.
pub proof fn headless_copy_gets_the_options(opts: WrapView, rest: Seq<ArgView>)
    requires
        opts.initial_size.0 > 0,
        opts.initial_size.1 > 0,
        opts.scrollback <= usize::MAX,
        rest.len() > 0,
    ensures
        wrap_opts(as_args(headless_flags(opts)) + rest, 0, no_flags()) == (Ok::<
            WrapView,
            Option<Seq<char>>,
        >(
            WrapView {
                headless: true,
                detached: false,
                program: headless_flags(opts).len(),
                ..opts
            },
        )),
{
    let flags = headless_flags(opts);
    let args = as_args(flags) + rest;
    let t: nat = if opts.title is Some {
        2
    } else {
        0
    };
    let r: nat = if opts.readonly {
        1
    } else {
        0
    };
    let l: nat = if opts.launched is Some {
        2
    } else {
        0
    };
    flag_positions(opts, t as int, r as int, l as int);
    assert forall|i: int| 0 <= i < flags.len() implies is_flag(#[trigger] args[i], flags[i]) by {
        assert(as_args(flags)[i] == args[i]);
    }
    let o0 = no_flags();
    step_headless(args, 0, o0);
    let o1 = WrapView { headless: true, ..o0 };
    if opts.title is Some {
        step_title(args, 1, o1);
    }
    let o2 = WrapView { title: opts.title, ..o1 };
    assert(wrap_opts(args, 0, o0) == wrap_opts(args, 1 + t, o2));
    if opts.readonly {
        step_readonly(args, 1 + t, o2);
    }
    let o3 = WrapView { readonly: opts.readonly, ..o2 };
    assert(wrap_opts(args, 0, o0) == wrap_opts(args, 1 + t + r, o3));
    step_scrollback(args, 1 + t + r, o3, opts.scrollback);
    let o4 = WrapView { scrollback: opts.scrollback, ..o3 };
    size_reads_back(opts.initial_size.0, opts.initial_size.1);
    step_size(args, 3 + t + r, o4, opts.initial_size);
    let o5 = WrapView { initial_size: opts.initial_size, ..o4 };
    assert(wrap_opts(args, 0, o0) == wrap_opts(args, 5 + t + r, o5));
    if opts.launched is Some {
        step_launched(args, 5 + t + r, o5);
    }
    let o6 = WrapView { launched: opts.launched, ..o5 };
    assert(wrap_opts(args, 0, o0) == wrap_opts(args, 5 + t + r + l, o6));
    step_end(args, 5 + t + r + l, o6);
}

} // verus!
