//! The runtime directory (`~/.g2mirror`): session sockets and server config.

use crate::text::{
    chars_of, decimal, decimal_parses, decimal_reads_back, find, find_char, find_is_first,
    find_spec, is_digit, parse_number, parsed, push_decimal,
};
use vstd::prelude::*;
use vstd::string::*;

verus! {

/// How old a socket file must be, in nanoseconds, before the server will
/// consider removing it (its owning PID must also be gone).
pub const STALE_SOCKET_AGE: u128 = 3_600_000_000_000;

/// Longest tail of a working directory that goes into a socket name. The limit
/// keeps the whole socket path under the ~104-byte sun_path limit.
pub const MAX_CWD_CHARS: usize = 60;

/// `name` inside the directory `dir`.
pub open spec fn joined(dir: Seq<char>, name: Seq<char>) -> Seq<char> {
    if dir.len() == 0 || dir.last() == '/' {
        dir + name
    } else {
        dir + "/"@ + name
    }
}

/// The path of `name`, which is relative, inside the directory `dir`.
pub fn join_path(dir: &str, name: &str) -> (r: String)
    ensures
        r@ == joined(dir@, name@),
{
    let chars = chars_of(dir);
    let mut out = dir.to_owned();
    if chars.len() > 0 && chars[chars.len() - 1] != '/' {
        out.append("/");
    }
    out.append(name);
    out
}

pub fn config_path(dir: &str) -> (r: String)
    ensures
        r@ == joined(dir@, "config.json"@),
{
    join_path(dir, "config.json")
}

/// Characters that are not awkward in file names.
pub open spec fn is_plain(c: char) -> bool {
    ('a' <= c && c <= 'z') || ('A' <= c && c <= 'Z') || is_digit(c) || c == '-' || c == '_' || c
        == '.'
}

fn plain_char(c: char) -> (r: bool)
    ensures
        r == is_plain(c),
{
    (c >= 'a' && c <= 'z') || (c >= 'A' && c <= 'Z') || (c >= '0' && c <= '9') || c == '-' || c
        == '_' || c == '.'
}

/// `s` with every character that is awkward in a file name replaced.
pub open spec fn replaced(s: Seq<char>) -> Seq<char> {
    s.map_values(
        |c: char|
            if is_plain(c) {
                c
            } else {
                '_'
            },
    )
}

/// The last `MAX_CWD_CHARS` characters of `s`, or all where there are fewer:
/// the tail of a path is its most distinctive part.
pub open spec fn tail_of(s: Seq<char>) -> Seq<char> {
    if s.len() > MAX_CWD_CHARS {
        s.skip(s.len() - MAX_CWD_CHARS)
    } else {
        s
    }
}

/// A working directory as it stands in a socket name.
pub open spec fn sanitized(cwd: Seq<char>) -> Seq<char> {
    tail_of(replaced(cwd))
}

/// A session's socket file name.
pub open spec fn socket_text(pid: u32, cwd: Seq<char>) -> Seq<char> {
    decimal(pid as nat) + "-"@ + sanitized(cwd)
}

/// Replace characters that are awkward in file names and truncate, keeping
/// the tail of the path (the most distinctive part).
fn sanitize_cwd(cwd: &str) -> (r: String)
    ensures
        r@ == sanitized(cwd@),
{
    let chars = chars_of(cwd);
    let mut out = String::new();
    let start: usize = if chars.len() > MAX_CWD_CHARS {
        chars.len() - MAX_CWD_CHARS
    } else {
        0
    };
    let ghost all = replaced(cwd@);
    let mut i: usize = start;
    while i < chars.len()
        invariant
            start <= i <= chars@.len(),
            chars@ == cwd@,
            all == replaced(cwd@),
            out@ == all.subrange(start as int, i as int),
        decreases chars@.len() - i,
    {
        let c = chars[i];
        if plain_char(c) {
            out.push(c);
        } else {
            out.push('_');
        }
        i += 1;
        assert(out@ =~= all.subrange(start as int, i as int));
    }
    assert(out@ =~= sanitized(cwd@));
    out
}

/// Session socket file name: `<pid>-<sanitized-cwd>`.
pub fn socket_name(pid: u32, cwd: &str) -> (r: String)
    ensures
        r@ == socket_text(pid, cwd@),
{
    let mut out = String::new();
    push_decimal(&mut out, pid as u64);
    out.append("-");
    out.append(sanitize_cwd(cwd).as_str());
    assert(out@ =~= socket_text(pid, cwd@));
    out
}

/// The PID a socket name starts with, up to its first dash.
pub open spec fn name_pid(name: Seq<char>) -> Option<nat> {
    parsed(name.take(find(name, '-')), u32::MAX as nat)
}

/// Parse the PID prefix out of a session socket file name.
pub fn socket_pid(name: &str) -> (r: Option<u32>)
    ensures
        match name_pid(name@) {
            Some(pid) => r == Some(pid as u32) && pid <= u32::MAX,
            None => r is None,
        },
{
    let chars = chars_of(name);
    let dash: usize = find_char(&chars, '-', 0);
    assert(chars@.subrange(0, dash as int) =~= name@.take(find(name@, '-')));
    match parse_number(&chars, 0, dash, u32::MAX as u64) {
        Some(pid) => Some(pid as u32),
        None => None,
    }
}

/// What a socket name is: a single path component of the characters a
/// sanitized working directory can hold, with a numeric PID prefix.
pub open spec fn valid_socket_text(name: Seq<char>) -> bool {
    name_pid(name) is Some && forall|i: int| 0 <= i < name.len() ==> is_plain(#[trigger] name[i])
}

/// A socket name is a single path component of the characters
/// `sanitize_cwd` can produce, with a numeric PID prefix.
pub fn is_valid_socket_name(name: &str) -> (r: bool)
    ensures
        r == valid_socket_text(name@),
{
    if socket_pid(name).is_none() {
        return false;
    }
    let chars = chars_of(name);
    let mut i: usize = 0;
    while i < chars.len()
        invariant
            i <= chars@.len(),
            chars@ == name@,
            name_pid(name@) is Some,
            forall|k: int| 0 <= k < i ==> is_plain(#[trigger] name@[k]),
        decreases chars@.len() - i,
    {
        if !plain_char(chars[i]) {
            assert(!is_plain(name@[i as int]));
            return false;
        }
        i += 1;
    }
    true
}

/// Whether a directory entry is a session socket that may be removed: its name
/// has a PID prefix, it is a socket, it is old, and the owning PID no longer
/// exists. Age and PID are both required: a fresh file might belong to a
/// wrapper that just crashed and whose PID was reused, and a live PID means the
/// session is still running no matter how old the file is. `age` is in
/// nanoseconds, unknown for a file from the future.
pub fn is_stale_socket(name: &str, is_socket: bool, age: Option<u128>, pid_alive: bool) -> (r: bool)
    ensures
        r == (name_pid(name@) is Some && is_socket && (age matches Some(a) && a > STALE_SOCKET_AGE)
            && !pid_alive),
{
    let old = match age {
        Some(a) => a > STALE_SOCKET_AGE,
        None => false,
    };
    socket_pid(name).is_some() && is_socket && old && !pid_alive
}

/// What testing a process with a null signal came to.
#[derive(Clone, Copy, PartialEq, Eq, Structural, Debug)]
pub enum SignalTest {
    Delivered,
    /// The process exists but belongs to someone else.
    NotPermitted,
    Failed,
}

/// The process to test for a PID, as the kernel numbers them: positive and
/// within its signed range. A PID that is not cannot exist.
pub fn signal_target(pid: u32) -> (r: Option<i32>)
    ensures
        r == (if 1 <= pid <= i32::MAX {
            Some(pid as i32)
        } else {
            None
        }),
{
    if pid >= 1 && pid <= i32::MAX as u32 {
        Some(pid as i32)
    } else {
        None
    }
}

/// Whether a process exists, by what testing it came to; `None` where there
/// was nothing to test.
pub fn pid_exists(test: Option<SignalTest>) -> (r: bool)
    ensures
        r == (test == Some(SignalTest::Delivered) || test == Some(SignalTest::NotPermitted)),
{
    match test {
        Some(SignalTest::Delivered) => true,
        Some(SignalTest::NotPermitted) => true,
        _ => false,
    }
}

proof fn decimal_is_short(n: nat, bound: nat, digits: nat)
    requires
        n < bound,
        bound == pow10(digits),
        digits > 0,
    ensures
        decimal(n).len() <= digits,
    decreases n,
{
    if n >= 10 {
        assert(pow10(1) == 10) by {
            reveal_with_fuel(pow10, 2);
        }
        assert(digits > 1);
        let rest = (digits - 1) as nat;
        assert(n / 10 < pow10(rest));
        decimal_is_short(n / 10, pow10(rest), rest);
    }
}

/// Ten to the power of `n`.
pub open spec fn pow10(n: nat) -> nat
    decreases n,
{
    if n == 0 {
        1
    } else {
        10 * pow10((n - 1) as nat)
    }
}

proof fn decimal_is_plain(n: nat)
    ensures
        forall|i: int| 0 <= i < decimal(n).len() ==> is_plain(#[trigger] decimal(n)[i]),
        forall|i: int| 0 <= i < decimal(n).len() ==> #[trigger] decimal(n)[i] != '-',
{
    decimal_reads_back(n);
    assert forall|i: int| 0 <= i < decimal(n).len() implies is_plain(#[trigger] decimal(n)[i])
        && decimal(n)[i] != '-' by {
        assert(is_digit(decimal(n)[i]));
    }
}

/// A socket name gives back the PID it was made with.
pub proof fn socket_name_carries_pid(pid: u32, cwd: Seq<char>)
    ensures
        name_pid(socket_text(pid, cwd)) == Some(pid as nat),
{
    let name = socket_text(pid, cwd);
    let digits = decimal(pid as nat);
    reveal_strlit("-");
    decimal_is_plain(pid as nat);
    assert(forall|i: int| 0 <= i < digits.len() ==> name[i] == digits[i]);
    find_is_first(name, '-', 0, digits.len() as int);
    assert(name.take(digits.len() as int) =~= digits);
    decimal_parses(pid as nat, u32::MAX as nat);
}

/// Every socket name is valid and bounded in length, whatever the directory.
pub proof fn socket_name_is_valid(pid: u32, cwd: Seq<char>)
    ensures
        valid_socket_text(socket_text(pid, cwd)),
        socket_text(pid, cwd).len() <= 11 + MAX_CWD_CHARS,
{
    let name = socket_text(pid, cwd);
    let digits = decimal(pid as nat);
    reveal_strlit("-");
    socket_name_carries_pid(pid, cwd);
    decimal_is_plain(pid as nat);
    assert(pow10(10) == 10_000_000_000) by {
        reveal_with_fuel(pow10, 11);
    }
    decimal_is_short(pid as nat, pow10(10), 10);
    assert forall|i: int| 0 <= i < name.len() implies is_plain(#[trigger] name[i]) by {
        if i < digits.len() {
            assert(name[i] == digits[i]);
        } else if i > digits.len() {
            let at = i - digits.len() - 1;
            assert(name[i] == sanitized(cwd)[at]);
            if replaced(cwd).len() > MAX_CWD_CHARS {
                assert(sanitized(cwd)[at] == replaced(cwd)[replaced(cwd).len() - MAX_CWD_CHARS + at]);
            }
        }
    }
}

/// No valid socket name leaves its directory: it holds no slash, and is
/// neither empty nor one of the dot entries.
pub proof fn socket_name_is_one_component(name: Seq<char>)
    requires
        valid_socket_text(name),
    ensures
        forall|i: int| 0 <= i < name.len() ==> #[trigger] name[i] != '/',
        name.len() > 0,
        name != "."@,
        name != ".."@,
{
    reveal_strlit(".");
    reveal_strlit("..");
    find_spec(name, '-', 0);
    let prefix = name.take(find(name, '-'));
    assert(prefix.len() > 0);
    assert(prefix[0] == name[0]);
    if name[0] == '.' {
        assert(!is_digit(prefix[0]));
    }
}

/// A directory in a socket name is the end of its path, up to 60 characters of
/// it: letters, digits, dashes, underscores and dots as they are, and an
/// underscore for every other.
pub proof fn directories_keep_their_end(cwd: Seq<char>, k: int)
    requires
        0 <= k < sanitized(cwd).len(),
    ensures
        sanitized(cwd).len() == (if cwd.len() > 60 {
            60
        } else {
            cwd.len()
        }),
        ({
            let c = cwd[cwd.len() - sanitized(cwd).len() + k];
            let n = c as int;
            let kept = 97 <= n <= 122 || 65 <= n <= 90 || 48 <= n <= 57 || n == 45 || n == 95 || n
                == 46;
            sanitized(cwd)[k] == (if kept {
                c
            } else {
                '_'
            })
        }),
{
}

/// A name joins a directory behind one slash.
pub proof fn names_join_behind_one_slash(dir: Seq<char>, name: Seq<char>)
    requires
        name.len() > 0,
        name[0] != '/',
    ensures
        dir.len() == 0 ==> joined(dir, name) =~= name,
        dir.len() > 0 && dir.last() == '/' ==> joined(dir, name) =~= dir + name,
        dir.len() > 0 && dir.last() != '/' ==> joined(dir, name) =~= dir + "/"@ + name,
{
}

/// A name is a socket's exactly if a process leads it, up to the first dash or
/// the end, and every character is one that a directory keeps.
pub proof fn socket_names_are_told_apart(name: Seq<char>, dash: int)
    requires
        0 <= dash <= name.len(),
        forall|k: int| 0 <= k < dash ==> #[trigger] name[k] != '-',
        dash < name.len() ==> name[dash] == '-',
    ensures
        name_pid(name) == parsed(name.take(dash), u32::MAX as nat),
        valid_socket_text(name) <==> parsed(name.take(dash), u32::MAX as nat) is Some && forall|k: int|
            #![trigger name[k]]
            0 <= k < name.len() ==> {
                let n = name[k] as int;
                97 <= n <= 122 || 65 <= n <= 90 || 48 <= n <= 57 || n == 45 || n == 95 || n == 46
            },
{
    find_is_first(name, '-', 0, dash);
    assert forall|k: int| 0 <= k < name.len() implies is_plain(#[trigger] name[k]) == ({
        let n = name[k] as int;
        97 <= n <= 122 || 65 <= n <= 90 || 48 <= n <= 57 || n == 45 || n == 95 || n == 46
    }) by {}
}

} // verus!
