//! Small building blocks for byte strings and text.

use vstd::prelude::*;
use vstd::string::*;
use vstd::utf8::*;

verus! {

/// The text of an optional string.
pub open spec fn opt_text(text: Option<String>) -> Option<Seq<char>> {
    match text {
        Some(t) => Some(t@),
        None => None,
    }
}

/// The bytes of an optional byte string.
pub open spec fn opt_bytes(bytes: Option<Vec<u8>>) -> Option<Seq<u8>> {
    match bytes {
        Some(b) => Some(b@),
        None => None,
    }
}

/// `unit` written `count` times in a row.
pub open spec fn repeated(unit: Seq<u8>, count: nat) -> Seq<u8>
    decreases count,
{
    if count == 0 {
        Seq::empty()
    } else {
        repeated(unit, (count - 1) as nat) + unit
    }
}

/// The decimal digit `d` as a character.
pub open spec fn digit(d: nat) -> char {
    if d == 0 {
        '0'
    } else if d == 1 {
        '1'
    } else if d == 2 {
        '2'
    } else if d == 3 {
        '3'
    } else if d == 4 {
        '4'
    } else if d == 5 {
        '5'
    } else if d == 6 {
        '6'
    } else if d == 7 {
        '7'
    } else if d == 8 {
        '8'
    } else {
        '9'
    }
}

/// `n` in decimal, without leading zeros.
pub open spec fn decimal(n: nat) -> Seq<char>
    decreases n,
{
    if n < 10 {
        seq![digit(n)]
    } else {
        decimal(n / 10).push(digit(n % 10))
    }
}

/// Appends `bytes` to `out`.
pub fn push_bytes(out: &mut Vec<u8>, bytes: &[u8])
    ensures
        final(out)@ == old(out)@ + bytes@,
{
    out.extend_from_slice(bytes);
    assert(out@ =~= old(out)@ + bytes@);
}

/// Appends the UTF-8 form of `text` to `out`.
pub fn push_text(out: &mut Vec<u8>, text: &str)
    ensures
        final(out)@ == old(out)@ + encode_utf8(text@),
{
    push_bytes(out, text.as_bytes());
}

/// Appends the UTF-8 form of `text` to `out`, `count` times.
pub fn push_repeated(out: &mut Vec<u8>, text: &str, count: usize)
    ensures
        final(out)@ == old(out)@ + repeated(encode_utf8(text@), count as nat),
{
    let mut done: usize = 0;
    proof {
        assert(out@ =~= old(out)@ + repeated(encode_utf8(text@), 0));
    }
    while done < count
        invariant
            done <= count,
            out@ == old(out)@ + repeated(encode_utf8(text@), done as nat),
        decreases count - done,
    {
        push_text(out, text);
        done += 1;
        proof {
            assert(out@ =~= old(out)@ + repeated(encode_utf8(text@), done as nat));
        }
    }
}

/// The digit `d` as text.
fn digit_text(d: u64) -> (r: &'static str)
    requires
        d < 10,
    ensures
        r@ == seq![digit(d as nat)],
{
    proof {
        reveal_strlit("0");
        reveal_strlit("1");
        reveal_strlit("2");
        reveal_strlit("3");
        reveal_strlit("4");
        reveal_strlit("5");
        reveal_strlit("6");
        reveal_strlit("7");
        reveal_strlit("8");
        reveal_strlit("9");
    }
    let r = match d {
        0 => "0",
        1 => "1",
        2 => "2",
        3 => "3",
        4 => "4",
        5 => "5",
        6 => "6",
        7 => "7",
        8 => "8",
        _ => "9",
    };
    assert(r@ =~= seq![digit(d as nat)]);
    r
}

/// Appends `n` in decimal to `out`.
pub fn push_decimal(out: &mut String, n: u64)
    ensures
        final(out)@ == old(out)@ + decimal(n as nat),
    decreases n,
{
    if n >= 10 {
        push_decimal(out, n / 10);
    }
    out.append(digit_text(n % 10));
    assert(out@ =~= old(out)@ + decimal(n as nat));
}

/// `n` in decimal.
pub fn decimal_string(n: u64) -> (r: String)
    ensures
        r@ == decimal(n as nat),
{
    let mut out = String::new();
    push_decimal(&mut out, n);
    assert(out@ =~= decimal(n as nat));
    out
}

/// Whether two byte strings are equal.
pub fn bytes_eq(a: &[u8], b: &[u8]) -> (r: bool)
    ensures
        r == (a@ == b@),
{
    if a.len() != b.len() {
        return false;
    }
    let mut i: usize = 0;
    while i < a.len()
        invariant
            i <= a@.len(),
            a@.len() == b@.len(),
            forall|k: int| 0 <= k < i ==> a@[k] == b@[k],
        decreases a@.len() - i,
    {
        if a[i] != b[i] {
            return false;
        }
        i += 1;
    }
    assert(a@ =~= b@);
    true
}

/// Different texts have different UTF-8 forms.
pub proof fn utf8_injective(a: Seq<char>, b: Seq<char>)
    ensures
        encode_utf8(a) == encode_utf8(b) <==> a == b,
{
    encode_utf8_decode_utf8(a);
    encode_utf8_decode_utf8(b);
}

/// Whether two texts are equal.
pub fn text_eq(a: &str, b: &str) -> (r: bool)
    ensures
        r == (a@ == b@),
{
    proof {
        utf8_injective(a@, b@);
    }
    bytes_eq(a.as_bytes(), b.as_bytes())
}

/// Wraps `String::from_utf8`. The standard library documents that bytes which
/// are valid UTF-8 become the string with exactly those bytes, and that others
/// are refused.
#[verifier::external_body]
fn utf8_string(bytes: Vec<u8>) -> (r: Option<String>)
    ensures
        r is Some == valid_utf8(bytes@),
        r matches Some(s) ==> encode_utf8(s@) == bytes@,
{
    String::from_utf8(bytes).ok()
}

/// The text that valid UTF-8 stands for.
pub fn string_of(bytes: Vec<u8>) -> (r: String)
    requires
        valid_utf8(bytes@),
    ensures
        encode_utf8(r@) == bytes@,
        r@ == decode_utf8(bytes@),
{
    match utf8_string(bytes) {
        Some(s) => {
            proof {
                encode_utf8_decode_utf8(s@);
            }
            s
        },
        None => String::new(),
    }
}

/// What `String::from_utf8_lossy` makes of a byte string.
pub uninterp spec fn lossy_text(bytes: Seq<u8>) -> Seq<char>;

/// Wraps `String::from_utf8_lossy`, whose result depends on the bytes alone
/// and, as documented, is the text itself where the bytes are valid UTF-8.
#[verifier::external_body]
pub(crate) fn lossy_string(bytes: &[u8]) -> (r: String)
    ensures
        r@ == lossy_text(bytes@),
        valid_utf8(bytes@) ==> r@ == decode_utf8(bytes@),
{
    String::from_utf8_lossy(bytes).into_owned()
}

/// What follows an ASCII byte at the start of valid UTF-8 is valid UTF-8.
pub proof fn utf8_after_ascii(s: Seq<u8>)
    requires
        valid_utf8(s),
        s.len() > 0,
        s[0] < 0x80,
    ensures
        valid_utf8(s.skip(1)),
{
    assert(pop_first_scalar(s) =~= s.skip(1));
}

/// Valid UTF-8 can be cut before any ASCII byte.
pub proof fn utf8_cut_at_ascii(s: Seq<u8>, at: int)
    requires
        valid_utf8(s),
        0 <= at < s.len(),
        s[at] < 0x80,
    ensures
        valid_utf8(s.take(at)),
        valid_utf8(s.skip(at)),
{
    is_char_boundary_iff_not_is_continuation_byte(s, at);
    valid_utf8_split(s, at);
    assert(s.take(at) =~= s.subrange(0, at));
    assert(s.skip(at) =~= s.subrange(at, s.len() as int));
}

/// ASCII bytes are valid UTF-8.
pub proof fn ascii_is_utf8(s: Seq<u8>)
    requires
        forall|i: int| 0 <= i < s.len() ==> s[i] < 0x80,
    ensures
        valid_utf8(s),
    decreases s.len(),
{
    if s.len() > 0 {
        ascii_is_utf8(s.skip(1));
        assert(pop_first_scalar(s) =~= s.skip(1));
        ascii_byte_is_scalar(s);
    }
}

proof fn ascii_byte_is_scalar(s: Seq<u8>)
    requires
        s.len() > 0,
        s[0] < 0x80,
    ensures
        valid_first_scalar(s),
        length_of_first_scalar(s) == 1,
{
    let b = s[0];
    assert(b < 0x80 ==> (b & 0x7f) as u32 == b as u32) by (bit_vector);
}

/// `String::push`: appends the character, as documented.
pub assume_specification[ String::push ](s: &mut String, c: char)
    ensures
        final(s)@ == old(s)@.push(c),
;

/// The characters of a text.
pub fn chars_of(s: &str) -> (r: Vec<char>)
    ensures
        r@ == s@,
{
    let mut out: Vec<char> = Vec::new();
    for c in it: s.chars()
        invariant
            it.seq() == s@,
            out@ == s@.take(it.index() as int),
    {
        out.push(c);
        assert(out@ =~= s@.take(it.index() + 1));
    }
    assert(out@ =~= s@);
    out
}

/// The text made of the characters from `from` up to `to`.
pub fn text_of(chars: &Vec<char>, from: usize, to: usize) -> (r: String)
    requires
        from <= to <= chars@.len(),
    ensures
        r@ == chars@.subrange(from as int, to as int),
{
    let mut out = String::new();
    let mut i: usize = from;
    while i < to
        invariant
            from <= i <= to <= chars@.len(),
            out@ == chars@.subrange(from as int, i as int),
        decreases to - i,
    {
        out.push(chars[i]);
        i += 1;
        assert(out@ =~= chars@.subrange(from as int, i as int));
    }
    out
}

/// Where `c` first occurs in `s` at or after `from`; the length where it does
/// not.
pub open spec fn find_from(s: Seq<char>, c: char, from: int) -> int
    decreases s.len() - from,
{
    if from >= s.len() {
        s.len() as int
    } else if s[from] == c {
        from
    } else {
        find_from(s, c, from + 1)
    }
}

/// Where `c` first occurs in `s`; the length where it does not.
pub open spec fn find(s: Seq<char>, c: char) -> int {
    find_from(s, c, 0)
}

/// The first occurrence is the one before which there is none.
pub proof fn find_is_first(s: Seq<char>, c: char, from: int, at: int)
    requires
        0 <= from <= at <= s.len(),
        forall|i: int| from <= i < at ==> s[i] != c,
        at < s.len() ==> s[at] == c,
    ensures
        find_from(s, c, from) == at,
    decreases at - from,
{
    if from < at {
        find_is_first(s, c, from + 1, at);
    }
}

/// What `find_from` gives: the first place, or the length.
pub proof fn find_spec(s: Seq<char>, c: char, from: int)
    requires
        0 <= from <= s.len(),
    ensures
        from <= find_from(s, c, from) <= s.len(),
        forall|i: int| from <= i < find_from(s, c, from) ==> s[i] != c,
        find_from(s, c, from) < s.len() ==> s[find_from(s, c, from)] == c,
    decreases s.len() - from,
{
    if from < s.len() && s[from] != c {
        find_spec(s, c, from + 1);
    }
}

/// Where `c` first occurs at or after `from`; the length where it does not.
pub fn find_char(s: &Vec<char>, c: char, from: usize) -> (r: usize)
    requires
        from <= s@.len(),
    ensures
        r == find_from(s@, c, from as int),
        from <= r <= s@.len(),
        r < s@.len() ==> s@[r as int] == c,
        forall|i: int| from <= i < r ==> s@[i] != c,
{
    let mut i: usize = from;
    while i < s.len() && s[i] != c
        invariant
            from <= i <= s@.len(),
            forall|k: int| from <= k < i ==> s@[k] != c,
        decreases s@.len() - i,
    {
        i += 1;
    }
    proof {
        find_is_first(s@, c, from as int, i as int);
    }
    i
}

pub open spec fn is_digit(c: char) -> bool {
    '0' <= c && c <= '9'
}

/// The number that decimal digits write.
pub open spec fn digits_value(s: Seq<char>) -> nat
    decreases s.len(),
{
    if s.len() == 0 {
        0
    } else {
        digits_value(s.drop_last()) * 10 + (s.last() as nat - '0' as nat) as nat
    }
}

pub open spec fn all_digits(s: Seq<char>) -> bool {
    forall|i: int| 0 <= i < s.len() ==> is_digit(#[trigger] s[i])
}

/// The number a text writes in decimal, with an optional plus sign before it,
/// if it does so and the number is at most `max`.
pub open spec fn parsed(s: Seq<char>, max: nat) -> Option<nat> {
    let digits = if s.len() > 0 && s[0] == '+' {
        s.skip(1)
    } else {
        s
    };
    if digits.len() > 0 && all_digits(digits) && digits_value(digits) <= max {
        Some(digits_value(digits))
    } else {
        None
    }
}

proof fn digits_value_grows(s: Seq<char>, n: int)
    requires
        0 <= n <= s.len(),
    ensures
        digits_value(s.take(n)) <= digits_value(s),
    decreases s.len(),
{
    if n == s.len() {
        assert(s.take(n) =~= s);
    } else {
        digits_value_grows(s.drop_last(), n);
        assert(s.drop_last().take(n) =~= s.take(n));
    }
}

/// Reads a decimal number out of the characters from `from` up to `to`, as
/// Rust's integers are parsed: digits, with an optional plus sign.
pub fn parse_number(s: &Vec<char>, from: usize, to: usize, max: u64) -> (r: Option<u64>)
    requires
        from <= to <= s@.len(),
    ensures
        match parsed(s@.subrange(from as int, to as int), max as nat) {
            Some(n) => r == Some(n as u64) && n <= u64::MAX,
            None => r is None,
        },
{
    let ghost whole = s@.subrange(from as int, to as int);
    let mut start: usize = from;
    if start < to && s[start] == '+' {
        start += 1;
    }
    let ghost digits = s@.subrange(start as int, to as int);
    proof {
        assert(whole.skip(start - from) =~= digits);
        assert(whole.skip(0) =~= whole);
    }
    if start == to {
        return None;
    }
    let mut value: u64 = 0;
    let mut i: usize = start;
    while i < to
        invariant
            start <= i <= to <= s@.len(),
            from <= start,
            whole == s@.subrange(from as int, to as int),
            digits == s@.subrange(start as int, to as int),
            forall|k: int| 0 <= k < i - start ==> is_digit(#[trigger] digits[k]),
            value == digits_value(digits.take(i - start)),
            value <= max,
            whole.len() > 0 && whole[0] == '+' ==> digits == whole.skip(1),
            !(whole.len() > 0 && whole[0] == '+') ==> digits == whole,
        decreases to - i,
    {
        let c = s[i];
        if !(c >= '0' && c <= '9') {
            assert(!is_digit(digits[i - start]));
            return None;
        }
        let d: u64 = c as u64 - '0' as u64;
        proof {
            let n = i - start + 1;
            assert(digits.take(n).drop_last() =~= digits.take(n - 1));
            assert(digits.take(n).last() == c);
            digits_value_grows(digits, n);
        }
        if value > (u64::MAX - d) / 10 || value * 10 + d > max {
            assert(digits_value(digits) > max);
            return None;
        }
        value = value * 10 + d;
        i += 1;
    }
    proof {
        assert(digits.take(i - start) =~= digits);
    }
    Some(value)
}

/// A number in decimal is made of digits, and says what it is.
pub proof fn decimal_reads_back(n: nat)
    ensures
        decimal(n).len() > 0,
        all_digits(decimal(n)),
        digits_value(decimal(n)) == n,
    decreases n,
{
    reveal_with_fuel(digits_value, 2);
    if n >= 10 {
        decimal_reads_back(n / 10);
        assert(decimal(n).drop_last() =~= decimal(n / 10));
    }
}

/// Parsing undoes writing in decimal.
pub proof fn decimal_parses(n: nat, max: nat)
    requires
        n <= max,
    ensures
        parsed(decimal(n), max) == Some(n),
{
    decimal_reads_back(n);
    assert(is_digit(decimal(n)[0]));
}

/// Whether `s` starts with `prefix`.
pub open spec fn has_prefix(s: Seq<char>, prefix: Seq<char>) -> bool {
    prefix.len() <= s.len() && s.take(prefix.len() as int) == prefix
}

/// Whether `prefix` stands in `s` at `at`.
pub fn prefix_at(s: &Vec<char>, at: usize, prefix: &Vec<char>) -> (r: bool)
    requires
        at <= s@.len(),
    ensures
        r == has_prefix(s@.skip(at as int), prefix@),
{
    let len: usize = s.len();
    if prefix.len() > len - at {
        return false;
    }
    let mut i: usize = 0;
    while i < prefix.len()
        invariant
            len == s@.len(),
            at <= len,
            i <= prefix@.len() <= len - at,
            forall|k: int| 0 <= k < i ==> s@[at + k] == prefix@[k],
        decreases prefix@.len() - i,
    {
        if s[at + i] != prefix[i] {
            proof {
                let taken = s@.skip(at as int).take(prefix@.len() as int);
                assert(taken[i as int] == s@[at + i]);
            }
            return false;
        }
        i += 1;
    }
    assert(s@.skip(at as int).take(prefix@.len() as int) =~= prefix@);
    true
}

/// Whether `s` starts with `prefix`.
pub fn starts_with(s: &Vec<char>, prefix: &str) -> (r: bool)
    ensures
        r == has_prefix(s@, prefix@),
{
    assert(s@.skip(0) =~= s@);
    prefix_at(s, 0, &chars_of(prefix))
}

/// Whether `needle` occurs somewhere in `s`.
pub open spec fn has_substring(s: Seq<char>, needle: Seq<char>) -> bool {
    exists|at: int| 0 <= at <= s.len() && has_prefix(#[trigger] s.skip(at), needle)
}

/// Whether `needle` occurs somewhere in `s`.
pub fn contains_text(s: &str, needle: &str) -> (r: bool)
    ensures
        r == has_substring(s@, needle@),
{
    let chars = chars_of(s);
    let wanted = chars_of(needle);
    let mut at: usize = 0;
    let len: usize = chars.len();
    loop
        invariant
            at <= len == chars@.len(),
            chars@ == s@,
            wanted@ == needle@,
            forall|k: int| 0 <= k < at ==> !has_prefix(#[trigger] s@.skip(k), needle@),
        decreases len - at,
    {
        if prefix_at(&chars, at, &wanted) {
            return true;
        }
        if at == len {
            return false;
        }
        at += 1;
    }
}

/// Characters with Unicode's `White_Space` property.
pub open spec fn is_white(c: char) -> bool {
    ||| '\u{9}' <= c && c <= '\u{d}'
    ||| c == ' '
    ||| c == '\u{85}'
    ||| c == '\u{a0}'
    ||| c == '\u{1680}'
    ||| '\u{2000}' <= c && c <= '\u{200a}'
    ||| c == '\u{2028}'
    ||| c == '\u{2029}'
    ||| c == '\u{202f}'
    ||| c == '\u{205f}'
    ||| c == '\u{3000}'
}

/// Whether `c` is white space.
pub fn white(c: char) -> (r: bool)
    ensures
        r == is_white(c),
{
    (c >= '\u{9}' && c <= '\u{d}') || c == ' ' || c == '\u{85}' || c == '\u{a0}' || c == '\u{1680}'
        || (c >= '\u{2000}' && c <= '\u{200a}') || c == '\u{2028}' || c == '\u{2029}' || c
        == '\u{202f}' || c == '\u{205f}' || c == '\u{3000}'
}

/// `s` without the white space at its end.
pub open spec fn trimmed_end(s: Seq<char>) -> Seq<char>
    decreases s.len(),
{
    if s.len() > 0 && is_white(s.last()) {
        trimmed_end(s.drop_last())
    } else {
        s
    }
}

/// `s` without the white space at its end.
pub fn trim_end(s: &str) -> (r: String)
    ensures
        r@ == trimmed_end(s@),
{
    let chars = chars_of(s);
    let mut end: usize = chars.len();
    assert(s@.take(end as int) =~= s@);
    while end > 0 && white(chars[end - 1])
        invariant
            end <= chars@.len(),
            chars@ == s@,
            trimmed_end(s@.take(end as int)) == trimmed_end(s@),
        ensures
            end <= chars@.len(),
            trimmed_end(s@) == s@.take(end as int),
        decreases end,
    {
        assert(s@.take(end as int).drop_last() =~= s@.take(end - 1));
        end -= 1;
    }
    assert(s@.take(end as int) =~= chars@.subrange(0, end as int));
    text_of(&chars, 0, end)
}

/// `s` without the white space at its start.
pub open spec fn trimmed_start(s: Seq<char>) -> Seq<char>
    decreases s.len(),
{
    if s.len() > 0 && is_white(s[0]) {
        trimmed_start(s.skip(1))
    } else {
        s
    }
}

/// `s` without the white space around it.
pub fn trim(s: &str) -> (r: String)
    ensures
        r@ == trimmed_start(trimmed_end(s@)),
{
    let tail = trim_end(s);
    let chars = chars_of(tail.as_str());
    let ghost whole = chars@;
    let mut start: usize = 0;
    assert(whole.skip(0) =~= whole);
    while start < chars.len() && white(chars[start])
        invariant
            start <= chars@.len(),
            chars@ == whole,
            trimmed_start(whole.skip(start as int)) == trimmed_start(whole),
        ensures
            start <= chars@.len(),
            trimmed_start(whole) == whole.skip(start as int),
        decreases chars@.len() - start,
    {
        assert(whole.skip(start as int).skip(1) =~= whole.skip(start + 1));
        start += 1;
    }
    let len: usize = chars.len();
    assert(whole.skip(start as int) =~= chars@.subrange(start as int, len as int));
    text_of(&chars, start, len)
}

/// What `format!("{:?}")` makes of a text: quoted, with escapes.
pub uninterp spec fn debug_text(s: Seq<char>) -> Seq<char>;

/// Wraps std's `Debug` format of a text, which depends on the text alone.
#[verifier::external_body]
pub(crate) fn debug_string(s: &str) -> (r: String)
    ensures
        r@ == debug_text(s@),
{
    format!("{s:?}")
}

/// What `str::to_lowercase` makes of a text.
pub uninterp spec fn lower_text(s: Seq<char>) -> Seq<char>;

/// Wraps `str::to_lowercase`, whose result depends on the text alone.
#[verifier::external_body]
pub(crate) fn lower_string(s: &str) -> (r: String)
    ensures
        r@ == lower_text(s@),
{
    s.to_lowercase()
}

} // verus!
