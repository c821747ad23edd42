//! Auth tokens and their hashes.

use crate::attach::ascii_lower;
use crate::text::{chars_of, trim, trimmed_end, trimmed_start};
use sha2::Digest as _;
use vstd::prelude::*;
use vstd::string::*;
use vstd::utf8::*;

verus! {

/// How many random bytes make a token.
pub const TOKEN_BYTES: usize = 32;

/// The SHA-256 digest of a byte string.
pub uninterp spec fn sha256(bytes: Seq<u8>) -> Seq<u8>;

/// Wraps `sha2::Sha256::digest`: a function of the bytes, 32 bytes long.
#[verifier::external_body]
fn sha256_digest(bytes: &[u8]) -> (r: Vec<u8>)
    ensures
        r@ == sha256(bytes@),
        r@.len() == 32,
{
    sha2::Sha256::digest(bytes).to_vec()
}

/// Wraps `getrandom::fill` on a buffer of `len` bytes: the system's random
/// bytes, or the description of why there are none.
#[verifier::external_body]
fn random_bytes(len: usize) -> (r: Result<Vec<u8>, String>)
    ensures
        r matches Ok(bytes) ==> bytes@.len() == len,
{
    let mut raw = vec![0u8; len];
    getrandom::fill(&mut raw).map_err(|e| e.to_string())?;
    Ok(raw)
}

/// A hexadecimal digit, in lower case.
pub open spec fn hex_digit(n: int) -> char {
    "0123456789abcdef"@[n]
}

/// Bytes in lower-case hexadecimal, two digits each.
pub open spec fn hex_text(bytes: Seq<u8>) -> Seq<char> {
    Seq::new(
        2 * bytes.len(),
        |i: int|
            if i % 2 == 0 {
                hex_digit(bytes[i / 2] as int / 16)
            } else {
                hex_digit(bytes[i / 2] as int % 16)
            },
    )
}

fn digit(n: u8) -> (r: char)
    requires
        n < 16,
    ensures
        r == hex_digit(n as int),
{
    let digits = "0123456789abcdef";
    proof {
        reveal_strlit("0123456789abcdef");
    }
    let chars = chars_of(digits);
    chars[n as usize]
}

/// Bytes in lower-case hexadecimal, two digits each.
pub fn hex(bytes: &[u8]) -> (r: String)
    ensures
        r@ == hex_text(bytes@),
{
    let mut out = String::new();
    let mut i: usize = 0;
    assert(out@ =~= hex_text(bytes@).take(0));
    while i < bytes.len()
        invariant
            i <= bytes@.len(),
            out@ == hex_text(bytes@).take(2 * i),
        decreases bytes@.len() - i,
    {
        let b: u8 = bytes[i];
        out.push(digit(b / 16));
        out.push(digit(b % 16));
        proof {
            let all = hex_text(bytes@);
            assert((2 * i) % 2 == 0);
            assert((2 * i) / 2 == i);
            assert((2 * i + 1) % 2 == 1);
            assert((2 * i + 1) / 2 == i);
            assert(all[2 * i] == hex_digit(b as int / 16));
            assert(all[2 * i + 1] == hex_digit(b as int % 16));
            assert(out@ =~= all.take(2 * (i + 1)));
        }
        i += 1;
    }
    assert(hex_text(bytes@).take(2 * i) =~= hex_text(bytes@));
    out
}

/// Whether two byte strings are equal, looked at in full whatever they hold.
pub fn constant_time_eq(a: &[u8], b: &[u8]) -> (r: bool)
    ensures
        r == (a@ == b@),
{
    if a.len() != b.len() {
        return false;
    }
    let mut acc: u8 = 0;
    let mut i: usize = 0;
    while i < a.len()
        invariant
            i <= a@.len() == b@.len(),
            acc == 0 <==> forall|k: int| 0 <= k < i ==> #[trigger] a@[k] == b@[k],
        decreases a@.len() - i,
    {
        let x: u8 = a[i];
        let y: u8 = b[i];
        let next: u8 = acc | (x ^ y);
        assert(next == 0 <==> acc == 0 && x == y) by (bit_vector)
            requires
                next == acc | (x ^ y),
        ;
        acc = next;
        i += 1;
    }
    proof {
        if acc == 0 {
            assert(a@ =~= b@);
        }
    }
    acc == 0
}

/// A text in which ASCII letters are in lower case.
pub open spec fn ascii_lowered(s: Seq<char>) -> Seq<char> {
    s.map_values(|c: char| ascii_lower(c))
}

fn lowered(s: &str) -> (r: String)
    ensures
        r@ == ascii_lowered(s@),
{
    let chars = chars_of(s);
    let mut out = String::new();
    let mut i: usize = 0;
    assert(out@ =~= ascii_lowered(s@).take(0));
    while i < chars.len()
        invariant
            i <= chars@.len(),
            chars@ == s@,
            out@ == ascii_lowered(s@).take(i as int),
        decreases chars@.len() - i,
    {
        out.push(crate::attach::lower(chars[i]));
        i += 1;
        assert(out@ =~= ascii_lowered(s@).take(i as int));
    }
    assert(ascii_lowered(s@).take(i as int) =~= ascii_lowered(s@));
    out
}

/// The hash of a token, as the config stores it.
pub open spec fn token_hash(token: Seq<char>) -> Seq<char> {
    hex_text(sha256(encode_utf8(token)))
}

/// Whether a token is the one a stored hash stands for; blanks around the hash
/// and the case of its letters do not matter.
pub open spec fn is_token(token: Seq<char>, expected: Seq<char>) -> bool {
    token_hash(token) == ascii_lowered(trimmed_start(trimmed_end(expected)))
}

/// The hash of a token, as the config stores it.
pub fn hash_token(token: &str) -> (r: String)
    ensures
        r@ == token_hash(token@),
        r@.len() == 64,
{
    hex(sha256_digest(token.as_bytes()).as_slice())
}

/// Whether a token is the one a stored hash stands for.
pub fn token_matches(token: &str, expected_hex: &str) -> (r: bool)
    ensures
        r == is_token(token@, expected_hex@),
{
    let actual = hash_token(token);
    let expected = lowered(trim(expected_hex).as_str());
    proof {
        crate::text::utf8_injective(actual@, expected@);
    }
    constant_time_eq(actual.as_str().as_bytes(), expected.as_str().as_bytes())
}

/// A fresh token: random bytes in hexadecimal; an error says why there are
/// none. Which bytes come up is up to the system.
pub fn generate_token() -> (r: Result<String, String>)
    ensures
        match r {
            Ok(token) => exists|raw: Seq<u8>|
                raw.len() == TOKEN_BYTES && token@ == #[trigger] hex_text(raw),
            Err(message) => crate::text::has_prefix(
                message@,
                "failed to generate random token: "@,
            ),
        },
{
    match random_bytes(TOKEN_BYTES) {
        Ok(raw) => Ok(hex(raw.as_slice())),
        Err(e) => {
            let mut message = "failed to generate random token: ".to_owned();
            message.append(e.as_str());
            proof {
                let prefix = "failed to generate random token: "@;
                assert(message@.take(prefix.len() as int) =~= prefix);
            }
            Err(message)
        },
    }
}

proof fn hex_digits_differ(a: int, b: int)
    requires
        0 <= a < 16,
        0 <= b < 16,
        hex_digit(a) == hex_digit(b),
    ensures
        a == b,
{
    reveal_strlit("0123456789abcdef");
}

/// Different byte strings are written differently in hexadecimal.
pub proof fn hex_is_injective(a: Seq<u8>, b: Seq<u8>)
    requires
        hex_text(a) == hex_text(b),
    ensures
        a == b,
{
    assert(hex_text(a).len() == 2 * a.len());
    assert(hex_text(b).len() == 2 * b.len());
    assert(a.len() == b.len());
    assert forall|k: int| 0 <= k < a.len() implies a[k] == b[k] by {
        assert((2 * k) % 2 == 0 && (2 * k) / 2 == k);
        assert((2 * k + 1) % 2 == 1 && (2 * k + 1) / 2 == k);
        assert(hex_text(a)[2 * k] == hex_digit(a[k] as int / 16));
        assert(hex_text(b)[2 * k] == hex_digit(b[k] as int / 16));
        assert(hex_text(a)[2 * k + 1] == hex_digit(a[k] as int % 16));
        assert(hex_text(b)[2 * k + 1] == hex_digit(b[k] as int % 16));
        hex_digits_differ(a[k] as int / 16, b[k] as int / 16);
        hex_digits_differ(a[k] as int % 16, b[k] as int % 16);
    }
    assert(a =~= b);
}

proof fn hex_is_plain(bytes: Seq<u8>)
    ensures
        ascii_lowered(hex_text(bytes)) == hex_text(bytes),
        trimmed_start(trimmed_end(hex_text(bytes))) == hex_text(bytes),
{
    reveal_strlit("0123456789abcdef");
    let text = hex_text(bytes);
    assert forall|i: int| 0 <= i < text.len() implies ascii_lower(#[trigger] text[i]) == text[i]
        && !crate::text::is_white(text[i]) by {
        let n = if i % 2 == 0 {
            bytes[i / 2] as int / 16
        } else {
            bytes[i / 2] as int % 16
        };
        assert(text[i] == hex_digit(n));
        assert(0 <= n < 16);
    }
    assert(ascii_lowered(text) =~= text);
}

/// A token is accepted by the hash that was stored for it.
pub proof fn stored_hash_accepts_token(token: Seq<char>)
    ensures
        is_token(token, token_hash(token)),
{
    hex_is_plain(sha256(encode_utf8(token)));
}

/// The value of a hexadecimal digit in lower case.
pub open spec fn nibble(c: char) -> int {
    if c as int >= 97 {
        c as int - 97 + 10
    } else {
        c as int - 48
    }
}

/// Reading a text in hexadecimal, two digits for each byte and the higher
/// first, gives the bytes back.
pub proof fn hex_reads_back(bytes: Seq<u8>, i: int)
    requires
        0 <= i < bytes.len(),
    ensures
        hex_text(bytes).len() == 2 * bytes.len(),
        16 * nibble(hex_text(bytes)[2 * i]) + nibble(hex_text(bytes)[2 * i + 1]) == bytes[i],
{
    let b = bytes[i] as int;
    let text = hex_text(bytes);
    assert((2 * i) / 2 == i && (2 * i) % 2 == 0);
    assert((2 * i + 1) / 2 == i && (2 * i + 1) % 2 == 1);
    assert(text[2 * i] == hex_digit(b / 16));
    assert(text[2 * i + 1] == hex_digit(b % 16));
    nibble_reads_back(b / 16);
    nibble_reads_back(b % 16);
}

proof fn nibble_reads_back(n: int)
    requires
        0 <= n < 16,
    ensures
        nibble(hex_digit(n)) == n,
{
    reveal_strlit("0123456789abcdef");
    let all = "0123456789abcdef"@;
    assert(all[0] == '0' && all[1] == '1' && all[2] == '2' && all[3] == '3' && all[4] == '4'
        && all[5] == '5' && all[6] == '6' && all[7] == '7' && all[8] == '8' && all[9] == '9'
        && all[10] == 'a' && all[11] == 'b' && all[12] == 'c' && all[13] == 'd' && all[14] == 'e'
        && all[15] == 'f');
}

/// A token is accepted for a stored hash exactly if the hash, without the white
/// space around it and in lower case, reads as the digest of the token.
pub proof fn tokens_match_their_digest(token: Seq<char>, expected: Seq<char>)
    ensures
        is_token(token, expected) <==> {
            let digest = sha256(encode_utf8(token));
            let stored = trimmed_start(trimmed_end(expected));
            &&& stored.len() == 2 * digest.len()
            &&& forall|k: int|
                0 <= k < stored.len() ==> #[trigger] hex_text(digest)[k] == (if 65 <= stored[k] as int
                    <= 90 {
                    ((stored[k] as u8 + 32) as u8) as char
                } else {
                    stored[k]
                })
        },
{
    let digest = sha256(encode_utf8(token));
    let stored = trimmed_start(trimmed_end(expected));
    if is_token(token, expected) {
        assert(ascii_lowered(stored).len() == stored.len());
        assert forall|k: int| 0 <= k < stored.len() implies #[trigger] hex_text(digest)[k] == (
        if 65 <= stored[k] as int <= 90 {
            ((stored[k] as u8 + 32) as u8) as char
        } else {
            stored[k]
        }) by {
            assert(ascii_lowered(stored)[k] == ascii_lower(stored[k]));
        }
    }
    if stored.len() == 2 * digest.len() && forall|k: int|
        0 <= k < stored.len() ==> #[trigger] hex_text(digest)[k] == (if 65 <= stored[k] as int
            <= 90 {
            ((stored[k] as u8 + 32) as u8) as char
        } else {
            stored[k]
        }) {
        assert(hex_text(digest) =~= ascii_lowered(stored));
    }
}

} // verus!
