//! The text of the config file: a fresh one, and a token added to an existing
//! one without touching anything else in it.

use crate::json::{json_quoted, quote_json};
use crate::jsonc::{strip_comments, stripped, stripping_keeps_layout, Mode};
use crate::text::{chars_of, push_bytes, push_text, string_of, utf8_after_ascii, utf8_cut_at_ascii};
use vstd::prelude::*;
use vstd::string::*;
use vstd::utf8::*;

verus! {

/// ASCII white space.
pub open spec fn is_blank(b: u8) -> bool {
    b == ' ' as u8 || b == '\t' as u8 || b == '\n' as u8 || b == 0x0c || b == '\r' as u8
}

fn blank(b: u8) -> (r: bool)
    ensures
        r == is_blank(b),
{
    b == ' ' as u8 || b == '\t' as u8 || b == '\n' as u8 || b == 0x0c || b == '\r' as u8
}

/// The index just past the closing quote of a string of which `i` is inside;
/// the length where it is not closed.
pub open spec fn string_end(bytes: Seq<u8>, i: int) -> int
    decreases bytes.len() - i,
{
    if i >= bytes.len() {
        bytes.len() as int
    } else if bytes[i] == '\\' as u8 {
        if i + 1 < bytes.len() {
            string_end(bytes, i + 2)
        } else {
            bytes.len() as int
        }
    } else if bytes[i] == '"' as u8 {
        i + 1
    } else {
        string_end(bytes, i + 1)
    }
}

/// Skip a JSON string starting at `i` (which must point at the opening
/// quote); returns the index just past the closing quote.
pub fn skip_string(bytes: &[u8], i: usize) -> (r: usize)
    requires
        i < bytes@.len(),
    ensures
        r == string_end(bytes@, i + 1),
        i < r <= bytes@.len(),
{
    let len: usize = bytes.len();
    let mut at: usize = i + 1;
    while at < len
        invariant
            i < at <= len == bytes@.len(),
            string_end(bytes@, at as int) == string_end(bytes@, i + 1),
        decreases len - at,
    {
        let b: u8 = bytes[at];
        if b == '\\' as u8 {
            if len - at < 2 {
                return len;
            }
            at += 2;
        } else if b == '"' as u8 {
            return at + 1;
        } else {
            at += 1;
        }
    }
    len
}

/// The first index from `i` on that holds no white space; the length where
/// there is none.
pub open spec fn past_blanks(bytes: Seq<u8>, i: int) -> int
    decreases bytes.len() - i,
{
    if i >= bytes.len() {
        bytes.len() as int
    } else if is_blank(bytes[i]) {
        past_blanks(bytes, i + 1)
    } else {
        i
    }
}

fn skip_blanks(bytes: &[u8], i: usize) -> (r: usize)
    requires
        i <= bytes@.len(),
    ensures
        r == past_blanks(bytes@, i as int),
        i <= r <= bytes@.len(),
{
    let mut at: usize = i;
    while at < bytes.len() && blank(bytes[at])
        invariant
            i <= at <= bytes@.len(),
            past_blanks(bytes@, at as int) == past_blanks(bytes@, i as int),
        decreases bytes@.len() - at,
    {
        at += 1;
    }
    at
}

pub open spec fn opens(b: u8) -> bool {
    b == '{' as u8 || b == '[' as u8
}

pub open spec fn closes(b: u8) -> bool {
    b == '}' as u8 || b == ']' as u8
}

/// The key of the token list, with its quotes.
pub open spec fn tokens_key() -> Seq<u8> {
    encode_utf8("\"auth_tokens\""@)
}

/// What follows the key `auth_tokens` and its colon, at depth one of the
/// top-level object, searched from `i` on at the given depth.
pub open spec fn after_key(bytes: Seq<u8>, i: int, depth: int) -> Option<int>
    decreases bytes.len() - i,
{
    if i >= bytes.len() {
        None
    } else if bytes[i] == '"' as u8 {
        let end = string_end(bytes, i + 1);
        let colon = past_blanks(bytes, end);
        if depth == 1 && i < end <= bytes.len() && bytes.subrange(i, end) == tokens_key() && colon
            < bytes.len() && bytes[colon] == ':' as u8 {
            Some(colon + 1)
        } else if end <= i || end > bytes.len() {
            None
        } else {
            after_key(bytes, end, depth)
        }
    } else if opens(bytes[i]) {
        after_key(bytes, i + 1, depth + 1)
    } else if closes(bytes[i]) {
        after_key(bytes, i + 1, depth - 1)
    } else {
        after_key(bytes, i + 1, depth)
    }
}

/// Finds what follows the key `auth_tokens` and its colon, at depth one of the
/// top-level object.
fn find_key(bytes: &[u8]) -> (r: Option<usize>)
    ensures
        match after_key(bytes@, 0, 0) {
            Some(at) => r matches Some(k) && k == at && k <= bytes@.len(),
            None => r is None,
        },
{
    let len: usize = bytes.len();
    let key = "\"auth_tokens\"";
    let mut i: usize = 0;
    let mut depth: i128 = 0;
    while i < len
        invariant
            i <= len == bytes@.len(),
            key@ == "\"auth_tokens\""@,
            -(i as int) <= depth <= i,
            after_key(bytes@, i as int, depth as int) == after_key(bytes@, 0, 0),
        decreases len - i,
    {
        let b: u8 = bytes[i];
        if b == '"' as u8 {
            let end: usize = skip_string(bytes, i);
            if depth == 1 {
                let found = vstd::slice::slice_subrange(bytes, i, end);
                if crate::text::bytes_eq(found, key.as_bytes()) {
                    let colon: usize = skip_blanks(bytes, end);
                    if colon < len && bytes[colon] == ':' as u8 {
                        return Some(colon + 1);
                    }
                }
            }
            i = end;
        } else if b == '{' as u8 || b == '[' as u8 {
            depth = depth + 1;
            i += 1;
        } else if b == '}' as u8 || b == ']' as u8 {
            depth = depth - 1;
            i += 1;
        } else {
            i += 1;
        }
    }
    None
}

/// Where the bracket that is open `depth` levels up is closed, searched from
/// `i` on.
pub open spec fn close_of(bytes: Seq<u8>, i: int, depth: int) -> Option<int>
    decreases bytes.len() - i,
{
    if i >= bytes.len() {
        None
    } else if bytes[i] == '"' as u8 {
        let end = string_end(bytes, i + 1);
        if end <= i || end > bytes.len() {
            None
        } else {
            close_of(bytes, end, depth)
        }
    } else if opens(bytes[i]) {
        close_of(bytes, i + 1, depth + 1)
    } else if closes(bytes[i]) {
        if depth == 1 {
            Some(i)
        } else {
            close_of(bytes, i + 1, depth - 1)
        }
    } else {
        close_of(bytes, i + 1, depth)
    }
}

/// Finds the bracket that closes the one at `open`.
fn find_close(bytes: &[u8], open: usize) -> (r: Option<usize>)
    requires
        open < bytes@.len(),
        bytes@[open as int] == '[' as u8,
    ensures
        match close_of(bytes@, open as int, 0) {
            Some(at) => r matches Some(k) && k == at && open < k < bytes@.len() && closes(
                bytes@[k as int],
            ),
            None => r is None,
        },
{
    let len: usize = bytes.len();
    let mut i: usize = open;
    let mut depth: i128 = 0;
    while i < len
        invariant
            open <= i <= len == bytes@.len(),
            bytes@[open as int] == '[' as u8,
            -(i as int) <= depth <= i - open,
            i == open ==> depth == 0,
            close_of(bytes@, i as int, depth as int) == close_of(bytes@, open as int, 0),
        decreases len - i,
    {
        let b: u8 = bytes[i];
        if b == '"' as u8 {
            i = skip_string(bytes, i);
        } else if b == '{' as u8 || b == '[' as u8 {
            depth = depth + 1;
            i += 1;
        } else if b == '}' as u8 || b == ']' as u8 {
            if depth == 1 {
                return Some(i);
            }
            depth = depth - 1;
            i += 1;
        } else {
            i += 1;
        }
    }
    None
}

/// The last index below `end`, not below `from`, that holds no white space.
pub open spec fn last_content(bytes: Seq<u8>, from: int, end: int) -> Option<int>
    decreases end - from,
{
    if end <= from {
        None
    } else if is_blank(bytes[end - 1]) {
        last_content(bytes, from, end - 1)
    } else {
        Some(end - 1)
    }
}

fn find_last_content(bytes: &[u8], from: usize, end: usize) -> (r: Option<usize>)
    requires
        from <= end <= bytes@.len(),
    ensures
        match last_content(bytes@, from as int, end as int) {
            Some(at) => r matches Some(k) && k == at && from <= k < end && !is_blank(
                bytes@[k as int],
            ),
            None => r is None,
        },
{
    let mut at: usize = end;
    while at > from && blank(bytes[at - 1])
        invariant
            from <= at <= end <= bytes@.len(),
            last_content(bytes@, from as int, at as int) == last_content(
                bytes@,
                from as int,
                end as int,
            ),
        decreases at - from,
    {
        at -= 1;
    }
    if at > from {
        Some(at - 1)
    } else {
        None
    }
}

/// Where a token goes into a config text, and whether it is the first: right
/// after the last one, or after the bracket that opens an empty list. `None`
/// where the text has no token list; `Err` where the list is not closed.
pub open spec fn splice_point(text: Seq<u8>) -> Result<Option<(int, bool)>, ()> {
    let bytes = stripped(text, Mode::Code);
    match after_key(bytes, 0, 0) {
        None => Ok(None),
        Some(at) => {
            let open = past_blanks(bytes, at);
            if open >= bytes.len() || bytes[open] != '[' as u8 {
                Ok(None)
            } else {
                match close_of(bytes, open, 0) {
                    None => Err(()),
                    Some(close) => match last_content(bytes, open + 1, close) {
                        None => Ok(Some((open + 1, true))),
                        Some(last) => if bytes[last] < 0x80 {
                            Ok(Some((last + 1, false)))
                        } else {
                            Ok(None)
                        },
                    },
                }
            }
        },
    }
}

/// `entry` with every line after its first indented.
pub open spec fn indented(entry: Seq<char>) -> Seq<char>
    decreases entry.len(),
{
    if entry.len() == 0 {
        Seq::empty()
    } else if entry.last() == '\n' {
        indented(entry.drop_last()) + "\n    "@
    } else {
        indented(entry.drop_last()).push(entry.last())
    }
}

/// What is put into a config text for a token.
pub open spec fn insertion(entry: Seq<char>, first: bool) -> Seq<char> {
    if first {
        "\n    "@ + indented(entry) + "\n  "@
    } else {
        ",\n    "@ + indented(entry)
    }
}

fn indent(entry: &str) -> (r: String)
    ensures
        r@ == indented(entry@),
{
    let chars = chars_of(entry);
    let mut out = String::new();
    let mut i: usize = 0;
    while i < chars.len()
        invariant
            i <= chars@.len(),
            chars@ == entry@,
            out@ == indented(entry@.take(i as int)),
        decreases chars@.len() - i,
    {
        proof {
            assert(entry@.take(i + 1).drop_last() =~= entry@.take(i as int));
        }
        if chars[i] == '\n' {
            out.append("\n    ");
        } else {
            out.push(chars[i]);
        }
        i += 1;
    }
    assert(entry@.take(i as int) =~= entry@);
    out
}

proof fn cut_after_ascii(text: Seq<u8>, at: int)
    requires
        valid_utf8(text),
        0 < at <= text.len(),
        text[at - 1] < 0x80,
    ensures
        valid_utf8(text.take(at)),
        valid_utf8(text.skip(at)),
{
    utf8_cut_at_ascii(text, at - 1);
    let tail = text.skip(at - 1);
    assert(tail[0] == text[at - 1]);
    utf8_after_ascii(tail);
    assert(tail.skip(1) =~= text.skip(at));
    let one = seq![text[at - 1]];
    crate::text::ascii_is_utf8(one);
    valid_utf8_concat(text.take(at - 1), one);
    assert(text.take(at - 1) + one =~= text.take(at));
}

/// Insert a token into the top-level `auth_tokens` array of the config text by
/// splicing, keeping everything else, comments included, byte for byte.
/// `entry` is the token's own JSON. Returns None when the text has no such
/// array (a legacy config); the caller falls back to a full rewrite. `text`
/// must already have parsed successfully as a config.
pub fn insert_token_text(text: &str, entry: &str) -> (r: Result<Option<String>, String>)
    ensures
        match splice_point(encode_utf8(text@)) {
            Ok(None) => r matches Ok(o) && o is None,
            Ok(Some((at, first))) => r matches Ok(Some(out)) && encode_utf8(out@) == encode_utf8(
                text@,
            ).take(at) + encode_utf8(insertion(entry@, first)) + encode_utf8(text@).skip(at),
            Err(_) => r matches Err(m) && m@ == "unterminated auth_tokens array"@,
        },
{
    // Comment bytes become spaces at the same offsets, so indices found in
    // the stripped text are valid in the commented one.
    let clean = strip_comments(text);
    let bytes = clean.as_str().as_bytes();
    let source = text.as_bytes();
    let ghost whole = source@;
    proof {
        stripping_keeps_layout(whole, Mode::Code);
        encode_utf8_valid_utf8(text@);
    }
    let after: usize = match find_key(bytes) {
        None => {
            return Ok(None);
        },
        Some(at) => at,
    };
    let open: usize = skip_blanks(bytes, after);
    if open >= bytes.len() || bytes[open] != '[' as u8 {
        return Ok(None);
    }
    let close: usize = match find_close(bytes, open) {
        None => {
            return Err("unterminated auth_tokens array".to_owned());
        },
        Some(at) => at,
    };
    let (at, first) = match find_last_content(bytes, open + 1, close) {
        // Empty array: the entry becomes its only element.
        None => (open + 1, true),
        // Splice right after the last element (comments between it and the
        // bracket stay where they are).
        Some(last) => {
            if bytes[last] >= 0x80 {
                return Ok(None);
            }
            (last + 1, false)
        },
    };
    proof {
        assert(bytes@[at - 1] < 0x80);
        assert(stripped(whole, Mode::Code)[at - 1] == bytes@[at - 1]);
        assert(whole[at - 1] == bytes@[at - 1]);
        cut_after_ascii(whole, at as int);
    }
    let mut insert = if first {
        "\n    ".to_owned()
    } else {
        ",\n    ".to_owned()
    };
    insert.append(indent(entry).as_str());
    if first {
        insert.append("\n  ");
    }
    let mut out: Vec<u8> = Vec::new();
    push_bytes(&mut out, vstd::slice::slice_subrange(source, 0, at));
    push_text(&mut out, insert.as_str());
    push_bytes(&mut out, vstd::slice::slice_subrange(source, at, source.len()));
    proof {
        assert(insert@ =~= insertion(entry@, first));
        assert(out@ =~= whole.take(at as int) + encode_utf8(insert@) + whole.skip(at as int));
        encode_utf8_valid_utf8(insert@);
        valid_utf8_concat(whole.take(at as int), encode_utf8(insert@));
        valid_utf8_concat(
            whole.take(at as int) + encode_utf8(insert@),
            whole.skip(at as int),
        );
    }
    Ok(Some(string_of(out)))
}

/// Adding a token keeps every byte of the config text, in order: without what
/// was put in, the text is what it was.
pub proof fn adding_keeps_the_text(text: Seq<u8>, insert: Seq<u8>, at: int)
    requires
        0 <= at <= text.len(),
    ensures
        ({
            let out = text.take(at) + insert + text.skip(at);
            &&& out.take(at) + out.skip(at + insert.len()) == text
            &&& out.subrange(at, at + insert.len()) == insert
        }),
{
    let out = text.take(at) + insert + text.skip(at);
    assert(out.take(at) + out.skip(at + insert.len()) =~= text);
    assert(out.subrange(at, at + insert.len()) =~= insert);
}

/// A fresh config: localhost defaults, a writable token with this hash that may
/// launch everything, and a launch preset for the login shell. Comments may be
/// added by hand; adding a token keeps them.
pub open spec fn template_text(hash: Seq<char>, shell: Seq<char>) -> Seq<char> {
    "{\n  \"listen_addr\": \"127.0.0.1\",\n  \"port\": 8737,\n  \"auth_tokens\": [\n    {\"name\": \"glasses\", \"token_hash\": \""@
        + hash
        + "\",\n     \"readonly\": false, \"launch\": true}\n  ],\n  \"size_precedence\": [\"glasses\", \"host\"],\n  \"launch\": {\n    \"shell\": {\"argv\": ["@
        + json_quoted(shell) + ", \"-l\"], \"allow_cwd\": true}\n  }\n}\n"@
}

/// A fresh config for a token with this hash and this login shell.
pub fn config_template(hash: &str, shell: &str) -> (r: String)
    ensures
        r@ == template_text(hash@, shell@),
{
    let mut out =
        "{\n  \"listen_addr\": \"127.0.0.1\",\n  \"port\": 8737,\n  \"auth_tokens\": [\n    {\"name\": \"glasses\", \"token_hash\": \"".to_owned();
    out.append(hash);
    out.append(
        "\",\n     \"readonly\": false, \"launch\": true}\n  ],\n  \"size_precedence\": [\"glasses\", \"host\"],\n  \"launch\": {\n    \"shell\": {\"argv\": [",
    );
    out.append(quote_json(shell).as_str());
    out.append(", \"-l\"], \"allow_cwd\": true}\n  }\n}\n");
    out
}

/// An added token stands on lines of its own, four spaces in, with a comma
/// before it unless it is the first; its own lines are indented by as much.
pub proof fn added_tokens_are_indented(entry: Seq<char>)
    ensures
        indented(entry) == Seq::new(
            entry.len(),
            |i: int|
                if entry[i] == '\n' {
                    "\n    "@
                } else {
                    seq![entry[i]]
                },
        ).flatten(),
        insertion(entry, true) =~= "\n    "@ + indented(entry) + "\n  "@,
        insertion(entry, false) =~= ","@ + "\n    "@ + indented(entry),
    decreases entry.len(),
{
    reveal_strlit(",\n    ");
    reveal_strlit("\n    ");
    reveal_strlit(",");
    assert(",\n    "@ =~= ","@ + "\n    "@);
    let pieces = Seq::new(
        entry.len(),
        |i: int|
            if entry[i] == '\n' {
                "\n    "@
            } else {
                seq![entry[i]]
            },
    );
    pieces.lemma_flatten_and_flatten_alt_are_equivalent();
    if entry.len() > 0 {
        let fore = entry.drop_last();
        added_tokens_are_indented(fore);
        let less = Seq::new(
            fore.len(),
            |i: int|
                if fore[i] == '\n' {
                    "\n    "@
                } else {
                    seq![fore[i]]
                },
        );
        less.lemma_flatten_and_flatten_alt_are_equivalent();
        assert(pieces.drop_last() =~= less);
        assert(indented(entry) =~= less.flatten_alt() + pieces.last());
    }
}

} // verus!
