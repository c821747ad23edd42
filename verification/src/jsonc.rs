//! JSON-with-comments support for config files: `//` line comments and
//! `/* */` block comments are erased before the text reaches a JSON parser.

use crate::text::{ascii_is_utf8, string_of, utf8_after_ascii, utf8_cut_at_ascii};
use vstd::prelude::*;
use vstd::string::*;
use vstd::utf8::*;

verus! {

/// What the text at some point is part of.
#[derive(Clone, Copy, PartialEq, Eq, Structural)]
pub enum Mode {
    /// JSON outside strings.
    Code,
    /// A string.
    Text,
    /// A line comment.
    Line,
    /// A block comment.
    Block,
}

/// `bytes`, which are the rest of a text that is in `mode`, with every comment
/// byte replaced by a space, except for newlines.
pub open spec fn stripped(bytes: Seq<u8>, mode: Mode) -> Seq<u8>
    decreases
            bytes.len(),
            if mode == Mode::Line {
                1int
            } else {
                0int
            },
{
    if bytes.len() == 0 {
        Seq::empty()
    } else {
        let b = bytes[0];
        let second: int = if bytes.len() > 1 {
            bytes[1] as int
        } else {
            -1
        };
        match mode {
            Mode::Text => if b == '\\' as u8 && bytes.len() > 1 {
                seq![b, bytes[1]] + stripped(bytes.skip(2), Mode::Text)
            } else if b == '"' as u8 {
                seq![b] + stripped(bytes.skip(1), Mode::Code)
            } else {
                seq![b] + stripped(bytes.skip(1), Mode::Text)
            },
            Mode::Line => if b == '\n' as u8 {
                stripped(bytes, Mode::Code)
            } else {
                seq![' ' as u8] + stripped(bytes.skip(1), Mode::Line)
            },
            Mode::Block => if b == '*' as u8 && second == '/' as u8 {
                seq![' ' as u8, ' ' as u8] + stripped(bytes.skip(2), Mode::Code)
            } else {
                seq![blank(b)] + stripped(bytes.skip(1), Mode::Block)
            },
            Mode::Code => if b == '/' as u8 && second == '/' as u8 {
                seq![' ' as u8] + stripped(bytes.skip(1), Mode::Line)
            } else if b == '/' as u8 && second == '*' as u8 {
                seq![' ' as u8, ' ' as u8] + stripped(bytes.skip(2), Mode::Block)
            } else if b == '"' as u8 {
                seq![b] + stripped(bytes.skip(1), Mode::Text)
            } else {
                seq![b] + stripped(bytes.skip(1), Mode::Code)
            },
        }
    }
}

/// What a byte of a block comment becomes.
pub open spec fn blank(b: u8) -> u8 {
    if b == '\n' as u8 {
        b
    } else {
        ' ' as u8
    }
}

/// Replace `//` and `/* */` comments (outside strings) with spaces.
///
/// Every comment byte becomes one space and newlines inside block comments
/// are kept, so the output has exactly the same length and line/column
/// layout as the input: a parser's error positions still point at the right
/// place in the commented file, and byte indices found in the stripped text
/// are valid in the commented one (which `--add-token`'s comment-preserving
/// insertion relies on). String contents, including `\"` escapes and
/// multi-byte characters, pass through untouched. An unterminated block
/// comment is stripped to end of input (the parser then reports the
/// truncation).
pub fn strip_comments(input: &str) -> (r: String)
    ensures
        encode_utf8(r@) == stripped(encode_utf8(input@), Mode::Code),
{
    let bytes = input.as_bytes();
    let mut out: Vec<u8> = Vec::new();
    let mut i: usize = 0;
    let mut mode: Mode = Mode::Code;
    let ghost whole = stripped(bytes@, Mode::Code);
    proof {
        assert(bytes@.skip(0) =~= bytes@);
        assert(out@ + whole =~= whole);
    }
    while i < bytes.len()
        invariant
            i <= bytes@.len(),
            whole == stripped(bytes@, Mode::Code),
            out@ + stripped(bytes@.skip(i as int), mode) == whole,
        decreases
                bytes@.len() - i,
                if mode == Mode::Line {
                    1int
                } else {
                    0int
                },
    {
        let b: u8 = bytes[i];
        let more: bool = i + 1 < bytes.len();
        let ghost rest = bytes@.skip(i as int);
        proof {
            assert(rest.skip(1) =~= bytes@.skip(i + 1));
            if more {
                assert(rest.skip(2) =~= bytes@.skip(i + 2));
            }
        }
        match mode {
            Mode::Text => {
                out.push(b);
                i += 1;
                if b == '\\' as u8 && more {
                    out.push(bytes[i]);
                    i += 1;
                } else if b == '"' as u8 {
                    mode = Mode::Code;
                }
            },
            Mode::Line => {
                if b == '\n' as u8 {
                    mode = Mode::Code;
                } else {
                    out.push(' ' as u8);
                    i += 1;
                }
            },
            Mode::Block => {
                if b == '*' as u8 && more && bytes[i + 1] == '/' as u8 {
                    out.push(' ' as u8);
                    out.push(' ' as u8);
                    i += 2;
                    mode = Mode::Code;
                } else {
                    out.push(
                        if b == '\n' as u8 {
                            '\n' as u8
                        } else {
                            ' ' as u8
                        },
                    );
                    i += 1;
                }
            },
            Mode::Code => {
                if b == '/' as u8 && more && bytes[i + 1] == '/' as u8 {
                    out.push(' ' as u8);
                    i += 1;
                    mode = Mode::Line;
                } else if b == '/' as u8 && more && bytes[i + 1] == '*' as u8 {
                    out.push(' ' as u8);
                    out.push(' ' as u8);
                    i += 2;
                    mode = Mode::Block;
                } else {
                    if b == '"' as u8 {
                        mode = Mode::Text;
                    }
                    out.push(b);
                    i += 1;
                }
            },
        }
        assert(out@ + stripped(bytes@.skip(i as int), mode) =~= whole);
    }
    proof {
        assert(bytes@.skip(i as int) =~= Seq::<u8>::empty());
        assert(out@ =~= whole);
        encode_utf8_valid_utf8(input@);
        stripped_is_utf8(bytes@, Mode::Code, bytes@, 0);
    }
    string_of(out)
}

/// Outside comments, whole characters are copied; so the bytes of a character
/// after its first are copied whatever the mode.
proof fn copies_continuation(s: Seq<u8>, mode: Mode, n: int)
    requires
        mode == Mode::Code || mode == Mode::Text,
        0 <= n <= s.len(),
        forall|i: int| 0 <= i < n ==> s[i] >= 0x80,
    ensures
        stripped(s, mode) == s.take(n) + stripped(s.skip(n), mode),
    decreases n,
{
    if n == 0 {
        assert(s.skip(0) =~= s);
        assert(stripped(s, mode) =~= s.take(0) + stripped(s, mode));
    } else {
        copies_continuation(s.skip(1), mode, n - 1);
        assert(s.skip(1).skip(n - 1) =~= s.skip(n));
        assert(seq![s[0]] + s.skip(1).take(n - 1) =~= s.take(n));
        assert(stripped(s, mode) =~= s.take(n) + stripped(s.skip(n), mode));
    }
}

/// Stripping keeps UTF-8 valid: in code and strings the rest of the text is
/// valid UTF-8 itself; in a comment it is some suffix of a valid text.
proof fn stripped_is_utf8(s: Seq<u8>, mode: Mode, text: Seq<u8>, at: int)
    requires
        valid_utf8(text),
        0 <= at <= text.len(),
        s == text.skip(at),
        mode == Mode::Code || mode == Mode::Text ==> valid_utf8(s),
    ensures
        valid_utf8(stripped(s, mode)),
    decreases
            s.len(),
            if mode == Mode::Line {
                2int
            } else {
                1int
            },
{
    if s.len() == 0 {
        return ;
    }
    let b = s[0];
    if mode == Mode::Line || mode == Mode::Block {
        assert(b == text[at]);
        assert(s.skip(1) =~= text.skip(at + 1));
        if mode == Mode::Line {
            if b == '\n' as u8 {
                utf8_cut_at_ascii(text, at);
                stripped_is_utf8(s, Mode::Code, text, at);
            } else {
                stripped_is_utf8(s.skip(1), Mode::Line, text, at + 1);
                let head = seq![' ' as u8];
                ascii_is_utf8(head);
                valid_utf8_concat(head, stripped(s.skip(1), Mode::Line));
            }
        } else if b == '*' as u8 && s.len() > 1 && s[1] == '/' as u8 {
            utf8_cut_at_ascii(text, at);
            utf8_after_ascii(s);
            utf8_after_ascii(s.skip(1));
            assert(s.skip(1).skip(1) =~= s.skip(2));
            assert(s.skip(2) =~= text.skip(at + 2));
            stripped_is_utf8(s.skip(2), Mode::Code, text, at + 2);
            let head = seq![' ' as u8, ' ' as u8];
            ascii_is_utf8(head);
            valid_utf8_concat(head, stripped(s.skip(2), Mode::Code));
        } else {
            stripped_is_utf8(s.skip(1), Mode::Block, text, at + 1);
            let head = seq![blank(b)];
            ascii_is_utf8(head);
            valid_utf8_concat(head, stripped(s.skip(1), Mode::Block));
        }
    } else if b >= 0x80 {
        copy_scalar(s, mode, text, at);
    } else {
        utf8_after_ascii(s);
        assert(s.skip(1) =~= text.skip(at + 1));
        let head = seq![b];
        ascii_is_utf8(head);
        if mode == Mode::Text {
            if b == '\\' as u8 && s.len() > 1 {
                if s[1] >= 0x80 {
                    copies_continuation(s.skip(1), Mode::Text, 1);
                    assert(s.skip(1).skip(1) =~= s.skip(2));
                    assert(seq![b] + s.skip(1).take(1) =~= seq![b, s[1]]);
                    assert(stripped(s, mode) =~= head + stripped(s.skip(1), Mode::Text));
                    stripped_is_utf8(s.skip(1), Mode::Text, text, at + 1);
                    valid_utf8_concat(head, stripped(s.skip(1), Mode::Text));
                } else {
                    utf8_after_ascii(s.skip(1));
                    assert(s.skip(1).skip(1) =~= s.skip(2));
                    assert(s.skip(2) =~= text.skip(at + 2));
                    stripped_is_utf8(s.skip(2), Mode::Text, text, at + 2);
                    let two = seq![b, s[1]];
                    ascii_is_utf8(two);
                    valid_utf8_concat(two, stripped(s.skip(2), Mode::Text));
                }
            } else if b == '"' as u8 {
                stripped_is_utf8(s.skip(1), Mode::Code, text, at + 1);
                valid_utf8_concat(head, stripped(s.skip(1), Mode::Code));
            } else {
                stripped_is_utf8(s.skip(1), Mode::Text, text, at + 1);
                valid_utf8_concat(head, stripped(s.skip(1), Mode::Text));
            }
        } else if b == '/' as u8 && s.len() > 1 && s[1] == '/' as u8 {
            stripped_is_utf8(s.skip(1), Mode::Line, text, at + 1);
            let gap = seq![' ' as u8];
            ascii_is_utf8(gap);
            valid_utf8_concat(gap, stripped(s.skip(1), Mode::Line));
        } else if b == '/' as u8 && s.len() > 1 && s[1] == '*' as u8 {
            assert(s.skip(2) =~= text.skip(at + 2));
            stripped_is_utf8(s.skip(2), Mode::Block, text, at + 2);
            let gap = seq![' ' as u8, ' ' as u8];
            ascii_is_utf8(gap);
            valid_utf8_concat(gap, stripped(s.skip(2), Mode::Block));
        } else if b == '"' as u8 {
            stripped_is_utf8(s.skip(1), Mode::Text, text, at + 1);
            valid_utf8_concat(head, stripped(s.skip(1), Mode::Text));
        } else {
            stripped_is_utf8(s.skip(1), Mode::Code, text, at + 1);
            valid_utf8_concat(head, stripped(s.skip(1), Mode::Code));
        }
    }
}

/// The case of `stripped_is_utf8` in which a character of several bytes comes
/// next.
proof fn copy_scalar(s: Seq<u8>, mode: Mode, text: Seq<u8>, at: int)
    requires
        valid_utf8(text),
        0 <= at <= text.len(),
        s == text.skip(at),
        mode == Mode::Code || mode == Mode::Text,
        valid_utf8(s),
        s.len() > 0,
        s[0] >= 0x80,
    ensures
        valid_utf8(stripped(s, mode)),
    decreases s.len(), 0int,
{
    let n = length_of_first_scalar(s);
    assert(2 <= n <= 4 && n <= s.len());
    assert(forall|i: int| 0 <= i < n ==> s[i] >= 0x80);
    copies_continuation(s, mode, n);
    assert(pop_first_scalar(s) =~= s.skip(n));
    assert(s.skip(n) =~= text.skip(at + n));
    stripped_is_utf8(s.skip(n), mode, text, at + n);
    let head = s.take(n);
    assert(valid_utf8(head)) by {
        reveal_with_fuel(valid_utf8, 2);
        assert(pop_first_scalar(head) =~= Seq::<u8>::empty());
    }
    valid_utf8_concat(head, stripped(s.skip(n), mode));
}

/// Stripping keeps every byte's place: the result is as long as the text, a
/// newline stands exactly where one stood, and every byte is the text's own
/// or a space.
pub proof fn stripping_keeps_layout(s: Seq<u8>, mode: Mode)
    ensures
        stripped(s, mode).len() == s.len(),
        forall|i: int|
            0 <= i < s.len() ==> ((#[trigger] stripped(s, mode)[i] == '\n' as u8) <==> (s[i]
                == '\n' as u8)),
        forall|i: int|
            0 <= i < s.len() ==> #[trigger] stripped(s, mode)[i] == s[i] || stripped(s, mode)[i]
                == ' ' as u8,
    decreases
            s.len(),
            if mode == Mode::Line {
                1int
            } else {
                0int
            },
{
    if s.len() > 0 {
        let b = s[0];
        let more = s.len() > 1;
        match mode {
            Mode::Text => {
                if b == '\\' as u8 && more {
                    stripping_keeps_layout(s.skip(2), Mode::Text);
                } else if b == '"' as u8 {
                    stripping_keeps_layout(s.skip(1), Mode::Code);
                } else {
                    stripping_keeps_layout(s.skip(1), Mode::Text);
                }
            },
            Mode::Line => {
                if b == '\n' as u8 {
                    stripping_keeps_layout(s, Mode::Code);
                } else {
                    stripping_keeps_layout(s.skip(1), Mode::Line);
                }
            },
            Mode::Block => {
                if b == '*' as u8 && more && s[1] == '/' as u8 {
                    stripping_keeps_layout(s.skip(2), Mode::Code);
                } else {
                    stripping_keeps_layout(s.skip(1), Mode::Block);
                }
            },
            Mode::Code => {
                if b == '/' as u8 && more && s[1] == '/' as u8 {
                    stripping_keeps_layout(s.skip(1), Mode::Line);
                } else if b == '/' as u8 && more && s[1] == '*' as u8 {
                    stripping_keeps_layout(s.skip(2), Mode::Block);
                } else if b == '"' as u8 {
                    stripping_keeps_layout(s.skip(1), Mode::Text);
                } else {
                    stripping_keeps_layout(s.skip(1), Mode::Code);
                }
            },
        }
        assert forall|i: int| 0 <= i < s.len() implies ((#[trigger] stripped(s, mode)[i]
            == '\n' as u8) <==> (s[i] == '\n' as u8)) by {
            if i >= 2 {
                assert(s.skip(2)[i - 2] == s[i]);
            }
            if i >= 1 {
                assert(s.skip(1)[i - 1] == s[i]);
            }
        }
        assert forall|i: int| 0 <= i < s.len() implies #[trigger] stripped(s, mode)[i] == s[i]
            || stripped(s, mode)[i] == ' ' as u8 by {
            if i >= 2 {
                assert(s.skip(2)[i - 2] == s[i]);
            }
            if i >= 1 {
                assert(s.skip(1)[i - 1] == s[i]);
            }
        }
    }
}

/// The mode a text is in, after stripping, where it was in `mode` before:
/// comments have become code.
pub open spec fn cleared(mode: Mode) -> Mode {
    if mode == Mode::Text {
        Mode::Text
    } else {
        Mode::Code
    }
}

/// Stripping a stripped text changes nothing: no comment is left in it.
pub proof fn stripping_is_idempotent(s: Seq<u8>, mode: Mode)
    ensures
        stripped(stripped(s, mode), cleared(mode)) == stripped(s, mode),
    decreases
            s.len(),
            if mode == Mode::Line {
                1int
            } else {
                0int
            },
{
    if s.len() > 0 {
        let b = s[0];
        let more = s.len() > 1;
        let out = stripped(s, mode);
        match mode {
            Mode::Text => {
                if b == '\\' as u8 && more {
                    let rest = stripped(s.skip(2), Mode::Text);
                    stripping_is_idempotent(s.skip(2), Mode::Text);
                    assert(out.skip(2) =~= rest);
                    assert(stripped(out, Mode::Text) =~= out);
                } else {
                    let next = if b == '"' as u8 {
                        Mode::Code
                    } else {
                        Mode::Text
                    };
                    stripping_is_idempotent(s.skip(1), next);
                    stripping_keeps_layout(s.skip(1), next);
                    assert(out.skip(1) =~= stripped(s.skip(1), next));
                    assert(stripped(out, Mode::Text) =~= out);
                }
            },
            Mode::Line => {
                if b == '\n' as u8 {
                    stripping_is_idempotent(s, Mode::Code);
                } else {
                    stripping_is_idempotent(s.skip(1), Mode::Line);
                    assert(out.skip(1) =~= stripped(s.skip(1), Mode::Line));
                    assert(stripped(out, Mode::Code) =~= out);
                }
            },
            Mode::Block => {
                if b == '*' as u8 && more && s[1] == '/' as u8 {
                    stripping_is_idempotent(s.skip(2), Mode::Code);
                    two_blanks(stripped(s.skip(2), Mode::Code));
                } else {
                    stripping_is_idempotent(s.skip(1), Mode::Block);
                    assert(out.skip(1) =~= stripped(s.skip(1), Mode::Block));
                    assert(stripped(out, Mode::Code) =~= out);
                }
            },
            Mode::Code => {
                if b == '/' as u8 && more && s[1] == '/' as u8 {
                    stripping_is_idempotent(s.skip(1), Mode::Line);
                    assert(out.skip(1) =~= stripped(s.skip(1), Mode::Line));
                    assert(stripped(out, Mode::Code) =~= out);
                } else if b == '/' as u8 && more && s[1] == '*' as u8 {
                    stripping_is_idempotent(s.skip(2), Mode::Block);
                    two_blanks(stripped(s.skip(2), Mode::Block));
                } else {
                    let next = if b == '"' as u8 {
                        Mode::Text
                    } else {
                        Mode::Code
                    };
                    stripping_is_idempotent(s.skip(1), next);
                    stripping_keeps_layout(s.skip(1), next);
                    assert(out.skip(1) =~= stripped(s.skip(1), next));
                    if more {
                        assert(out[1] == stripped(s.skip(1), next)[0]);
                        assert(s.skip(1)[0] == s[1]);
                    }
                    assert(stripped(out, Mode::Code) =~= out);
                }
            },
        }
    }
}

proof fn two_blanks(rest: Seq<u8>)
    requires
        stripped(rest, Mode::Code) == rest,
    ensures
        stripped(seq![' ' as u8, ' ' as u8] + rest, Mode::Code) == seq![' ' as u8, ' ' as u8]
            + rest,
{
    let one = seq![' ' as u8] + rest;
    let two = seq![' ' as u8, ' ' as u8] + rest;
    assert(one.skip(1) =~= rest);
    assert(two.skip(1) =~= one);
    assert(stripped(one, Mode::Code) =~= one);
    assert(stripped(two, Mode::Code) =~= two);
}

/// How much of `bytes`, which are the rest of a text that is inside a string,
/// belongs to the string, its closing quote included.
pub open spec fn string_rest(bytes: Seq<u8>) -> int
    decreases bytes.len(),
{
    if bytes.len() == 0 {
        0
    } else if bytes[0] == '\\' as u8 && bytes.len() > 1 {
        2 + string_rest(bytes.skip(2))
    } else if bytes[0] == '"' as u8 {
        1
    } else {
        1 + string_rest(bytes.skip(1))
    }
}

/// String contents, escapes included, pass through untouched: a string is
/// copied up to its closing quote, and stripping goes on after it.
pub proof fn strings_pass_untouched(s: Seq<u8>)
    ensures
        0 <= string_rest(s) <= s.len(),
        stripped(s, Mode::Text) == s.take(string_rest(s)) + stripped(
            s.skip(string_rest(s)),
            Mode::Code,
        ),
    decreases s.len(),
{
    let n = string_rest(s);
    if s.len() == 0 {
        assert(stripped(s, Mode::Text) =~= s.take(0) + stripped(s.skip(0), Mode::Code));
    } else if s[0] == '\\' as u8 && s.len() > 1 {
        strings_pass_untouched(s.skip(2));
        assert(s.skip(2).skip(n - 2) =~= s.skip(n));
        assert(seq![s[0], s[1]] + s.skip(2).take(n - 2) =~= s.take(n));
        assert(stripped(s, Mode::Text) =~= s.take(n) + stripped(s.skip(n), Mode::Code));
    } else if s[0] == '"' as u8 {
        assert(stripped(s, Mode::Text) =~= s.take(1) + stripped(s.skip(1), Mode::Code));
    } else {
        strings_pass_untouched(s.skip(1));
        assert(s.skip(1).skip(n - 1) =~= s.skip(n));
        assert(seq![s[0]] + s.skip(1).take(n - 1) =~= s.take(n));
        assert(stripped(s, Mode::Text) =~= s.take(n) + stripped(s.skip(n), Mode::Code));
    }
}

proof fn line_is_blanked(c: Seq<u8>, rest: Seq<u8>)
    requires
        forall|k: int| 0 <= k < c.len() ==> #[trigger] c[k] != '\n' as u8,
    ensures
        stripped(c + seq!['\n' as u8] + rest, Mode::Line) == Seq::new(c.len(), |i: int| 32u8) + seq![
            '\n' as u8,
        ] + stripped(rest, Mode::Code),
    decreases c.len(),
{
    let s = c + seq!['\n' as u8] + rest;
    let spaces = Seq::new(c.len(), |i: int| 32u8);
    if c.len() == 0 {
        assert(s =~= seq!['\n' as u8] + rest);
        assert(s.skip(1) =~= rest);
        reveal_with_fuel(stripped, 2);
        assert(stripped(s, Mode::Line) =~= spaces + seq!['\n' as u8] + stripped(rest, Mode::Code));
    } else {
        let more = c.skip(1);
        assert forall|k: int| 0 <= k < more.len() implies #[trigger] more[k] != '\n' as u8 by {
            assert(more[k] == c[k + 1]);
        }
        line_is_blanked(more, rest);
        assert(s[0] == c[0]);
        assert(s.skip(1) =~= more + seq!['\n' as u8] + rest);
        assert(stripped(s, Mode::Line) =~= spaces + seq!['\n' as u8] + stripped(rest, Mode::Code));
    }
}

/// A line comment goes, up to the end of its line: it leaves a space for each
/// of its bytes, and what is on the next line is code again.
pub proof fn line_comments_go(c: Seq<u8>, rest: Seq<u8>)
    requires
        forall|k: int| 0 <= k < c.len() ==> #[trigger] c[k] != '\n' as u8,
    ensures
        stripped(seq!['/' as u8, '/' as u8] + c + seq!['\n' as u8] + rest, Mode::Code) == Seq::new(
            2 + c.len(),
            |i: int| 32u8,
        ) + seq!['\n' as u8] + stripped(rest, Mode::Code),
{
    let slashes = seq!['/' as u8, '/' as u8];
    let s = slashes + c + seq!['\n' as u8] + rest;
    let tail = seq!['/' as u8] + c;
    assert(s[0] == '/' as u8 && s[1] == '/' as u8);
    assert(s.skip(1) =~= tail + seq!['\n' as u8] + rest);
    assert forall|k: int| 0 <= k < tail.len() implies #[trigger] tail[k] != '\n' as u8 by {
        if k > 0 {
            assert(tail[k] == c[k - 1]);
        }
    }
    line_is_blanked(tail, rest);
    assert(stripped(s, Mode::Code) =~= Seq::new(2 + c.len(), |i: int| 32u8) + seq!['\n' as u8]
        + stripped(rest, Mode::Code));
}

proof fn block_is_blanked(c: Seq<u8>, rest: Seq<u8>)
    requires
        forall|k: int|
            0 <= k < c.len() - 1 ==> !(#[trigger] c[k] == '*' as u8 && c[k + 1] == '/' as u8),
    ensures
        stripped(c + seq!['*' as u8, '/' as u8] + rest, Mode::Block) == Seq::new(
            c.len(),
            |i: int|
                if c[i] == '\n' as u8 {
                    10u8
                } else {
                    32u8
                },
        ) + seq![32u8, 32u8] + stripped(rest, Mode::Code),
    decreases c.len(),
{
    let end = seq!['*' as u8, '/' as u8];
    let s = c + end + rest;
    let left = Seq::new(
        c.len(),
        |i: int|
            if c[i] == '\n' as u8 {
                10u8
            } else {
                32u8
            },
    );
    if c.len() == 0 {
        assert(s =~= end + rest);
        assert(s.skip(2) =~= rest);
        assert(stripped(s, Mode::Block) =~= left + seq![32u8, 32u8] + stripped(rest, Mode::Code));
    } else {
        let more = c.skip(1);
        assert forall|k: int| 0 <= k < more.len() - 1 implies !(#[trigger] more[k] == '*' as u8
            && more[k + 1] == '/' as u8) by {
            assert(more[k] == c[k + 1]);
        }
        block_is_blanked(more, rest);
        assert(s[0] == c[0]);
        if c.len() > 1 {
            assert(s[1] == c[1]);
        } else {
            assert(s[1] == '*' as u8);
        }
        assert(s.skip(1) =~= more + end + rest);
        assert(stripped(s, Mode::Block) =~= left + seq![32u8, 32u8] + stripped(rest, Mode::Code));
    }
}

/// A block comment goes, up to the first end of one: it leaves a space for each
/// of its bytes, and its newlines, and what is behind it is code again.
pub proof fn block_comments_go(c: Seq<u8>, rest: Seq<u8>)
    requires
        forall|k: int|
            0 <= k < c.len() - 1 ==> !(#[trigger] c[k] == '*' as u8 && c[k + 1] == '/' as u8),
    ensures
        stripped(
            seq!['/' as u8, '*' as u8] + c + seq!['*' as u8, '/' as u8] + rest,
            Mode::Code,
        ) == seq![32u8, 32u8] + Seq::new(
            c.len(),
            |i: int|
                if c[i] == '\n' as u8 {
                    10u8
                } else {
                    32u8
                },
        ) + seq![32u8, 32u8] + stripped(rest, Mode::Code),
{
    let s = seq!['/' as u8, '*' as u8] + c + seq!['*' as u8, '/' as u8] + rest;
    assert(s[0] == '/' as u8 && s[1] == '*' as u8);
    assert(s.skip(2) =~= c + seq!['*' as u8, '/' as u8] + rest);
    block_is_blanked(c, rest);
    assert(stripped(s, Mode::Code) =~= seq![32u8, 32u8] + Seq::new(
        c.len(),
        |i: int|
            if c[i] == '\n' as u8 {
                10u8
            } else {
                32u8
            },
    ) + seq![32u8, 32u8] + stripped(rest, Mode::Code));
}

/// Code without a string or a slash is as it is, and a quote begins a string.
pub proof fn code_passes_untouched(code: Seq<u8>, rest: Seq<u8>)
    requires
        forall|k: int|
            0 <= k < code.len() ==> #[trigger] code[k] != '"' as u8 && code[k] != '/' as u8,
    ensures
        stripped(code + rest, Mode::Code) == code + stripped(rest, Mode::Code),
        stripped(seq!['"' as u8] + rest, Mode::Code) == seq!['"' as u8] + stripped(rest, Mode::Text),
    decreases code.len(),
{
    let quoted = seq!['"' as u8] + rest;
    assert(quoted.skip(1) =~= rest);
    assert(stripped(quoted, Mode::Code) =~= seq!['"' as u8] + stripped(rest, Mode::Text));
    if code.len() == 0 {
        assert(code + rest =~= rest);
        assert(code + stripped(rest, Mode::Code) =~= stripped(rest, Mode::Code));
    } else {
        let more = code.skip(1);
        assert forall|k: int| 0 <= k < more.len() implies #[trigger] more[k] != '"' as u8 && more[k]
            != '/' as u8 by {
            assert(more[k] == code[k + 1]);
        }
        code_passes_untouched(more, rest);
        let s = code + rest;
        assert(s[0] == code[0]);
        assert(s.skip(1) =~= more + rest);
        assert(stripped(s, Mode::Code) =~= code + stripped(rest, Mode::Code));
    }
}

} // verus!
