//! How a terminal reads styled text: the laws that tie the sequences written
//! for a style, and for an archived line, to what they make a terminal show.

use crate::history::MAX_LINE_BYTES;
use crate::render::{
    cell_bytes, cell_piece, cell_shows, color_text, flag, line_of, param, row_cells,
    row_record, sgr_text, trimmed_len,
};
use crate::terminal::{CellStyle, CellView, Color, RowView};
use crate::text::{decimal, digit};
use vstd::prelude::*;
use vstd::string::*;
use vstd::utf8::*;

verus! {

/// The numbers of a parameter list: decimals with a semicolon between each two.
/// `current` is the number being read.
pub open spec fn numbers(text: Seq<char>, current: nat) -> Seq<nat>
    decreases text.len(),
{
    if text.len() == 0 {
        seq![current]
    } else if text[0] == ';' {
        seq![current] + numbers(text.skip(1), 0)
    } else {
        numbers(text.skip(1), (10 * current + (text[0] as int - 0x30)) as nat)
    }
}

/// `style` with another color on the ground that `background` tells.
pub open spec fn colored(style: CellStyle, background: bool, color: Color) -> CellStyle {
    if background {
        CellStyle { bg: color, ..style }
    } else {
        CellStyle { fg: color, ..style }
    }
}

/// No color and no attribute: what a terminal draws in after a reset.
pub open spec fn unstyled() -> CellStyle {
    CellStyle {
        fg: Color::Default,
        bg: Color::Default,
        bold: false,
        dim: false,
        italic: false,
        underline: false,
        inverse: false,
    }
}

/// A style after a terminal took one graphic parameter: 0 resets, 1, 2, 3, 4
/// and 7 switch an attribute on, 30 to 37 and 90 to 97 are the sixteen base
/// colors of the text, and 40 to 47 and 100 to 107 those of the background.
pub open spec fn graphic_one(style: CellStyle, n: nat) -> CellStyle {
    if n == 0 {
        unstyled()
    } else if n == 1 {
        CellStyle { bold: true, ..style }
    } else if n == 2 {
        CellStyle { dim: true, ..style }
    } else if n == 3 {
        CellStyle { italic: true, ..style }
    } else if n == 4 {
        CellStyle { underline: true, ..style }
    } else if n == 7 {
        CellStyle { inverse: true, ..style }
    } else if 30 <= n <= 37 {
        CellStyle { fg: Color::Idx((n - 30) as u8), ..style }
    } else if 40 <= n <= 47 {
        CellStyle { bg: Color::Idx((n - 40) as u8), ..style }
    } else if 90 <= n <= 97 {
        CellStyle { fg: Color::Idx((n - 90 + 8) as u8), ..style }
    } else if 100 <= n <= 107 {
        CellStyle { bg: Color::Idx((n - 100 + 8) as u8), ..style }
    } else {
        style
    }
}

/// A style after a terminal took graphic parameters: 38 for the text and 48
/// for the background lead to a color of the palette or to a mixed one, and
/// the others stand for themselves.
#[verifier::opaque]
pub open spec fn graphic(style: CellStyle, p: Seq<nat>) -> CellStyle
    decreases p.len(),
{
    if p.len() == 0 {
        style
    } else if (p[0] == 38 || p[0] == 48) && p.len() >= 3 && p[1] == 5 {
        graphic(colored(style, p[0] == 48, Color::Idx(p[2] as u8)), p.skip(3))
    } else if (p[0] == 38 || p[0] == 48) && p.len() >= 5 && p[1] == 2 {
        graphic(
            colored(style, p[0] == 48, Color::Rgb(p[2] as u8, p[3] as u8, p[4] as u8)),
            p.skip(5),
        )
    } else {
        graphic(graphic_one(style, p[0]), p.skip(1))
    }
}

proof fn one_applies(style: CellStyle, n: nat, rest: Seq<nat>)
    requires
        n != 38,
        n != 48,
    ensures
        graphic(style, seq![n] + rest) == graphic(graphic_one(style, n), rest),
{
    reveal_with_fuel(graphic, 2);
    assert((seq![n] + rest).skip(1) =~= rest);
}

proof fn palette_applies(style: CellStyle, background: bool, i: u8, rest: Seq<nat>)
    ensures
        graphic(
            style,
            seq![
                if background {
                    48nat
                } else {
                    38nat
                },
            ] + (seq![5nat] + (seq![i as nat] + rest)),
        ) == graphic(colored(style, background, Color::Idx(i)), rest),
{
    reveal_with_fuel(graphic, 2);
    let lead: nat = if background {
        48
    } else {
        38
    };
    let p = seq![lead] + (seq![5nat] + (seq![i as nat] + rest));
    assert(p.skip(3) =~= rest);
}

proof fn mix_applies(style: CellStyle, background: bool, r: u8, g: u8, b: u8, rest: Seq<nat>)
    ensures
        graphic(
            style,
            seq![
                if background {
                    48nat
                } else {
                    38nat
                },
            ] + (seq![2nat] + (seq![r as nat] + (seq![g as nat] + (seq![b as nat] + rest)))),
        ) == graphic(colored(style, background, Color::Rgb(r, g, b)), rest),
{
    reveal_with_fuel(graphic, 2);
    let lead: nat = if background {
        48
    } else {
        38
    };
    let p = seq![lead] + (seq![2nat] + (seq![r as nat] + (seq![g as nat] + (seq![b as nat]
        + rest))));
    assert(p.skip(5) =~= rest);
}

/// What stands between `"\x1b["` and the last character of a sequence.
pub open spec fn inner(sequence: Seq<char>) -> Seq<char> {
    sequence.subrange(2, sequence.len() - 1)
}

/// Whether `text` is empty or starts with a semicolon.
spec fn led(text: Seq<char>) -> bool {
    text.len() == 0 || text[0] == ';'
}

/// The numbers behind the first.
spec fn later(text: Seq<char>) -> Seq<nat> {
    numbers(text, 0).skip(1)
}

proof fn decimal_is_read(n: nat, rest: Seq<char>)
    ensures
        numbers(decimal(n) + rest, 0) == numbers(rest, n),
    decreases n,
{
    if n < 10 {
        assert((decimal(n) + rest).skip(1) =~= rest);
    } else {
        let last = seq![digit(n % 10)];
        assert(decimal(n) + rest =~= decimal(n / 10) + (last + rest));
        decimal_is_read(n / 10, last + rest);
        assert((last + rest).skip(1) =~= rest);
    }
}

proof fn led_splits(text: Seq<char>, current: nat)
    requires
        led(text),
    ensures
        numbers(text, current) == seq![current] + later(text),
{
    if text.len() == 0 {
        assert(numbers(text, current) =~= seq![current] + later(text));
    } else {
        assert(numbers(text, current) =~= seq![current] + later(text));
    }
}

proof fn param_is_read(n: nat, rest: Seq<char>)
    requires
        led(rest),
    ensures
        led(param(n as int) + rest),
        later(param(n as int) + rest) == seq![n] + later(rest),
{
    reveal_strlit(";");
    let text = param(n as int) + rest;
    assert(text.skip(1) =~= decimal(n) + rest);
    decimal_is_read(n, rest);
    led_splits(rest, n);
    assert(later(text) =~= seq![n] + later(rest));
}

proof fn flag_is_read(
    on: bool,
    text: Seq<char>,
    n: nat,
    rest: Seq<char>,
    style: CellStyle,
    after: CellStyle,
)
    requires
        led(rest),
        text == param(n as int),
        n != 38 && n != 48,
        after == (if on {
            graphic_one(style, n)
        } else {
            style
        }),
    ensures
        led(flag(on, text) + rest),
        graphic(style, later(flag(on, text) + rest)) == graphic(after, later(rest)),
{
    param_is_read(n, rest);
    one_applies(style, n, later(rest));
    if !on {
        assert(flag(on, text) + rest =~= rest);
    }
}

proof fn color_is_read(style: CellStyle, color: Color, background: bool, rest: Seq<char>)
    requires
        led(rest),
    ensures
        led(color_text(color, background) + rest),
        graphic(style, later(color_text(color, background) + rest)) == graphic(
            if color == Color::Default {
                style
            } else {
                colored(style, background, color)
            },
            later(rest),
        ),
{
    let base: int = if background {
        10
    } else {
        0
    };
    match color {
        Color::Default => {
            assert(color_text(color, background) + rest =~= rest);
        },
        Color::Idx(i) => {
            if i < 8 {
                param_is_read((30 + base + i) as nat, rest);
                one_applies(style, (30 + base + i) as nat, later(rest));
            } else if i < 16 {
                param_is_read((82 + base + i) as nat, rest);
                one_applies(style, (82 + base + i) as nat, later(rest));
            } else {
                let one = param(i as int) + rest;
                let two = param(5) + one;
                param_is_read(i as nat, rest);
                param_is_read(5, one);
                param_is_read((38 + base) as nat, two);
                assert(color_text(color, background) + rest =~= param(38 + base) + two);
                palette_applies(style, background, i, later(rest));
            }
        },
        Color::Rgb(r, g, b) => {
            let one = param(b as int) + rest;
            let two = param(g as int) + one;
            let three = param(r as int) + two;
            let four = param(2) + three;
            param_is_read(b as nat, rest);
            param_is_read(g as nat, one);
            param_is_read(r as nat, two);
            param_is_read(2, three);
            param_is_read((38 + base) as nat, four);
            assert(color_text(color, background) + rest =~= param(38 + base) + four);
            mix_applies(style, background, r, g, b, later(rest));
        },
    }
}

proof fn literals()
    ensures
        ";1"@ == param(1),
        ";2"@ == param(2),
        ";3"@ == param(3),
        ";4"@ == param(4),
        ";7"@ == param(7),
        "\x1b[0"@ == seq!['\x1b', '[', '0'],
        "m"@ == seq!['m'],
{
    reveal_strlit(";");
    reveal_strlit(";1");
    reveal_strlit(";2");
    reveal_strlit(";3");
    reveal_strlit(";4");
    reveal_strlit(";7");
    reveal_strlit("\x1b[0");
    reveal_strlit("m");
    assert(";1"@ =~= param(1));
    assert(";2"@ =~= param(2));
    assert(";3"@ =~= param(3));
    assert(";4"@ =~= param(4));
    assert(";7"@ =~= param(7));
    assert("\x1b[0"@ =~= seq!['\x1b', '[', '0']);
    assert("m"@ =~= seq!['m']);
}

spec fn flags_text(style: CellStyle, rest: Seq<char>) -> Seq<char> {
    flag(style.bold, ";1"@) + (flag(style.dim, ";2"@) + (flag(style.italic, ";3"@) + (flag(
        style.underline,
        ";4"@,
    ) + (flag(style.inverse, ";7"@) + rest))))
}

spec fn colors_text(style: CellStyle) -> Seq<char> {
    color_text(style.fg, false) + color_text(style.bg, true)
}

proof fn regroup(a: Seq<char>, b: Seq<char>, c: Seq<char>)
    ensures
        (a + b) + c == a + (b + c),
{
    assert((a + b) + c =~= a + (b + c));
}

proof fn sequence_parts(style: CellStyle)
    ensures
        sgr_text(style) == seq!['\x1b', '[', '0'] + flags_text(style, colors_text(style)) + seq!['m'],
{
    literals();
    let a0 = "\x1b[0"@;
    let a1 = a0 + flag(style.bold, ";1"@);
    let a2 = a1 + flag(style.dim, ";2"@);
    let a3 = a2 + flag(style.italic, ";3"@);
    let a4 = a3 + flag(style.underline, ";4"@);
    let a5 = a4 + flag(style.inverse, ";7"@);
    let t5 = flag(style.inverse, ";7"@) + colors_text(style);
    let t4 = flag(style.underline, ";4"@) + t5;
    let t3 = flag(style.italic, ";3"@) + t4;
    let t2 = flag(style.dim, ";2"@) + t3;
    regroup(a5, color_text(style.fg, false), color_text(style.bg, true));
    regroup(a4, flag(style.inverse, ";7"@), colors_text(style));
    regroup(a3, flag(style.underline, ";4"@), t5);
    regroup(a2, flag(style.italic, ";3"@), t4);
    regroup(a1, flag(style.dim, ";2"@), t3);
    regroup(a0, flag(style.bold, ";1"@), t2);
}

proof fn colors_are_read(style: CellStyle, before: CellStyle)
    requires
        before == (CellStyle { fg: Color::Default, bg: Color::Default, ..style }),
    ensures
        led(colors_text(style)),
        graphic(before, later(colors_text(style))) == style,
{
    let none = Seq::<char>::empty();
    assert(color_text(style.bg, true) + none =~= color_text(style.bg, true));
    color_is_read(CellStyle { fg: style.fg, ..before }, style.bg, true, none);
    color_is_read(before, style.fg, false, color_text(style.bg, true));
    assert(later(none) =~= Seq::<nat>::empty());
    reveal_with_fuel(graphic, 1);
}

proof fn flags_are_read(style: CellStyle, before: CellStyle, rest: Seq<char>)
    requires
        led(rest),
        before == graphic_one(style, 0),
    ensures
        led(flags_text(style, rest)),
        graphic(before, later(flags_text(style, rest))) == graphic(
            CellStyle { fg: Color::Default, bg: Color::Default, ..style },
            later(rest),
        ),
{
    literals();
    let s1 = CellStyle { bold: style.bold, ..before };
    let s2 = CellStyle { dim: style.dim, ..s1 };
    let s3 = CellStyle { italic: style.italic, ..s2 };
    let s4 = CellStyle { underline: style.underline, ..s3 };
    let s5 = CellStyle { inverse: style.inverse, ..s4 };
    let t5 = flag(style.inverse, ";7"@) + rest;
    let t4 = flag(style.underline, ";4"@) + t5;
    let t3 = flag(style.italic, ";3"@) + t4;
    let t2 = flag(style.dim, ";2"@) + t3;
    flag_is_read(style.inverse, ";7"@, 7, rest, s4, s5);
    flag_is_read(style.underline, ";4"@, 4, t5, s3, s4);
    flag_is_read(style.italic, ";3"@, 3, t4, s2, s3);
    flag_is_read(style.dim, ";2"@, 2, t3, s1, s2);
    flag_is_read(style.bold, ";1"@, 1, t2, before, s1);
}

/// The sequence written for a style makes a terminal draw in that very style,
/// whichever it drew in before: text color and background each, and every
/// attribute.
pub proof fn styles_read_back(style: CellStyle, before: CellStyle)
    ensures
        sgr_text(style).len() >= 4,
        sgr_text(style)[0] == '\x1b',
        sgr_text(style)[1] == '[',
        sgr_text(style).last() == 'm',
        graphic(before, numbers(inner(sgr_text(style)), 0)) == style,
{
    let reset = graphic_one(style, 0);
    sequence_parts(style);
    colors_are_read(style, CellStyle { fg: Color::Default, bg: Color::Default, ..style });
    flags_are_read(style, reset, colors_text(style));
    let text = flags_text(style, colors_text(style));
    assert(inner(sgr_text(style)) =~= seq!['0'] + text);
    assert((seq!['0'] + text).skip(1) =~= text);
    led_splits(text, 0);
    one_applies(before, 0, later(text));
}

/// Two styles are written alike only if they are the same.
pub proof fn styles_are_told_apart(a: CellStyle, b: CellStyle)
    ensures
        sgr_text(a) == sgr_text(b) ==> a == b,
{
    styles_read_back(a, a);
    styles_read_back(b, a);
}

spec fn tame(text: Seq<char>, bound: int) -> bool {
    &&& text.len() <= bound
    &&& forall|i: int| 0 <= i < text.len() ==> ('0' <= #[trigger] text[i] <= '9' || text[i] == ';')
}

proof fn tame_joins(a: Seq<char>, x: int, b: Seq<char>, y: int)
    requires
        tame(a, x),
        tame(b, y),
    ensures
        tame(a + b, x + y),
{
}

proof fn param_is_tame(n: int)
    requires
        0 <= n < 1000,
    ensures
        tame(param(n), 4),
{
    reveal_strlit(";");
    reveal_with_fuel(decimal, 4);
    assert(n / 10 / 10 / 10 == 0);
    assert(tame(decimal(n as nat), 3));
    assert(tame(";"@, 1));
    tame_joins(";"@, 1, decimal(n as nat), 3);
}

proof fn color_is_tame(color: Color, background: bool)
    ensures
        tame(color_text(color, background), 20),
{
    let base: int = if background {
        10
    } else {
        0
    };
    match color {
        Color::Default => {},
        Color::Idx(i) => {
            if i < 8 {
                param_is_tame(30 + base + i);
            } else if i < 16 {
                param_is_tame(82 + base + i);
            } else {
                param_is_tame(38 + base);
                param_is_tame(5);
                param_is_tame(i as int);
                tame_joins(param(38 + base), 4, param(5), 4);
                tame_joins(param(38 + base) + param(5), 8, param(i as int), 4);
            }
        },
        Color::Rgb(r, g, b) => {
            param_is_tame(38 + base);
            param_is_tame(2);
            param_is_tame(r as int);
            param_is_tame(g as int);
            param_is_tame(b as int);
            let one = param(38 + base) + param(2);
            let two = one + param(r as int);
            let three = two + param(g as int);
            tame_joins(param(38 + base), 4, param(2), 4);
            tame_joins(one, 8, param(r as int), 4);
            tame_joins(two, 12, param(g as int), 4);
            tame_joins(three, 16, param(b as int), 4);
        },
    }
}

proof fn inner_is_tame(style: CellStyle)
    ensures
        4 <= sgr_text(style).len() <= 64,
        sgr_text(style) == seq!['\x1b', '['] + inner(sgr_text(style)) + seq!['m'],
        tame(inner(sgr_text(style)), 61),
{
    sequence_parts(style);
    literals();
    reveal_strlit(";1");
    reveal_strlit(";2");
    reveal_strlit(";3");
    reveal_strlit(";4");
    reveal_strlit(";7");
    color_is_tame(style.fg, false);
    color_is_tame(style.bg, true);
    tame_joins(color_text(style.fg, false), 20, color_text(style.bg, true), 20);
    let t6 = colors_text(style);
    let t5 = flag(style.inverse, ";7"@) + t6;
    let t4 = flag(style.underline, ";4"@) + t5;
    let t3 = flag(style.italic, ";3"@) + t4;
    let t2 = flag(style.dim, ";2"@) + t3;
    tame_joins(flag(style.inverse, ";7"@), 2, t6, 40);
    tame_joins(flag(style.underline, ";4"@), 2, t5, 42);
    tame_joins(flag(style.italic, ";3"@), 2, t4, 44);
    tame_joins(flag(style.dim, ";2"@), 2, t3, 46);
    tame_joins(flag(style.bold, ";1"@), 2, t2, 48);
    let t1 = flags_text(style, colors_text(style));
    assert(sgr_text(style) == seq!['\x1b', '[', '0'] + t1 + seq!['m']);
    assert(inner(sgr_text(style)) =~= seq!['0'] + t1);
    tame_joins(seq!['0'], 1, t1, 50);
    assert(sgr_text(style) =~= seq!['\x1b', '['] + inner(sgr_text(style)) + seq!['m']);
}

/// The place of the first `m` among `bytes`, or their length.
pub open spec fn sequence_end(bytes: Seq<u8>) -> int
    decreases bytes.len(),
{
    if bytes.len() == 0 || bytes[0] == 0x6d {
        0
    } else {
        1 + sequence_end(bytes.skip(1))
    }
}

/// Bytes as characters, one for one.
pub open spec fn letters(bytes: Seq<u8>) -> Seq<char> {
    bytes.map_values(|b: u8| b as char)
}

/// What a terminal that draws in `style` shows for `bytes`: each byte of text
/// in the style that the sequences before it left.
#[verifier::opaque]
pub open spec fn painted(bytes: Seq<u8>, style: CellStyle) -> Seq<(u8, CellStyle)>
    decreases bytes.len(),
{
    if bytes.len() == 0 {
        Seq::empty()
    } else if bytes[0] == 0x1b {
        let end = sequence_end(bytes);
        if 2 <= end < bytes.len() {
            painted(
                bytes.skip(end + 1),
                graphic(style, numbers(letters(bytes.subrange(2, end)), 0)),
            )
        } else {
            Seq::empty()
        }
    } else {
        seq![(bytes[0], style)] + painted(bytes.skip(1), style)
    }
}

/// Each byte of a text, in one style.
pub open spec fn in_style(bytes: Seq<u8>, style: CellStyle) -> Seq<(u8, CellStyle)> {
    bytes.map_values(|b: u8| (b, style))
}

/// What the cells of a row show, from the left: the contents of each that is
/// not the second half of a wide character, or a space where it is empty.
pub open spec fn cells_show(cells: Seq<CellView>) -> Seq<(u8, CellStyle)>
    decreases cells.len(),
{
    if cells.len() == 0 {
        Seq::empty()
    } else {
        cells_show(cells.drop_last()) + (if cells.last().continuation {
            Seq::empty()
        } else if cells.last().contents.len() == 0 {
            seq![(0x20u8, cells.last().style)]
        } else {
            in_style(encode_utf8(cells.last().contents), cells.last().style)
        })
    }
}

/// Whether no cell holds an escape character.
pub open spec fn escape_free(cells: Seq<CellView>) -> bool {
    forall|i: int, k: int|
        0 <= i < cells.len() && 0 <= k < encode_utf8(cells[i].contents).len() ==> (
        #[trigger] encode_utf8(cells[i].contents)[k]) != 0x1b
}

proof fn text_is_painted(text: Seq<u8>, rest: Seq<u8>, style: CellStyle)
    requires
        forall|k: int| 0 <= k < text.len() ==> #[trigger] text[k] != 0x1b,
    ensures
        painted(text + rest, style) == in_style(text, style) + painted(rest, style),
    decreases text.len(),
{
    if text.len() == 0 {
        assert(text + rest =~= rest);
        assert(in_style(text, style) + painted(rest, style) =~= painted(rest, style));
    } else {
        reveal_with_fuel(painted, 2);
        let more = text.skip(1);
        assert forall|k: int| 0 <= k < more.len() implies #[trigger] more[k] != 0x1b by {
            assert(more[k] == text[k + 1]);
        }
        assert((text + rest)[0] == text[0]);
        assert((text + rest).skip(1) =~= more + rest);
        text_is_painted(more, rest, style);
        assert(in_style(text, style) =~= seq![(text[0], style)] + in_style(more, style));
        assert(in_style(text, style) + painted(rest, style) =~= seq![(text[0], style)] + (in_style(
            more,
            style,
        ) + painted(rest, style)));
    }
}

proof fn end_is_first(bytes: Seq<u8>, at: int)
    requires
        0 <= at < bytes.len(),
        bytes[at] == 0x6d,
        forall|k: int| 0 <= k < at ==> #[trigger] bytes[k] != 0x6d,
    ensures
        sequence_end(bytes) == at,
    decreases at,
{
    if at > 0 {
        let more = bytes.skip(1);
        assert forall|k: int| 0 <= k < at - 1 implies #[trigger] more[k] != 0x6d by {
            assert(more[k] == bytes[k + 1]);
        }
        assert(bytes[0] != 0x6d);
        end_is_first(more, at - 1);
    }
}

proof fn sequence_is_painted(style: CellStyle, before: CellStyle, rest: Seq<u8>)
    ensures
        encode_utf8(sgr_text(style)).len() <= 64,
        painted(encode_utf8(sgr_text(style)) + rest, before) == painted(rest, style),
{
    let text = sgr_text(style);
    let bytes = encode_utf8(text);
    inner_is_tame(style);
    let middle = inner(text);
    assert(text.len() == middle.len() + 3);
    assert forall|i: int| 0 <= i < text.len() implies 0 <= #[trigger] text[i] < 128 by {
        if 2 <= i < text.len() - 1 {
            assert(text[i] == middle[i - 2]);
        }
    }
    is_ascii_chars_encode_utf8(text);
    let all = bytes + rest;
    let at = text.len() - 1;
    assert(text[at] == 'm');
    assert(all[at] == 0x6d);
    assert(text[0] == '\x1b');
    assert(all[0] == 0x1b);
    assert forall|k: int| 0 <= k < at implies #[trigger] all[k] != 0x6d by {
        assert(all[k] == text[k] as u8);
        if k >= 2 {
            assert(text[k] == middle[k - 2]);
        }
    }
    end_is_first(all, at);
    assert(letters(all.subrange(2, at)) =~= middle) by {
        assert forall|k: int| 0 <= k < middle.len() implies letters(all.subrange(2, at))[k]
            == middle[k] by {
            assert(all[k + 2] == text[k + 2] as u8);
            assert(text[k + 2] == middle[k]);
        }
    }
    assert(all.skip(at + 1) =~= rest);
    styles_read_back(style, before);
    reveal_with_fuel(painted, 2);
}

proof fn piece_is_painted(style: CellStyle, cell: CellView, rest: Seq<u8>)
    requires
        escape_free(seq![cell]),
        !cell.continuation,
    ensures
        painted(cell_piece(style, cell) + rest, style) == cells_show(seq![cell]) + painted(
            rest,
            cell.style,
        ),
        cell_piece(style, cell).len() <= 64 + cell_bytes(cell).len(),
{
    let text = cell_bytes(cell);
    reveal_strlit(" ");
    assert(encode_utf8(" "@) =~= seq![0x20u8]) by {
        is_ascii_chars_encode_utf8(" "@);
    }
    assert forall|k: int| 0 <= k < text.len() implies #[trigger] text[k] != 0x1b by {
        if cell.contents.len() > 0 {
            assert(encode_utf8(seq![cell][0].contents)[k] != 0x1b);
        }
    }
    text_is_painted(text, rest, cell.style);
    reveal_with_fuel(cells_show, 2);
    assert(cells_show(seq![cell].drop_last()) =~= Seq::empty());
    assert(cells_show(seq![cell]) =~= in_style(text, cell.style));
    if cell.style != style {
        sequence_is_painted(cell.style, style, text + rest);
        assert(cell_piece(style, cell) + rest =~= encode_utf8(sgr_text(cell.style)) + (text
            + rest));
    }
}

/// How many of the cells a line holds: all of them, unless it is full.
proof fn line_is_painted(cells: Seq<CellView>, rest: Seq<u8>) -> (held: nat)
    requires
        escape_free(cells),
    ensures
        held <= cells.len(),
        painted(line_of(cells).bytes + rest, unstyled()) == cells_show(cells.take(held as int))
            + painted(rest, line_of(cells).style),
        !line_of(cells).full ==> held == cells.len(),
        line_of(cells).full ==> held < cells.len() && line_of(cells).bytes.len() + 64 + cell_bytes(
            cells[held as int],
        ).len() > MAX_LINE_BYTES,
    decreases cells.len(),
{
    if cells.len() == 0 {
        assert(line_of(cells).bytes + rest =~= rest);
        assert(cells.take(0) =~= cells);
        assert(cells_show(cells) + painted(rest, unstyled()) =~= painted(rest, unstyled()));
        0
    } else {
        let fore = cells.drop_last();
        let cell = cells.last();
        let line = line_of(fore);
        assert forall|i: int, k: int|
            0 <= i < fore.len() && 0 <= k < encode_utf8(fore[i].contents).len() implies (
        #[trigger] encode_utf8(fore[i].contents)[k]) != 0x1b by {
            assert(fore[i] == cells[i]);
        }
        assert(cells.take(cells.len() as int) =~= cells);
        assert(fore.take(fore.len() as int) =~= fore);
        if line.full {
            let held = line_is_painted(fore, rest);
            assert(fore.take(held as int) =~= cells.take(held as int));
            held
        } else if cell.continuation {
            let held = line_is_painted(fore, rest);
            assert(cells_show(cells) =~= cells_show(fore));
            cells.len()
        } else {
            let piece = cell_piece(line.style, cell);
            assert forall|i: int, k: int|
                0 <= i < seq![cell].len() && 0 <= k < encode_utf8(
                    seq![cell][i].contents,
                ).len() implies (#[trigger] encode_utf8(seq![cell][i].contents)[k]) != 0x1b by {
                assert(seq![cell][i] == cells[cells.len() - 1]);
            }
            piece_is_painted(line.style, cell, rest);
            if line.bytes.len() + piece.len() > MAX_LINE_BYTES {
                let held = line_is_painted(fore, rest);
                assert(fore =~= cells.take(held as int));
                held
            } else {
                let held = line_is_painted(fore, piece + rest);
                assert(line_of(cells).bytes + rest =~= line.bytes + (piece + rest));
                reveal_with_fuel(cells_show, 2);
                assert(seq![cell].drop_last() =~= Seq::<CellView>::empty());
                assert(cells_show(cells) =~= cells_show(fore) + cells_show(seq![cell]));
                assert((cells_show(fore) + cells_show(seq![cell])) + painted(rest, cell.style)
                    =~= cells_show(fore) + (cells_show(seq![cell]) + painted(rest, cell.style)));
                cells.len()
            }
        }
    }
}

/// Whether a cell looks like one on which nothing was drawn.
pub open spec fn looks_blank(cell: CellView) -> bool {
    ||| cell.contents.len() == 0 && cell.style.bg == Color::Default && !cell.style.inverse
    ||| cell.contents == " "@ && cell.style == unstyled()
}

proof fn trimming(cells: Seq<CellView>)
    ensures
        trimmed_len(cells) <= cells.len(),
        forall|i: int| trimmed_len(cells) <= i < cells.len() ==> looks_blank(#[trigger] cells[i]),
        trimmed_len(cells) > 0 ==> !looks_blank(cells[trimmed_len(cells) - 1]),
    decreases cells.len(),
{
    if cells.len() > 0 {
        reveal_strlit(" ");
        if cell_shows(cells.last()) {
            assert(!looks_blank(cells.last()));
        } else {
            trimming(cells.drop_last());
            assert(looks_blank(cells.last()));
            assert forall|i: int| trimmed_len(cells) <= i < cells.len() implies looks_blank(
                #[trigger] cells[i],
            ) by {
                if i < cells.len() - 1 {
                    assert(cells[i] == cells.drop_last()[i]);
                }
            }
        }
    }
}

/// An archived line printed on a terminal that draws in no style shows the
/// cells of its row in their own styles, from the left. What is left out at
/// the end looks blank, and nothing that looks blank is kept there, unless the
/// line has reached the most bytes that a line may have. The line keeps the
/// row's width, and whether it wraps.
pub proof fn archived_lines_show_their_row(row: RowView, width: u16) -> (held: nat)
    requires
        escape_free(row.cells),
    ensures
        row_record(row, width).width == width,
        row_record(row, width).wrapped == row.wrapped,
        held <= row.cells.len(),
        held <= width,
        painted(row_record(row, width).bytes, unstyled()) == cells_show(row.cells.take(held as int)),
        ({
            ||| {
                &&& held > 0 ==> !looks_blank(row.cells[held - 1])
                &&& forall|i: int|
                    held <= i < row.cells.len() && i < width ==> looks_blank(
                        #[trigger] row.cells[i],
                    )
            }
            ||| {
                &&& held < row.cells.len()
                &&& row_record(row, width).bytes.len() + 65 + encode_utf8(
                    row.cells[held as int].contents,
                ).len() > 65536
            }
        }),
{
    let cells = row_cells(row, width);
    trimming(cells);
    let kept = cells.take(trimmed_len(cells) as int);
    assert forall|i: int, k: int|
        0 <= i < kept.len() && 0 <= k < encode_utf8(kept[i].contents).len() implies (
    #[trigger] encode_utf8(kept[i].contents)[k]) != 0x1b by {
        assert(kept[i] == row.cells[i]);
    }
    let none = Seq::<u8>::empty();
    let held = line_is_painted(kept, none);
    let line = line_of(kept);
    assert(line.bytes + none =~= line.bytes);
    reveal_with_fuel(painted, 1);
    assert(painted(none, line.style) =~= Seq::empty());
    assert(kept.take(held as int) =~= row.cells.take(held as int));
    assert(cells_show(kept.take(held as int)) + painted(none, line.style) =~= cells_show(
        kept.take(held as int),
    ));
    if line.full {
        reveal_strlit(" ");
        is_ascii_chars_encode_utf8(" "@);
        assert(kept[held as int] == row.cells[held as int]);
    } else {
        assert forall|i: int| held <= i < row.cells.len() && i < width implies looks_blank(
            #[trigger] row.cells[i],
        ) by {
            assert(row.cells[i] == cells[i]);
        }
    }
    held
}

} // verus!
