//! The syntax of a config text without its comments: JSON, with its layout.
//! What adding a token does to the document that a text holds is proved here.

use crate::config_text::{
    after_key, close_of, closes, indented, insertion, is_blank, last_content, opens, past_blanks,
    splice_point, string_end, tokens_key,
};
use crate::jsonc::{stripped, stripping_keeps_layout, Mode};
use vstd::prelude::*;
use vstd::string::*;
use vstd::utf8::*;

verus! {

/// A JSON value as it is written.
pub ghost enum Node {
    /// A string, with its quotes.
    Text(Seq<u8>),
    /// A number, a truth value or null.
    Literal(Seq<u8>),
    /// The elements; the gap is what stands between the brackets where there
    /// is none.
    Array { slots: Seq<Slot>, gap: Seq<u8> },
    /// The fields; the gap is what stands between the braces where there is
    /// none.
    Object { fields: Seq<Field>, gap: Seq<u8> },
}

/// A value with the white space around it.
pub ghost struct Slot {
    pub before: Seq<u8>,
    pub node: Node,
    pub after: Seq<u8>,
}

/// A field of an object: its key, with its quotes, the white space around it,
/// and its value.
pub ghost struct Field {
    pub before: Seq<u8>,
    pub key: Seq<u8>,
    pub after: Seq<u8>,
    pub slot: Slot,
}

/// The text of a value.
pub open spec fn written(node: Node) -> Seq<u8>
    decreases node,
{
    match node {
        Node::Text(raw) => raw,
        Node::Literal(raw) => raw,
        Node::Array { slots, gap } => seq!['[' as u8] + (if slots.len() == 0 {
            gap
        } else {
            written_slots(slots)
        }) + seq![']' as u8],
        Node::Object { fields, gap } => seq!['{' as u8] + (if fields.len() == 0 {
            gap
        } else {
            written_fields(fields)
        }) + seq!['}' as u8],
    }
}

/// The text of a value with the white space around it.
pub open spec fn written_slot(slot: Slot) -> Seq<u8>
    decreases slot,
{
    slot.before + written(slot.node) + slot.after
}

/// The text of elements, with the commas between them.
pub open spec fn written_slots(slots: Seq<Slot>) -> Seq<u8>
    decreases slots,
{
    if slots.len() == 0 {
        Seq::empty()
    } else if slots.len() == 1 {
        written_slot(slots[0])
    } else {
        written_slots(slots.drop_last()) + seq![',' as u8] + written_slot(slots[slots.len() - 1])
    }
}

/// The text of a field.
pub open spec fn written_field(field: Field) -> Seq<u8>
    decreases field,
{
    field.before + field.key + field.after + seq![':' as u8] + written_slot(field.slot)
}

/// The text of fields, with the commas between them.
pub open spec fn written_fields(fields: Seq<Field>) -> Seq<u8>
    decreases fields,
{
    if fields.len() == 0 {
        Seq::empty()
    } else if fields.len() == 1 {
        written_field(fields[0])
    } else {
        written_fields(fields.drop_last()) + seq![',' as u8] + written_field(
            fields[fields.len() - 1],
        )
    }
}

/// Whether a string that is open at `i` is closed.
pub open spec fn is_closed(bytes: Seq<u8>, i: int) -> bool
    decreases bytes.len() - i,
{
    if i >= bytes.len() {
        false
    } else if bytes[i] == '\\' as u8 {
        i + 1 < bytes.len() && is_closed(bytes, i + 2)
    } else {
        bytes[i] == '"' as u8 || is_closed(bytes, i + 1)
    }
}

/// Nothing but white space.
pub open spec fn all_blank(bytes: Seq<u8>) -> bool {
    forall|i: int| 0 <= i < bytes.len() ==> is_blank(#[trigger] bytes[i])
}

/// A string with its quotes, on one line.
pub open spec fn is_text(raw: Seq<u8>) -> bool {
    &&& raw.len() >= 2
    &&& raw[0] == '"' as u8
    &&& is_closed(raw, 1)
    &&& string_end(raw, 1) == raw.len()
    &&& !raw.contains('\n' as u8)
}

/// A byte that a number, a truth value or null can hold.
pub open spec fn is_literal_byte(b: u8) -> bool {
    &&& b < 0x80
    &&& !is_blank(b)
    &&& !opens(b)
    &&& !closes(b)
    &&& b != '"' as u8
    &&& b != ',' as u8
    &&& b != ':' as u8
    &&& b != '/' as u8
}

/// A number, a truth value or null.
pub open spec fn is_literal(raw: Seq<u8>) -> bool {
    &&& raw.len() > 0
    &&& forall|i: int| 0 <= i < raw.len() ==> is_literal_byte(#[trigger] raw[i])
}

/// Whether strings, literals and white space are what they should be.
pub open spec fn proper(node: Node) -> bool
    decreases node,
{
    match node {
        Node::Text(raw) => is_text(raw),
        Node::Literal(raw) => is_literal(raw),
        Node::Array { slots, gap } => all_blank(gap) && proper_slots(slots),
        Node::Object { fields, gap } => all_blank(gap) && proper_fields(fields),
    }
}

pub open spec fn proper_slot(slot: Slot) -> bool
    decreases slot,
{
    all_blank(slot.before) && proper(slot.node) && all_blank(slot.after)
}

pub open spec fn proper_slots(slots: Seq<Slot>) -> bool
    decreases slots,
{
    slots.len() == 0 || (proper_slots(slots.drop_last()) && proper_slot(slots[slots.len() - 1]))
}

pub open spec fn proper_field(field: Field) -> bool
    decreases field,
{
    &&& all_blank(field.before)
    &&& is_text(field.key)
    &&& all_blank(field.after)
    &&& proper_slot(field.slot)
}

pub open spec fn proper_fields(fields: Seq<Field>) -> bool
    decreases fields,
{
    fields.len() == 0 || (proper_fields(fields.drop_last()) && proper_field(
        fields[fields.len() - 1],
    ))
}

/// A JSON document without its layout. Strings, keys and literals are known by
/// how they are spelled.
pub ghost enum Document {
    Leaf(Seq<u8>),
    List(Seq<Document>),
    Record(Seq<(Seq<u8>, Document)>),
}

/// The document that a value stands for.
pub open spec fn document(node: Node) -> Document
    decreases node,
{
    match node {
        Node::Text(raw) => Document::Leaf(raw),
        Node::Literal(raw) => Document::Leaf(raw),
        Node::Array { slots, gap } => Document::List(elements(slots)),
        Node::Object { fields, gap } => Document::Record(entries(fields)),
    }
}

/// The documents of elements.
pub open spec fn elements(slots: Seq<Slot>) -> Seq<Document>
    decreases slots,
{
    if slots.len() == 0 {
        Seq::empty()
    } else {
        elements(slots.drop_last()).push(document(slots[slots.len() - 1].node))
    }
}

/// The keys and documents of fields.
pub open spec fn entries(fields: Seq<Field>) -> Seq<(Seq<u8>, Document)>
    decreases fields,
{
    if fields.len() == 0 {
        Seq::empty()
    } else {
        entries(fields.drop_last()).push(
            (
                fields[fields.len() - 1].key,
                document(fields[fields.len() - 1].slot.node),
            ),
        )
    }
}

/// Whether `part` stands at `i`.
pub open spec fn stands_at(bytes: Seq<u8>, i: int, part: Seq<u8>) -> bool {
    0 <= i && i + part.len() <= bytes.len() && bytes.subrange(i, i + part.len()) == part
}

/// Whether a reader that is outside any string at `i` is so again at `n`, and
/// meets no slash in between that is not in a string.
pub open spec fn settles(bytes: Seq<u8>, i: int, n: int) -> bool
    decreases bytes.len() - i,
{
    if i == n {
        true
    } else if i > n || i >= bytes.len() {
        false
    } else if bytes[i] == '"' as u8 {
        let end = string_end(bytes, i + 1);
        is_closed(bytes, i + 1) && i < end <= bytes.len() && settles(bytes, end, n)
    } else {
        bytes[i] != '/' as u8 && settles(bytes, i + 1, n)
    }
}

/// Whether every search that comes to `i` goes on to `j`: one for a closing
/// bracket, one for a key that is not a key of the innermost object here, and
/// one that only follows strings.
spec fn passes(bytes: Seq<u8>, i: int, j: int) -> bool {
    &&& 0 <= i <= j <= bytes.len()
    &&& forall|d: int| d >= 1 ==> #[trigger] close_of(bytes, i, d) == close_of(bytes, j, d)
    &&& forall|d: int| d >= 2 ==> #[trigger] after_key(bytes, i, d) == after_key(bytes, j, d)
    &&& forall|n: int| n >= j ==> #[trigger] settles(bytes, i, n) == settles(bytes, j, n)
}

proof fn stands_split(bytes: Seq<u8>, i: int, a: Seq<u8>, b: Seq<u8>)
    requires
        stands_at(bytes, i, a + b),
    ensures
        stands_at(bytes, i, a),
        stands_at(bytes, i + a.len(), b),
{
    assert(bytes.subrange(i, i + a.len()) =~= (a + b).subrange(0, a.len() as int));
    assert((a + b).subrange(0, a.len() as int) =~= a);
    let n = a.len() + b.len();
    assert(bytes.subrange(i + a.len(), i + n) =~= bytes.subrange(i, i + n).subrange(
        a.len() as int,
        n as int,
    ));
    assert((a + b).subrange(a.len() as int, n as int) =~= b);
}

proof fn stands_byte(bytes: Seq<u8>, i: int, part: Seq<u8>, k: int)
    requires
        stands_at(bytes, i, part),
        0 <= k < part.len(),
    ensures
        bytes[i + k] == part[k],
{
    assert(bytes.subrange(i, i + part.len())[k] == bytes[i + k]);
}

proof fn passes_on(bytes: Seq<u8>, i: int, j: int, k: int)
    requires
        passes(bytes, i, j),
        passes(bytes, j, k),
    ensures
        passes(bytes, i, k),
{
    assert forall|d: int| d >= 1 implies #[trigger] close_of(bytes, i, d) == close_of(
        bytes,
        k,
        d,
    ) by {
        assert(close_of(bytes, i, d) == close_of(bytes, j, d));
    }
    assert forall|d: int| d >= 2 implies #[trigger] after_key(bytes, i, d) == after_key(
        bytes,
        k,
        d,
    ) by {
        assert(after_key(bytes, i, d) == after_key(bytes, j, d));
    }
    assert forall|n: int| n >= k implies #[trigger] settles(bytes, i, n) == settles(
        bytes,
        k,
        n,
    ) by {
        assert(settles(bytes, i, n) == settles(bytes, j, n));
    }
}

/// A byte that means nothing to any search.
spec fn is_idle(b: u8) -> bool {
    !opens(b) && !closes(b) && b != '"' as u8 && b != '/' as u8
}

proof fn run_passes(bytes: Seq<u8>, i: int, part: Seq<u8>)
    requires
        stands_at(bytes, i, part),
        forall|k: int| 0 <= k < part.len() ==> is_idle(#[trigger] part[k]),
    ensures
        passes(bytes, i, i + part.len()),
    decreases part.len(),
{
    if part.len() > 0 {
        let rest = part.skip(1);
        assert(part =~= part.take(1) + rest);
        stands_split(bytes, i, part.take(1), rest);
        stands_byte(bytes, i, part, 0);
        assert(is_idle(part[0]));
        assert forall|k: int| 0 <= k < rest.len() implies is_idle(#[trigger] rest[k]) by {
            assert(rest[k] == part[k + 1]);
        }
        run_passes(bytes, i + 1, rest);
        assert(passes(bytes, i, i + 1));
        passes_on(bytes, i, i + 1, i + part.len());
    }
}

proof fn blanks_pass(bytes: Seq<u8>, i: int, part: Seq<u8>)
    requires
        stands_at(bytes, i, part),
        all_blank(part),
    ensures
        passes(bytes, i, i + part.len()),
{
    assert forall|k: int| 0 <= k < part.len() implies is_idle(#[trigger] part[k]) by {
        assert(is_blank(part[k]));
    }
    run_passes(bytes, i, part);
}

/// A string that stands in a longer text ends there where it ends by itself.
proof fn string_ends_in_place(bytes: Seq<u8>, i: int, raw: Seq<u8>, k: int)
    requires
        stands_at(bytes, i, raw),
        0 <= k <= raw.len(),
        is_closed(raw, k),
    ensures
        string_end(bytes, i + k) == i + string_end(raw, k),
        is_closed(bytes, i + k),
        k < string_end(raw, k) <= raw.len(),
    decreases raw.len() - k,
{
    stands_byte(bytes, i, raw, k);
    if raw[k] == '\\' as u8 {
        string_ends_in_place(bytes, i, raw, k + 2);
    } else if raw[k] != '"' as u8 {
        string_ends_in_place(bytes, i, raw, k + 1);
    }
}

proof fn text_passes(bytes: Seq<u8>, i: int, raw: Seq<u8>)
    requires
        stands_at(bytes, i, raw),
        is_text(raw),
    ensures
        passes(bytes, i, i + raw.len()),
        bytes[i] == '"' as u8,
        string_end(bytes, i + 1) == i + raw.len(),
{
    stands_byte(bytes, i, raw, 0);
    string_ends_in_place(bytes, i, raw, 1);
}

proof fn bracket_passes(bytes: Seq<u8>, i: int, k: int)
    requires
        0 <= i < k < bytes.len(),
        opens(bytes[i]),
        passes(bytes, i + 1, k),
        closes(bytes[k]),
    ensures
        passes(bytes, i, k + 1),
{
    assert forall|d: int| d >= 1 implies #[trigger] close_of(bytes, i, d) == close_of(
        bytes,
        k + 1,
        d,
    ) by {
        assert(close_of(bytes, i, d) == close_of(bytes, i + 1, d + 1));
        assert(close_of(bytes, k, d + 1) == close_of(bytes, k + 1, d));
    }
    assert forall|d: int| d >= 2 implies #[trigger] after_key(bytes, i, d) == after_key(
        bytes,
        k + 1,
        d,
    ) by {
        assert(after_key(bytes, i, d) == after_key(bytes, i + 1, d + 1));
        assert(after_key(bytes, k, d + 1) == after_key(bytes, k + 1, d));
    }
    assert forall|n: int| n >= k + 1 implies #[trigger] settles(bytes, i, n) == settles(
        bytes,
        k + 1,
        n,
    ) by {
        assert(settles(bytes, i, n) == settles(bytes, i + 1, n));
        assert(settles(bytes, k, n) == settles(bytes, k + 1, n));
    }
}

proof fn node_passes(bytes: Seq<u8>, i: int, node: Node)
    requires
        stands_at(bytes, i, written(node)),
        proper(node),
    ensures
        passes(bytes, i, i + written(node).len()),
    decreases node,
{
    match node {
        Node::Text(raw) => {
            text_passes(bytes, i, raw);
        },
        Node::Literal(raw) => {
            assert forall|k: int| 0 <= k < raw.len() implies is_idle(#[trigger] raw[k]) by {
                assert(is_literal_byte(raw[k]));
            }
            run_passes(bytes, i, raw);
        },
        Node::Array { slots, gap } => {
            let inner = if slots.len() == 0 {
                gap
            } else {
                written_slots(slots)
            };
            stands_inside(bytes, i, '[' as u8, inner, ']' as u8);
            if slots.len() == 0 {
                blanks_pass(bytes, i + 1, gap);
            } else {
                slots_pass(bytes, i + 1, slots);
            }
            bracket_passes(bytes, i, i + 1 + inner.len());
        },
        Node::Object { fields, gap } => {
            let inner = if fields.len() == 0 {
                gap
            } else {
                written_fields(fields)
            };
            stands_inside(bytes, i, '{' as u8, inner, '}' as u8);
            if fields.len() == 0 {
                blanks_pass(bytes, i + 1, gap);
            } else {
                fields_pass(bytes, i + 1, fields);
            }
            bracket_passes(bytes, i, i + 1 + inner.len());
        },
    }
}

proof fn stands_inside(bytes: Seq<u8>, i: int, open: u8, inner: Seq<u8>, close: u8)
    requires
        stands_at(bytes, i, seq![open] + inner + seq![close]),
    ensures
        stands_at(bytes, i + 1, inner),
        bytes[i] == open,
        bytes[i + 1 + inner.len()] == close,
        i + 1 + inner.len() < bytes.len(),
{
    stands_split(bytes, i, seq![open] + inner, seq![close]);
    stands_split(bytes, i, seq![open], inner);
    stands_byte(bytes, i, seq![open], 0);
    stands_byte(bytes, i + 1 + inner.len(), seq![close], 0);
}

proof fn slot_passes(bytes: Seq<u8>, i: int, slot: Slot)
    requires
        stands_at(bytes, i, written_slot(slot)),
        proper_slot(slot),
    ensures
        passes(bytes, i, i + written_slot(slot).len()),
    decreases slot,
{
    let head = slot.before + written(slot.node);
    stands_split(bytes, i, head, slot.after);
    stands_split(bytes, i, slot.before, written(slot.node));
    blanks_pass(bytes, i, slot.before);
    node_passes(bytes, i + slot.before.len(), slot.node);
    blanks_pass(bytes, i + head.len(), slot.after);
    passes_on(bytes, i, i + slot.before.len(), i + head.len());
    passes_on(bytes, i, i + head.len(), i + written_slot(slot).len());
}

proof fn comma_passes(bytes: Seq<u8>, i: int, b: u8)
    requires
        stands_at(bytes, i, seq![b]),
        b == ',' as u8 || b == ':' as u8,
    ensures
        passes(bytes, i, i + 1),
        bytes[i] == b,
{
    stands_byte(bytes, i, seq![b], 0);
    run_passes(bytes, i, seq![b]);
}

proof fn slots_pass(bytes: Seq<u8>, i: int, slots: Seq<Slot>)
    requires
        stands_at(bytes, i, written_slots(slots)),
        proper_slots(slots),
        slots.len() > 0,
    ensures
        passes(bytes, i, i + written_slots(slots).len()),
    decreases slots,
{
    let last = slots[slots.len() - 1];
    if slots.len() == 1 {
        slot_passes(bytes, i, last);
    } else {
        let head = written_slots(slots.drop_last());
        stands_split(bytes, i, head + seq![',' as u8], written_slot(last));
        stands_split(bytes, i, head, seq![',' as u8]);
        slots_pass(bytes, i, slots.drop_last());
        comma_passes(bytes, i + head.len(), ',' as u8);
        slot_passes(bytes, i + head.len() + 1, last);
        passes_on(bytes, i, i + head.len(), i + head.len() + 1);
        passes_on(bytes, i, i + head.len() + 1, i + written_slots(slots).len());
    }
}

proof fn field_passes(bytes: Seq<u8>, i: int, field: Field)
    requires
        stands_at(bytes, i, written_field(field)),
        proper_field(field),
    ensures
        passes(bytes, i, i + written_field(field).len()),
    decreases field,
{
    field_parts(bytes, i, field);
    let k = i + field.before.len();
    let c = k + field.key.len() + field.after.len();
    blanks_pass(bytes, i, field.before);
    text_passes(bytes, k, field.key);
    blanks_pass(bytes, k + field.key.len(), field.after);
    comma_passes(bytes, c, ':' as u8);
    slot_passes(bytes, c + 1, field.slot);
    passes_on(bytes, i, k, k + field.key.len());
    passes_on(bytes, i, k + field.key.len(), c);
    passes_on(bytes, i, c, c + 1);
    passes_on(bytes, i, c + 1, i + written_field(field).len());
}

/// Where the parts of a field stand.
proof fn field_parts(bytes: Seq<u8>, i: int, field: Field)
    requires
        stands_at(bytes, i, written_field(field)),
    ensures
        ({
            let k = i + field.before.len();
            let c = k + field.key.len() + field.after.len();
            &&& stands_at(bytes, i, field.before)
            &&& stands_at(bytes, k, field.key)
            &&& stands_at(bytes, k + field.key.len(), field.after)
            &&& stands_at(bytes, c, seq![':' as u8])
            &&& stands_at(bytes, c + 1, written_slot(field.slot))
            &&& i + written_field(field).len() == c + 1 + written_slot(field.slot).len()
        }),
{
    let a = field.before + field.key;
    let b = a + field.after;
    let c = b + seq![':' as u8];
    stands_split(bytes, i, c, written_slot(field.slot));
    stands_split(bytes, i, b, seq![':' as u8]);
    stands_split(bytes, i, a, field.after);
    stands_split(bytes, i, field.before, field.key);
}

proof fn fields_pass(bytes: Seq<u8>, i: int, fields: Seq<Field>)
    requires
        stands_at(bytes, i, written_fields(fields)),
        proper_fields(fields),
        fields.len() > 0,
    ensures
        passes(bytes, i, i + written_fields(fields).len()),
    decreases fields,
{
    let last = fields[fields.len() - 1];
    if fields.len() == 1 {
        field_passes(bytes, i, last);
    } else {
        let head = written_fields(fields.drop_last());
        stands_split(bytes, i, head + seq![',' as u8], written_field(last));
        stands_split(bytes, i, head, seq![',' as u8]);
        fields_pass(bytes, i, fields.drop_last());
        comma_passes(bytes, i + head.len(), ',' as u8);
        field_passes(bytes, i + head.len() + 1, last);
        passes_on(bytes, i, i + head.len(), i + head.len() + 1);
        passes_on(bytes, i, i + head.len() + 1, i + written_fields(fields).len());
    }
}

/// Whether a text that is in `mode` is JSON outside strings and comments just
/// before its byte `n`.
spec fn code_at(s: Seq<u8>, mode: Mode, n: int) -> bool
    decreases
            s.len(),
            if mode == Mode::Line {
                1int
            } else {
                0int
            },
{
    if n <= 0 || s.len() == 0 {
        n == 0 && mode == Mode::Code
    } else {
        let b = s[0];
        let second: int = if s.len() > 1 {
            s[1] as int
        } else {
            -1
        };
        match mode {
            Mode::Text => if b == '\\' as u8 && s.len() > 1 {
                code_at(s.skip(2), Mode::Text, n - 2)
            } else if b == '"' as u8 {
                code_at(s.skip(1), Mode::Code, n - 1)
            } else {
                code_at(s.skip(1), Mode::Text, n - 1)
            },
            Mode::Line => if b == '\n' as u8 {
                code_at(s, Mode::Code, n)
            } else {
                code_at(s.skip(1), Mode::Line, n - 1)
            },
            Mode::Block => if b == '*' as u8 && second == '/' as u8 {
                code_at(s.skip(2), Mode::Code, n - 2)
            } else {
                code_at(s.skip(1), Mode::Block, n - 1)
            },
            Mode::Code => if b == '/' as u8 && second == '/' as u8 {
                code_at(s.skip(1), Mode::Line, n - 1)
            } else if b == '/' as u8 && second == '*' as u8 {
                code_at(s.skip(2), Mode::Block, n - 2)
            } else if b == '"' as u8 {
                code_at(s.skip(1), Mode::Text, n - 1)
            } else {
                code_at(s.skip(1), Mode::Code, n - 1)
            },
        }
    }
}

/// The byte after the first, or a value that is none.
spec fn second_of(s: Seq<u8>) -> int {
    if s.len() > 1 {
        s[1] as int
    } else {
        -1
    }
}

/// One step of erasing comments, where the first byte of a text is not the end
/// of a line comment: what comes out, and the mode of what follows it.
spec fn strip_step(b: u8, second: int, mode: Mode) -> (Seq<u8>, Mode) {
    match mode {
        Mode::Text => if b == '\\' as u8 && second >= 0 {
            (seq![b, second as u8], Mode::Text)
        } else if b == '"' as u8 {
            (seq![b], Mode::Code)
        } else {
            (seq![b], Mode::Text)
        },
        Mode::Line => (seq![' ' as u8], Mode::Line),
        Mode::Block => if b == '*' as u8 && second == '/' as u8 {
            (seq![' ' as u8, ' ' as u8], Mode::Code)
        } else {
            (seq![crate::jsonc::blank(b)], Mode::Block)
        },
        Mode::Code => if b == '/' as u8 && second == '/' as u8 {
            (seq![' ' as u8], Mode::Line)
        } else if b == '/' as u8 && second == '*' as u8 {
            (seq![' ' as u8, ' ' as u8], Mode::Block)
        } else if b == '"' as u8 {
            (seq![b], Mode::Text)
        } else {
            (seq![b], Mode::Code)
        },
    }
}

proof fn stripping_steps(s: Seq<u8>, mode: Mode)
    requires
        s.len() > 0,
        !(mode == Mode::Line && s[0] == '\n' as u8),
    ensures
        ({
            let (head, next) = strip_step(s[0], second_of(s), mode);
            &&& 0 < head.len() <= s.len()
            &&& stripped(s, mode) == head + stripped(s.skip(head.len() as int), next)
            &&& forall|n: int|
                n > 0 ==> #[trigger] code_at(s, mode, n) == code_at(
                    s.skip(head.len() as int),
                    next,
                    n - head.len(),
                )
        }),
{
}

/// What is put in where a text is JSON outside strings and comments leaves the
/// comments before and after it what they were.
proof fn splicing_keeps_comments(s: Seq<u8>, mode: Mode, n: int, ins: Seq<u8>)
    requires
        code_at(s, mode, n),
        0 <= n <= s.len(),
        ins.len() > 0,
        ins[0] != '/' as u8,
        ins[0] != '*' as u8,
    ensures
        stripped(s.take(n) + ins + s.skip(n), mode) == stripped(s, mode).take(n) + stripped(
            ins + s.skip(n),
            Mode::Code,
        ),
        stripped(s, mode).skip(n) == stripped(s.skip(n), Mode::Code),
        n <= stripped(s, mode).len(),
    decreases
            s.len(),
            if mode == Mode::Line {
                1int
            } else {
                0int
            },
{
    let new = s.take(n) + ins + s.skip(n);
    if n == 0 {
        assert(new =~= ins + s.skip(0));
        assert(s.skip(0) =~= s);
        joined_after(Seq::empty(), stripped(s, mode), 0, stripped(ins + s, Mode::Code));
    } else {
        assert(new[0] == s[0]);
        if mode == Mode::Line && s[0] == '\n' as u8 {
            splicing_keeps_comments(s, Mode::Code, n, ins);
        } else {
            stripping_steps(s, mode);
            let (head, next) = strip_step(s[0], second_of(s), mode);
            let k = head.len() as int;
            let rest = s.skip(k);
            assert(code_at(rest, next, n - k));
            assert(n >= k);
            step_is_kept(s, mode, n, ins);
            stripping_steps(new, mode);
            splicing_keeps_comments(rest, next, n - k, ins);
            assert(new.skip(k) =~= rest.take(n - k) + ins + rest.skip(n - k));
            assert(rest.skip(n - k) =~= s.skip(n));
            joined_after(
                head,
                stripped(rest, next),
                n - k,
                stripped(ins + s.skip(n), Mode::Code),
            );
        }
    }
}

/// Two parts of a text, cut behind the first `n` bytes of the second.
proof fn joined_after(head: Seq<u8>, rest: Seq<u8>, n: int, tail: Seq<u8>)
    requires
        0 <= n <= rest.len(),
    ensures
        head + (rest.take(n) + tail) == (head + rest).take(head.len() + n) + tail,
        (head + rest).skip(head.len() + n) == rest.skip(n),
        head.len() == 0 ==> head + rest == rest,
{
    assert(head + (rest.take(n) + tail) =~= (head + rest).take(head.len() + n) + tail);
    assert((head + rest).skip(head.len() + n) =~= rest.skip(n));
    if head.len() == 0 {
        assert(head + rest =~= rest);
    }
}

/// The first step is the same with something put in behind it.
proof fn step_is_kept(s: Seq<u8>, mode: Mode, n: int, ins: Seq<u8>)
    requires
        code_at(s, mode, n),
        0 < n <= s.len(),
        ins.len() > 0,
        ins[0] != '/' as u8,
        ins[0] != '*' as u8,
        !(mode == Mode::Line && s[0] == '\n' as u8),
    ensures
        ({
            let new = s.take(n) + ins + s.skip(n);
            &&& new.len() > 0
            &&& new[0] == s[0]
            &&& strip_step(new[0], second_of(new), mode) == strip_step(s[0], second_of(s), mode)
        }),
{
    let new = s.take(n) + ins + s.skip(n);
    assert(new[0] == s[0]);
    stripping_steps(s, mode);
    let (head, next) = strip_step(s[0], second_of(s), mode);
    assert(code_at(s.skip(head.len() as int), next, n - head.len()));
    if n >= 2 {
        assert(new[1] == s[1]);
    } else {
        assert(new[1] == ins[0]);
        assert(head.len() == 1 && next == Mode::Code);
    }
}

/// A text is JSON outside strings and comments after each of its bytes that is
/// neither white space once its comments are erased nor in a string.
proof fn content_is_code(whole: Seq<u8>, clean: Seq<u8>, p: int, mode: Mode, n: int)
    requires
        0 <= p <= n <= whole.len() == clean.len(),
        n > 0,
        !is_blank(clean[n - 1]),
        clean.skip(p) == stripped(whole.skip(p), mode),
        mode == Mode::Text ==> is_closed(clean, p) && settles(clean, string_end(clean, p), n),
        mode != Mode::Text ==> settles(clean, p, n),
        p == n ==> mode == Mode::Code || mode == Mode::Text,
    ensures
        code_at(whole.skip(p), mode, n - p),
    decreases
            whole.len() - p,
            if mode == Mode::Line {
                1int
            } else {
                0int
            },
{
    let s = whole.skip(p);
    if mode == Mode::Text {
        assert(stands_at(clean, 0, clean)) by {
            assert(clean.subrange(0, clean.len() as int) =~= clean);
        }
        string_ends_in_place(clean, 0, clean, p);
    }
    if p < n {
        let b = s[0];
        assert(clean.skip(p)[0] == clean[p]);
        assert(s.skip(1) =~= whole.skip(p + 1));
        assert(clean.skip(p).skip(1) =~= clean.skip(p + 1));
        if s.len() > 1 {
            assert(clean.skip(p)[1] == clean[p + 1]);
            assert(s.skip(2) =~= whole.skip(p + 2));
            assert(clean.skip(p).skip(2) =~= clean.skip(p + 2));
        }
        let second: int = if s.len() > 1 {
            s[1] as int
        } else {
            -1
        };
        match mode {
            Mode::Text => if b == '\\' as u8 && s.len() > 1 {
                assert(stripped(s, mode).skip(2) =~= stripped(s.skip(2), Mode::Text));
                string_ends_in_place(clean, 0, clean, p + 2);
                content_is_code(whole, clean, p + 2, Mode::Text, n);
            } else if b == '"' as u8 {
                assert(stripped(s, mode).skip(1) =~= stripped(s.skip(1), Mode::Code));
                content_is_code(whole, clean, p + 1, Mode::Code, n);
            } else {
                assert(stripped(s, mode).skip(1) =~= stripped(s.skip(1), Mode::Text));
                content_is_code(whole, clean, p + 1, Mode::Text, n);
            },
            Mode::Line => if b == '\n' as u8 {
                content_is_code(whole, clean, p, Mode::Code, n);
            } else {
                assert(stripped(s, mode).skip(1) =~= stripped(s.skip(1), Mode::Line));
                content_is_code(whole, clean, p + 1, Mode::Line, n);
            },
            Mode::Block => if b == '*' as u8 && second == '/' as u8 {
                assert(stripped(s, mode).skip(2) =~= stripped(s.skip(2), Mode::Code));
                assert(settles(clean, p + 1, n));
                content_is_code(whole, clean, p + 2, Mode::Code, n);
            } else {
                assert(stripped(s, mode).skip(1) =~= stripped(s.skip(1), Mode::Block));
                content_is_code(whole, clean, p + 1, Mode::Block, n);
            },
            Mode::Code => if b == '/' as u8 && second == '/' as u8 {
                assert(stripped(s, mode).skip(1) =~= stripped(s.skip(1), Mode::Line));
                content_is_code(whole, clean, p + 1, Mode::Line, n);
            } else if b == '/' as u8 && second == '*' as u8 {
                assert(stripped(s, mode).skip(2) =~= stripped(s.skip(2), Mode::Block));
                assert(settles(clean, p + 1, n));
                content_is_code(whole, clean, p + 2, Mode::Block, n);
            } else if b == '"' as u8 {
                assert(stripped(s, mode).skip(1) =~= stripped(s.skip(1), Mode::Text));
                content_is_code(whole, clean, p + 1, Mode::Text, n);
            } else {
                assert(stripped(s, mode).skip(1) =~= stripped(s.skip(1), Mode::Code));
                content_is_code(whole, clean, p + 1, Mode::Code, n);
            },
        }
    }
}

/// A text without comments is not changed by erasing comments, and neither is
/// what follows it.
proof fn plain_text_is_kept(ins: Seq<u8>, rest: Seq<u8>, p: int, mode: Mode)
    requires
        0 <= p <= ins.len(),
        mode == Mode::Code || mode == Mode::Text,
        mode == Mode::Text ==> is_closed(ins, p) && settles(
            ins,
            string_end(ins, p),
            ins.len() as int,
        ),
        mode == Mode::Code ==> settles(ins, p, ins.len() as int),
    ensures
        stripped(ins.skip(p) + rest, mode) == ins.skip(p) + stripped(rest, Mode::Code),
    decreases ins.len() - p,
{
    if mode == Mode::Text {
        assert(stands_at(ins, 0, ins)) by {
            assert(ins.subrange(0, ins.len() as int) =~= ins);
        }
        string_ends_in_place(ins, 0, ins, p);
    }
    let s = ins.skip(p) + rest;
    if p == ins.len() {
        assert(s =~= rest);
        assert(ins.skip(p) + stripped(rest, Mode::Code) =~= stripped(rest, Mode::Code));
    } else {
        assert(s[0] == ins[p]);
        assert(s.skip(1) =~= ins.skip(p + 1) + rest);
        if mode == Mode::Text && ins[p] == '\\' as u8 {
            assert(s[1] == ins[p + 1]);
            assert(s.skip(2) =~= ins.skip(p + 2) + rest);
            plain_text_is_kept(ins, rest, p + 2, Mode::Text);
        } else if mode == Mode::Text && ins[p] != '"' as u8 {
            plain_text_is_kept(ins, rest, p + 1, Mode::Text);
        } else if mode == Mode::Code && ins[p] == '"' as u8 {
            plain_text_is_kept(ins, rest, p + 1, Mode::Text);
        } else {
            plain_text_is_kept(ins, rest, p + 1, Mode::Code);
        }
        assert(stripped(s, mode) =~= ins.skip(p) + stripped(rest, Mode::Code));
    }
}

/// `bytes` with every line after the first indented.
spec fn indent_bytes(bytes: Seq<u8>) -> Seq<u8>
    decreases bytes.len(),
{
    if bytes.len() == 0 {
        Seq::empty()
    } else if bytes.last() == '\n' as u8 {
        indent_bytes(bytes.drop_last()) + line_start()
    } else {
        indent_bytes(bytes.drop_last()).push(bytes.last())
    }
}

/// A line break and the indentation of what follows.
spec fn line_start() -> Seq<u8> {
    seq!['\n' as u8, ' ' as u8, ' ' as u8, ' ' as u8, ' ' as u8]
}

proof fn indent_joined(a: Seq<u8>, b: Seq<u8>)
    ensures
        indent_bytes(a + b) == indent_bytes(a) + indent_bytes(b),
    decreases b.len(),
{
    if b.len() == 0 {
        assert(a + b =~= a);
        assert(indent_bytes(a) + indent_bytes(b) =~= indent_bytes(a));
    } else {
        assert((a + b).drop_last() =~= a + b.drop_last());
        indent_joined(a, b.drop_last());
        assert(indent_bytes(a + b) =~= indent_bytes(a) + indent_bytes(b));
    }
}

proof fn indent_one_line(a: Seq<u8>)
    requires
        !a.contains('\n' as u8),
    ensures
        indent_bytes(a) == a,
    decreases a.len(),
{
    if a.len() > 0 {
        assert(a.contains(a.last()));
        assert(!a.drop_last().contains('\n' as u8)) by {
            if a.drop_last().contains('\n' as u8) {
                let i = choose|i: int|
                    0 <= i < a.drop_last().len() && a.drop_last()[i] == '\n' as u8;
                assert(a[i] == '\n' as u8);
            }
        }
        indent_one_line(a.drop_last());
        assert(indent_bytes(a) =~= a);
    } else {
        assert(indent_bytes(a) =~= a);
    }
}

proof fn indent_blanks(a: Seq<u8>)
    requires
        all_blank(a),
    ensures
        all_blank(indent_bytes(a)),
    decreases a.len(),
{
    if a.len() > 0 {
        assert(is_blank(a[a.len() - 1]));
        assert forall|i: int| 0 <= i < a.drop_last().len() implies is_blank(
            #[trigger] a.drop_last()[i],
        ) by {
            assert(is_blank(a[i]));
        }
        indent_blanks(a.drop_last());
    }
}

/// A value with every line of it after the first indented.
spec fn relaid(node: Node) -> Node
    decreases node,
{
    match node {
        Node::Text(raw) => node,
        Node::Literal(raw) => node,
        Node::Array { slots, gap } => Node::Array {
            slots: relaid_slots(slots),
            gap: indent_bytes(gap),
        },
        Node::Object { fields, gap } => Node::Object {
            fields: relaid_fields(fields),
            gap: indent_bytes(gap),
        },
    }
}

spec fn relaid_slot(slot: Slot) -> Slot
    decreases slot,
{
    Slot {
        before: indent_bytes(slot.before),
        node: relaid(slot.node),
        after: indent_bytes(slot.after),
    }
}

spec fn relaid_slots(slots: Seq<Slot>) -> Seq<Slot>
    decreases slots,
{
    if slots.len() == 0 {
        Seq::empty()
    } else {
        relaid_slots(slots.drop_last()).push(relaid_slot(slots[slots.len() - 1]))
    }
}

spec fn relaid_field(field: Field) -> Field
    decreases field,
{
    Field {
        before: indent_bytes(field.before),
        key: field.key,
        after: indent_bytes(field.after),
        slot: relaid_slot(field.slot),
    }
}

spec fn relaid_fields(fields: Seq<Field>) -> Seq<Field>
    decreases fields,
{
    if fields.len() == 0 {
        Seq::empty()
    } else {
        relaid_fields(fields.drop_last()).push(relaid_field(fields[fields.len() - 1]))
    }
}

/// Indenting the lines of a value changes its layout and nothing else.
proof fn indenting_is_layout(node: Node)
    requires
        proper(node),
    ensures
        written(relaid(node)) == indent_bytes(written(node)),
        proper(relaid(node)),
        document(relaid(node)) == document(node),
    decreases node,
{
    match node {
        Node::Text(raw) => {
            indent_one_line(raw);
        },
        Node::Literal(raw) => {
            assert(!raw.contains('\n' as u8)) by {
                if raw.contains('\n' as u8) {
                    let i = choose|i: int| 0 <= i < raw.len() && raw[i] == '\n' as u8;
                    assert(is_literal_byte(raw[i]));
                }
            }
            indent_one_line(raw);
        },
        Node::Array { slots, gap } => {
            let inner = if slots.len() == 0 {
                gap
            } else {
                written_slots(slots)
            };
            indent_blanks(gap);
            slots_relaid(slots);
            indent_bracketed('[' as u8, inner, ']' as u8);
        },
        Node::Object { fields, gap } => {
            let inner = if fields.len() == 0 {
                gap
            } else {
                written_fields(fields)
            };
            indent_blanks(gap);
            fields_relaid(fields);
            indent_bracketed('{' as u8, inner, '}' as u8);
        },
    }
}

proof fn indent_byte(b: u8)
    requires
        b != '\n' as u8,
    ensures
        indent_bytes(seq![b]) == seq![b],
{
    reveal_with_fuel(indent_bytes, 2);
    assert(seq![b].drop_last() =~= Seq::<u8>::empty());
    assert(indent_bytes(seq![b]) =~= seq![b]);
}

proof fn indent_bracketed(open: u8, inner: Seq<u8>, close: u8)
    requires
        open != '\n' as u8,
        close != '\n' as u8,
    ensures
        indent_bytes(seq![open] + inner + seq![close]) == seq![open] + indent_bytes(inner)
            + seq![close],
{
    indent_joined(seq![open] + inner, seq![close]);
    indent_joined(seq![open], inner);
    indent_byte(open);
    indent_byte(close);
}

proof fn slot_relaid(slot: Slot)
    requires
        proper_slot(slot),
    ensures
        written_slot(relaid_slot(slot)) == indent_bytes(written_slot(slot)),
        proper_slot(relaid_slot(slot)),
        document(relaid_slot(slot).node) == document(slot.node),
    decreases slot,
{
    indenting_is_layout(slot.node);
    indent_joined(slot.before + written(slot.node), slot.after);
    indent_joined(slot.before, written(slot.node));
    indent_blanks(slot.before);
    indent_blanks(slot.after);
}

proof fn slots_relaid(slots: Seq<Slot>)
    requires
        proper_slots(slots),
    ensures
        written_slots(relaid_slots(slots)) == indent_bytes(written_slots(slots)),
        proper_slots(relaid_slots(slots)),
        elements(relaid_slots(slots)) == elements(slots),
        relaid_slots(slots).len() == slots.len(),
    decreases slots,
{
    let new = relaid_slots(slots);
    if slots.len() > 0 {
        let last = slots[slots.len() - 1];
        let head = slots.drop_last();
        slots_relaid(head);
        slot_relaid(last);
        assert(new.drop_last() =~= relaid_slots(head));
        if slots.len() > 1 {
            indent_joined(written_slots(head) + seq![',' as u8], written_slot(last));
            indent_joined(written_slots(head), seq![',' as u8]);
            indent_byte(',' as u8);
        }
    }
}

proof fn field_relaid(field: Field)
    requires
        proper_field(field),
    ensures
        written_field(relaid_field(field)) == indent_bytes(written_field(field)),
        proper_field(relaid_field(field)),
        document(relaid_field(field).slot.node) == document(field.slot.node),
    decreases field,
{
    let a = field.before + field.key;
    let b = a + field.after;
    let c = b + seq![':' as u8];
    slot_relaid(field.slot);
    indent_joined(c, written_slot(field.slot));
    indent_joined(b, seq![':' as u8]);
    indent_joined(a, field.after);
    indent_joined(field.before, field.key);
    indent_byte(':' as u8);
    indent_one_line(field.key);
    indent_blanks(field.before);
    indent_blanks(field.after);
}

proof fn fields_relaid(fields: Seq<Field>)
    requires
        proper_fields(fields),
    ensures
        written_fields(relaid_fields(fields)) == indent_bytes(written_fields(fields)),
        proper_fields(relaid_fields(fields)),
        entries(relaid_fields(fields)) == entries(fields),
        relaid_fields(fields).len() == fields.len(),
    decreases fields,
{
    let new = relaid_fields(fields);
    if fields.len() > 0 {
        let last = fields[fields.len() - 1];
        let head = fields.drop_last();
        fields_relaid(head);
        field_relaid(last);
        assert(new.drop_last() =~= relaid_fields(head));
        if fields.len() > 1 {
            indent_joined(written_fields(head) + seq![',' as u8], written_field(last));
            indent_joined(written_fields(head), seq![',' as u8]);
            indent_byte(',' as u8);
        }
    }
}

proof fn encoding_joins(a: Seq<char>, b: Seq<char>)
    ensures
        encode_utf8(a + b) == encode_utf8(a) + encode_utf8(b),
    decreases a.len(),
{
    if a.len() == 0 {
        assert(a + b =~= b);
        assert(encode_utf8(a) + encode_utf8(b) =~= encode_utf8(b));
    } else {
        assert((a + b).drop_first() =~= a.drop_first() + b);
        encoding_joins(a.drop_first(), b);
        assert(encode_utf8(a + b) =~= encode_utf8(a) + encode_utf8(b));
    }
}

/// Only a newline is encoded with the byte of a newline.
proof fn other_characters_hold_no_newline(c: char)
    requires
        c != '\n',
    ensures
        !encode_utf8(seq![c]).contains('\n' as u8),
{
    let v = c as u32;
    char_is_scalar(c);
    reveal_with_fuel(encode_utf8, 2);
    assert(seq![c].drop_first() =~= Seq::<char>::empty());
    assert(encode_utf8(seq![c]) =~= encode_scalar(v));
    assert(v != 10);
    assert(has_width_1_encoding(v) && v != 10u32 ==> leading_byte_width_1(v) != 10u8)
        by (bit_vector);
    assert(leading_byte_width_2(v) != 10u8) by (bit_vector);
    assert(leading_byte_width_3(v) != 10u8) by (bit_vector);
    assert(leading_byte_width_4(v) != 10u8) by (bit_vector);
    assert(last_continuation_byte(v) != 10u8) by (bit_vector);
    assert(second_last_continuation_byte(v) != 10u8) by (bit_vector);
    assert(third_last_continuation_byte(v) != 10u8) by (bit_vector);
}

proof fn indenting_encoded(entry: Seq<char>)
    ensures
        encode_utf8(indented(entry)) == indent_bytes(encode_utf8(entry)),
    decreases entry.len(),
{
    if entry.len() > 0 {
        let head = entry.drop_last();
        let c = entry.last();
        indenting_encoded(head);
        assert(entry =~= head + seq![c]);
        encoding_joins(head, seq![c]);
        indent_joined(encode_utf8(head), encode_utf8(seq![c]));
        if c == '\n' {
            reveal_strlit("\n    ");
            is_ascii_chars_encode_utf8("\n    "@);
            is_ascii_chars_encode_utf8(seq![c]);
            assert(encode_utf8("\n    "@) =~= line_start());
            assert(encode_utf8(seq![c]) =~= seq!['\n' as u8]);
            reveal_with_fuel(indent_bytes, 2);
            assert(seq!['\n' as u8].drop_last() =~= Seq::<u8>::empty());
            assert(indent_bytes(seq!['\n' as u8]) =~= line_start());
            encoding_joins(indented(head), "\n    "@);
        } else {
            other_characters_hold_no_newline(c);
            indent_one_line(encode_utf8(seq![c]));
            assert(indented(entry) =~= indented(head) + seq![c]);
            encoding_joins(indented(head), seq![c]);
        }
    }
}

/// The first field from `i` on with this key.
pub open spec fn field_named(fields: Seq<Field>, key: Seq<u8>, i: int) -> Option<int>
    decreases fields.len() - i,
{
    if i < 0 || i >= fields.len() {
        None
    } else if fields[i].key == key {
        Some(i)
    } else {
        field_named(fields, key, i + 1)
    }
}

proof fn field_named_means(fields: Seq<Field>, key: Seq<u8>, i: int)
    requires
        0 <= i,
    ensures
        match field_named(fields, key, i) {
            Some(k) => i <= k < fields.len() && fields[k].key == key && forall|j: int|
                i <= j < k ==> (#[trigger] fields[j]).key != key,
            None => forall|j: int| i <= j < fields.len() ==> (#[trigger] fields[j]).key != key,
        },
    decreases fields.len() - i,
{
    if i < fields.len() && fields[i].key != key {
        field_named_means(fields, key, i + 1);
    }
}

/// Entries with one more element at the end of the list of the `k`th.
pub open spec fn with_element(
    entries: Seq<(Seq<u8>, Document)>,
    k: int,
    list: Seq<Document>,
    element: Document,
) -> Seq<(Seq<u8>, Document)> {
    entries.update(k, (entries[k].0, Document::List(list.push(element))))
}

proof fn key_search_runs(bytes: Seq<u8>, i: int, part: Seq<u8>, depth: int)
    requires
        stands_at(bytes, i, part),
        forall|k: int| 0 <= k < part.len() ==> is_idle(#[trigger] part[k]),
    ensures
        after_key(bytes, i, depth) == after_key(bytes, i + part.len(), depth),
    decreases part.len(),
{
    if part.len() > 0 {
        let rest = part.skip(1);
        assert(part =~= part.take(1) + rest);
        stands_split(bytes, i, part.take(1), rest);
        stands_byte(bytes, i, part, 0);
        assert(is_idle(part[0]));
        assert forall|k: int| 0 <= k < rest.len() implies is_idle(#[trigger] rest[k]) by {
            assert(rest[k] == part[k + 1]);
        }
        key_search_runs(bytes, i + 1, rest, depth);
    }
}

proof fn key_search_skips_blanks(bytes: Seq<u8>, i: int, part: Seq<u8>, depth: int)
    requires
        stands_at(bytes, i, part),
        all_blank(part),
    ensures
        after_key(bytes, i, depth) == after_key(bytes, i + part.len(), depth),
{
    assert forall|k: int| 0 <= k < part.len() implies is_idle(#[trigger] part[k]) by {
        assert(is_blank(part[k]));
    }
    key_search_runs(bytes, i, part, depth);
}

proof fn blanks_end(bytes: Seq<u8>, i: int, part: Seq<u8>)
    requires
        stands_at(bytes, i, part),
        all_blank(part),
        i + part.len() < bytes.len(),
        !is_blank(bytes[i + part.len()]),
    ensures
        past_blanks(bytes, i) == i + part.len(),
    decreases part.len(),
{
    if part.len() > 0 {
        let rest = part.skip(1);
        assert(part =~= part.take(1) + rest);
        stands_split(bytes, i, part.take(1), rest);
        stands_byte(bytes, i, part, 0);
        assert(is_blank(part[0]));
        assert forall|k: int| 0 <= k < rest.len() implies is_blank(#[trigger] rest[k]) by {
            assert(is_blank(part[k + 1]));
        }
        blanks_end(bytes, i + 1, rest);
    }
}

/// The last content before the white space `part`.
proof fn content_before(bytes: Seq<u8>, from: int, i: int, part: Seq<u8>)
    requires
        stands_at(bytes, i, part),
        all_blank(part),
        0 <= from <= i,
        from < i ==> !is_blank(bytes[i - 1]),
    ensures
        last_content(bytes, from, i + part.len()) == if from < i {
            Some(i - 1)
        } else {
            None
        },
    decreases part.len(),
{
    if part.len() > 0 {
        let head = part.drop_last();
        assert(part =~= head + seq![part.last()]);
        stands_split(bytes, i, head, seq![part.last()]);
        stands_byte(bytes, i, part, part.len() - 1);
        assert(is_blank(part[part.len() - 1]));
        assert forall|k: int| 0 <= k < head.len() implies is_blank(#[trigger] head[k]) by {
            assert(is_blank(part[k]));
        }
        content_before(bytes, from, i, head);
    }
}

proof fn closing_quote(raw: Seq<u8>, k: int)
    requires
        0 <= k,
        is_closed(raw, k),
    ensures
        k < string_end(raw, k) <= raw.len(),
        raw[string_end(raw, k) - 1] == '"' as u8,
    decreases raw.len() - k,
{
    if raw[k] == '\\' as u8 {
        closing_quote(raw, k + 2);
    } else if raw[k] != '"' as u8 {
        closing_quote(raw, k + 1);
    }
}

/// A value ends in a byte of its own.
proof fn value_end(node: Node)
    requires
        proper(node),
    ensures
        written(node).len() > 0,
        !is_blank(written(node).last()),
        written(node).last() < 0x80,
{
    match node {
        Node::Text(raw) => {
            closing_quote(raw, 1);
        },
        Node::Literal(raw) => {
            assert(is_literal_byte(raw[raw.len() - 1]));
        },
        Node::Array { slots, gap } => {},
        Node::Object { fields, gap } => {},
    }
}

/// Whether what follows a value in an object stands at `i`.
spec fn value_ends_at(bytes: Seq<u8>, i: int) -> bool {
    0 <= i < bytes.len() && (bytes[i] == ',' as u8 || bytes[i] == '}' as u8)
}

/// The search for a key passes over a value, whatever it holds.
proof fn key_search_skips_value(bytes: Seq<u8>, i: int, slot: Slot)
    requires
        stands_at(bytes, i, written_slot(slot)),
        proper_slot(slot),
        value_ends_at(bytes, i + written_slot(slot).len()),
    ensures
        after_key(bytes, i, 1) == after_key(bytes, i + written_slot(slot).len(), 1),
{
    let node = slot.node;
    let head = slot.before + written(node);
    let at = i + slot.before.len();
    let end = i + head.len();
    stands_split(bytes, i, head, slot.after);
    stands_split(bytes, i, slot.before, written(node));
    key_search_skips_blanks(bytes, i, slot.before, 1);
    key_search_skips_blanks(bytes, end, slot.after, 1);
    match node {
        Node::Text(raw) => {
            text_passes(bytes, at, raw);
            blanks_end(bytes, end, slot.after);
        },
        Node::Literal(raw) => {
            assert forall|k: int| 0 <= k < raw.len() implies is_idle(#[trigger] raw[k]) by {
                assert(is_literal_byte(raw[k]));
            }
            key_search_runs(bytes, at, raw, 1);
        },
        Node::Array { slots, gap } => {
            let inner = if slots.len() == 0 {
                gap
            } else {
                written_slots(slots)
            };
            stands_inside(bytes, at, '[' as u8, inner, ']' as u8);
            if slots.len() == 0 {
                blanks_pass(bytes, at + 1, gap);
            } else {
                slots_pass(bytes, at + 1, slots);
            }
            assert(after_key(bytes, at, 1) == after_key(bytes, at + 1, 2));
            assert(after_key(bytes, at + 1 + inner.len(), 2) == after_key(bytes, end, 1));
        },
        Node::Object { fields, gap } => {
            let inner = if fields.len() == 0 {
                gap
            } else {
                written_fields(fields)
            };
            stands_inside(bytes, at, '{' as u8, inner, '}' as u8);
            if fields.len() == 0 {
                blanks_pass(bytes, at + 1, gap);
            } else {
                fields_pass(bytes, at + 1, fields);
            }
            assert(after_key(bytes, at, 1) == after_key(bytes, at + 1, 2));
            assert(after_key(bytes, at + 1 + inner.len(), 2) == after_key(bytes, end, 1));
        },
    }
}

/// The search for the token list passes over a field with another key.
proof fn key_search_skips_field(bytes: Seq<u8>, i: int, field: Field)
    requires
        stands_at(bytes, i, written_field(field)),
        proper_field(field),
        field.key != tokens_key(),
        value_ends_at(bytes, i + written_field(field).len()),
    ensures
        after_key(bytes, i, 1) == after_key(bytes, i + written_field(field).len(), 1),
{
    field_parts(bytes, i, field);
    let k = i + field.before.len();
    let c = k + field.key.len() + field.after.len();
    key_search_skips_blanks(bytes, i, field.before, 1);
    text_passes(bytes, k, field.key);
    assert(bytes.subrange(k, k + field.key.len()) == field.key);
    key_search_skips_blanks(bytes, k + field.key.len(), field.after, 1);
    key_search_runs(bytes, c, seq![':' as u8], 1);
    key_search_skips_value(bytes, c + 1, field.slot);
}

proof fn key_search_skips_fields(bytes: Seq<u8>, i: int, fields: Seq<Field>)
    requires
        stands_at(bytes, i, written_fields(fields)),
        proper_fields(fields),
        fields.len() > 0,
        forall|j: int| 0 <= j < fields.len() ==> (#[trigger] fields[j]).key != tokens_key(),
        value_ends_at(bytes, i + written_fields(fields).len()),
    ensures
        after_key(bytes, i, 1) == after_key(bytes, i + written_fields(fields).len(), 1),
    decreases fields.len(),
{
    let last = fields[fields.len() - 1];
    if fields.len() == 1 {
        key_search_skips_field(bytes, i, last);
    } else {
        let head = fields.drop_last();
        let n = written_fields(head).len();
        stands_split(bytes, i, written_fields(head) + seq![',' as u8], written_field(last));
        stands_split(bytes, i, written_fields(head), seq![',' as u8]);
        stands_byte(bytes, i + n, seq![',' as u8], 0);
        assert forall|j: int| 0 <= j < head.len() implies (#[trigger] head[j]).key
            != tokens_key() by {
            assert(head[j] == fields[j]);
        }
        key_search_skips_fields(bytes, i, head);
        key_search_runs(bytes, i + n, seq![',' as u8], 1);
        key_search_skips_field(bytes, i + n + 1, last);
    }
}

/// The text of fields around the `k`th.
proof fn around_field(fields: Seq<Field>, k: int) -> (r: (Seq<u8>, Seq<u8>))
    requires
        0 <= k < fields.len(),
    ensures
        forall|f: Field| #[trigger]
            written_fields(fields.update(k, f)) == r.0 + written_field(f) + r.1,
        written_fields(fields) == r.0 + written_field(fields[k]) + r.1,
        r.0 == if k == 0 {
            Seq::empty()
        } else {
            written_fields(fields.take(k)) + seq![',' as u8]
        },
        r.1.len() > 0 ==> r.1[0] == ',' as u8,
    decreases fields.len(),
{
    let n = fields.len() - 1;
    let head = fields.drop_last();
    if k == n {
        let before = if k == 0 {
            Seq::empty()
        } else {
            written_fields(head) + seq![',' as u8]
        };
        assert(head =~= fields.take(k));
        assert forall|f: Field| #[trigger]
            written_fields(fields.update(k, f)) == before + written_field(f) + Seq::<
            u8,
        >::empty() by {
            assert(fields.update(k, f).drop_last() =~= head);
            assert(written_fields(fields.update(k, f)) =~= before + written_field(f));
        }
        assert(fields.update(k, fields[k]) =~= fields);
        (before, Seq::empty())
    } else {
        let (before, a) = around_field(head, k);
        let after = a + seq![',' as u8] + written_field(fields[n]);
        assert(head.take(k) =~= fields.take(k));
        assert forall|f: Field| #[trigger]
            written_fields(fields.update(k, f)) == before + written_field(f) + after by {
            let new = fields.update(k, f);
            assert(new.drop_last() =~= head.update(k, f));
            assert(written_fields(head.update(k, f)) == before + written_field(f) + a);
            assert(written_fields(new) =~= before + written_field(f) + after);
        }
        assert(fields.update(k, fields[k]) =~= fields);
        (before, after)
    }
}

proof fn proper_prefix(fields: Seq<Field>, k: int)
    requires
        proper_fields(fields),
        0 <= k <= fields.len(),
    ensures
        proper_fields(fields.take(k)),
        k < fields.len() ==> proper_field(fields[k]),
    decreases fields.len(),
{
    if k < fields.len() {
        if k == fields.len() - 1 {
            assert(fields.take(k) =~= fields.drop_last());
        } else {
            proper_prefix(fields.drop_last(), k);
            assert(fields.drop_last().take(k) =~= fields.take(k));
        }
    } else {
        assert(fields.take(k) =~= fields);
    }
}

proof fn proper_update(fields: Seq<Field>, k: int, f: Field)
    requires
        proper_fields(fields),
        0 <= k < fields.len(),
        proper_field(f),
    ensures
        proper_fields(fields.update(k, f)),
        entries(fields).len() == fields.len(),
        entries(fields.update(k, f)) == entries(fields).update(
            k,
            (f.key, document(f.slot.node)),
        ),
        entries(fields)[k] == (fields[k].key, document(fields[k].slot.node)),
    decreases fields.len(),
{
    let new = fields.update(k, f);
    entries_len(fields);
    entries_len(fields.drop_last());
    if k == fields.len() - 1 {
        assert(new.drop_last() =~= fields.drop_last());
        assert(entries(new) =~= entries(fields).update(k, (f.key, document(f.slot.node))));
    } else {
        proper_update(fields.drop_last(), k, f);
        assert(new.drop_last() =~= fields.drop_last().update(k, f));
        assert(entries(new) =~= entries(fields).update(k, (f.key, document(f.slot.node))));
    }
}

proof fn entries_len(fields: Seq<Field>)
    ensures
        entries(fields).len() == fields.len(),
    decreases fields.len(),
{
    if fields.len() > 0 {
        entries_len(fields.drop_last());
    }
}

/// What stands between the brackets of a list.
spec fn inside(slots: Seq<Slot>, gap: Seq<u8>) -> Seq<u8> {
    if slots.len() == 0 {
        gap
    } else {
        written_slots(slots)
    }
}

/// A line break and the indentation of a closing bracket.
spec fn line_end() -> Seq<u8> {
    seq!['\n' as u8, ' ' as u8, ' ' as u8]
}

/// The bytes that are put into a list for `node`.
spec fn inserted(node: Node, first: bool) -> Seq<u8> {
    if first {
        line_start() + written(node) + line_end()
    } else {
        seq![',' as u8] + line_start() + written(node)
    }
}

/// How far into a list its last element reaches.
spec fn content_len(slots: Seq<Slot>, gap: Seq<u8>) -> int {
    if slots.len() == 0 {
        0
    } else {
        inside(slots, gap).len() - slots.last().after.len()
    }
}

/// A list with one more element.
spec fn grown(slots: Seq<Slot>, gap: Seq<u8>, node: Node) -> Seq<Slot> {
    if slots.len() == 0 {
        seq![Slot { before: line_start(), node, after: line_end() + gap }]
    } else {
        slots.drop_last().push(Slot { after: Seq::empty(), ..slots.last() }).push(
            Slot { before: line_start(), node, after: slots.last().after },
        )
    }
}

proof fn insertion_encoded(entry: Seq<char>, token: Node, first: bool)
    requires
        proper(token),
        encode_utf8(entry) == written(token),
    ensures
        encode_utf8(insertion(entry, first)) == inserted(relaid(token), first),
{
    let body = indented(entry);
    indenting_encoded(entry);
    indenting_is_layout(token);
    if first {
        reveal_strlit("\n    ");
        reveal_strlit("\n  ");
        is_ascii_chars_encode_utf8("\n    "@);
        is_ascii_chars_encode_utf8("\n  "@);
        assert(encode_utf8("\n    "@) =~= line_start());
        assert(encode_utf8("\n  "@) =~= line_end());
        encoding_joins("\n    "@ + body, "\n  "@);
        encoding_joins("\n    "@, body);
    } else {
        reveal_strlit(",\n    ");
        is_ascii_chars_encode_utf8(",\n    "@);
        assert(encode_utf8(",\n    "@) =~= seq![',' as u8] + line_start());
        encoding_joins(",\n    "@, body);
    }
}

/// What is put in reads as JSON by itself.
proof fn inserted_settles(node: Node, first: bool)
    requires
        proper(node),
    ensures
        settles(inserted(node, first), 0, inserted(node, first).len() as int),
        inserted(node, first).len() > 0,
        inserted(node, first)[0] != '/' as u8,
        inserted(node, first)[0] != '*' as u8,
{
    let all = inserted(node, first);
    let head = if first {
        line_start()
    } else {
        seq![',' as u8] + line_start()
    };
    let tail = if first {
        line_end()
    } else {
        Seq::empty()
    };
    let n = head.len() as int;
    let m = n + written(node).len();
    assert(all =~= head + written(node) + tail);
    assert(all.subrange(0, all.len() as int) =~= all);
    stands_split(all, 0, head + written(node), tail);
    stands_split(all, 0, head, written(node));
    run_passes(all, 0, head);
    node_passes(all, n, node);
    run_passes(all, m, tail);
    passes_on(all, 0, n, m);
    passes_on(all, 0, m, all.len() as int);
    assert(settles(all, 0, all.len() as int) == settles(all, all.len() as int, all.len() as int));
}

/// Putting an element behind the last one makes the text of the longer list.
proof fn list_grows(slots: Seq<Slot>, gap: Seq<u8>, node: Node)
    requires
        proper_slots(slots),
        all_blank(gap),
        proper(node),
    ensures
        ({
            let text = inside(slots, gap);
            let n = content_len(slots, gap);
            let new = grown(slots, gap, node);
            &&& 0 <= n <= text.len()
            &&& new.len() > 0
            &&& proper_slots(new)
            &&& written_slots(new) == text.take(n) + inserted(node, slots.len() == 0) + text.skip(n)
            &&& elements(new) == elements(slots).push(document(node))
        }),
{
    let text = inside(slots, gap);
    let n = content_len(slots, gap);
    let new = grown(slots, gap, node);
    let first = slots.len() == 0;
    let added = new.last();
    assert(all_blank(line_start()));
    assert(all_blank(line_end() + gap)) by {
        assert forall|i: int| 0 <= i < (line_end() + gap).len() implies is_blank(
            #[trigger] (line_end() + gap)[i],
        ) by {
            if i >= 3 {
                assert((line_end() + gap)[i] == gap[i - 3]);
            }
        }
    }
    if first {
        assert(new.drop_last() =~= Seq::<Slot>::empty());
        assert(proper_slots(new.drop_last()));
        assert(elements(new.drop_last()) =~= elements(slots));
        assert(slots =~= Seq::<Slot>::empty());
        assert(written_slots(new) == written_slot(new[0]));
        assert(written_slot(new[0]) == line_start() + written(node) + (line_end() + gap));
        assert(text.skip(n) =~= gap);
        assert(written_slots(new) =~= text.take(n) + inserted(node, first) + text.skip(n));
    } else {
        let last = slots[slots.len() - 1];
        let bare = Slot { after: Seq::empty(), ..last };
        let head = slots.drop_last();
        let middle = head.push(bare);
        assert(new.drop_last() =~= middle);
        assert(middle.drop_last() =~= head);
        assert(proper_slot(last));
        assert(all_blank(bare.after));
        assert(proper_slot(bare));
        assert(proper_slots(middle));
        assert(elements(middle) =~= elements(slots));
        assert(written_slot(last) =~= written_slot(bare) + last.after);
        let lead = if slots.len() == 1 {
            Seq::empty()
        } else {
            written_slots(head) + seq![',' as u8]
        };
        assert(text =~= lead + written_slot(bare) + last.after);
        assert(written_slots(middle) =~= lead + written_slot(bare));
        assert(text.take(n) =~= written_slots(middle));
        assert(text.skip(n) =~= last.after);
        assert(proper_slots(new.drop_last()));
        assert(written_slots(new) == written_slots(middle) + seq![',' as u8] + written_slot(
            added,
        ));
        assert(written_slot(added) == line_start() + written(node) + last.after);
        assert(written_slots(new) =~= text.take(n) + inserted(node, first) + text.skip(n));
    }
    assert(added == new[new.len() - 1]);
    assert(proper_slot(added));
    assert(proper_slots(new));
    assert(elements(new) == elements(slots).push(document(node)));
}

/// Where the last of the elements of a list ends.
proof fn last_element_ends(bytes: Seq<u8>, i: int, slots: Seq<Slot>)
    requires
        stands_at(bytes, i, written_slots(slots)),
        proper_slots(slots),
        slots.len() > 0,
    ensures
        ({
            let last = slots[slots.len() - 1];
            let end = i + written_slots(slots).len() - last.after.len();
            &&& i < end
            &&& stands_at(bytes, end, last.after)
            &&& all_blank(last.after)
            &&& !is_blank(bytes[end - 1])
            &&& bytes[end - 1] < 0x80
            &&& settles(bytes, i, end)
        }),
{
    let last = slots[slots.len() - 1];
    let head = slots.drop_last();
    let lead = if slots.len() == 1 {
        Seq::empty()
    } else {
        written_slots(head) + seq![',' as u8]
    };
    let body = last.before + written(last.node);
    let at = i + lead.len() + last.before.len();
    let end = at + written(last.node).len();
    assert(proper_slot(last));
    assert(written_slot(last) == body + last.after);
    assert(written_slots(slots) =~= lead + written_slot(last));
    assert(written_slots(slots) =~= lead + body + last.after);
    stands_split(bytes, i, lead + body, last.after);
    stands_split(bytes, i, lead, body);
    stands_split(bytes, i + lead.len(), last.before, written(last.node));
    value_end(last.node);
    stands_byte(bytes, at, written(last.node), written(last.node).len() - 1);
    if slots.len() > 1 {
        stands_split(bytes, i, written_slots(head), seq![',' as u8]);
        slots_pass(bytes, i, head);
        comma_passes(bytes, i + written_slots(head).len(), ',' as u8);
        passes_on(bytes, i, i + written_slots(head).len(), i + lead.len());
    }
    blanks_pass(bytes, i + lead.len(), last.before);
    node_passes(bytes, at, last.node);
    assert(settles(bytes, i, end) == settles(bytes, i + lead.len(), end));
    assert(settles(bytes, i + lead.len(), end) == settles(bytes, at, end));
    assert(settles(bytes, at, end) == settles(bytes, end, end));
}

/// A document whose `k`th field has another value.
spec fn with_value(doc: Slot, fields: Seq<Field>, gap: Seq<u8>, k: int, node: Node) -> Slot {
    Slot {
        node: Node::Object {
            fields: fields.update(
                k,
                Field { slot: Slot { node, ..fields[k].slot }, ..fields[k] },
            ),
            gap,
        },
        ..doc
    }
}

/// The text of a document around the value of its `k`th field.
proof fn around_value(doc: Slot, fields: Seq<Field>, gap: Seq<u8>, k: int) -> (r: (
    Seq<u8>,
    Seq<u8>,
    Seq<u8>,
    Seq<u8>,
))
    requires
        doc.node == (Node::Object { fields, gap }),
        0 <= k < fields.len(),
    ensures
        r.0 == doc.before + seq!['{' as u8] + r.2,
        r.2 == if k == 0 {
            Seq::empty()
        } else {
            written_fields(fields.take(k)) + seq![',' as u8]
        },
        r.1 == r.3 + seq!['}' as u8] + doc.after,
        r.3.len() > 0 ==> r.3[0] == ',' as u8,
        written_slot(doc) == r.0 + written_field(fields[k]) + r.1,
        forall|node: Node| #[trigger]
            written_slot(with_value(doc, fields, gap, k, node)) == r.0 + written_field(
                Field { slot: Slot { node, ..fields[k].slot }, ..fields[k] },
            ) + r.1,
{
    let (p, q) = around_field(fields, k);
    let left = doc.before + seq!['{' as u8] + p;
    let right = q + seq!['}' as u8] + doc.after;
    assert(written_slot(doc) =~= left + written_field(fields[k]) + right);
    assert forall|node: Node| #[trigger]
        written_slot(with_value(doc, fields, gap, k, node)) == left + written_field(
            Field { slot: Slot { node, ..fields[k].slot }, ..fields[k] },
        ) + right by {
        let f = Field { slot: Slot { node, ..fields[k].slot }, ..fields[k] };
        assert(written_fields(fields.update(k, f)) == p + written_field(f) + q);
        assert(written_slot(with_value(doc, fields, gap, k, node)) =~= left + written_field(f)
            + right);
    }
    (left, right, p, q)
}

proof fn settles_on(bytes: Seq<u8>, i: int, m: int, n: int)
    requires
        settles(bytes, i, m),
        settles(bytes, m, n),
        m <= n,
    ensures
        settles(bytes, i, n),
    decreases bytes.len() - i,
{
    if i < m {
        if bytes[i] == '"' as u8 {
            settles_on(bytes, string_end(bytes, i + 1), m, n);
        } else {
            settles_on(bytes, i + 1, m, n);
        }
    }
}

/// The search for the token list comes to the field that holds it.
proof fn field_is_reached(bytes: Seq<u8>, o: int, before: Seq<u8>, fields: Seq<Field>, k: int)
    requires
        0 <= k < fields.len(),
        proper_fields(fields),
        all_blank(before),
        stands_at(bytes, 0, before),
        o == before.len() < bytes.len(),
        bytes[o] == '{' as u8,
        k > 0 ==> stands_at(bytes, o + 1, written_fields(fields.take(k)) + seq![',' as u8]),
        forall|j: int| 0 <= j < k ==> (#[trigger] fields[j]).key != tokens_key(),
    ensures
        ({
            let f = o + 1 + (if k == 0 {
                0
            } else {
                written_fields(fields.take(k)).len() + 1
            });
            &&& after_key(bytes, 0, 0) == after_key(bytes, f, 1)
            &&& settles(bytes, 0, f)
        }),
{
    key_search_skips_blanks(bytes, 0, before, 0);
    blanks_pass(bytes, 0, before);
    assert(after_key(bytes, o, 0) == after_key(bytes, o + 1, 1));
    assert(settles(bytes, 0, o) == settles(bytes, o, o));
    assert(settles(bytes, o + 1, o + 1));
    assert(settles(bytes, o, o + 1));
    settles_on(bytes, 0, o, o + 1);
    if k > 0 {
        let earlier = fields.take(k);
        let n = written_fields(earlier).len();
        proper_prefix(fields, k);
        assert forall|j: int| 0 <= j < earlier.len() implies (#[trigger] earlier[j]).key
            != tokens_key() by {
            assert(earlier[j] == fields[j]);
        }
        stands_split(bytes, o + 1, written_fields(earlier), seq![',' as u8]);
        stands_byte(bytes, o + 1 + n, seq![',' as u8], 0);
        key_search_skips_fields(bytes, o + 1, earlier);
        key_search_runs(bytes, o + 1 + n, seq![',' as u8], 1);
        fields_pass(bytes, o + 1, earlier);
        comma_passes(bytes, o + 1 + n, ',' as u8);
        passes_on(bytes, o + 1, o + 1 + n, o + 2 + n);
        assert(settles(bytes, o + 1, o + 2 + n) == settles(bytes, o + 2 + n, o + 2 + n));
        settles_on(bytes, 0, o + 1, o + 2 + n);
    }
}

/// The search for the token list comes from its field to the list.
proof fn list_is_reached(bytes: Seq<u8>, f: int, field: Field)
    requires
        stands_at(bytes, f, written_field(field)),
        proper_field(field),
        field.key == tokens_key(),
        field.slot.node is Array,
    ensures
        ({
            let c = f + field.before.len() + field.key.len() + field.after.len();
            let open = c + 1 + field.slot.before.len();
            &&& stands_at(bytes, open, written(field.slot.node))
            &&& bytes[open] == '[' as u8
            &&& after_key(bytes, f, 1) == Some(c + 1)
            &&& past_blanks(bytes, c + 1) == open
            &&& settles(bytes, f, open + 1)
        }),
{
    let slot = field.slot;
    let key = f + field.before.len();
    let c = key + field.key.len() + field.after.len();
    let open = c + 1 + slot.before.len();
    field_parts(bytes, f, field);
    stands_byte(bytes, c, seq![':' as u8], 0);
    stands_split(bytes, c + 1, slot.before + written(slot.node), slot.after);
    stands_split(bytes, c + 1, slot.before, written(slot.node));
    assert(written(slot.node)[0] == '[' as u8);
    stands_byte(bytes, open, written(slot.node), 0);
    key_search_skips_blanks(bytes, f, field.before, 1);
    text_passes(bytes, key, field.key);
    assert(bytes.subrange(key, key + field.key.len()) == tokens_key());
    blanks_end(bytes, key + field.key.len(), field.after);
    assert(after_key(bytes, key, 1) == Some(c + 1));
    blanks_end(bytes, c + 1, slot.before);
    blanks_pass(bytes, f, field.before);
    blanks_pass(bytes, key + field.key.len(), field.after);
    comma_passes(bytes, c, ':' as u8);
    blanks_pass(bytes, c + 1, slot.before);
    passes_on(bytes, f, key, key + field.key.len());
    passes_on(bytes, f, key + field.key.len(), c);
    passes_on(bytes, f, c, c + 1);
    passes_on(bytes, f, c + 1, open);
    assert(settles(bytes, open + 1, open + 1));
    assert(settles(bytes, open, open + 1));
    assert(settles(bytes, f, open + 1) == settles(bytes, open, open + 1));
}

/// The search for the end of a list comes to its closing bracket.
proof fn list_is_closed(bytes: Seq<u8>, open: int, slots: Seq<Slot>, gap: Seq<u8>)
    requires
        stands_at(bytes, open, written(Node::Array { slots, gap })),
        proper(Node::Array { slots, gap }),
    ensures
        ({
            let close = open + 1 + inside(slots, gap).len();
            &&& close_of(bytes, open, 0) == Some(close as int)
            &&& close < bytes.len()
            &&& bytes[close] == ']' as u8
            &&& stands_at(bytes, open + 1, inside(slots, gap))
            &&& proper_slots(slots)
            &&& all_blank(gap)
        }),
{
    let inner = inside(slots, gap);
    let close = open + 1 + inner.len();
    assert(written(Node::Array { slots, gap }) == seq!['[' as u8] + inner + seq![']' as u8]);
    stands_inside(bytes, open, '[' as u8, inner, ']' as u8);
    if slots.len() == 0 {
        blanks_pass(bytes, open + 1, gap);
    } else {
        slots_pass(bytes, open + 1, slots);
    }
    assert(close_of(bytes, open, 0) == close_of(bytes, open + 1, 1));
    assert(close_of(bytes, open + 1, 1) == close_of(bytes, close, 1));
}

/// Where the parts of an object up to one of its fields stand.
proof fn parts_stand(
    bytes: Seq<u8>,
    before: Seq<u8>,
    earlier: Seq<u8>,
    field: Seq<u8>,
    rest: Seq<u8>,
)
    requires
        bytes == (before + seq!['{' as u8] + earlier) + field + rest,
    ensures
        before.len() < bytes.len(),
        stands_at(bytes, 0, before),
        bytes[before.len() as int] == '{' as u8,
        stands_at(bytes, (before.len() + 1) as int, earlier),
        stands_at(bytes, (before.len() + 1 + earlier.len()) as int, field),
{
    let left = before + seq!['{' as u8] + earlier;
    assert(bytes.subrange(0, bytes.len() as int) =~= bytes);
    stands_split(bytes, 0, left + field, rest);
    stands_split(bytes, 0, left, field);
    stands_split(bytes, 0, before + seq!['{' as u8], earlier);
    stands_split(bytes, 0, before, seq!['{' as u8]);
    stands_byte(bytes, before.len() as int, seq!['{' as u8], 0);
}

/// What is searched for in a text whose token list is the value of the `k`th
/// field: where the list begins and ends, and that its brackets are outside
/// strings.
#[verifier::rlimit(60)]
#[verifier::spinoff_prover]
proof fn list_is_found(
    bytes: Seq<u8>,
    doc: Slot,
    fields: Seq<Field>,
    gap: Seq<u8>,
    k: int,
    slots: Seq<Slot>,
    list_gap: Seq<u8>,
) -> (open: int)
    requires
        bytes == written_slot(doc),
        proper_slot(doc),
        doc.node == (Node::Object { fields, gap }),
        field_named(fields, tokens_key(), 0) == Some(k),
        fields[k].slot.node == (Node::Array { slots, gap: list_gap }),
    ensures
        0 <= open,
        open + 1 + inside(slots, list_gap).len() < bytes.len(),
        after_key(bytes, 0, 0) matches Some(at) && past_blanks(bytes, at) == open,
        bytes[open] == '[' as u8,
        bytes[open + 1 + inside(slots, list_gap).len()] == ']' as u8,
        close_of(bytes, open, 0) == Some(open + 1 + inside(slots, list_gap).len() as int),
        stands_at(bytes, open + 1, inside(slots, list_gap)),
        settles(bytes, 0, open + 1),
        0 <= k < fields.len(),
        proper_slots(slots),
        all_blank(list_gap),
        proper_field(fields[k]),
        forall|node: Node| #[trigger]
            written_slot(with_value(doc, fields, gap, k, node)) == bytes.take(open) + written(node)
                + bytes.skip(open + 2 + inside(slots, list_gap).len()),
{
    field_named_means(fields, tokens_key(), 0);
    let field = fields[k];
    let slot = field.slot;
    let (left, right, p, q) = around_value(doc, fields, gap, k);
    proper_prefix(fields, k);
    let o = doc.before.len() as int;
    let f = left.len() as int;
    parts_stand(bytes, doc.before, p, written_field(field), right);
    let open = f + field.before.len() + field.key.len() + field.after.len() + 1
        + slot.before.len();
    let close = open + 1 + inside(slots, list_gap).len();
    field_is_reached(bytes, o, doc.before, fields, k);
    list_is_reached(bytes, f, field);
    list_is_closed(bytes, open, slots, list_gap);
    settles_on(bytes, 0, f, open + 1);
    around_list(bytes, left, field, right);
    assert forall|node: Node| #[trigger]
        written_slot(with_value(doc, fields, gap, k, node)) == bytes.take(open) + written(node)
            + bytes.skip(close + 1) by {
        around_node(left, field, node, right);
    }
    open
}

/// The text of a field with another value, within a longer text.
proof fn around_node(left: Seq<u8>, field: Field, node: Node, right: Seq<u8>)
    ensures
        left + written_field(Field { slot: Slot { node, ..field.slot }, ..field }) + right == (left
            + field.before + field.key + field.after + seq![':' as u8] + field.slot.before)
            + written(node) + (field.slot.after + right),
{
    let f = Field { slot: Slot { node, ..field.slot }, ..field };
    assert(written_slot(f.slot) == field.slot.before + written(node) + field.slot.after);
    assert(written_field(f) == field.before + field.key + field.after + seq![':' as u8]
        + written_slot(f.slot));
    assert(left + written_field(f) + right =~= (left + field.before + field.key + field.after
        + seq![':' as u8] + field.slot.before) + written(node) + (field.slot.after + right));
}

proof fn around_list(bytes: Seq<u8>, left: Seq<u8>, field: Field, right: Seq<u8>)
    requires
        bytes == left + written_field(field) + right,
    ensures
        ({
            let open = left.len() + field.before.len() + field.key.len() + field.after.len() + 1
                + field.slot.before.len();
            let end = open + written(field.slot.node).len();
            &&& bytes.take(open as int) == left + field.before + field.key + field.after
                + seq![':' as u8] + field.slot.before
            &&& bytes.skip(end as int) == field.slot.after + right
        }),
{
    around_node(left, field, field.slot.node, right);
    let lead = left + field.before + field.key + field.after + seq![':' as u8] + field.slot.before;
    let trail = field.slot.after + right;
    assert(bytes == lead + written(field.slot.node) + trail);
    assert(bytes.take(lead.len() as int) =~= lead);
    assert(bytes.skip((lead.len() + written(field.slot.node).len()) as int) =~= trail);
}

/// A config text whose top-level object has no key spelled `auth_tokens` is
/// one into which no token can be spliced.
pub proof fn texts_without_a_list_are_left_alone(
    text: Seq<u8>,
    doc: Slot,
    fields: Seq<Field>,
    gap: Seq<u8>,
)
    requires
        stripped(text, Mode::Code) == written_slot(doc),
        proper_slot(doc),
        doc.node == (Node::Object { fields, gap }),
        field_named(fields, encode_utf8("\"auth_tokens\""@), 0) is None,
    ensures
        splice_point(text) == Ok::<Option<(int, bool)>, ()>(None),
{
    let bytes = written_slot(doc);
    field_named_means(fields, tokens_key(), 0);
    let inner = if fields.len() == 0 {
        gap
    } else {
        written_fields(fields)
    };
    let o = doc.before.len() as int;
    let close = o + 1 + inner.len();
    assert(bytes.subrange(0, bytes.len() as int) =~= bytes);
    stands_split(bytes, 0, doc.before + written(doc.node), doc.after);
    stands_split(bytes, 0, doc.before, written(doc.node));
    stands_inside(bytes, o, '{' as u8, inner, '}' as u8);
    key_search_skips_blanks(bytes, 0, doc.before, 0);
    assert(after_key(bytes, o, 0) == after_key(bytes, o + 1, 1));
    if fields.len() == 0 {
        key_search_skips_blanks(bytes, o + 1, gap, 1);
    } else {
        key_search_skips_fields(bytes, o + 1, fields);
    }
    assert(after_key(bytes, close, 1) == after_key(bytes, close + 1, 0));
    key_search_skips_blanks(bytes, close + 1, doc.after, 0);
}

/// Adding a token to a config text whose top-level object has a list under the
/// key `auth_tokens` gives a config text for the same document, comments and
/// all, with the token as the last element of that list. `doc` is the text
/// without its comments, `token` the token's own text; the result is the new
/// text without its comments.
pub proof fn added_tokens_join_the_list(
    text: Seq<u8>,
    entry: Seq<char>,
    doc: Slot,
    fields: Seq<Field>,
    gap: Seq<u8>,
    k: int,
    slots: Seq<Slot>,
    list_gap: Seq<u8>,
    token: Node,
) -> (new: Slot)
    requires
        stripped(text, Mode::Code) == written_slot(doc),
        proper_slot(doc),
        doc.node == (Node::Object { fields, gap }),
        field_named(fields, encode_utf8("\"auth_tokens\""@), 0) == Some(k),
        fields[k].slot.node == (Node::Array { slots, gap: list_gap }),
        encode_utf8(entry) == written(token),
        proper(token),
    ensures
        match splice_point(text) {
            Ok(Some((at, first))) => 0 <= at <= text.len() && stripped(
                text.take(at) + encode_utf8(insertion(entry, first)) + text.skip(at),
                Mode::Code,
            ) == written_slot(new),
            _ => false,
        },
        proper_slot(new),
        document(new.node) == Document::Record(
            with_element(entries(fields), k, elements(slots), document(token)),
        ),
{
    let bytes = written_slot(doc);
    let node = relaid(token);
    let first = slots.len() == 0;
    let inner = inside(slots, list_gap);
    let n = content_len(slots, list_gap);
    let ins = inserted(node, first);
    let more = grown(slots, list_gap, node);
    let open = list_is_found(bytes, doc, fields, gap, k, slots, list_gap);
    let at = open + 1 + n;
    let close = open + 1 + inner.len();
    stripping_keeps_layout(text, Mode::Code);
    indenting_is_layout(token);
    insertion_encoded(entry, token, first);
    list_grows(slots, list_gap, node);
    content_ends(bytes, open, slots, list_gap);
    assert(splice_point(text) == Ok::<Option<(int, bool)>, ()>(Some((at, first))));
    element_is_spliced(text, bytes, at, node, first);
    let list = Node::Array { slots: more, gap: list_gap };
    let new = with_value(doc, fields, gap, k, list);
    assert(written(list) == seq!['[' as u8] + written_slots(more) + seq![']' as u8]);
    list_is_replaced(bytes, open, inner, n, ins);
    let f = Field { slot: Slot { node: list, ..fields[k].slot }, ..fields[k] };
    assert(proper(list));
    assert(proper_field(f));
    proper_update(fields, k, f);
    new
}

/// Where the content of a list ends, and that this is outside strings.
proof fn content_ends(bytes: Seq<u8>, open: int, slots: Seq<Slot>, gap: Seq<u8>)
    requires
        0 <= open < bytes.len(),
        bytes[open] == '[' as u8,
        stands_at(bytes, open + 1, inside(slots, gap)),
        settles(bytes, 0, open + 1),
        proper_slots(slots),
        all_blank(gap),
    ensures
        ({
            let at = open + 1 + content_len(slots, gap);
            &&& open < at <= bytes.len()
            &&& last_content(bytes, open + 1, open + 1 + inside(slots, gap).len()) == if slots.len()
                == 0 {
                None
            } else {
                Some(at - 1)
            }
            &&& bytes[at - 1] < 0x80
            &&& !is_blank(bytes[at - 1])
            &&& settles(bytes, 0, at)
        }),
{
    let at = open + 1 + content_len(slots, gap);
    if slots.len() == 0 {
        content_before(bytes, open + 1, open + 1, gap);
    } else {
        last_element_ends(bytes, open + 1, slots);
        settles_on(bytes, 0, open + 1, at);
        content_before(bytes, open + 1, at, slots[slots.len() - 1].after);
    }
}

/// Putting in an element outside strings and comments puts it in between what
/// is left of the text without its comments.
proof fn element_is_spliced(text: Seq<u8>, bytes: Seq<u8>, at: int, node: Node, first: bool)
    requires
        bytes == stripped(text, Mode::Code),
        bytes.len() == text.len(),
        0 < at <= text.len(),
        !is_blank(bytes[at - 1]),
        settles(bytes, 0, at),
        proper(node),
    ensures
        stripped(text.take(at) + inserted(node, first) + text.skip(at), Mode::Code) == bytes.take(
            at,
        ) + (inserted(node, first) + bytes.skip(at)),
{
    let ins = inserted(node, first);
    inserted_settles(node, first);
    assert(text.skip(0) =~= text);
    assert(bytes.skip(0) =~= bytes);
    content_is_code(text, bytes, 0, Mode::Code, at);
    splicing_keeps_comments(text, Mode::Code, at, ins);
    assert(ins.skip(0) =~= ins);
    plain_text_is_kept(ins, text.skip(at), 0, Mode::Code);
}

/// Putting something into what stands between two brackets.
proof fn list_is_replaced(bytes: Seq<u8>, open: int, inner: Seq<u8>, n: int, ins: Seq<u8>)
    requires
        0 <= open,
        0 <= n <= inner.len(),
        open + 1 + inner.len() < bytes.len(),
        bytes[open] == '[' as u8,
        bytes[open + 1 + inner.len()] == ']' as u8,
        stands_at(bytes, open + 1, inner),
    ensures
        bytes.take(open + 1 + n) + (ins + bytes.skip(open + 1 + n)) == bytes.take(open) + (
        seq!['[' as u8] + (inner.take(n) + ins + inner.skip(n)) + seq![']' as u8]) + bytes.skip(
            open + 2 + inner.len(),
        ),
{
    let at = open + 1 + n;
    let close = open + 1 + inner.len();
    assert(bytes.take(at) =~= bytes.take(open) + seq!['[' as u8] + inner.take(n)) by {
        assert forall|i: int| open < i < at implies bytes[i] == inner[i - open - 1] by {
            stands_byte(bytes, open + 1, inner, i - open - 1);
        }
    }
    assert(bytes.skip(at) =~= inner.skip(n) + seq![']' as u8] + bytes.skip(close + 1)) by {
        assert forall|i: int| at <= i < close implies bytes[i] == inner[i - open - 1] by {
            stands_byte(bytes, open + 1, inner, i - open - 1);
        }
    }
    assert(bytes.take(at) + (ins + bytes.skip(at)) =~= bytes.take(open) + (seq!['[' as u8] + (
    inner.take(n) + ins + inner.skip(n)) + seq![']' as u8]) + bytes.skip(close + 1));
}

} // verus!
