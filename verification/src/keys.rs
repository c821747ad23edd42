//! Keys of the list screens.

use vstd::prelude::*;

verus! {

#[derive(Clone, Copy, PartialEq, Eq, Structural, Debug)]
pub enum ListKey {
    Up,
    Down,
    Enter,
    Refresh,
    Quit,
}

/// The key a single byte stands for.
pub open spec fn byte_key(b: u8) -> Option<ListKey> {
    if b == 0x03 || b == 0x04 || b == 'q' as u8 {
        Some(ListKey::Quit)
    } else if b == '\r' as u8 || b == '\n' as u8 {
        Some(ListKey::Enter)
    } else if b == 'k' as u8 {
        Some(ListKey::Up)
    } else if b == 'j' as u8 {
        Some(ListKey::Down)
    } else if b == 'r' as u8 {
        Some(ListKey::Refresh)
    } else {
        None
    }
}

/// Whether an escape sequence of three bytes stands at the start.
pub open spec fn escape_first(bytes: Seq<u8>) -> bool {
    bytes.len() > 2 && bytes[0] == 0x1b && (bytes[1] == '[' as u8 || bytes[1] == 'O' as u8)
}

/// The key an escape sequence's last byte stands for.
pub open spec fn arrow_key(b: u8) -> Option<ListKey> {
    if b == 'A' as u8 {
        Some(ListKey::Up)
    } else if b == 'B' as u8 {
        Some(ListKey::Down)
    } else {
        None
    }
}

/// A key, if there is one, before others.
pub open spec fn before(key: Option<ListKey>, rest: Seq<ListKey>) -> Seq<ListKey> {
    match key {
        Some(k) => seq![k] + rest,
        None => rest,
    }
}

/// The keys that raw keyboard bytes stand for; unrecognized bytes are dropped.
pub open spec fn keys_of(bytes: Seq<u8>) -> Seq<ListKey>
    decreases bytes.len(),
{
    if bytes.len() == 0 {
        Seq::empty()
    } else if escape_first(bytes) {
        before(arrow_key(bytes[2]), keys_of(bytes.skip(3)))
    } else {
        before(byte_key(bytes[0]), keys_of(bytes.skip(1)))
    }
}

fn key_of(b: u8) -> (r: Option<ListKey>)
    ensures
        r == byte_key(b),
{
    if b == 0x03 || b == 0x04 || b == 'q' as u8 {
        Some(ListKey::Quit)
    } else if b == '\r' as u8 || b == '\n' as u8 {
        Some(ListKey::Enter)
    } else if b == 'k' as u8 {
        Some(ListKey::Up)
    } else if b == 'j' as u8 {
        Some(ListKey::Down)
    } else if b == 'r' as u8 {
        Some(ListKey::Refresh)
    } else {
        None
    }
}

/// Interpret raw keyboard bytes as list-navigation keys. Unrecognized bytes
/// are dropped (these screens take no free-form input).
pub fn parse_list_keys(bytes: &[u8]) -> (r: Vec<ListKey>)
    ensures
        r@ == keys_of(bytes@),
{
    let mut keys: Vec<ListKey> = Vec::new();
    let mut i: usize = 0;
    let len: usize = bytes.len();
    proof {
        assert(bytes@.skip(0) =~= bytes@);
        assert(keys@ + keys_of(bytes@) =~= keys_of(bytes@));
    }
    while i < len
        invariant
            i <= len == bytes@.len(),
            keys@ + keys_of(bytes@.skip(i as int)) == keys_of(bytes@),
        decreases len - i,
    {
        let ghost rest = bytes@.skip(i as int);
        let ghost start = keys@;
        let b: u8 = bytes[i];
        let escape: bool = b == 0x1b && len - i > 2 && (bytes[i + 1] == '[' as u8 || bytes[i + 1]
            == 'O' as u8);
        if escape {
            let last: u8 = bytes[i + 2];
            proof {
                assert(rest.skip(3) =~= bytes@.skip(i + 3));
            }
            if last == 'A' as u8 {
                keys.push(ListKey::Up);
            } else if last == 'B' as u8 {
                keys.push(ListKey::Down);
            }
            i += 3;
        } else {
            proof {
                assert(rest.skip(1) =~= bytes@.skip(i + 1));
            }
            if let Some(key) = key_of(b) {
                keys.push(key);
            }
            i += 1;
        }
        assert(keys@ + keys_of(bytes@.skip(i as int)) =~= start + keys_of(rest));
    }
    proof {
        assert(bytes@.skip(i as int) =~= Seq::<u8>::empty());
        assert(keys@ =~= keys_of(bytes@));
    }
    keys
}

/// The selection one up, or where it is at the top.
pub open spec fn one_up(selected: nat) -> nat {
    if selected > 0 {
        (selected - 1) as nat
    } else {
        0
    }
}

/// The selection one down, within a list of `count` entries.
pub open spec fn one_down(selected: nat, count: nat) -> nat {
    if selected + 1 < count {
        selected + 1
    } else if count > 0 {
        (count - 1) as nat
    } else {
        0
    }
}

/// Moves a selection up.
pub fn move_up(selected: usize) -> (r: usize)
    ensures
        r == one_up(selected as nat),
{
    if selected > 0 {
        selected - 1
    } else {
        0
    }
}

/// Moves a selection down.
pub fn move_down(selected: usize, count: usize) -> (r: usize)
    ensures
        r == one_down(selected as nat, count as nat),
{
    if count == 0 {
        0
    } else if selected < count - 1 {
        selected + 1
    } else {
        count - 1
    }
}

/// Keys are read in order, each for itself: an arrow is three bytes, whichever
/// mode the terminal's arrow keys are in, and up or down; the others are one
/// byte. Carriage return and line feed are enter, `k` and `j` up and down, `r`
/// refreshes, and `q`, interrupt and end of text quit. Every other byte, or
/// sequence of three, is passed over.
pub proof fn keys_are_read_in_order(bytes: Seq<u8>)
    requires
        bytes.len() > 0,
    ensures
        ({
            let arrow = bytes.len() >= 3 && bytes[0] == 27 && (bytes[1] == 91 || bytes[1] == 79);
            let rest = keys_of(bytes.skip(
                if arrow {
                    3
                } else {
                    1
                },
            ));
            let up = if arrow {
                bytes[2] == 65
            } else {
                bytes[0] == 107
            };
            let down = if arrow {
                bytes[2] == 66
            } else {
                bytes[0] == 106
            };
            let enter = !arrow && (bytes[0] == 13 || bytes[0] == 10);
            let refresh = !arrow && bytes[0] == 114;
            let quit = !arrow && (bytes[0] == 3 || bytes[0] == 4 || bytes[0] == 113);
            &&& up ==> keys_of(bytes) =~= seq![ListKey::Up] + rest
            &&& down ==> keys_of(bytes) =~= seq![ListKey::Down] + rest
            &&& enter ==> keys_of(bytes) =~= seq![ListKey::Enter] + rest
            &&& refresh ==> keys_of(bytes) =~= seq![ListKey::Refresh] + rest
            &&& quit ==> keys_of(bytes) =~= seq![ListKey::Quit] + rest
            &&& !up && !down && !enter && !refresh && !quit ==> keys_of(bytes) =~= rest
        }),
{
}

/// A selection moves by one entry and never leaves the list: one up undoes one
/// down, except at the last entry, where down stays.
pub proof fn selections_stay_in_the_list(selected: nat, count: nat)
    requires
        selected < count,
    ensures
        one_up(selected) < count,
        one_down(selected, count) < count,
        selected + 1 < count ==> one_down(selected, count) == selected + 1 && one_up(
            one_down(selected, count),
        ) == selected,
        selected + 1 == count ==> one_down(selected, count) == selected,
        selected > 0 ==> one_up(selected) == selected - 1 && one_down(one_up(selected), count)
            == selected,
        selected == 0 ==> one_up(selected) == 0,
        one_down(selected, 0) == 0,
{
}

} // verus!
