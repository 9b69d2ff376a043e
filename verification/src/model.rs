//! Mathematical model of a chain of layered byte stores.
//!
//! A chain is a sequence of levels, the store itself first and each backing
//! store after its owner. A level is a sequence of slots; a slot is `Some(v)`
//! when it holds a locally authoritative byte and `None` when it is absent.

use vstd::prelude::*;

verus! {

/// A well-formed chain has at least one level and every level has exactly
/// `n` slots: a store and its backing are the same fixed length.
pub open spec fn chain_wf(ls: Seq<Seq<Option<u8>>>, n: nat) -> bool {
    &&& ls.len() >= 1
    &&& forall|k: int| 0 <= k < ls.len() ==> (#[trigger] ls[k]).len() == n
}

/// A read at `i` can be satisfied: some level of the chain holds the slot.
pub open spec fn resolves_at(ls: Seq<Seq<Option<u8>>>, i: int) -> bool
    decreases ls.len(),
{
    ls.len() > 0 && (ls[0][i] is Some || resolves_at(ls.skip(1), i))
}

/// The byte a read at `i` returns: the value of the first level, top down,
/// whose slot at `i` is present.
pub open spec fn read_value(ls: Seq<Seq<Option<u8>>>, i: int) -> u8
    decreases ls.len(),
{
    if ls.len() == 0 {
        0
    } else {
        match ls[0][i] {
            Some(v) => v,
            None => read_value(ls.skip(1), i),
        }
    }
}

/// The chain after a write of `v` at `i`: only the top level changes, its
/// slot at `i` becomes present with value `v`.
pub open spec fn write_model(ls: Seq<Seq<Option<u8>>>, i: int, v: u8) -> Seq<Seq<Option<u8>>> {
    ls.update(0, ls[0].update(i, Some(v)))
}

/// The chain after a successful read at `i`: every level above the first
/// hit is filled at `i` with the resolved value; the hit level and all
/// levels below it are untouched.
pub open spec fn read_model(ls: Seq<Seq<Option<u8>>>, i: int) -> Seq<Seq<Option<u8>>>
    decreases ls.len(),
{
    if ls.len() == 0 {
        ls
    } else if ls[0][i] is Some {
        ls
    } else {
        seq![ls[0].update(i, Some(read_value(ls.skip(1), i)))] + read_model(ls.skip(1), i)
    }
}

/// The raw byte a slot reports without any fallback: its value when present,
/// the default 0 when absent.
pub open spec fn raw_byte(s: Option<u8>) -> u8 {
    match s {
        Some(v) => v,
        None => 0,
    }
}

/// A level of `n` slots, all absent: the state of a store at construction.
pub open spec fn blank_level(n: nat) -> Seq<Option<u8>> {
    Seq::new(n, |i: int| None::<u8>)
}

/// The uppercase hexadecimal digit for `n` in `0..16`.
pub open spec fn hex_digit(n: int) -> char {
    if n == 0 {
        '0'
    } else if n == 1 {
        '1'
    } else if n == 2 {
        '2'
    } else if n == 3 {
        '3'
    } else if n == 4 {
        '4'
    } else if n == 5 {
        '5'
    } else if n == 6 {
        '6'
    } else if n == 7 {
        '7'
    } else if n == 8 {
        '8'
    } else if n == 9 {
        '9'
    } else if n == 10 {
        'A'
    } else if n == 11 {
        'B'
    } else if n == 12 {
        'C'
    } else if n == 13 {
        'D'
    } else if n == 14 {
        'E'
    } else {
        'F'
    }
}

/// What the rendering emits for the slot at index `i`: the raw byte as two
/// uppercase hexadecimal digits and a space, with a line break after every
/// eighth slot.
pub open spec fn slot_chars(s: Option<u8>, i: int) -> Seq<char> {
    seq![hex_digit(raw_byte(s) as int / 16), hex_digit(raw_byte(s) as int % 16), ' '] + if i % 8
        == 7 {
        seq!['\n']
    } else {
        Seq::<char>::empty()
    }
}

/// The rendering of the first `n` slots of a level, in index order.
pub open spec fn render_upto(slots: Seq<Option<u8>>, n: int) -> Seq<char>
    decreases n,
{
    if n <= 0 {
        Seq::empty()
    } else {
        render_upto(slots, n - 1) + slot_chars(slots[n - 1], n - 1)
    }
}

/// The rendering of a whole level: every slot's raw byte, present or not, so
/// rendering never triggers a fallback fill.
pub open spec fn render_model(slots: Seq<Option<u8>>) -> Seq<char> {
    render_upto(slots, slots.len() as int)
}

} // verus!
