//! The layered byte store: a fixed-length array of slots, each a byte with a
//! presence flag, optionally owning one backing store of the same length.

use vstd::prelude::*;
use vstd::pervasive::unreached;

use crate::model::blank_level;
use crate::model::chain_wf;
use crate::model::hex_digit;
use crate::model::raw_byte;
use crate::model::render_model;
use crate::model::render_upto;
use crate::model::slot_chars;
use crate::model::read_model;
use crate::model::read_value;
use crate::model::resolves_at;
use crate::model::write_model;

verus! {

/// One addressable slot: a byte plus the flag that says whether the byte is
/// locally authoritative.
pub struct MemoryField {
    valid: bool,
    data: u8,
}

impl MemoryField {
    /// The slot as the model sees it: `Some` of the byte when present,
    /// `None` when absent.
    pub closed spec fn slot(&self) -> Option<u8> {
        if self.valid {
            Some(self.data)
        } else {
            None
        }
    }

    /// The raw byte the slot reports without fallback.
    pub closed spec fn raw(&self) -> u8 {
        self.data
    }
}

impl Default for MemoryField {
    /// A fresh slot: absent, raw default 0.
    fn default() -> (r: Self)
        ensures
            r.slot() is None,
            r.raw() == 0,
    {
        MemoryField { valid: false, data: 0 }
    }
}

/// The uppercase hexadecimal digit for a nibble, as a one-character string.
fn nibble_str(n: u8) -> (r: &'static str)
    requires
        n < 16,
    ensures
        r@ == seq![hex_digit(n as int)],
{
    proof {
        reveal_strlit("0");
        reveal_strlit("1");
        reveal_strlit("2");
        reveal_strlit("3");
        reveal_strlit("4");
        reveal_strlit("5");
        reveal_strlit("6");
        reveal_strlit("7");
        reveal_strlit("8");
        reveal_strlit("9");
        reveal_strlit("A");
        reveal_strlit("B");
        reveal_strlit("C");
        reveal_strlit("D");
        reveal_strlit("E");
        reveal_strlit("F");
    }
    let r: &'static str = if n == 0 {
        "0"
    } else if n == 1 {
        "1"
    } else if n == 2 {
        "2"
    } else if n == 3 {
        "3"
    } else if n == 4 {
        "4"
    } else if n == 5 {
        "5"
    } else if n == 6 {
        "6"
    } else if n == 7 {
        "7"
    } else if n == 8 {
        "8"
    } else if n == 9 {
        "9"
    } else if n == 10 {
        "A"
    } else if n == 11 {
        "B"
    } else if n == 12 {
        "C"
    } else if n == 13 {
        "D"
    } else if n == 14 {
        "E"
    } else {
        "F"
    };
    proof {
        assert(r@ =~= seq![hex_digit(n as int)]);
    }
    r
}

/// The error conditions of the store, both of the programmer-error class:
/// an index at or past the fixed size, and a read of an absent slot in a
/// store with no backing to fall back to.
#[derive(Clone, Copy, Debug, PartialEq, Eq, Structural)]
pub enum MemError {
    IndexOutOfBounds,
    MissingBackingStore,
}

/// A fixed-size byte store, optionally chained to one exclusively owned
/// backing store of the same size.
pub struct Memory {
    data: Vec<MemoryField>,
    cache: Option<Box<Memory>>,
}

impl Memory {
    /// The store's own slots as a model level.
    pub closed spec fn local(&self) -> Seq<Option<u8>> {
        Seq::new(self.data@.len(), |i: int| self.data@[i].slot())
    }

    /// The whole chain as the model sees it: this store's level first, then
    /// the levels of its backing chain.
    pub closed spec fn levels(&self) -> Seq<Seq<Option<u8>>>
        decreases self,
    {
        seq![self.local()] + match self.cache {
            Some(b) => b.levels(),
            None => Seq::<Seq<Option<u8>>>::empty(),
        }
    }

    /// The fixed number of slots, set at construction.
    pub closed spec fn size(&self) -> nat {
        self.data@.len()
    }

    /// Well-formedness: an absent slot reports the raw default 0, and the
    /// backing store, when present, is well-formed and of the same size.
    pub closed spec fn inv(&self) -> bool
        decreases self,
    {
        &&& forall|i: int|
            0 <= i < self.data@.len() && (#[trigger] self.data@[i]).slot() is None
                ==> self.data@[i].raw() == 0
        &&& match self.cache {
            Some(b) => b.inv() && b.size() == self.data@.len(),
            None => true,
        }
    }

    /// `bsize` fresh slots, all absent with raw default 0.
    fn blank_slots(bsize: usize) -> (data: Vec<MemoryField>)
        ensures
            data@.len() == bsize,
            forall|j: int|
                0 <= j < bsize ==> (#[trigger] data@[j]).slot() is None && data@[j].raw() == 0,
    {
        let mut data: Vec<MemoryField> = Vec::new();
        let mut i: usize = 0;
        while i < bsize
            invariant
                i <= bsize,
                data@.len() == i,
                forall|j: int|
                    0 <= j < i ==> (#[trigger] data@[j]).slot() is None && data@[j].raw() == 0,
            decreases bsize - i,
        {
            data.push(MemoryField::default());
            i = i + 1;
        }
        data
    }

    /// A well-formed store's levels form a well-formed chain: at least one
    /// level, and every level of the store's own fixed size.
    pub proof fn lemma_chain_wf(&self)
        requires
            self.inv(),
        ensures
            chain_wf(self.levels(), self.size()),
        decreases self,
    {
        match self.cache {
            Some(b) => {
                b.lemma_chain_wf();
                assert forall|k: int| 0 <= k < self.levels().len() implies (#[trigger] self
                    .levels()[k]).len() == self.size() by {
                    if k >= 1 {
                        assert(self.levels()[k] == b.levels()[k - 1]);
                    }
                }
            },
            None => {
                assert(self.levels()[0] == self.local());
            },
        }
    }

    /// A new top-of-chain store of `bsize` slots, all absent, no backing.
    pub fn new(bsize: usize) -> (r: Self)
        ensures
            r.inv(),
            r.size() == bsize,
            r.levels() == seq![blank_level(bsize as nat)],
    {
        let r = Memory { data: Self::blank_slots(bsize), cache: None };
        proof {
            assert(r.local() =~= blank_level(bsize as nat));
            assert(r.levels() =~~= seq![blank_level(bsize as nat)]);
        }
        r
    }

    /// A new store of `bsize` slots, all absent, chained to `backing`: a
    /// local miss will be resolved from `backing` and fill the local slot.
    /// A store and its backing are the same fixed length.
    pub fn new_with_backing(bsize: usize, backing: Memory) -> (r: Self)
        requires
            backing.inv(),
            backing.size() == bsize,
        ensures
            r.inv(),
            r.size() == bsize,
            r.levels() == seq![blank_level(bsize as nat)] + backing.levels(),
    {
        let r = Memory { data: Self::blank_slots(bsize), cache: Some(Box::new(backing)) };
        proof {
            assert(r.local() =~= blank_level(bsize as nat));
            assert(r.levels() =~~= seq![blank_level(bsize as nat)] + backing.levels());
        }
        r
    }

    /// Writes `val` at `index`: the local slot becomes present with value
    /// `val`, unconditionally overwriting any prior value; the backing chain
    /// is never consulted and never changed.
    pub fn set(&mut self, index: usize, val: u8)
        requires
            old(self).inv(),
            index < old(self).size(),
        ensures
            final(self).inv(),
            final(self).size() == old(self).size(),
            final(self).levels() == write_model(old(self).levels(), index as int, val),
    {
        self.data[index] = MemoryField { valid: true, data: val };
        proof {
            assert(self.local() =~= old(self).local().update(index as int, Some(val)));
            assert(self.levels() =~~= write_model(old(self).levels(), index as int, val));
        }
    }

    /// Reads the byte at `index`, resolving a local miss from the backing
    /// chain and filling every missed slot on the way — the caching side
    /// effect that turns this miss into a permanent local hit. Returns
    /// `IndexOutOfBounds` when `index` is at or past the size, and
    /// `MissingBackingStore` when the slot is absent through the whole
    /// chain; either failure leaves every slot as it was.
    pub fn try_get(&mut self, index: usize) -> (r: Result<u8, MemError>)
        requires
            old(self).inv(),
        ensures
            final(self).inv(),
            final(self).size() == old(self).size(),
            index < old(self).size() && resolves_at(old(self).levels(), index as int) ==> {
                &&& r == Ok::<u8, MemError>(read_value(old(self).levels(), index as int))
                &&& final(self).levels() == read_model(old(self).levels(), index as int)
            },
            index < old(self).size() && !resolves_at(old(self).levels(), index as int) ==> {
                &&& r == Err::<u8, MemError>(MemError::MissingBackingStore)
                &&& final(self).levels() == old(self).levels()
            },
            index >= old(self).size() ==> {
                &&& r == Err::<u8, MemError>(MemError::IndexOutOfBounds)
                &&& final(self).levels() == old(self).levels()
            },
        decreases *old(self),
    {
        let ghost ls = self.levels();
        let ghost i = index as int;
        if index >= self.data.len() {
            return Err(MemError::IndexOutOfBounds);
        }
        if self.data[index].valid {
            proof {
                assert(ls[0][i] is Some);
                assert(read_value(ls, i) == self.data@[i].data);
                assert(read_model(ls, i) == ls);
            }
            return Ok(self.data[index].data);
        }
        proof {
            assert(ls[0][i] is None);
        }
        let mut c = self.cache.take();
        match &mut c {
            Some(b) => {
                proof {
                    assert(ls.skip(1) =~= old(self).cache.unwrap().levels());
                }
                let res = (&mut **b).try_get(index);
                self.cache = c;
                match res {
                    Ok(v) => {
                        self.data[index] = MemoryField { valid: true, data: v };
                        proof {
                            assert(resolves_at(ls, i));
                            assert(read_value(ls, i) == v);
                            assert(self.local() =~= old(self).local().update(
                                i,
                                Some(read_value(ls.skip(1), i)),
                            ));
                            assert(self.levels() =~~= read_model(ls, i));
                        }
                        Ok(v)
                    },
                    Err(e) => {
                        proof {
                            assert(!resolves_at(ls, i));
                            assert(self.local() =~= old(self).local());
                            assert(self.levels() =~~= ls);
                        }
                        Err(e)
                    },
                }
            },
            None => {
                self.cache = c;
                proof {
                    assert(ls.skip(1) =~= Seq::<Seq<Option<u8>>>::empty());
                    assert(!resolves_at(ls.skip(1), i));
                    assert(!resolves_at(ls, i));
                    assert(self.local() =~= old(self).local());
                    assert(self.levels() =~~= ls);
                }
                Err(MemError::MissingBackingStore)
            },
        }
    }

    /// Writes `val` at `index` when `index` is in range, and reports
    /// `IndexOutOfBounds` without touching any slot when it is not.
    pub fn try_set(&mut self, index: usize, val: u8) -> (r: Result<(), MemError>)
        requires
            old(self).inv(),
        ensures
            final(self).inv(),
            final(self).size() == old(self).size(),
            index < old(self).size() ==> {
                &&& r == Ok::<(), MemError>(())
                &&& final(self).levels() == write_model(old(self).levels(), index as int, val)
            },
            index >= old(self).size() ==> {
                &&& r == Err::<(), MemError>(MemError::IndexOutOfBounds)
                &&& final(self).levels() == old(self).levels()
            },
    {
        if index < self.data.len() {
            self.set(index, val);
            Ok(())
        } else {
            Err(MemError::IndexOutOfBounds)
        }
    }

    /// Reads the byte at `index`, which must be resolvable somewhere in the
    /// chain; a local miss is filled from the backing chain so that the next
    /// read at `index` is a local hit. The level that satisfied the read,
    /// and every level below it, are untouched.
    pub fn get(&mut self, index: usize) -> (r: u8)
        requires
            old(self).inv(),
            index < old(self).size(),
            resolves_at(old(self).levels(), index as int),
        ensures
            final(self).inv(),
            final(self).size() == old(self).size(),
            r == read_value(old(self).levels(), index as int),
            final(self).levels() == read_model(old(self).levels(), index as int),
    {
        match self.try_get(index) {
            Ok(v) => v,
            Err(_) => unreached(),
        }
    }

    /// The fixed number of slots.
    pub fn len(&self) -> (r: usize)
        ensures
            r == self.size(),
    {
        self.data.len()
    }

    /// Whether the local slot at `index` is present — holds a locally
    /// authoritative value. The backing chain is not consulted.
    pub fn present(&self, index: usize) -> (r: bool)
        requires
            index < self.size(),
        ensures
            r == (self.levels()[0][index as int] is Some),
    {
        self.data[index].valid
    }

    /// The raw byte of the local slot at `index`: its value when present,
    /// the default 0 when absent. No fallback is triggered and nothing is
    /// mutated.
    pub fn peek(&self, index: usize) -> (r: u8)
        requires
            self.inv(),
            index < self.size(),
        ensures
            r == raw_byte(self.levels()[0][index as int]),
    {
        self.data[index].data
    }

    /// Renders the store's own slots as text: each raw byte — present or
    /// not, so rendering never triggers a fallback fill — as two uppercase
    /// hexadecimal digits and a space, in index order, with a line break
    /// after every eighth byte.
    pub fn render(&self) -> (r: String)
        requires
            self.inv(),
        ensures
            r@ == render_model(self.levels()[0]),
    {
        let ghost slots = self.levels()[0];
        proof {
            assert(slots == self.local());
        }
        let mut r = String::new();
        let mut i: usize = 0;
        while i < self.data.len()
            invariant
                self.inv(),
                i <= self.data@.len(),
                slots == self.local(),
                r@ == render_upto(slots, i as int),
            decreases self.data@.len() - i,
        {
            let b = self.data[i].data;
            proof {
                assert(self.data@[i as int].slot() is None ==> self.data@[i as int].raw() == 0);
                assert(raw_byte(slots[i as int]) == b);
            }
            r.append(nibble_str(b / 16));
            r.append(nibble_str(b % 16));
            r.append(" ");
            if i % 8 == 7 {
                r.append("\n");
            }
            proof {
                reveal_strlit(" ");
                reveal_strlit("\n");
                assert(r@ =~= render_upto(slots, i as int) + slot_chars(slots[i as int], i as int));
            }
            i = i + 1;
        }
        proof {
            assert(r@ == render_model(slots));
        }
        r
    }

    /// The backing store this store falls back to, when one is configured.
    pub fn backing(&self) -> (r: Option<&Memory>)
        requires
            self.inv(),
        ensures
            match r {
                Some(b) => {
                    &&& b.inv()
                    &&& b.size() == self.size()
                    &&& self.levels() == seq![self.levels()[0]] + b.levels()
                },
                None => self.levels().len() == 1,
            },
    {
        match &self.cache {
            Some(b) => {
                proof {
                    assert(self.levels() =~~= seq![self.levels()[0]] + b.levels());
                }
                Some(&**b)
            },
            None => None,
        }
    }
}

} // verus!
