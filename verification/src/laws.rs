//! Laws of the layered store, stated and proved over the model.

use vstd::prelude::*;

use crate::model::chain_wf;
use crate::model::read_model;
use crate::model::read_value;
use crate::model::resolves_at;
use crate::model::write_model;

verus! {

/// Write-then-read identity: after a write of `v` at a valid index `i`, a
/// read at `i` resolves locally to `v` — whatever the backing chain holds —
/// and changes nothing.
pub proof fn lemma_write_then_read(ls: Seq<Seq<Option<u8>>>, n: nat, i: int, v: u8)
    requires
        chain_wf(ls, n),
        0 <= i < n,
    ensures
        resolves_at(write_model(ls, i, v), i),
        read_value(write_model(ls, i, v), i) == v,
        read_model(write_model(ls, i, v), i) == write_model(ls, i, v),
{
    let ws = write_model(ls, i, v);
    assert(ws[0][i] == Some(v));
}

/// A chain's tail is itself a well-formed chain, as long as it is not empty.
pub proof fn lemma_chain_wf_skip(ls: Seq<Seq<Option<u8>>>, n: nat)
    requires
        chain_wf(ls, n),
        ls.len() >= 2,
    ensures
        chain_wf(ls.skip(1), n),
{
    assert forall|k: int| 0 <= k < ls.skip(1).len() implies (#[trigger] ls.skip(1)[k]).len()
        == n by {
        assert(ls.skip(1)[k] == ls[k + 1]);
    }
}

/// Fallback fill: a resolvable read leaves a chain of the same shape whose
/// top slot is now present with the value the read returned, so a second
/// read at the same index is a local hit — it returns the same value and
/// changes nothing further.
pub proof fn lemma_fallback_fill(ls: Seq<Seq<Option<u8>>>, n: nat, i: int)
    requires
        chain_wf(ls, n),
        0 <= i < n,
        resolves_at(ls, i),
    ensures
        read_model(ls, i).len() == ls.len(),
        chain_wf(read_model(ls, i), n),
        read_model(ls, i)[0][i] == Some(read_value(ls, i)),
        resolves_at(read_model(ls, i), i),
        read_value(read_model(ls, i), i) == read_value(ls, i),
        read_model(read_model(ls, i), i) == read_model(ls, i),
    decreases ls.len(),
{
    if ls[0][i] is Some {
        assert(read_model(ls, i) == ls);
    } else {
        let rest = ls.skip(1);
        assert(resolves_at(rest, i));
        assert(rest.len() >= 1);
        lemma_chain_wf_skip(ls, n);
        lemma_fallback_fill(rest, n, i);
        let filled = read_model(ls, i);
        assert(filled == seq![ls[0].update(i, Some(read_value(rest, i)))] + read_model(rest, i));
        assert(filled[0] == ls[0].update(i, Some(read_value(rest, i))));
        assert(read_value(ls, i) == read_value(rest, i));
        assert(filled[0][i] == Some(read_value(ls, i)));
        assert(chain_wf(filled, n)) by {
            assert forall|k: int| 0 <= k < filled.len() implies (#[trigger] filled[k]).len()
                == n by {
                if k >= 1 {
                    assert(filled[k] == read_model(rest, i)[k - 1]);
                }
            }
        }
        assert(read_model(filled, i) == filled);
    }
}

/// Shadowing: after a fallback fill at `i`, a write of `v2` at `i` on the
/// top store makes a read at `i` return `v2`, while every level below the
/// top is left exactly as the fill left it — in particular the backing
/// chain still resolves `i` to the value the fill pulled up.
pub proof fn lemma_shadowing(ls: Seq<Seq<Option<u8>>>, n: nat, i: int, v2: u8)
    requires
        chain_wf(ls, n),
        0 <= i < n,
        ls[0][i] is None,
        resolves_at(ls, i),
    ensures
        ({
            let filled = read_model(ls, i);
            let written = write_model(filled, i, v2);
            &&& written.len() == ls.len()
            &&& resolves_at(written, i)
            &&& read_value(written, i) == v2
            &&& written.skip(1) == filled.skip(1)
            &&& resolves_at(written.skip(1), i)
            &&& read_value(written.skip(1), i) == read_value(ls, i)
        }),
{
    let rest = ls.skip(1);
    assert(resolves_at(rest, i));
    lemma_chain_wf_skip(ls, n);
    lemma_fallback_fill(rest, n, i);
    lemma_fallback_fill(ls, n, i);
    let filled = read_model(ls, i);
    let written = write_model(filled, i, v2);
    assert(written[0][i] == Some(v2));
    assert(written.skip(1) =~= filled.skip(1));
    assert(filled.skip(1) =~= read_model(rest, i));
    assert(read_value(ls, i) == read_value(rest, i));
}

} // verus!
