//! The linear-sequence laws of the cursor.
//!
//! `next` is one indivisible operation on the channel state, so a history of
//! concurrent callers, serialized by the channel's single lock, is exactly a
//! sequence of calls on one state.  The spec functions here give the pure
//! model of that sequence at the level of cursor positions and served slots;
//! `FolderSource::next` promises, call by call, to follow this model.

use vstd::prelude::*;
use vstd::arithmetic::div_mod::{
    lemma_fundamental_div_mod, lemma_fundamental_div_mod_converse_mod, lemma_mod_bound,
};
use crate::media::{Media, SortPolicy};
use crate::order::{indexed, reindexed, lemma_reindexed_indexed};
use crate::folder::regen_rel;

verus! {

broadcast use vstd::seq_lib::group_to_multiset_ensures;

/// The cursor position after a call that observed position `p` on a catalog
/// of length `l`: advance, or wrap to 1 after a regeneration, or stay at 0 on
/// an empty catalog.
pub open spec fn next_position(p: int, l: int) -> int {
    if p < l {
        p + 1
    } else if l > 0 {
        1
    } else {
        0
    }
}

/// The slot served by a call that observed position `p` on a catalog of
/// length `l > 0`: the cursor's slot, or slot 0 right after a regeneration.
pub open spec fn served_slot(p: int, l: int) -> int {
    if p < l {
        p
    } else {
        0
    }
}

/// A call that observes position `p` on a catalog of length `l` regenerates
/// the catalog first.
pub open spec fn regenerates(p: int, l: int) -> bool {
    p >= l
}

/// The cursor position after `n` calls on a freshly installed catalog of
/// stable length `l`.
pub open spec fn position_after(n: nat, l: int) -> int
    decreases n,
{
    if n == 0 {
        0
    } else {
        next_position(position_after((n - 1) as nat, l), l)
    }
}

/// The slot served by call number `n`, counting calls from 0.
pub open spec fn slot_at(n: nat, l: int) -> int {
    served_slot(position_after(n, l), l)
}

/// On a stable catalog of length `l > 0`, call number `n` serves slot
/// `n % l`, and regenerates exactly when it starts a new cycle: the served
/// slots are `0, 1, …, l-1, 0, 1, …` with one regeneration per full cycle.
pub proof fn lemma_sequential_cycle(n: nat, l: int)
    requires
        l > 0,
    ensures
        position_after(n, l) == if n == 0 {
            0int
        } else if n as int % l == 0 {
            l
        } else {
            n as int % l
        },
        slot_at(n, l) == n as int % l,
        regenerates(position_after(n, l), l) <==> (n > 0 && n as int % l == 0),
    decreases n,
{
    if n == 0 {
        lemma_fundamental_div_mod_converse_mod(0, l, 0, 0);
    } else {
        lemma_sequential_cycle((n - 1) as nat, l);
        let m = (n - 1) as int % l;
        lemma_mod_bound((n - 1) as int, l);
        lemma_fundamental_div_mod((n - 1) as int, l);
        let q = (n - 1) as int / l;
        assert(l * q == q * l) by (nonlinear_arith);
        if m + 1 < l {
            lemma_fundamental_div_mod_converse_mod(n as int, l, q, m + 1);
        } else {
            assert((q + 1) * l == q * l + l) by (nonlinear_arith);
            lemma_fundamental_div_mod_converse_mod(n as int, l, q + 1, 0);
        }
    }
}

/// Any serialization of `t` calls on a stable catalog of length `l > 0`
/// serves the same multiset of slots as `t` sequential calls by one caller:
/// every slot `k % l`, no duplicate, no gap.
pub proof fn lemma_serialized_multiset(t: nat, l: int)
    requires
        l > 0,
    ensures
        Seq::new(t, |k: int| slot_at(k as nat, l)).to_multiset() == Seq::new(
            t,
            |k: int| k % l,
        ).to_multiset(),
{
    let a = Seq::new(t, |k: int| slot_at(k as nat, l));
    let b = Seq::new(t, |k: int| k % l);
    assert forall|k: int| 0 <= k < t implies a[k] == b[k] by {
        lemma_sequential_cycle(k as nat, l);
    }
    assert(a =~= b);
}

/// After any regeneration the catalog holds as many entries as before, and
/// its indices are exactly the contiguous set `{0, …, n-1}`: the entry at
/// slot `i` holds index `i` (so every slot below `n` occurs), and no index
/// repeats — whether the policy shuffled or sorted.
pub proof fn lemma_regeneration_contiguous(
    before: Seq<Media>,
    after: Seq<Media>,
    policy: SortPolicy,
)
    requires
        regen_rel(before, after, policy),
        before.len() <= usize::MAX,
    ensures
        after.len() == before.len(),
        indexed(after),
        forall|i: int, j: int|
            0 <= i < j < after.len() ==> (#[trigger] after[i].index) != (#[trigger] after[j].index),
{
    let mid = crate::folder::regen_rel_witness(before, after, policy);
    assert(mid.to_multiset().len() == mid.len());
    assert(before.to_multiset().len() == before.len());
    lemma_reindexed_indexed(mid);
    assert forall|i: int, j: int|
        0 <= i < j < after.len() implies (#[trigger] after[i].index) != (
    #[trigger] after[j].index) by {
        assert(after[i].index == Some(i as usize));
        assert(after[j].index == Some(j as usize));
    }
}

} // verus!
