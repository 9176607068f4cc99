//! Sets of draw indices.

use std::collections::BTreeSet;
use vstd::prelude::*;

verus! {

/// The set of the draw indices in a list.
pub(crate) fn index_set(draws: &[u32]) -> (set: BTreeSet<u32>)
    ensures
        set@ == draws@.to_set(),
{
    broadcast use {vstd::std_specs::btree::group_btree_axioms, vstd::laws_cmp::group_laws_cmp};

    let mut set: BTreeSet<u32> = BTreeSet::new();
    let mut k: usize = 0;
    while k < draws.len()
        invariant
            k <= draws.len(),
            forall|draw: u32| #[trigger]
                set@.contains(draw) <==> exists|j: int| 0 <= j < k && draws@[j] == draw,
        decreases draws.len() - k,
    {
        set.insert(draws[k]);
        k += 1;
    }
    assert(set@ =~= draws@.to_set());
    set
}

/// Whether a set of draw indices holds `draw`.
pub(crate) fn index_set_contains(set: &BTreeSet<u32>, draw: u32) -> (contained: bool)
    ensures
        contained == set@.contains(draw),
{
    broadcast use {vstd::std_specs::btree::group_btree_axioms, vstd::laws_cmp::group_laws_cmp};

    set.contains(&draw)
}

} // verus!
