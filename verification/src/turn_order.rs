//! The order in which units take their turns within one resolver pass.

use vstd::prelude::*;
use crate::random::shuffle;

verus! {

/// A turn order for `n` units names every index below `n` exactly once.
pub open spec fn is_turn_order(order: Seq<usize>, n: nat) -> bool {
    &&& order.len() == n
    &&& order.no_duplicates()
    &&& forall|k: int| 0 <= k < order.len() ==> #[trigger] order[k] < n
}

/// The indices `0, 1, .., n - 1` in rising order.
pub open spec fn stable_order(n: nat) -> Seq<usize> {
    Seq::new(n, |k: int| k as usize)
}

/// Any rearrangement of the rising order is a turn order.
pub proof fn lemma_rearranged_indices(order: Seq<usize>, n: nat)
    requires
        n <= usize::MAX,
        order.to_multiset() == stable_order(n).to_multiset(),
    ensures
        is_turn_order(order, n),
{
    broadcast use vstd::seq_lib::group_to_multiset_ensures;

    let rising = stable_order(n);
    assert(rising.no_duplicates());
    rising.lemma_multiset_has_no_duplicates();
    order.lemma_multiset_has_no_duplicates_conv();
    assert(order.len() == order.to_multiset().len());
    assert(rising.len() == rising.to_multiset().len());
    assert forall|k: int| 0 <= k < order.len() implies #[trigger] order[k] < n by {
        assert(order.contains(order[k]));
        assert(order.to_multiset().count(order[k]) > 0);
        assert(rising.contains(order[k]));
        let at = choose|at: int| 0 <= at < rising.len() && rising[at] == order[k];
        assert(rising[at] == at);
    }
}

/// Draws a fresh random turn order for `n` units.
pub fn shuffled_order(n: usize) -> (order: Vec<usize>)
    ensures
        is_turn_order(order@, n as nat),
{
    let mut order: Vec<usize> = Vec::new();
    let mut next: usize = 0;
    while next < n
        invariant
            next <= n,
            order@ == stable_order(next as nat),
        decreases n - next,
    {
        order.push(next);
        next = next + 1;
        assert(order@ =~= stable_order(next as nat));
    }
    shuffle(&mut order);
    proof {
        lemma_rearranged_indices(order@, n as nat);
    }
    order
}

} // verus!
