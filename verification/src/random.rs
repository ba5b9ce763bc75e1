//! The random draws the simulation consumes, taken from `fastrand`'s
//! thread-local generator. Nothing here is proved: each contract records
//! what the generator's source guarantees of every outcome.

use vstd::prelude::*;

verus! {

/// `fastrand::u16` on the half-open range `low..high`. The generator adds
/// an offset below the range's length to `low`, so the draw lies inside
/// the range; it panics on an empty range, which `requires` rules out.
#[verifier::external_body]
pub(crate) fn random_u16(low: u16, high: u16) -> (r: u16)
    requires
        low < high,
    ensures
        low <= r < high,
{
    fastrand::u16(low..high)
}

/// `fastrand::i16` on the half-open range `low..high`, with the same
/// guarantee and the same panic on an empty range as `random_u16`.
#[verifier::external_body]
pub(crate) fn random_i16(low: i16, high: i16) -> (r: i16)
    requires
        low < high,
    ensures
        low <= r < high,
{
    fastrand::i16(low..high)
}

/// `fastrand::u128` on the unbounded range: any 128-bit value may come back.
#[verifier::external_body]
pub(crate) fn random_u128() -> u128 {
    fastrand::u128(..)
}

/// `fastrand::shuffle`: reorders the items in place by a series of swaps,
/// so afterwards the vector holds the same items, each as often as before.
#[verifier::external_body]
pub(crate) fn shuffle(items: &mut Vec<usize>)
    ensures
        final(items)@.to_multiset() == old(items)@.to_multiset(),
{
    fastrand::shuffle(items.as_mut_slice());
}

} // verus!
