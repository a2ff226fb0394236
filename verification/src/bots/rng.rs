//! Thin trusted access to the process's random number generator.

use vstd::prelude::*;

use rand::Rng;
use rand::seq::SliceRandom;

verus! {

#[verifier::external_type_specification]
#[verifier::external_body]
pub struct ExThreadRng(rand::rngs::ThreadRng);

/// Relies on rand's `rng()`: a handle to the thread-local generator.
/// Nothing is promised of the values it will yield.
#[verifier::external_body]
pub(crate) fn fresh_rng() -> rand::rngs::ThreadRng {
    rand::rng()
}

/// Relies on rand's `Rng::random_range` over `0..n`: some value below
/// `n`. The range is nonempty by the precondition, so the call cannot
/// panic; which value comes back is not promised.
#[verifier::external_body]
pub(crate) fn random_below(generator: &mut rand::rngs::ThreadRng, n: usize) -> (r: usize)
    requires
        n > 0,
    ensures
        r < n,
{
    generator.random_range(0..n)
}

/// Relies on rand's `SliceRandom::shuffle`: an in-place permutation of
/// the slice, so the multiset of elements is unchanged; the order that
/// comes back is not promised.
#[verifier::external_body]
pub(crate) fn shuffle_moves(generator: &mut rand::rngs::ThreadRng, moves: &mut Vec<(i8, i8)>)
    ensures
        final(moves)@.to_multiset() == old(moves)@.to_multiset(),
{
    moves.shuffle(generator);
}

} // verus!
