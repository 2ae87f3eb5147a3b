//! Trusted access to the `rand` crate's uniform random source.
//!
//! The composer's contracts never depend on which element a draw picks or on
//! which permutation a shuffle produces: each wrapper states only what holds
//! of every possible outcome.

use vstd::prelude::*;
use rand::seq::SliceRandom;

verus! {

#[verifier::external_type_specification]
#[verifier::external_body]
pub struct ExThreadRng(rand::rngs::ThreadRng);

/// Relies on rand's `SliceRandom::choose` for slices: on a non-empty slice it
/// returns `Some` of an element of the slice, picked uniformly at random;
/// only an empty slice yields `None`.
#[verifier::external_body]
pub(crate) fn choose_char(rng: &mut rand::rngs::ThreadRng, chars: &[char]) -> (c: char)
    requires
        chars@.len() > 0,
    ensures
        chars@.contains(c),
{
    *chars.choose(rng).unwrap()
}

/// Relies on rand's `SliceRandom::shuffle` for slices: a Fisher-Yates pass
/// that only swaps elements in place, so the new contents are a permutation
/// of the old ones.
#[verifier::external_body]
pub(crate) fn shuffle_chars(rng: &mut rand::rngs::ThreadRng, chars: &mut Vec<char>)
    ensures
        final(chars)@.to_multiset() == old(chars)@.to_multiset(),
{
    chars.shuffle(rng)
}

} // verus!
