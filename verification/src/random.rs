//! Seeded pseudo-random draws, taken from the `rand` crate.
//!
//! Both draws build a fresh `StdRng` from a 64-bit seed, so what they return
//! is a function of their arguments alone. The generator's algorithm is not
//! restated here: each result is given a name, and the contracts say only
//! what the generator's documentation and source guarantee of it.

use rand::rngs::StdRng;
use rand::seq::SliceRandom;
use rand::Rng;
use rand::SeedableRng;
use vstd::prelude::*;

verus! {

/// The order in which `SliceRandom::shuffle`, driven by
/// `StdRng::seed_from_u64(seed)`, leaves `items`.
pub uninterp spec fn shuffled(seed: u64, items: Seq<usize>) -> Seq<usize>;

/// The first `count` 32-bit words that `Rng::fill` takes from
/// `StdRng::seed_from_u64(seed)`.
pub uninterp spec fn drawn(seed: u64, count: nat) -> Seq<u32>;

/// Shuffles `items` in place with `rand::seq::SliceRandom::shuffle` and a
/// `rand::rngs::StdRng` made by `SeedableRng::seed_from_u64(seed)`.
///
/// Believed, not proved: the outcome is the named order, and, since the
/// shuffle only ever swaps two elements of the slice, it holds exactly the
/// elements that were there before, each as often as before.
#[verifier::external_body]
pub(crate) fn shuffle_seeded(seed: u64, items: &mut Vec<usize>)
    ensures
        final(items)@ == shuffled(seed, old(items)@),
        final(items)@.to_multiset() == old(items)@.to_multiset(),
{
    let mut rng = StdRng::seed_from_u64(seed);
    items.shuffle(&mut rng);
}

/// Overwrites every element of `words` with `rand::Rng::fill` and a
/// `rand::rngs::StdRng` made by `SeedableRng::seed_from_u64(seed)`.
///
/// Believed, not proved: the outcome is the named sequence of words, which
/// depends on the seed and on the number of words only, and the vector
/// keeps its length.
#[verifier::external_body]
pub(crate) fn fill_seeded(seed: u64, words: &mut Vec<u32>)
    ensures
        final(words)@ == drawn(seed, old(words)@.len()),
        final(words)@.len() == old(words)@.len(),
{
    let mut rng = StdRng::seed_from_u64(seed);
    rng.fill(words.as_mut_slice());
}

} // verus!
