//! The random source of a conversation, and the two draws that the engine makes
//! from it.

use rand::distributions::Bernoulli;
use rand::distributions::Distribution;
use rand::seq::SliceRandom;
use rand_xoshiro::Xoroshiro64Star;
use vstd::prelude::*;

verus! {

/// The generator that a conversation step draws from.
pub type Rng = Xoroshiro64Star;

/// The generator type.
#[verifier::external_type_specification]
#[verifier::external_body]
pub struct ExXoroshiro64Star(Xoroshiro64Star);

/// The distribution of a yes-or-no draw with a fixed chance.
#[verifier::external_type_specification]
#[verifier::external_body]
pub struct ExBernoulli(Bernoulli);

/// `SliceRandom::shuffle`: the values are rearranged in place. Which arrangement
/// comes out depends on the generator; the values themselves stay the same, each as
/// often as before.
#[verifier::external_body]
pub(crate) fn shuffle<T>(items: &mut Vec<T>, rng: &mut Rng)
    ensures
        final(items)@.to_multiset() == old(items)@.to_multiset(),
{
    items.shuffle(rng);
}

/// `Distribution::sample` of `Bernoulli`: one yes-or-no draw. Nothing is promised
/// of the outcome.
#[verifier::external_body]
pub(crate) fn sample_chance(chance: &Bernoulli, rng: &mut Rng) -> (hit: bool) {
    chance.sample(rng)
}

} // verus!
