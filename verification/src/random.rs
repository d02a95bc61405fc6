//! The random source and the draws the search makes from it.

use rand::rngs::StdRng;
use rand::seq::SliceRandom;
use rand::Rng;
use rand::SeedableRng;
use vstd::prelude::*;

use crate::geometry::Point;

verus! {

#[verifier::external_type_specification]
#[verifier::external_body]
pub struct ExStdRng(StdRng);

/// The generator that `rand::SeedableRng::seed_from_u64` makes of `seed` for
/// `StdRng`. The seed alone decides it: the call spreads the seed over the
/// generator's key by a fixed rule and starts the generator from that key. It
/// reads nothing else.
pub uninterp spec fn seeded_generator(seed: u64) -> StdRng;

/// `rand::SeedableRng::seed_from_u64` for `StdRng`: the generator that
/// `seed` decides. What the generator will give when it is drawn from is not
/// claimed.
#[verifier::external_body]
pub(crate) fn seeded_source(seed: u64) -> (rng: StdRng)
    ensures
        rng == seeded_generator(seed),
{
    StdRng::seed_from_u64(seed)
}

/// `rand::Rng::gen_range` over `low..high`: some index of that range. Which
/// one is not claimed, only that it lies inside; an empty range is left out,
/// as the call would not return for it.
#[verifier::external_body]
pub(crate) fn random_index(rng: &mut StdRng, low: usize, high: usize) -> (index: usize)
    requires
        low < high,
    ensures
        low <= index < high,
{
    rng.gen_range(low..high)
}

/// `rand::Rng::gen_ratio`: a coin that comes up `true` with probability
/// `numerator / denominator`. Claimed are the two sure cases only: never
/// `true` for a zero numerator, always `true` when both numbers agree.
#[verifier::external_body]
pub(crate) fn random_chance(rng: &mut StdRng, numerator: u32, denominator: u32) -> (hit: bool)
    requires
        0 < denominator,
        numerator <= denominator,
    ensures
        numerator == 0 ==> !hit,
        numerator == denominator ==> hit,
{
    rng.gen_ratio(numerator, denominator)
}

/// `rand::seq::SliceRandom::shuffle` on the points of a route: it reorders
/// them in place by exchanging pairs, so the same points are there afterwards,
/// each as often as before.
#[verifier::external_body]
pub(crate) fn shuffle_points(rng: &mut StdRng, route: &mut Vec<Point>)
    ensures
        final(route)@.to_multiset() == old(route)@.to_multiset(),
{
    route.shuffle(rng)
}

} // verus!
