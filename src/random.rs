//! The seeded random generator that drives tile selection.

use rand::rngs::StdRng;
use rand::seq::SliceRandom;
use rand::Rng;
use rand::SeedableRng;
use vstd::prelude::*;

verus! {

#[verifier::external_type_specification]
#[verifier::external_body]
pub struct ExStdRng(StdRng);

/// The first value that a `StdRng` seeded with `seed` draws from
/// `u32::MIN..u32::MAX`.
pub uninterp spec fn noise_seed_for(seed: u64) -> u32;

/// Relies on `SeedableRng::seed_from_u64` for `StdRng` and one
/// `Rng::gen_range(u32::MIN..u32::MAX)` draw on it: both are fixed by the
/// seed alone, and the range is half-open and not empty. Returns the
/// generator after that draw, and the value drawn.
#[verifier::external_body]
pub(crate) fn seeded_rng_and_first_draw(seed: u64) -> (r: (StdRng, u32))
    ensures
        r.1 == noise_seed_for(seed),
        r.1 < u32::MAX,
{
    let mut rng = StdRng::seed_from_u64(seed);
    let first = rng.gen_range(u32::MIN..u32::MAX);
    (rng, first)
}

/// Relies on `Rng::gen_ratio`: it panics when `denominator == 0` or
/// `numerator > denominator`; its result is always `true` when
/// `numerator == denominator` and always `false` when `numerator == 0`.
#[verifier::external_body]
pub(crate) fn draw_ratio(rng: &mut StdRng, numerator: u32, denominator: u32) -> (r: bool)
    requires
        0 < denominator,
        numerator <= denominator,
    ensures
        numerator == denominator ==> r,
        numerator == 0 ==> !r,
{
    rng.gen_ratio(numerator, denominator)
}

/// Relies on `SliceRandom::choose`: `None` for an empty slice, otherwise one
/// of its elements (cloned).
#[verifier::external_body]
pub(crate) fn choose_one(rng: &mut StdRng, items: &Vec<String>) -> (r: Option<String>)
    ensures
        r is None <==> items@.len() == 0,
        r matches Some(s) ==> items@.contains(s),
{
    items.choose(rng).cloned()
}

} // verus!
