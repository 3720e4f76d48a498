//! Random numbers, drawn from the `rltk` generator.

use vstd::prelude::*;

verus! {

#[verifier::external_type_specification]
#[verifier::external_body]
pub struct ExRandomNumberGenerator(rltk::RandomNumberGenerator);

/// `rltk::RandomNumberGenerator::new`: a generator seeded from the operating
/// system. Nothing is claimed of the numbers it will give.
#[verifier::external_body]
pub(crate) fn new_generator() -> (rng: rltk::RandomNumberGenerator) {
    rltk::RandomNumberGenerator::new()
}

/// `rltk::RandomNumberGenerator::range` on `i32`: some number from `min` up
/// to, but not including, `max`. The range must not be empty.
#[verifier::external_body]
pub(crate) fn range(rng: &mut rltk::RandomNumberGenerator, min: i32, max: i32) -> (n: i32)
    requires
        min < max,
    ensures
        min <= n < max,
{
    rng.range(min, max)
}

/// `rltk::RandomNumberGenerator::roll_dice`: the sum of `n` dice with faces
/// `1..=die_type`, so some number from `n` to `n * die_type`.
#[verifier::external_body]
pub(crate) fn roll_dice(rng: &mut rltk::RandomNumberGenerator, n: i32, die_type: i32) -> (sum: i32)
    requires
        n >= 0,
        die_type >= 1,
        n * die_type <= i32::MAX,
        die_type < i32::MAX,
    ensures
        n <= sum <= n * die_type,
{
    rng.roll_dice(n, die_type)
}

} // verus!
