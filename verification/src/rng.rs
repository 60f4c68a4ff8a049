//! Trusted access to bracket_lib's dice-oriented random number generator.
//! Nothing can be promised of a random draw beyond its range, so each
//! contract states only the bounds the generator's source guarantees.

use vstd::prelude::*;

use bracket_lib::prelude::RandomNumberGenerator;

verus! {

#[verifier::external_type_specification]
#[verifier::external_body]
pub struct ExRandomNumberGenerator(RandomNumberGenerator);

/// Relies on bracket_lib's RandomNumberGenerator::new: a fresh generator
/// seeded from the operating system.
#[verifier::external_body]
pub fn rng_new() -> RandomNumberGenerator {
    RandomNumberGenerator::new()
}

/// Relies on bracket_lib's RandomNumberGenerator::roll_dice: the sum of `n`
/// rolls of a die with `die_type` faces, each roll in 1..=die_type.
#[verifier::external_body]
pub fn roll_dice(rng: &mut RandomNumberGenerator, n: i32, die_type: i32) -> (r: i32)
    requires
        1 <= n,
        1 <= die_type < i32::MAX,
        n * die_type <= i32::MAX,
    ensures
        n <= r <= n * die_type,
{
    rng.roll_dice(n, die_type)
}

/// Relies on bracket_lib's RandomNumberGenerator::range: a draw inclusive
/// of `min` and exclusive of `max`.
#[verifier::external_body]
pub fn rng_range(rng: &mut RandomNumberGenerator, min: i32, max: i32) -> (r: i32)
    requires
        min < max,
    ensures
        min <= r < max,
{
    rng.range(min, max)
}

} // verus!
