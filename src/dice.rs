use vstd::prelude::*;

verus! {

/// rltk's random number generator, carried through opaque: the dungeon
/// generator only hands it to the two draws below.
#[verifier::external_type_specification]
#[verifier::external_body]
pub struct ExRandomNumberGenerator(rltk::RandomNumberGenerator);

/// Relies on rltk::RandomNumberGenerator::range, which draws from `min..max`
/// with rand's `gen_range` (that panics on an empty range, hence `min < max`).
#[verifier::external_body]
pub(crate) fn roll_range(rng: &mut rltk::RandomNumberGenerator, min: i32, max: i32) -> (r: i32)
    requires
        min < max,
    ensures
        min <= r < max,
{
    rng.range(min, max)
}

/// Relies on rltk::RandomNumberGenerator::roll_dice: the sum of `n` draws,
/// each from `1..die_type + 1`.
#[verifier::external_body]
pub(crate) fn roll_dice(rng: &mut rltk::RandomNumberGenerator, n: i32, die_type: i32) -> (r: i32)
    requires
        1 <= n <= 1000,
        1 <= die_type <= 1_000_000,
    ensures
        n <= r <= n * die_type,
{
    rng.roll_dice(n, die_type)
}

} // verus!
