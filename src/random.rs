use vstd::prelude::*;

verus! {

#[verifier::external_type_specification]
#[verifier::external_body]
pub struct ExRandomNumberGenerator(rltk::RandomNumberGenerator);

/// Relies on rltk's RandomNumberGenerator::new: a generator seeded from the clock.
#[verifier::external_body]
pub(crate) fn new_rng() -> (r: rltk::RandomNumberGenerator) {
    rltk::RandomNumberGenerator::new()
}

/// Relies on rltk's RandomNumberGenerator::range: a draw from `min` up to, not
/// including, `max` (its `gen_range` panics on an empty range).
#[verifier::external_body]
pub(crate) fn rng_range(rng: &mut rltk::RandomNumberGenerator, min: i32, max: i32) -> (r: i32)
    requires
        min < max,
    ensures
        min <= r < max,
{
    rng.range(min, max)
}

/// Relies on rltk's RandomNumberGenerator::roll_dice: one die of `die_type`
/// faces, drawn as `range(1, die_type + 1)`.
#[verifier::external_body]
pub(crate) fn roll_die(rng: &mut rltk::RandomNumberGenerator, die_type: i32) -> (r: i32)
    requires
        1 <= die_type < i32::MAX,
    ensures
        1 <= r <= die_type,
{
    rng.roll_dice(1, die_type)
}

} // verus!
