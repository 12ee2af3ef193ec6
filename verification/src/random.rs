use bracket_lib::prelude::RandomNumberGenerator;
use vstd::prelude::*;

verus! {

#[verifier::external_type_specification]
#[verifier::external_body]
pub struct ExRandomNumberGenerator(RandomNumberGenerator);

/// `RandomNumberGenerator::range` on `i32`. The contract claims only that the
/// number drawn is at least `min` and less than `max`. The range must not be
/// empty: the generator refuses to draw from an empty one.
#[verifier::external_body]
pub(crate) fn random_between(rng: &mut RandomNumberGenerator, min: i32, max: i32) -> (n: i32)
    requires
        min < max,
    ensures
        min <= n < max,
{
    rng.range(min, max)
}

/// `RandomNumberGenerator::roll_dice` with one die. The contract claims only
/// that the roll is at least 1 and at most `sides`. The die needs a side, and
/// one side fewer than `i32` can count, because the generator adds 1 to it.
#[verifier::external_body]
pub(crate) fn roll_die(rng: &mut RandomNumberGenerator, sides: i32) -> (n: i32)
    requires
        1 <= sides < i32::MAX,
    ensures
        1 <= n <= sides,
{
    rng.roll_dice(1, sides)
}

} // verus!
