//! The calls into the `rand` crate. Nothing here is proved: each contract
//! repeats what `rand` documents of the method that the body calls.

use rand::rngs::SmallRng;
use rand::Rng;
use vstd::prelude::*;

verus! {

/// `rand::rngs::SmallRng`, the generator that a simulation owns. Its state is
/// opaque to the verifier.
#[verifier::external_type_specification]
#[verifier::external_body]
pub struct ExSmallRng(rand::rngs::SmallRng);

/// Calls `Rng::gen_range` on the half-open range from zero to `bound`. It
/// panics on an empty range, hence the precondition; the value it returns
/// lies inside the range.
#[verifier::external_body]
pub(crate) fn draw_below(rng: &mut SmallRng, bound: u128) -> (draw: u128)
    requires
        bound > 0,
    ensures
        draw < bound,
{
    rng.gen_range(0..bound)
}

/// Calls `Rng::gen_ratio`, a trial that succeeds with a chance of `numerator`
/// in `denominator`. It panics on a zero denominator and on a numerator above
/// the denominator. A zero numerator never succeeds, and a numerator equal to
/// the denominator always does.
#[verifier::external_body]
pub(crate) fn flip(rng: &mut SmallRng, numerator: u32, denominator: u32) -> (hit: bool)
    requires
        0 < denominator,
        numerator <= denominator,
    ensures
        numerator == 0 ==> !hit,
        numerator == denominator ==> hit,
{
    rng.gen_ratio(numerator, denominator)
}

} // verus!
