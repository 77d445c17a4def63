//! The two draws that pursuers make from a random number generator.

use rand::rngs::StdRng;
use rand::Rng;
use vstd::prelude::*;

verus! {

/// `rand::rngs::StdRng`, the generator that the draws are made from. Nothing
/// is known of what is inside it.
#[verifier::external_type_specification]
#[verifier::external_body]
pub struct ExStdRng(rand::rngs::StdRng);

/// Calls `rand::Rng::gen_ratio`, which answers `true` with probability
/// `numerator / denominator` and panics on a zero denominator or a numerator
/// above the denominator. Claimed: the answer is `true` where the two are
/// equal and `false` where the numerator is zero. Nothing is claimed of any
/// other answer.
#[verifier::external_body]
pub(crate) fn chance(rng: &mut StdRng, numerator: u32, denominator: u32) -> (hit: bool)
    requires
        0 < denominator,
        numerator <= denominator,
    ensures
        numerator == denominator ==> hit,
        numerator == 0 ==> !hit,
{
    rng.gen_ratio(numerator, denominator)
}

/// Calls `rand::Rng::gen_range` on `0..bound`, which panics on an empty range
/// and otherwise samples a number of that range. Claimed: the number is below
/// `bound`.
#[verifier::external_body]
pub(crate) fn below(rng: &mut StdRng, bound: u64) -> (n: u64)
    requires
        0 < bound,
    ensures
        n < bound,
{
    rng.gen_range(0..bound)
}

} // verus!
