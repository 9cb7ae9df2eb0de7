//! Random draws used by the decision loop. Each result depends on chance, so
//! the contracts say only what holds of every outcome.

use vstd::prelude::*;

verus! {

/// Relies on `rand::random_ratio`: `true` with chance
/// `numerator / denominator`; always `true` when the two are equal and always
/// `false` when the numerator is zero. It panics when the denominator is zero
/// or smaller than the numerator.
#[verifier::external_body]
pub(crate) fn random_ratio(numerator: u32, denominator: u32) -> (r: bool)
    requires
        0 < denominator,
        numerator <= denominator,
    ensures
        numerator == denominator ==> r,
        numerator == 0 ==> !r,
{
    rand::random_ratio(numerator, denominator)
}

/// Relies on `rand::random_range` over the inclusive range `low..=high`: a
/// value inside it. It panics on an empty range.
#[verifier::external_body]
pub(crate) fn random_inclusive(low: u64, high: u64) -> (r: u64)
    requires
        low <= high,
    ensures
        low <= r <= high,
{
    rand::random_range(low..=high)
}

} // verus!
