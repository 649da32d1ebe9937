//! Random draws. Each one goes to the `rand` crate's thread-local
//! generator; what comes back is only known to lie in the requested range.
use vstd::prelude::*;

verus! {

/// Calls `rand::random_range(low..high)` on `usize`. The crate documents a
/// value drawn from the half-open range, and panics on an empty range, so
/// `low < high` is required. Which value comes back is chance, so nothing
/// more is stated.
#[verifier::external_body]
pub(crate) fn random_below(low: usize, high: usize) -> (r: usize)
    requires
        low < high,
    ensures
        low <= r < high,
{
    rand::random_range(low..high)
}

/// Calls `rand::random_ratio(numerator, denominator)`: `true` with chance
/// `numerator / denominator`. The crate panics unless
/// `0 < denominator` and `numerator <= denominator`, and documents that the
/// result is always `true` when the two are equal and always `false` when
/// `numerator` is zero. Otherwise the outcome is chance.
#[verifier::external_body]
pub(crate) fn random_ratio(numerator: u32, denominator: u32) -> (b: bool)
    requires
        0 < denominator,
        numerator <= denominator,
    ensures
        numerator == denominator ==> b,
        numerator == 0 ==> !b,
{
    rand::random_ratio(numerator, denominator)
}

} // verus!
