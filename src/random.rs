//! The random draws of the search, from the thread-local generator of `rand`.
use vstd::prelude::*;
use rand::Rng;

verus! {

/// Relies on `rand::random::<bool>`: a fair coin. Nothing is promised of the
/// outcome.
#[verifier::external_body]
pub(crate) fn coin() -> (r: bool) {
    rand::random::<bool>()
}

/// Relies on `rand::Rng::gen_ratio` on `rand::thread_rng()`: `true` with
/// probability `numerator / denominator`. Its documentation and source
/// (`Bernoulli::from_ratio`) guarantee `false` for a zero numerator and `true`
/// when the numerator equals the denominator; it panics on a zero denominator
/// or a numerator above the denominator.
#[verifier::external_body]
pub(crate) fn chance(numerator: u32, denominator: u32) -> (r: bool)
    requires
        0 < denominator,
        numerator <= denominator,
    ensures
        numerator == 0 ==> !r,
        numerator == denominator ==> r,
{
    rand::thread_rng().gen_ratio(numerator, denominator)
}

} // verus!
