//! Random draws from `rand`'s thread-local generator. Nothing is claimed of which value
//! comes back beyond the range that `rand` documents.
use vstd::prelude::*;
use rand::rngs::ThreadRng;
use rand::Rng;

verus! {

/// `rand::rngs::ThreadRng`, the handle to the thread-local generator, carried through as an
/// opaque value.
#[verifier::external_type_specification]
#[verifier::external_body]
pub struct ExThreadRng(ThreadRng);

/// `rand::thread_rng`: a handle to the thread-local generator (nothing is claimed of it).
#[verifier::external_body]
pub(crate) fn new_thread_rng() -> ThreadRng {
    rand::thread_rng()
}

/// `Rng::gen_range` on `0..n`: a number below `n` (rand panics on an empty range, which the
/// `requires` excludes). Which number comes back is left open.
#[verifier::external_body]
pub(crate) fn random_below(rng: &mut ThreadRng, n: usize) -> (r: usize)
    requires
        n > 0,
    ensures
        r < n,
{
    rng.gen_range(0..n)
}

/// `Rng::gen_ratio`: `true` with probability `numerator / denominator`; rand documents that
/// `numerator == 0` always gives `false` and `numerator == denominator` always `true`, and
/// panics when `denominator == 0` or `numerator > denominator` (excluded here).
#[verifier::external_body]
pub(crate) fn random_ratio(rng: &mut ThreadRng, numerator: u32, denominator: u32) -> (r: bool)
    requires
        denominator > 0,
        numerator <= denominator,
    ensures
        numerator == 0 ==> !r,
        numerator == denominator ==> r,
{
    rng.gen_ratio(numerator, denominator)
}

} // verus!
