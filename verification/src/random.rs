//! Random numbers.

use fastrand::Rng;
use vstd::prelude::*;

verus! {

/// `fastrand::Rng`, a random number generator.
#[verifier::external_type_specification]
#[verifier::external_body]
pub struct ExRng(fastrand::Rng);

/// `Rng::new`: a generator with a random seed. Nothing is claimed of the numbers it gives.
#[verifier::external_body]
pub(crate) fn rng() -> (rng: Rng) {
    Rng::new()
}

/// `Rng::usize` with the range `..n`: some number below `n`. Which one is left to chance. The
/// call panics if there is no such number.
#[verifier::external_body]
pub(crate) fn below(rng: &mut Rng, n: usize) -> (index: usize)
    requires
        n > 0,
    ensures
        index < n,
{
    rng.usize(..n)
}

} // verus!
