//! Trusted boundary to the random number generator.

use vstd::prelude::*;

verus! {

/// Relies on `rand::Rng::random_range` over `0..n`: it panics only on an
/// empty range and otherwise returns a value drawn from the range, so the
/// result is below `n`. Nothing further is assumed of which value comes
/// back.
#[verifier::external_body]
pub(crate) fn random_below(n: usize) -> (r: usize)
    requires
        n > 0,
    ensures
        r < n,
{
    rand::Rng::random_range(&mut rand::rng(), 0..n)
}

} // verus!
