//! The library's single source of randomness.

use rand::RngExt;
use vstd::prelude::*;

verus! {

/// Relies on rand::rng and rand::RngExt::random_range: the thread-local
/// generator draws a value uniformly from the non-empty range [0, n).
/// Nothing beyond the bound holds of the result.
#[verifier::external_body]
pub(crate) fn random_below(n: usize) -> (r: usize)
    requires
        n > 0,
    ensures
        r < n,
{
    rand::rng().random_range(0..n)
}

} // verus!
