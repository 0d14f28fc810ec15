//! The engine's one source of randomness, behind a trusted boundary.

use vstd::prelude::*;

verus! {

/// Relies on rand::random_range: a uniformly random value in `0..bound`,
/// drawn from the thread-local generator. It panics on an empty range, so
/// the bound must be positive; nothing can be promised about which value
/// comes back beyond its range.
#[verifier::external_body]
pub(crate) fn random_below(bound: usize) -> (r: usize)
    requires
        bound > 0,
    ensures
        r < bound,
{
    rand::random_range(0..bound)
}

} // verus!
