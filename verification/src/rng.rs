//! The random draws that passphrase assembly makes.

use vstd::prelude::*;

verus! {

/// Relies on rand::RngExt::random_range over rand::rng(): it returns a
/// value drawn uniformly from the given non-empty range.  Nothing is
/// assumed of the value beyond its bound.
#[verifier::external_body]
pub(crate) fn random_below(bound: usize) -> (r: usize)
    requires
        bound > 0,
    ensures
        r < bound,
{
    rand::RngExt::random_range(&mut rand::rng(), 0..bound)
}

} // verus!
