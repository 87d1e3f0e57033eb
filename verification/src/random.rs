//! The one source of chance the library draws on.
use rand::RngExt;
use vstd::prelude::*;

verus! {

/// A value drawn from `[0, bound)`.
///
/// Calls `rand::rng().random_range(0..bound)` on the thread-local generator.
/// The draw is random: only its range is stated. `random_range` panics on an
/// empty range, so the bound must be positive.
#[verifier::external_body]
pub(crate) fn random_below(bound: u64) -> (r: u64)
    requires
        bound > 0,
    ensures
        r < bound,
{
    rand::rng().random_range(0..bound)
}

} // verus!
