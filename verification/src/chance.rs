//! Random choices.

use vstd::prelude::*;

verus! {

/// Calls `rand::random_range` on the range from zero up to but excluding
/// `bound`, with the thread-local generator. The crate promises a value in
/// the range and panics on an empty range, which the precondition rules out.
/// The generator also panics if the system's source of randomness cannot
/// seed or reseed it; no value of `bound` causes or avoids that. Two calls
/// need not agree.
#[verifier::external_body]
pub(crate) fn random_below(bound: usize) -> (r: usize)
    requires
        bound > 0,
    ensures
        r < bound,
{
    rand::random_range(0..bound)
}

} // verus!
