use vstd::prelude::*;

verus! {

/// Relies on rand::random_range over a half-open range of machine integers:
/// it returns a value of the given range, drawn from the thread-local
/// generator, and panics only on an empty range, which the precondition
/// rules out. Nothing is assumed about the distribution: every verified
/// caller must be correct whatever value comes back.
#[verifier::external_body]
pub(crate) fn random_in_range(lo: usize, hi: usize) -> (r: usize)
    requires
        lo < hi,
    ensures
        lo <= r < hi,
{
    rand::random_range(lo..hi)
}

} // verus!
