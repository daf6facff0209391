use vstd::prelude::*;

verus! {

/// Relies on `rand::random_range`: a value drawn from the thread-local
/// generator, uniform over `lo..=hi`; it panics only on an empty range.
#[verifier::external_body]
pub(crate) fn random_in(lo: i64, hi: i64) -> (r: i64)
    requires
        lo <= hi,
    ensures
        lo <= r <= hi,
{
    rand::random_range(lo..=hi)
}

} // verus!
