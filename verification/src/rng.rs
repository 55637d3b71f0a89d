//! The one unverified corner: drawing uniform random integers.

use vstd::prelude::*;
use rand::Rng;

verus! {

/// Relies on `rand::thread_rng` and `rand::Rng::gen_range`: a draw
/// distributed uniformly over the half-open range `lo..hi`. `gen_range`
/// panics only on an empty range, which the precondition excludes.
#[verifier::external_body]
pub(crate) fn rand_in(lo: i64, hi: i64) -> (r: i64)
    requires
        lo < hi,
    ensures
        lo <= r < hi,
{
    rand::thread_rng().gen_range(lo..hi)
}

} // verus!
