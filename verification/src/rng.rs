//! The one trusted source of randomness.

use rand::Rng;
use vstd::prelude::*;

verus! {

/// Relies on rand's `Rng::gen_range` on a thread-local generator: for a
/// nonempty half-open integer range it returns a uniform value in
/// [lo, hi) and panics only on an empty range, which the precondition
/// excludes. Nothing more is assumed: every caller must hold for every
/// value the range admits.
#[verifier::external_body]
pub(crate) fn random_raw(lo: i64, hi: i64) -> (r: i64)
    requires
        lo < hi,
    ensures
        lo <= r < hi,
{
    rand::thread_rng().gen_range(lo..hi)
}

} // verus!
