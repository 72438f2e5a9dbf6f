//! Uniform random draws used when a swarm is spawned.

use vstd::prelude::*;

verus! {

/// Relies on `rand::Rng::gen_range` on the thread-local generator with an
/// inclusive range: the value lies in `[lo, hi]`. It panics only on an empty
/// range, which `requires` leaves out.
#[verifier::external_body]
pub(crate) fn draw_between(lo: i64, hi: i64) -> (r: i64)
    requires
        lo <= hi,
    ensures
        lo <= r <= hi,
{
    rand::Rng::gen_range(&mut rand::thread_rng(), lo..=hi)
}

} // verus!
