//! The source of randomness.

use vstd::prelude::*;
use rand::Rng;

verus! {

/// Calls `rand::Rng::gen_range` on the thread-local generator of
/// `rand::thread_rng`, with the half-open range `low..high`.
///
/// Trusted: the value lies in the range. `gen_range` panics on an empty
/// range, so the range has to hold at least one number. Nothing is said
/// about which number comes back, and two calls may differ.
#[verifier::external_body]
pub(crate) fn sample_range(low: i32, high: i32) -> (n: i32)
    requires
        low < high,
    ensures
        low <= n < high,
{
    rand::thread_rng().gen_range(low..high)
}

/// A colour channel drawn from the full range `0..=255`.
pub(crate) fn sample_channel() -> u8 {
    let n: i32 = sample_range(0, 256);
    n as u8
}

} // verus!
