//! The monotonic clock that times a test.

use vstd::prelude::*;
use std::time::{Duration, Instant};

verus! {

#[verifier::external_type_specification]
#[verifier::external_body]
pub struct ExInstant(Instant);

/// `Instant::now`. The value rests on the machine's clock; nothing is stated.
#[verifier::external_body]
pub(crate) fn instant_now() -> (r: Instant) {
    Instant::now()
}

/// `Instant::elapsed`: the time since `start`. It rests on the machine's
/// clock; nothing is stated.
#[verifier::external_body]
pub(crate) fn instant_elapsed(start: &Instant) -> (r: Duration) {
    start.elapsed()
}

/// `Duration::as_nanos`: the whole nanoseconds in `d`. `Duration` is opaque
/// here, so nothing is stated.
#[verifier::external_body]
pub(crate) fn duration_nanos(d: &Duration) -> (r: u128) {
    d.as_nanos()
}

/// Nanoseconds since `start`, capped at `u64::MAX`.
pub(crate) fn nanos_since(start: &Instant) -> u64 {
    let n = duration_nanos(&instant_elapsed(start));
    if n > 0xffff_ffff_ffff_ffffu128 {
        0xffff_ffff_ffff_ffffu64
    } else {
        n as u64
    }
}

} // verus!
