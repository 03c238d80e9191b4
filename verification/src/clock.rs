//! Reading the clock. Nothing is known of what the clock says: every contract that
//! involves a measured time holds for whatever value came back.

use std::time::Instant;
use vstd::prelude::*;

verus! {

/// `std::time::Instant`: a point in time, opaque to the verifier.
#[verifier::external_type_specification]
#[verifier::external_body]
pub struct ExInstant(std::time::Instant);

/// `Instant::now` from the standard library: the current point in time. Nothing is
/// claimed of it.
pub assume_specification[ std::time::Instant::now ]() -> (t: std::time::Instant)
;

/// `Instant::elapsed` from the standard library: the time since `t`. Nothing is claimed
/// of it.
pub assume_specification[ std::time::Instant::elapsed ](t: &std::time::Instant) -> (d:
    core::time::Duration)
;

/// `Duration::as_nanos` from the standard library: the duration in nanoseconds. Nothing is
/// claimed of it.
pub assume_specification[ core::time::Duration::as_nanos ](d: &core::time::Duration) -> (n: u128)
;

/// The nanoseconds since `start`, cut to their low 64 bits. What the clock says decides
/// the result, so that nothing holds of it for every run; `cut_to_64_bits` says what is
/// returned for each reading of the clock.
pub(crate) fn elapsed_nanos(start: &Instant) -> u64 {
    let nanos: u128 = start.elapsed().as_nanos();
    cut_to_64_bits(nanos)
}

/// A count of nanoseconds cut to its low 64 bits: the count itself where it fits, which
/// it does for any time span below 584 years.
pub open spec fn low_64_bits(nanos: u128) -> u64 {
    (nanos % 0x1_0000_0000_0000_0000) as u64
}

/// Cuts a count of nanoseconds to its low 64 bits.
pub(crate) fn cut_to_64_bits(nanos: u128) -> (cut: u64)
    ensures
        cut == low_64_bits(nanos),
        nanos <= u64::MAX ==> cut == nanos,
{
    assert(nanos as u64 == (nanos % 0x1_0000_0000_0000_0000) as u64) by (bit_vector);
    #[verifier::truncate]
    (nanos as u64)
}

} // verus!
