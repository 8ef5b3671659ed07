//! The clocks that the stores read. Their readings depend on time, so nothing is claimed of
//! them; the stores' timed operations take a reading as an argument and are verified for
//! every value of it.
use std::time::Instant;
use std::time::SystemTime;
use std::time::UNIX_EPOCH;
use vstd::prelude::*;

verus! {

/// A point on the monotonic clock (`std::time::Instant`), carried through opaquely.
#[verifier::external_type_specification]
#[verifier::external_body]
pub struct ExInstant(std::time::Instant);

/// Reads the monotonic clock with `std::time::Instant::now`. Nothing is claimed of the
/// instant returned.
#[verifier::external_body]
pub(crate) fn monotonic_now() -> Instant {
    Instant::now()
}

/// Nanoseconds elapsed since `origin`, read with `std::time::Instant::elapsed` and taken as a
/// `u64`. Nothing is claimed of the reading: it depends on the time of the call.
#[verifier::external_body]
pub(crate) fn nanos_since(origin: &Instant) -> u64 {
    origin.elapsed().as_nanos() as u64
}

/// Current Unix time in milliseconds, read with `std::time::SystemTime::now` and measured
/// from `UNIX_EPOCH` with `SystemTime::duration_since`; `None` where the system clock stands
/// before the Unix epoch (the error that `duration_since` returns). Nothing is claimed of the
/// reading: it depends on the time of the call.
#[verifier::external_body]
pub(crate) fn now_ms() -> Option<u64> {
    SystemTime::now().duration_since(UNIX_EPOCH).ok().map(|d| d.as_millis() as u64)
}

} // verus!
