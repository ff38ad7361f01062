//! Readings of the system clocks. Nothing is known of a reading: whoever
//! asks for one handles every value that may come back.

use vstd::prelude::*;

verus! {

#[verifier::external_type_specification]
#[verifier::external_body]
pub struct ExInstant(std::time::Instant);

#[verifier::external_type_specification]
#[verifier::external_body]
pub struct ExSystemTime(std::time::SystemTime);

/// `std::time::Instant::now`: a point on the monotonic clock. Nothing is
/// claimed of it.
#[verifier::external_body]
pub(crate) fn monotonic_now() -> std::time::Instant {
    std::time::Instant::now()
}

/// `std::time::Instant::elapsed`, in nanoseconds: the time that has passed
/// on the monotonic clock since `origin`. Nothing is claimed of it.
#[verifier::external_body]
pub(crate) fn nanos_since(origin: &std::time::Instant) -> u128 {
    origin.elapsed().as_nanos()
}

/// `std::time::SystemTime::now`: the wall-clock time. Nothing is claimed of
/// it.
#[verifier::external_body]
pub(crate) fn wall_clock_now() -> std::time::SystemTime {
    std::time::SystemTime::now()
}

/// `std::time::SystemTime::duration_since` the Unix epoch, in whole seconds;
/// `None` for a time before the epoch. Nothing is claimed of it.
#[verifier::external_body]
pub(crate) fn unix_seconds(time: &std::time::SystemTime) -> Option<u64> {
    time.duration_since(std::time::UNIX_EPOCH).ok().map(|d| d.as_secs())
}

} // verus!
