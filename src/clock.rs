//! Wall-clock time in milliseconds, for the health policy's cool-down.
use vstd::prelude::*;

verus! {

/// Relies on time::OffsetDateTime::now_utc and its unix_timestamp_nanos: the
/// current time as nanoseconds since the Unix epoch. Nothing is promised of
/// the value.
#[verifier::external_body]
fn unix_nanos() -> (r: i128) {
    time::OffsetDateTime::now_utc().unix_timestamp_nanos()
}

/// Milliseconds since `nanos` nanoseconds, clamped to `u64`.
pub fn millis_of_nanos(nanos: i128) -> (r: u64)
    ensures
        nanos < 0 ==> r == 0,
        nanos >= 0 && nanos / 1_000_000 <= u64::MAX ==> r == nanos / 1_000_000,
        nanos >= 0 && nanos / 1_000_000 > u64::MAX ==> r == u64::MAX,
{
    if nanos < 0 {
        0
    } else {
        let ms = nanos / 1_000_000;
        if ms > u64::MAX as i128 {
            u64::MAX
        } else {
            ms as u64
        }
    }
}

/// The current time in milliseconds since the Unix epoch (0 before it).
pub fn now_ms() -> (r: u64) {
    millis_of_nanos(unix_nanos())
}

} // verus!
