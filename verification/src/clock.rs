//! Wall-clock access.
//!
//! Queue entries and exported containers carry informational creation
//! timestamps (seconds since the Unix epoch).

use vstd::prelude::*;

verus! {

/// Declares `std::time::SystemTime` so the clock can be read; the value
/// is opaque.
#[verifier::external_type_specification]
#[verifier::external_body]
pub struct ExSystemTime(std::time::SystemTime);

/// Relies on std's `SystemTime::now`: the current wall clock.  Nothing
/// can be promised of the value.
#[verifier::external_body]
fn system_now() -> std::time::SystemTime {
    std::time::SystemTime::now()
}

/// Relies on std's `SystemTime::duration_since`: whole seconds since the
/// Unix epoch, or `None` for a clock set before it.  Nothing can be
/// promised of the value.
#[verifier::external_body]
fn seconds_since_epoch(t: std::time::SystemTime) -> Option<u64> {
    match t.duration_since(std::time::UNIX_EPOCH) {
        Ok(d) => Some(d.as_secs()),
        Err(_) => None,
    }
}

/// The current time as seconds since the Unix epoch, clamped to zero for
/// clocks set before the epoch and to `i64::MAX` for clocks beyond it.
pub fn now_timestamp() -> (r: u64)
    ensures
        r <= i64::MAX as u64,
{
    match seconds_since_epoch(system_now()) {
        Some(s) => {
            if s > i64::MAX as u64 {
                i64::MAX as u64
            } else {
                s
            }
        },
        None => 0,
    }
}

} // verus!
