//! The wall clock, read through `std::time::SystemTime`.

use vstd::prelude::*;

verus! {

/// Calls `std::time::SystemTime::now` and returns whole seconds since the
/// Unix epoch (0 before it). Nothing is stated about the value: it is the
/// time of the machine.
#[verifier::external_body]
pub fn unix_time_s() -> u64 {
    std::time::SystemTime::now().duration_since(std::time::UNIX_EPOCH).map_or(0, |d| d.as_secs())
}

/// Calls `std::time::SystemTime::now` and returns milliseconds since the
/// Unix epoch (0 before it, `u64::MAX` beyond the range). Nothing is stated
/// about the value: it is the time of the machine.
#[verifier::external_body]
pub fn unix_time_ms() -> u64 {
    std::time::SystemTime::now().duration_since(std::time::UNIX_EPOCH).map_or(
        0,
        |d| u64::try_from(d.as_millis()).unwrap_or(u64::MAX),
    )
}

} // verus!
