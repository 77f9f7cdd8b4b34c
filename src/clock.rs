//! The wall clock, in milliseconds since the UNIX epoch.
use vstd::prelude::*;

verus! {

/// Relies on std::time::SystemTime::now: the current wall-clock time, read as
/// milliseconds since the UNIX epoch (0 for a clock set before the epoch).
/// Nothing is promised of its value.
#[verifier::external_body]
pub fn now_millis() -> (r: u64) {
    std::time::SystemTime::now().duration_since(std::time::UNIX_EPOCH).map(|d| d.as_millis() as u64).unwrap_or(0)
}

} // verus!
