//! Trusted interface to the system clock (`std::time`).
//!
//! Nothing here is claimed of the values read: they are the time.

use vstd::prelude::*;

verus! {

/// A reading of the system clock.
#[verifier::external_type_specification]
#[verifier::external_body]
pub struct ExSystemTime(std::time::SystemTime);

/// Reads the system clock (`SystemTime::now`).
#[verifier::external_body]
pub(crate) fn system_now() -> std::time::SystemTime {
    std::time::SystemTime::now()
}

/// `t.duration_since(UNIX_EPOCH)`: the time elapsed since the Unix epoch,
/// or `None` when `t` is earlier than it.
#[verifier::external_body]
pub(crate) fn since_unix_epoch(t: &std::time::SystemTime) -> Option<core::time::Duration> {
    t.duration_since(std::time::UNIX_EPOCH).ok()
}

/// The whole nanoseconds of a duration (`Duration::as_nanos`).
#[verifier::external_body]
pub(crate) fn duration_nanos(d: &core::time::Duration) -> u128 {
    d.as_nanos()
}

/// The whole seconds of a duration (`Duration::as_secs`).
#[verifier::external_body]
pub(crate) fn duration_secs(d: &core::time::Duration) -> u64 {
    d.as_secs()
}

} // verus!
