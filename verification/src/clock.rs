//! The wall clock, read in milliseconds since the Unix epoch.

use vstd::prelude::*;
use crate::errors::Error;

verus! {

/// `std::time::SystemTime`, an instant of the system clock, used as an
/// opaque value.
#[verifier::external_type_specification]
#[verifier::external_body]
pub struct ExSystemTime(std::time::SystemTime);

/// `std::time::SystemTimeError`, the error of a clock that stands before
/// the instant it is compared with, used as an opaque value.
#[verifier::external_type_specification]
#[verifier::external_body]
pub struct ExSystemTimeError(std::time::SystemTimeError);

/// Calls `SystemTime::now`. Nothing is promised of the instant.
#[verifier::external_body]
fn system_now() -> (now: std::time::SystemTime) {
    std::time::SystemTime::now()
}

/// Calls `SystemTime::duration_since` with the Unix epoch. It fails when the
/// clock stands before the epoch.
#[verifier::external_body]
fn since_epoch(instant: &std::time::SystemTime) -> (r: Result<
    core::time::Duration,
    std::time::SystemTimeError,
>) {
    instant.duration_since(std::time::UNIX_EPOCH)
}

/// Calls `Duration::as_millis`.
#[verifier::external_body]
fn whole_millis(span: &core::time::Duration) -> (millis: u128) {
    span.as_millis()
}

/// The current time in milliseconds since the Unix epoch, or `TimeError`
/// when the clock cannot be read. Two calls may differ: callers state what
/// holds for every timestamp.
pub fn now_millis() -> (r: Result<u128, Error>)
    ensures
        r is Err ==> r == Err::<u128, Error>(Error::TimeError),
{
    let now = system_now();
    match since_epoch(&now) {
        Ok(span) => Ok(whole_millis(&span)),
        Err(_) => Err(Error::TimeError),
    }
}

/// The low 32 bits of a millisecond timestamp, as confirmed outputs keep it.
pub open spec fn low_32(millis: u128) -> u32 {
    (millis % 0x1_0000_0000) as u32
}

/// Truncates a millisecond timestamp to 32 bits.
pub fn truncate_millis(millis: u128) -> (low: u32)
    ensures
        low == low_32(millis),
{
    (millis % 0x1_0000_0000) as u32
}

} // verus!
