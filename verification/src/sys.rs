//! Trusted access to the wall clock and to fresh identifiers. Callers state
//! nothing about the values these return: time-dependent logic takes the
//! reading as an argument and is verified for every value of it.

use vstd::prelude::*;

verus! {

/// The largest wall-clock timestamp the gateway computes with:
/// 9999-12-31T23:59:59Z, in seconds since the Unix epoch.
pub const MAX_TIMESTAMP_SECS: i64 = 253_402_300_799;

/// The same bound in milliseconds, for the rate limiter's clock.
pub const MAX_TIMESTAMP_MILLIS: i64 = 253_402_300_799_000;

/// A plausible reading of the gateway's clamped wall clock, in seconds.
pub open spec fn spec_clock_reading(now: int) -> bool {
    0 <= now <= MAX_TIMESTAMP_SECS
}

/// Relies on chrono::Utc::now: the wall clock, as seconds since the Unix
/// epoch. Nothing is promised of the value.
#[verifier::external_body]
pub(crate) fn now_secs() -> i64 {
    chrono::Utc::now().timestamp()
}

/// Relies on chrono::Utc::now: the wall clock, as milliseconds since the
/// Unix epoch. Nothing is promised of the value.
#[verifier::external_body]
pub(crate) fn now_millis() -> i64 {
    chrono::Utc::now().timestamp_millis()
}

/// Relies on uuid::Uuid::new_v4: a fresh random 128-bit identifier. Nothing
/// is promised of the value.
#[verifier::external_body]
pub(crate) fn fresh_id() -> u128 {
    uuid::Uuid::new_v4().as_u128()
}

/// Relies on uuid::Uuid::new_v4: a fresh random identifier in hyphenated
/// text form. Nothing is promised of the value.
#[verifier::external_body]
pub(crate) fn fresh_id_string() -> String {
    uuid::Uuid::new_v4().to_string()
}

/// Clamps a clock reading into the range of timestamps the gateway computes
/// with, leaving sane readings unchanged.
pub(crate) fn clamp_secs(t: i64) -> (r: i64)
    ensures
        0 <= r <= MAX_TIMESTAMP_SECS,
        0 <= t <= MAX_TIMESTAMP_SECS ==> r == t,
{
    if t < 0 {
        0
    } else if t > MAX_TIMESTAMP_SECS {
        MAX_TIMESTAMP_SECS
    } else {
        t
    }
}

/// Clamps a millisecond clock reading likewise.
pub(crate) fn clamp_millis(t: i64) -> (r: i64)
    ensures
        0 <= r <= MAX_TIMESTAMP_MILLIS,
        0 <= t <= MAX_TIMESTAMP_MILLIS ==> r == t,
{
    if t < 0 {
        0
    } else if t > MAX_TIMESTAMP_MILLIS {
        MAX_TIMESTAMP_MILLIS
    } else {
        t
    }
}

} // verus!
