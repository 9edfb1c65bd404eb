//! The system clock, read through the `time` crate.

use vstd::prelude::*;

verus! {

#[verifier::external_type_specification]
#[verifier::external_body]
pub struct ExOffsetDateTime(time::OffsetDateTime);

#[verifier::external_type_specification]
#[verifier::external_body]
pub struct ExComponentRange(time::error::ComponentRange);

/// Reads the system clock with `time::OffsetDateTime::now_utc`. Nothing is
/// promised of the instant it returns.
#[verifier::external_body]
fn now_utc() -> time::OffsetDateTime {
    time::OffsetDateTime::now_utc()
}

/// `OffsetDateTime::unix_timestamp`. Trusted: the value lies within
/// ±10^14 seconds, which holds because `time` limits dates to the years
/// ±999999 even with its `large-dates` feature (±9999 without it).
#[verifier::external_body]
fn unix_timestamp(t: &time::OffsetDateTime) -> (secs: i64)
    ensures
        -100_000_000_000_000 <= secs <= 100_000_000_000_000,
{
    t.unix_timestamp()
}

/// `OffsetDateTime::unix_timestamp_nanos`. Trusted: the value lies within
/// ±10^23 nanoseconds, for the same reason as `unix_timestamp`.
#[verifier::external_body]
fn unix_timestamp_nanos(t: &time::OffsetDateTime) -> (nanos: i128)
    ensures
        -100_000_000_000_000_000_000_000 <= nanos <= 100_000_000_000_000_000_000_000,
{
    t.unix_timestamp_nanos()
}

/// Whether `secs` is an instant from the start of the year -9999 to the end
/// of the year 9999 (UTC), the dates `time` represents in any build.
pub open spec fn representable_time(secs: i64) -> bool {
    -377_705_116_800 <= secs <= 253_402_300_799
}

/// `OffsetDateTime::from_unix_timestamp`. Trusted, as its source shows: it
/// accepts every timestamp from `Date::MIN` to `Date::MAX`, which span at
/// least the years -9999 to 9999. What it does beyond that range depends on
/// the features `time` was built with and is left unsaid.
#[verifier::external_body]
pub(crate) fn datetime_from_unix(secs: i64) -> (res: Result<time::OffsetDateTime, time::error::ComponentRange>)
    ensures
        representable_time(secs) ==> res is Ok,
{
    time::OffsetDateTime::from_unix_timestamp(secs)
}

/// The current time in whole seconds since the Unix epoch.
pub fn current_unix_seconds() -> (secs: i64)
    ensures
        -100_000_000_000_000 <= secs <= 100_000_000_000_000,
{
    let now = now_utc();
    unix_timestamp(&now)
}

/// Milliseconds since the Unix epoch from nanoseconds since it, counting an
/// instant before the epoch as 0 (as a failed `duration_since` defaulting
/// to zero does).
pub fn millis_from_nanos(nanos: i128) -> (millis: i64)
    requires
        nanos <= 100_000_000_000_000_000_000_000,
    ensures
        nanos < 0 ==> millis == 0,
        nanos >= 0 ==> millis == nanos / 1_000_000,
{
    if nanos < 0 {
        0
    } else {
        (nanos / 1_000_000) as i64
    }
}

/// The current time in milliseconds since the Unix epoch (0 if the clock
/// reads earlier than the epoch).
pub fn current_unix_millis() -> (millis: i64)
    ensures
        millis >= 0,
{
    let now = now_utc();
    millis_from_nanos(unix_timestamp_nanos(&now))
}

} // verus!
