//! Calendar days of timestamps.

use chrono::{DateTime, Utc};
use std::time::{Duration, UNIX_EPOCH};
use vstd::prelude::*;

verus! {

/// The last millisecond of the year 9999, the latest timestamp that has a
/// calendar day of ten characters.
pub const MAX_DATED_MS: u64 = 253_402_300_799_999;

/// The UTC calendar day of a timestamp in milliseconds, written `YYYY-MM-DD`, as
/// `chrono` formats it. It depends on the timestamp alone.
pub uninterp spec fn utc_day(ms: u64) -> Seq<char>;

/// Calls `chrono::DateTime::<Utc>::from` on the system time `ms` milliseconds
/// after the Unix epoch and formats it with `%Y-%m-%d`. The body is not
/// verified: its result is given the name `utc_day(ms)`, and nothing else is
/// claimed of it. Timestamps after the year 9999 are left out: far beyond them
/// the conversion panics.
#[verifier::external_body]
fn format_utc_day(ms: u64) -> (text: String)
    requires
        ms <= MAX_DATED_MS,
    ensures
        text@ == utc_day(ms),
{
    DateTime::<Utc>::from(UNIX_EPOCH + Duration::from_millis(ms)).format("%Y-%m-%d").to_string()
}

/// The calendar day of `ms`, if it lies before the year 10000.
pub fn to_date(ms: u64) -> (day: Option<String>)
    ensures
        day is Some == (ms <= MAX_DATED_MS),
        day matches Some(text) ==> text@ == utc_day(ms),
{
    if ms <= MAX_DATED_MS {
        Some(format_utc_day(ms))
    } else {
        None
    }
}

/// Whether `day` is the calendar day of `ms`, absent exactly when `ms` has none.
pub open spec fn is_date_of(day: Option<String>, ms: u64) -> bool {
    match day {
        Some(text) => ms <= MAX_DATED_MS && text@ == utc_day(ms),
        None => ms > MAX_DATED_MS,
    }
}

} // verus!
