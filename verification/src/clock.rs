//! The current moment, read from the system clock and handed over as a
//! calendar timestamp of this library.

use vstd::prelude::*;
use chrono::Datelike;
use chrono::Timelike;
use crate::datetime::DateTime;
use crate::datetime::datetime_from_parts;
use crate::datetime::days_in_month;

verus! {

/// Relies on chrono's `Utc::now` with the `Datelike` and `Timelike`
/// accessors. The date fields come from chrono's packed valid-date
/// representation, which holds only real proleptic-Gregorian dates: the
/// month runs from 1 to 12 and the day fits that month of that year. The
/// time fields come from a seconds-past-midnight count below 86400, leap
/// seconds carried separately in the nanosecond field: the hour is at most
/// 23, the minute and the second at most 59. `Utc::now` itself aborts in
/// two clock states it does not return from: a system clock before 1970,
/// and one past chrono's representable range.
#[verifier::external_body]
fn now_utc_parts() -> (r: (i32, u8, u8, u8, u8, u8))
    ensures
        1 <= r.1 <= 12,
        1 <= r.2,
        r.2 as int <= days_in_month(r.0 as int, r.1 as int),
        r.3 <= 23,
        r.4 <= 59,
        r.5 <= 59,
{
    let t = chrono::Utc::now();
    (t.year(), t.month() as u8, t.day() as u8, t.hour() as u8, t.minute() as u8, t.second() as u8)
}

/// The current moment as a well-formed timestamp, or nothing when the
/// clock reports a year outside the four-digit range. The clock's fields
/// pass through `datetime_from_parts`, which fixes the timestamp built from
/// every value of them.
pub fn now_datetime() -> (r: Option<DateTime>)
    ensures
        r matches Some(dt) ==> dt.wf(),
{
    let (year, month, day, hour, minute, second) = now_utc_parts();
    datetime_from_parts(year, month, day, hour, minute, second)
}

} // verus!
