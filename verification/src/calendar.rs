//! Calendar arithmetic on plain integers.
//!
//! An instant is a count of seconds since 1970-01-01T00:00:00 UTC. A date is a
//! day number in the proleptic Gregorian calendar, counted so that
//! 0001-01-01 is day 1. The calendar computations themselves are chrono's;
//! this module states what the rest of the library relies on.

use chrono::{DateTime, Datelike, Months, NaiveDate};
use vstd::prelude::*;

verus! {

/// Earliest instant the calendar can represent.
pub const MIN_TIMESTAMP: i64 = -8_334_601_228_800;

/// Latest instant the calendar can represent.
pub const MAX_TIMESTAMP: i64 = 8_210_266_876_799;

/// Day number of the earliest representable date.
pub const MIN_DAY: i32 = -95_746_129;

/// Day number of the latest representable date.
pub const MAX_DAY: i32 = 95_745_399;

/// Day number of 1970-01-01.
pub const EPOCH_DAY: i32 = 719_163;

pub open spec fn valid_timestamp(ts: i64) -> bool {
    MIN_TIMESTAMP <= ts <= MAX_TIMESTAMP
}

pub open spec fn valid_day(day: i32) -> bool {
    MIN_DAY <= day <= MAX_DAY
}

/// Day number of the UTC date that contains the instant `ts`.
pub open spec fn day_of(ts: int) -> int {
    ts / 86_400 + EPOCH_DAY
}

/// ISO 8601 week-numbering year and week number of a day, as chrono computes
/// them.
pub uninterp spec fn iso_week_of(day: i32) -> (i32, u32);

/// The date of a day written as `YYYY-MM-DD`, as chrono formats it.
pub uninterp spec fn day_text(day: i32) -> Seq<char>;

/// The instant `months` calendar months before `ts`, as chrono computes it,
/// or `None` where that instant lies outside the calendar.
pub uninterp spec fn months_before(ts: i64, months: u32) -> Option<i64>;

/// Calls chrono's `DateTime::from_timestamp`, `DateTime::date_naive` and
/// `Datelike::num_days_from_ce`. The contract claims that the date's day
/// number is the floor of `ts / 86400` shifted by the day number of
/// 1970-01-01, which is how `from_timestamp` splits its argument.
#[verifier::external_body]
pub(crate) fn utc_day(ts: i64) -> (day: i32)
    requires
        valid_timestamp(ts),
    ensures
        day == day_of(ts as int),
        valid_day(day),
{
    DateTime::from_timestamp(ts, 0).unwrap().date_naive().num_days_from_ce()
}

/// Calls chrono's `NaiveDate::iso_week` on the date with the given day number
/// and reads the week's `year` and `week`. Nothing is claimed of the result
/// beyond its being a function of the day.
#[verifier::external_body]
pub(crate) fn iso_week(day: i32) -> (yw: (i32, u32))
    requires
        valid_day(day),
    ensures
        yw == iso_week_of(day),
{
    let week = NaiveDate::from_num_days_from_ce_opt(day).unwrap().iso_week();
    (week.year(), week.week())
}

/// Calls chrono's `NaiveDate::format` with the pattern `%Y-%m-%d` on the date
/// with the given day number. Nothing is claimed of the text beyond its being
/// a function of the day.
#[verifier::external_body]
pub(crate) fn format_day(day: i32) -> (text: String)
    requires
        valid_day(day),
    ensures
        text@ == day_text(day),
{
    NaiveDate::from_num_days_from_ce_opt(day).unwrap().format("%Y-%m-%d").to_string()
}

/// Calls chrono's `DateTime::checked_sub_months` on the UTC instant `ts`.
/// Nothing is claimed of the result beyond its being a function of the two
/// arguments; `None` is chrono's answer where the result is out of range.
#[verifier::external_body]
pub(crate) fn sub_months(ts: i64, months: u32) -> (r: Option<i64>)
    requires
        valid_timestamp(ts),
    ensures
        r == months_before(ts, months),
{
    match DateTime::from_timestamp(ts, 0).unwrap().checked_sub_months(Months::new(months)) {
        Some(t) => Some(t.timestamp()),
        None => None,
    }
}

} // verus!
