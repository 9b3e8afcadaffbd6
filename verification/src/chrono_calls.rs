//! Calls into `chrono`. Each contract here is taken on trust from the
//! behaviour of `chrono::NaiveDate`; nothing in this file is proved.

use vstd::prelude::*;
use chrono::{Datelike, Duration, NaiveDate};
use crate::date::CalendarDate;
use crate::gregorian::{days_in_month, first_day_number, is_calendar_day, last_day_number};
use crate::text::{day_text, iso_date_text, month_title};

verus! {

/// `NaiveDate::from_ymd_opt`: a date exactly when the day exists in the
/// proleptic Gregorian calendar and its year is within chrono's range,
/// carrying the year, month and day it was made from.
#[verifier::external_body]
pub(crate) fn date_from_ymd(year: i32, month: u32, day: u32) -> (date: Option<CalendarDate>)
    ensures
        date == if is_calendar_day(year as int, month as int, day as int) {
            Some(CalendarDate { year, month, day })
        } else {
            None
        },
{
    match NaiveDate::from_ymd_opt(year, month, day) {
        Some(d) => Some(CalendarDate { year: d.year(), month: d.month(), day: d.day() }),
        None => None,
    }
}

/// `Datelike::with_day` on a `NaiveDate`: the same year and month with the
/// day of the month replaced, or nothing when the month has no such day.
#[verifier::external_body]
pub(crate) fn date_with_day(date: CalendarDate, day: u32) -> (changed: Option<CalendarDate>)
    requires
        date.well_formed(),
    ensures
        changed == if 1 <= day <= days_in_month(date.year as int, date.month as int) {
            Some(CalendarDate { year: date.year, month: date.month, day })
        } else {
            None
        },
{
    match NaiveDate::from_ymd_opt(date.year, date.month, date.day).unwrap().with_day(day) {
        Some(d) => Some(CalendarDate { year: d.year(), month: d.month(), day: d.day() }),
        None => None,
    }
}

/// `NaiveDate + Duration::days(days)`: the day that many days later (earlier
/// when negative). Chrono panics when that day is outside its range, so the
/// sum of day numbers has to stay inside it.
#[verifier::external_body]
pub(crate) fn date_plus_days(date: CalendarDate, days: i64) -> (later: CalendarDate)
    requires
        date.well_formed(),
        first_day_number() <= date.day_number() + days <= last_day_number(),
    ensures
        later.well_formed(),
        later.day_number() == date.day_number() + days,
{
    let from = NaiveDate::from_ymd_opt(date.year, date.month, date.day).unwrap();
    let d = from + Duration::days(days);
    CalendarDate { year: d.year(), month: d.month(), day: d.day() }
}

/// `Datelike::weekday` followed by `Weekday::num_days_from_monday`: the day
/// of the week, Monday = 0 through Sunday = 6.
#[verifier::external_body]
pub(crate) fn date_weekday_from_monday(date: CalendarDate) -> (weekday: u32)
    requires
        date.well_formed(),
    ensures
        weekday as int == date.weekday(),
{
    let d = NaiveDate::from_ymd_opt(date.year, date.month, date.day).unwrap();
    d.weekday().num_days_from_monday()
}

/// `Datelike::iso_week` followed by `IsoWeek::week`: the ISO 8601 week
/// number of the date.
#[verifier::external_body]
pub(crate) fn date_iso_week(date: CalendarDate) -> (week: u32)
    requires
        date.well_formed(),
    ensures
        week as int == date.iso_week(),
{
    NaiveDate::from_ymd_opt(date.year, date.month, date.day).unwrap().iso_week().week()
}

/// `NaiveDate::format` with one of the two patterns this crate uses. `%d`
/// gives the day of the month as two digits; `%B %Y` gives the English month
/// name, a space and the year. Chrono panics on a malformed pattern, so no
/// other pattern is admitted.
#[verifier::external_body]
pub(crate) fn date_format(date: CalendarDate, pattern: &str) -> (text: String)
    requires
        date.well_formed(),
        pattern@ == "%d"@ || pattern@ == "%B %Y"@,
    ensures
        pattern@ == "%d"@ ==> text@ == day_text(date),
        pattern@ == "%B %Y"@ ==> text@ == month_title(date),
{
    NaiveDate::from_ymd_opt(date.year, date.month, date.day).unwrap().format(pattern).to_string()
}

/// `Display` for `NaiveDate`: year, month and day joined by hyphens, the
/// year signed when it is outside 0 to 9999.
#[verifier::external_body]
pub(crate) fn date_to_string(date: CalendarDate) -> (text: String)
    requires
        date.well_formed(),
    ensures
        text@ == iso_date_text(date),
{
    NaiveDate::from_ymd_opt(date.year, date.month, date.day).unwrap().to_string()
}

} // verus!
