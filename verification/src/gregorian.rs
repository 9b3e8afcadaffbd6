//! The proleptic Gregorian calendar as mathematics: month lengths, the count
//! of days since the start of year 1, weekdays and ISO 8601 week numbers.

use vstd::prelude::*;

verus! {

/// Earliest year a date may lie in.
pub const MIN_YEAR: i32 = -262143;

/// Latest year a date may lie in.
pub const MAX_YEAR: i32 = 262142;

/// Every fourth year is a leap year, except centuries not divisible by 400.
pub open spec fn is_leap_year(year: int) -> bool {
    year % 4 == 0 && (year % 100 != 0 || year % 400 == 0)
}

pub open spec fn days_in_year(year: int) -> int {
    if is_leap_year(year) {
        366
    } else {
        365
    }
}

/// Length of a month; months are numbered from 1.
pub open spec fn days_in_month(year: int, month: int) -> int {
    if month == 2 {
        if is_leap_year(year) {
            29
        } else {
            28
        }
    } else if month == 4 || month == 6 || month == 9 || month == 11 {
        30
    } else {
        31
    }
}

/// Days of `year` that lie before the first of `month`.
pub open spec fn days_before_month(year: int, month: int) -> int
    decreases month,
{
    if month <= 1 {
        0
    } else {
        days_before_month(year, month - 1) + days_in_month(year, month - 1)
    }
}

/// Days between January 1 of year 1 and January 1 of `year`
/// (negative for years before 1).
pub open spec fn days_before_year(year: int) -> int {
    let y = year - 1;
    365 * y + y / 4 - y / 100 + y / 400
}

/// Day of the year, counted from 1.
pub open spec fn ordinal(year: int, month: int, day: int) -> int {
    days_before_month(year, month) + day
}

/// Count of days with January 1 of year 1 as day 1.
pub open spec fn day_number(year: int, month: int, day: int) -> int {
    days_before_year(year) + ordinal(year, month, day)
}

/// Day of the week, Monday = 0 through Sunday = 6. Day 1 is a Monday.
pub open spec fn weekday_of_day_number(n: int) -> int {
    (n - 1) % 7
}

/// Index of the Monday-to-Sunday week that holds day `n`; week 0 starts on day 1.
pub open spec fn week_of_day_number(n: int) -> int {
    (n - 1) / 7
}

/// ISO 8601 week number (1 to 53) of the day with the given ordinal and
/// weekday in `year`: the week belongs to the year that holds its Thursday,
/// and weeks are counted by the Thursdays of that year.
pub open spec fn iso_week_of(year: int, ordinal: int, weekday: int) -> int {
    let thursday = ordinal - weekday + 3;
    if thursday < 1 {
        (thursday + days_in_year(year - 1) - 1) / 7 + 1
    } else if thursday > days_in_year(year) {
        1
    } else {
        (thursday - 1) / 7 + 1
    }
}

/// `year`, `month`, `day` name a day of the calendar.
pub open spec fn is_calendar_day(year: int, month: int, day: int) -> bool {
    &&& MIN_YEAR <= year <= MAX_YEAR
    &&& 1 <= month <= 12
    &&& 1 <= day <= days_in_month(year, month)
}

/// Day number of the earliest day of the calendar.
pub open spec fn first_day_number() -> int {
    day_number(MIN_YEAR as int, 1, 1)
}

/// Day number of the latest day of the calendar.
pub open spec fn last_day_number() -> int {
    day_number(MAX_YEAR as int, 12, 31)
}

/// The days that lie before each month, written out.
pub proof fn lemma_days_before_month(year: int)
    ensures
        days_before_month(year, 1) == 0,
        days_before_month(year, 2) == 31,
        days_before_month(year, 3) == days_in_year(year) - 306,
        days_before_month(year, 4) == days_in_year(year) - 275,
        days_before_month(year, 5) == days_in_year(year) - 245,
        days_before_month(year, 6) == days_in_year(year) - 214,
        days_before_month(year, 7) == days_in_year(year) - 184,
        days_before_month(year, 8) == days_in_year(year) - 153,
        days_before_month(year, 9) == days_in_year(year) - 122,
        days_before_month(year, 10) == days_in_year(year) - 92,
        days_before_month(year, 11) == days_in_year(year) - 61,
        days_before_month(year, 12) == days_in_year(year) - 31,
        days_before_month(year, 13) == days_in_year(year),
{
    reveal_with_fuel(days_before_month, 14);
}

/// A year ends where the next begins.
pub proof fn lemma_year_step(year: int)
    ensures
        days_before_year(year + 1) == days_before_year(year) + days_in_year(year),
{
}

/// Later years begin later, by at least 365 days a year.
pub proof fn lemma_years_ascend(earlier: int, later: int)
    requires
        earlier <= later,
    ensures
        days_before_year(later) >= days_before_year(earlier) + 365 * (later - earlier),
    decreases later - earlier,
{
    if earlier < later {
        lemma_years_ascend(earlier, later - 1);
        lemma_year_step(later - 1);
    }
}

/// One day of the calendar comes before another: earlier year, or the same
/// year and earlier month, or the same month and earlier day.
pub open spec fn comes_before(y1: int, m1: int, d1: int, y2: int, m2: int, d2: int) -> bool {
    y1 < y2 || (y1 == y2 && (m1 < m2 || (m1 == m2 && d1 < d2)))
}

/// Day numbers ascend with the calendar.
pub proof fn lemma_day_number_ascends(y1: int, m1: int, d1: int, y2: int, m2: int, d2: int)
    requires
        1 <= m1 <= 12,
        1 <= d1 <= days_in_month(y1, m1),
        1 <= m2 <= 12,
        1 <= d2 <= days_in_month(y2, m2),
        comes_before(y1, m1, d1, y2, m2, d2),
    ensures
        day_number(y1, m1, d1) < day_number(y2, m2, d2),
{
    lemma_days_before_month(y1);
    lemma_days_before_month(y2);
    if y1 < y2 {
        lemma_year_step(y1);
        lemma_years_ascend(y1 + 1, y2);
    }
}

} // verus!
