//! Calendar days.

use vstd::prelude::*;
use crate::chrono_calls::{
    date_format, date_from_ymd, date_iso_week, date_plus_days, date_to_string,
    date_weekday_from_monday, date_with_day,
};
use crate::gregorian::{
    comes_before, day_number, days_in_month, first_day_number, is_calendar_day, iso_week_of,
    last_day_number, lemma_day_number_ascends, lemma_days_before_month, ordinal,
    weekday_of_day_number,
};
use crate::text::{day_text, iso_date_text, month_title};

verus! {

/// A day of the proleptic Gregorian calendar, without time of day or zone.
/// Two dates are equal exactly when they name the same day.
#[derive(Clone, Copy, Debug, PartialEq, Eq, Structural, Hash)]
pub struct CalendarDate {
    pub year: i32,
    /// 1 to 12.
    pub month: u32,
    /// 1 to the length of the month.
    pub day: u32,
}

impl CalendarDate {
    /// The fields name a day that exists.
    pub open spec fn well_formed(self) -> bool {
        is_calendar_day(self.year as int, self.month as int, self.day as int)
    }

    /// Count of days with January 1 of year 1 as day 1.
    pub open spec fn day_number(self) -> int {
        day_number(self.year as int, self.month as int, self.day as int)
    }

    /// Monday = 0 through Sunday = 6.
    pub open spec fn weekday(self) -> int {
        weekday_of_day_number(self.day_number())
    }

    /// ISO 8601 week number, 1 to 53.
    pub open spec fn iso_week(self) -> int {
        iso_week_of(
            self.year as int,
            ordinal(self.year as int, self.month as int, self.day as int),
            self.weekday(),
        )
    }

    /// The date with these fields, if there is such a day.
    pub fn new(year: i32, month: u32, day: u32) -> (date: Option<CalendarDate>)
        ensures
            date == if is_calendar_day(year as int, month as int, day as int) {
                Some(CalendarDate { year, month, day })
            } else {
                None
            },
    {
        date_from_ymd(year, month, day)
    }

    /// `self` is an earlier day than `other`.
    pub open spec fn is_before(self, other: CalendarDate) -> bool {
        comes_before(
            self.year as int,
            self.month as int,
            self.day as int,
            other.year as int,
            other.month as int,
            other.day as int,
        )
    }

    /// The first day of the month that `self` lies in.
    pub open spec fn month_start(self) -> CalendarDate {
        CalendarDate { year: self.year, month: self.month, day: 1 }
    }

    /// Number of days in the month that `self` lies in.
    pub open spec fn month_length(self) -> int {
        days_in_month(self.year as int, self.month as int)
    }

    /// Whether `self` is an earlier day than `other`.
    pub fn precedes(&self, other: &CalendarDate) -> (earlier: bool)
        ensures
            earlier == self.is_before(*other),
    {
        self.year < other.year || (self.year == other.year && (self.month < other.month || (
            self.month == other.month && self.day < other.day)))
    }

    /// The first day of the month that `self` lies in.
    pub fn first_of_month(self) -> (first: CalendarDate)
        requires
            self.well_formed(),
        ensures
            first == self.month_start(),
            first.well_formed(),
    {
        match date_with_day(self, 1) {
            Some(first) => first,
            None => self,
        }
    }

    /// The day `days` days after `self`, or before it when `days` is negative.
    /// The day has to exist in the calendar; `lemma_day_number_names_one_date`
    /// shows that the day number fixes the date.
    pub fn plus_days(self, days: i64) -> (later: CalendarDate)
        requires
            self.well_formed(),
            first_day_number() <= self.day_number() + days <= last_day_number(),
        ensures
            later.well_formed(),
            later.day_number() == self.day_number() + days,
            days > 0 ==> self.is_before(later),
            days < 0 ==> later.is_before(self),
            days == 0 ==> later == self,
    {
        let later = date_plus_days(self, days);
        proof {
            lemma_order_is_day_number_order(self, later);
            lemma_order_is_day_number_order(later, self);
        }
        later
    }

    /// Day of the week, Monday = 0 through Sunday = 6.
    pub fn weekday_from_monday(self) -> (weekday: u32)
        requires
            self.well_formed(),
        ensures
            weekday as int == self.weekday(),
            weekday < 7,
    {
        date_weekday_from_monday(self)
    }

    /// ISO 8601 week number of the date.
    pub fn iso_week_number(self) -> (week: u32)
        requires
            self.well_formed(),
        ensures
            week as int == self.iso_week(),
            1 <= week <= 53,
    {
        proof {
            lemma_iso_week_range(self);
        }
        date_iso_week(self)
    }

    /// Day of the month as two digits.
    pub fn day_label(self) -> (text: String)
        requires
            self.well_formed(),
        ensures
            text@ == day_text(self),
    {
        date_format(self, "%d")
    }

    /// The name of the month and the year, as in `February 2024`.
    pub fn month_label(self) -> (text: String)
        requires
            self.well_formed(),
        ensures
            text@ == month_title(self),
    {
        date_format(self, "%B %Y")
    }

    /// The date as `year-month-day`, the key under which a day or a week
    /// that starts on it is told apart from the others.
    pub fn iso_text(self) -> (text: String)
        requires
            self.well_formed(),
        ensures
            text@ == iso_date_text(self),
    {
        date_to_string(self)
    }
}

/// The order of two dates is the order of their day numbers, and dates with
/// one day number are one date.
pub proof fn lemma_order_is_day_number_order(a: CalendarDate, b: CalendarDate)
    requires
        a.well_formed(),
        b.well_formed(),
    ensures
        a.is_before(b) <==> a.day_number() < b.day_number(),
        a == b <==> a.day_number() == b.day_number(),
{
    if a.is_before(b) {
        lemma_day_number_ascends(
            a.year as int,
            a.month as int,
            a.day as int,
            b.year as int,
            b.month as int,
            b.day as int,
        );
    } else if b.is_before(a) {
        lemma_day_number_ascends(
            b.year as int,
            b.month as int,
            b.day as int,
            a.year as int,
            a.month as int,
            a.day as int,
        );
    }
}

/// A day number names at most one date.
pub proof fn lemma_day_number_names_one_date(a: CalendarDate, b: CalendarDate)
    requires
        a.well_formed(),
        b.well_formed(),
        a.day_number() == b.day_number(),
    ensures
        a == b,
{
    lemma_order_is_day_number_order(a, b);
}

/// ISO week numbers run from 1 to 53.
pub proof fn lemma_iso_week_range(date: CalendarDate)
    requires
        date.well_formed(),
    ensures
        1 <= date.iso_week() <= 53,
{
    lemma_days_before_month(date.year as int);
}

} // verus!
