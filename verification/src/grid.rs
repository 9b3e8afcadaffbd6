//! The month grid: the days of one month partitioned by ISO week.

use std::collections::HashMap;
use vstd::prelude::*;
use vstd::std_specs::hash::group_hash_axioms;
use crate::date::{lemma_day_number_names_one_date, lemma_order_is_day_number_order, CalendarDate};
use crate::gregorian::{
    first_day_number, last_day_number, lemma_days_before_month, lemma_year_step, MAX_YEAR,
    MIN_YEAR,
};

verus! {

/// The days of the month that `date` lies in, first to last.
pub open spec fn month_days(date: CalendarDate) -> Seq<CalendarDate> {
    Seq::new(
        date.month_length() as nat,
        |i: int| CalendarDate { year: date.year, month: date.month, day: (i + 1) as u32 },
    )
}

/// Holds of the dates whose ISO week number is `week`.
pub open spec fn in_week(week: int) -> spec_fn(CalendarDate) -> bool {
    |date: CalendarDate| date.iso_week() == week
}

/// `days` grouped by ISO week number: every week that holds one of the days
/// is mapped to the days it holds, in the order they have in `days`.
pub open spec fn group_by_week(days: Seq<CalendarDate>) -> Map<u32, Seq<CalendarDate>> {
    Map::new(
        |week: u32| days.filter(in_week(week as int)).len() > 0,
        |week: u32| days.filter(in_week(week as int)),
    )
}

/// The first day of the month after the one that `date` lies in.
pub open spec fn next_month_start(date: CalendarDate) -> CalendarDate {
    if date.month == 12 {
        CalendarDate { year: (date.year + 1) as i32, month: 1, day: 1 }
    } else {
        CalendarDate { year: date.year, month: (date.month + 1) as u32, day: 1 }
    }
}

/// The month after the one that `date` lies in is still part of the calendar.
pub open spec fn has_next_month(date: CalendarDate) -> bool {
    date.year < MAX_YEAR || date.month < 12
}

/// The days of one month, keyed by ISO week number. Week numbers restart at
/// a year boundary, so the keys of a December or January do not ascend with
/// the days; `ordered_weeks` puts the weeks in calendar order.
#[derive(Clone, Debug, PartialEq, Eq)]
pub struct WeekPartition {
    pub weeks: HashMap<u32, Vec<CalendarDate>>,
}

impl View for WeekPartition {
    type V = Map<u32, Seq<CalendarDate>>;

    open spec fn view(&self) -> Map<u32, Seq<CalendarDate>> {
        self.weeks@.map_values(|days: Vec<CalendarDate>| days@)
    }
}

impl WeekPartition {
    /// Every week holds at least one day.
    pub open spec fn well_formed(&self) -> bool {
        forall|week: u32| #[trigger] self@.contains_key(week) ==> self@[week].len() > 0
    }
}

/// Builds the partition of a month.
pub struct GridBuilder;

impl GridBuilder {
    /// Whether the month of `reference` can be built: the month after it has
    /// to be part of the calendar, since the end of a month is found from
    /// the start of the next.
    pub fn can_build(reference: CalendarDate) -> (yes: bool)
        ensures
            yes == has_next_month(reference),
    {
        reference.year < MAX_YEAR || reference.month < 12
    }

    /// The days of the month of `reference`, from its first day to the day
    /// before the first of the next month, grouped by ISO week number.
    pub fn build(reference: CalendarDate) -> (partition: WeekPartition)
        requires
            reference.well_formed(),
            has_next_month(reference),
        ensures
            partition@ == group_by_week(month_days(reference)),
            partition.well_formed(),
    {
        broadcast use group_hash_axioms;

        let first_day = reference.first_of_month();
        proof {
            lemma_month_end(first_day);
        }
        let first_day_next_month = first_day.plus_days(35).first_of_month();
        let ghost days = month_days(reference);
        let ghost mut done: int = 0;
        let mut weeks: HashMap<u32, Vec<CalendarDate>> = HashMap::new();
        let mut current_day = first_day;
        proof {
            assert forall|week: u32| days.take(0).filter(in_week(week as int)).len() == 0 by {
                reveal(Seq::filter);
            }
        }
        while current_day.precedes(&first_day_next_month)
            invariant
                first_day.well_formed(),
                first_day == reference.month_start(),
                first_day_next_month == next_month_start(first_day),
                first_day_next_month.well_formed(),
                first_day_next_month.day_number() == first_day.day_number()
                    + first_day.month_length(),
                days == month_days(reference),
                0 <= done <= days.len(),
                done < days.len() ==> current_day == days[done],
                done == days.len() ==> current_day == first_day_next_month,
                forall|week: u32| #[trigger]
                    weeks@.contains_key(week) <==> days.take(done).filter(
                        in_week(week as int),
                    ).len() > 0,
                forall|week: u32| #[trigger]
                    weeks@.contains_key(week) ==> weeks@[week]@ == days.take(done).filter(
                        in_week(week as int),
                    ),
            decreases days.len() - done,
        {
            proof {
                lemma_day_number_in_range(current_day);
                lemma_day_number_in_range(first_day_next_month);
            }
            let week: u32 = current_day.iso_week_number();
            weeks.entry(week).or_insert(Vec::new()).push(current_day);
            let next_day = current_day.plus_days(1);
            proof {
                let prefix = days.take(done);
                assert(days.take(done + 1) =~= prefix.push(current_day));
                assert forall|w: u32|
                    #[trigger] weeks@.contains_key(w) <==> days.take(done + 1).filter(
                        in_week(w as int),
                    ).len() > 0 by {
                    prefix.lemma_filter_push(current_day, in_week(w as int));
                }
                assert forall|w: u32| #[trigger] weeks@.contains_key(w) implies weeks@[w]@
                    == days.take(done + 1).filter(in_week(w as int)) by {
                    prefix.lemma_filter_push(current_day, in_week(w as int));
                }
                if done + 1 < days.len() {
                    lemma_day_number_names_one_date(next_day, days[done + 1]);
                } else {
                    lemma_day_number_names_one_date(next_day, first_day_next_month);
                }
                done = done + 1;
            }
            current_day = next_day;
        }
        let partition = WeekPartition { weeks };
        proof {
            assert(days.take(done) =~= days);
        }
        partition
    }
}

/// Every date of the calendar has a day number between the first and the last.
pub proof fn lemma_day_number_in_range(date: CalendarDate)
    requires
        date.well_formed(),
    ensures
        first_day_number() <= date.day_number() <= last_day_number(),
{
    let first = CalendarDate { year: MIN_YEAR, month: 1, day: 1 };
    let last = CalendarDate { year: MAX_YEAR, month: 12, day: 31 };
    lemma_order_is_day_number_order(first, date);
    lemma_order_is_day_number_order(date, last);
}

/// The first of a month and the thirty-fifth day after it: that day lies in
/// the following month, whose first day comes one month length after the
/// first of this one.
pub proof fn lemma_month_end(first: CalendarDate)
    requires
        first.well_formed(),
        first.day == 1,
        has_next_month(first),
    ensures
        next_month_start(first).well_formed(),
        next_month_start(first).day_number() == first.day_number() + first.month_length(),
        first_day_number() <= first.day_number() + 35 <= last_day_number(),
        forall|later: CalendarDate|
            later.well_formed() && #[trigger] later.day_number() == first.day_number() + 35
                ==> later.month_start() == next_month_start(first),
{
    let next = next_month_start(first);
    lemma_days_before_month(first.year as int);
    lemma_days_before_month(next.year as int);
    lemma_year_step(first.year as int);
    let landing = CalendarDate {
        year: next.year,
        month: next.month,
        day: (36 - first.month_length()) as u32,
    };
    lemma_day_number_in_range(first);
    lemma_day_number_in_range(landing);
    assert forall|later: CalendarDate|
        later.well_formed() && #[trigger] later.day_number() == first.day_number()
            + 35 implies later.month_start() == next by {
        lemma_day_number_names_one_date(later, landing);
    }
}

} // verus!
