//! The weeks of a month in calendar order.

use std::collections::HashMap;
use vstd::prelude::*;
use vstd::std_specs::hash::group_hash_axioms;
use vstd::std_specs::iter::IteratorSpec;
use crate::date::CalendarDate;
use crate::grid::WeekPartition;
use crate::itertools_calls::sort_weeks_by_first_day;

verus! {

/// One row of the grid: an ISO week number and the days of the month that
/// fall in that week, earliest first.
#[derive(Clone, Debug, PartialEq, Eq)]
pub struct Week {
    pub number: u32,
    pub days: Vec<CalendarDate>,
}

impl View for Week {
    type V = (u32, Seq<CalendarDate>);

    open spec fn view(&self) -> (u32, Seq<CalendarDate>) {
        (self.number, self.days@)
    }
}

impl Week {
    /// Year, month and day of the first day of the week, the key by which
    /// weeks are put in order.
    pub fn first_day_key(&self) -> (key: (i32, u32, u32))
        requires
            self.days@.len() > 0,
        ensures
            key == (self.days@[0].year, self.days@[0].month, self.days@[0].day),
    {
        let first = self.days[0];
        (first.year, first.month, first.day)
    }
}

/// The views of a sequence of weeks.
pub open spec fn week_views(weeks: Seq<Week>) -> Seq<(u32, Seq<CalendarDate>)> {
    weeks.map_values(|week: Week| week@)
}

/// `output` is `input` sorted by the first day of each week, `origin[i]`
/// being the place in `input` that `output[i]` came from: `origin` is a
/// rearrangement of the places of `input`, the first days of `output` never
/// descend, and weeks with one first day keep the order they had.
pub open spec fn sorted_stably_by_first_day(
    input: Seq<Week>,
    output: Seq<Week>,
    origin: Seq<int>,
) -> bool {
    &&& output.len() == input.len()
    &&& origin.len() == input.len()
    &&& forall|i: int|
        0 <= i < output.len() ==> 0 <= #[trigger] origin[i] < input.len() && output[i]
            == input[origin[i]]
    &&& forall|i: int, j: int| 0 <= i < j < origin.len() ==> origin[i] != origin[j]
    &&& forall|k: int| 0 <= k < input.len() ==> #[trigger] origin.contains(k)
    &&& forall|i: int, j: int|
        0 <= i < j < output.len() ==> !(#[trigger] output[j]).days@[0].is_before(
            (#[trigger] output[i]).days@[0],
        )
    &&& forall|i: int, j: int|
        0 <= i < j < output.len() && (#[trigger] output[i]).days@[0] == (
        #[trigger] output[j]).days@[0] ==> origin[i] < origin[j]
}

/// `rows` are the weeks of `partition` in calendar order: each row is a week
/// of the partition with its days, each week of the partition is one row, and
/// the first days of the rows never descend.
pub open spec fn is_week_order(
    partition: Map<u32, Seq<CalendarDate>>,
    rows: Seq<(u32, Seq<CalendarDate>)>,
) -> bool {
    &&& forall|i: int|
        0 <= i < rows.len() ==> partition.contains_key((#[trigger] rows[i]).0)
            && partition[rows[i].0] == rows[i].1
    &&& forall|week: u32|
        partition.contains_key(week) ==> exists|i: int|
            0 <= i < rows.len() && (#[trigger] rows[i]).0 == week
    &&& forall|i: int, j: int|
        0 <= i < j < rows.len() ==> (#[trigger] rows[i]).0 != (#[trigger] rows[j]).0
    &&& forall|i: int, j: int|
        0 <= i < j < rows.len() ==> !(#[trigger] rows[j]).1[0].is_before((#[trigger] rows[i]).1[0])
}

/// The weeks of the map, one `Week` each, in the order the map hands them out.
fn entries(weeks: &HashMap<u32, Vec<CalendarDate>>) -> (rows: Vec<Week>)
    ensures
        forall|i: int|
            0 <= i < rows@.len() ==> weeks@.contains_key((#[trigger] rows@[i]).number)
                && rows@[i].days@ == weeks@[rows@[i].number]@,
        forall|week: u32|
            weeks@.contains_key(week) ==> exists|i: int|
                0 <= i < rows@.len() && (#[trigger] rows@[i]).number == week,
        forall|i: int, j: int|
            0 <= i < j < rows@.len() ==> (#[trigger] rows@[i]).number != (
            #[trigger] rows@[j]).number,
{
    broadcast use group_hash_axioms;

    let mut rows: Vec<Week> = Vec::new();
    for entry in it: weeks.iter()
        invariant
            rows@.len() == it.index(),
            it.seq().no_duplicates(),
            it.seq() == weeks.iter().remaining(),
            forall|i: int|
                0 <= i < rows@.len() ==> rows@[i].number == *it.seq()[i].0 && rows@[i].days@
                    == it.seq()[i].1@,
    {
        let (number, days) = entry;
        rows.push(Week { number: *number, days: days.clone() });
    }
    proof {
        let items = weeks.iter().remaining();
        assert forall|i: int, j: int| 0 <= i < j < rows@.len() implies (#[trigger] rows@[i]).number
            != (#[trigger] rows@[j]).number by {
            if *items[i].0 == *items[j].0 {
                assert(weeks@[*items[i].0] == *items[i].1);
                assert(weeks@[*items[j].0] == *items[j].1);
                assert(items[i] == items[j]);
            }
        }
        assert forall|week: u32| weeks@.contains_key(week) implies exists|i: int|
            0 <= i < rows@.len() && (#[trigger] rows@[i]).number == week by {
            assert(items.contains((&week, &weeks@[week])));
        }
    }
    rows
}

impl WeekPartition {
    /// The weeks in calendar order, by the first day of each. The week
    /// number is no guide: it restarts where a year begins.
    pub fn ordered_weeks(&self) -> (rows: Vec<Week>)
        requires
            self.well_formed(),
        ensures
            is_week_order(self@, week_views(rows@)),
    {
        let unordered = entries(&self.weeks);
        proof {
            assert forall|i: int| 0 <= i < unordered@.len() implies (
            #[trigger] unordered@[i]).days@.len() > 0 by {
                assert(self@.contains_key(unordered@[i].number));
            }
        }
        let rows = sort_weeks_by_first_day(unordered);
        proof {
            let origin = choose|origin: Seq<int>|
                sorted_stably_by_first_day(unordered@, rows@, origin);
            let views = week_views(rows@);
            assert forall|i: int| 0 <= i < views.len() implies self@.contains_key(
                (#[trigger] views[i]).0,
            ) && self@[views[i].0] == views[i].1 by {
                assert(rows@[i] == unordered@[origin[i]]);
            }
            assert forall|week: u32| self@.contains_key(week) implies exists|i: int|
                0 <= i < views.len() && (#[trigger] views[i]).0 == week by {
                let k = choose|k: int|
                    0 <= k < unordered@.len() && (#[trigger] unordered@[k]).number == week;
                assert(origin.contains(k));
                let i = choose|i: int| 0 <= i < origin.len() && origin[i] == k;
                assert(views[i].0 == week);
            }
        }
        rows
    }
}

} // verus!
