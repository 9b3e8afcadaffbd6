//! The shape of a month on the grid: rows of seven columns, Monday first,
//! and why grouping by ISO week number yields exactly those rows.

use vstd::prelude::*;
use crate::date::{lemma_iso_week_range, CalendarDate};
use crate::gregorian::{lemma_days_before_month, week_of_day_number};
use crate::grid::{group_by_week, has_next_month, in_week, month_days, GridBuilder};
use crate::order::{is_week_order, week_views, Week};

verus! {

/// Columns left empty before the first of the month: its weekday, counted
/// from Monday.
pub open spec fn lead_columns(date: CalendarDate) -> int {
    date.month_start().weekday()
}

/// Number of rows the month takes up.
pub open spec fn row_count(date: CalendarDate) -> int {
    (lead_columns(date) + date.month_length() + 6) / 7
}

/// The row that the day at place `index` of the month falls in.
pub open spec fn row_of(date: CalendarDate, index: int) -> int {
    (lead_columns(date) + index) / 7
}

/// Place in the month of the first day of a row.
pub open spec fn row_start(date: CalendarDate, row: int) -> int {
    if row <= 0 {
        0
    } else {
        7 * row - lead_columns(date)
    }
}

/// Place in the month just past the last day of a row.
pub open spec fn row_end(date: CalendarDate, row: int) -> int {
    if 7 * (row + 1) - lead_columns(date) >= date.month_length() {
        date.month_length()
    } else {
        7 * (row + 1) - lead_columns(date)
    }
}

/// The days of a row, Monday side first.
pub open spec fn row_days(date: CalendarDate, row: int) -> Seq<CalendarDate> {
    month_days(date).subrange(row_start(date, row), row_end(date, row))
}

/// A row as a week: the ISO week number of its days, and the days.
pub open spec fn grid_row(date: CalendarDate, row: int) -> (u32, Seq<CalendarDate>) {
    (row_days(date, row)[0].iso_week() as u32, row_days(date, row))
}

/// The rows of the month of `date`, top to bottom.
pub open spec fn grid_rows(date: CalendarDate) -> Seq<(u32, Seq<CalendarDate>)> {
    Seq::new(row_count(date) as nat, |row: int| grid_row(date, row))
}

/// The day at place `index` of a month: its day number, weekday and week
/// follow from those of the first of the month.
pub proof fn lemma_month_day(date: CalendarDate, index: int)
    requires
        date.well_formed(),
        0 <= index < date.month_length(),
    ensures
        month_days(date)[index].well_formed(),
        month_days(date)[index].year == date.year,
        month_days(date)[index].month == date.month,
        month_days(date)[index].day == index + 1,
        month_days(date)[index].day_number() == date.month_start().day_number() + index,
        month_days(date)[index].weekday() == (lead_columns(date) + index) % 7,
        week_of_day_number(month_days(date)[index].day_number()) == week_of_day_number(
            date.month_start().day_number(),
        ) + row_of(date, index),
        0 <= row_of(date, index) < row_count(date),
        row_start(date, row_of(date, index)) <= index < row_end(date, row_of(date, index)),
{
}

/// Within one month, two days have one ISO week number exactly when they
/// lie in one row: the number restarts only once a year, and a month spans
/// six weeks at most.
pub proof fn lemma_week_number_tells_rows_apart(date: CalendarDate, i: int, j: int)
    requires
        date.well_formed(),
        0 <= i < date.month_length(),
        0 <= j < date.month_length(),
    ensures
        month_days(date)[i].iso_week() == month_days(date)[j].iso_week() <==> row_of(date, i)
            == row_of(date, j),
{
    lemma_month_day(date, i);
    lemma_month_day(date, j);
    lemma_days_before_month(date.year as int);
}

/// A filter that keeps exactly the places from `from` up to `to` yields that
/// stretch of the sequence.
pub proof fn lemma_filter_keeps_stretch<A>(
    s: Seq<A>,
    keep: spec_fn(A) -> bool,
    from: int,
    to: int,
)
    requires
        0 <= from <= to <= s.len(),
        forall|i: int| 0 <= i < s.len() ==> (keep(#[trigger] s[i]) <==> from <= i < to),
    ensures
        s.filter(keep) == s.subrange(from, to),
    decreases s.len(),
{
    reveal(Seq::filter);
    if s.len() == 0 {
        assert(s.filter(keep) =~= s.subrange(from, to));
    } else {
        let rest = s.drop_last();
        let last = s.len() - 1;
        let rest_from = if from <= last { from } else { last };
        let rest_to = if to <= last { to } else { last };
        assert forall|i: int| 0 <= i < rest.len() implies (keep(#[trigger] rest[i]) <==> rest_from
            <= i < rest_to) by {
            assert(rest[i] == s[i]);
        }
        lemma_filter_keeps_stretch(rest, keep, rest_from, rest_to);
        assert(keep(s[last]) <==> from <= last < to);
        if keep(s.last()) {
            assert(rest.subrange(rest_from, rest_to).push(s.last()) =~= s.subrange(from, to));
        } else {
            assert(rest.subrange(rest_from, rest_to) =~= s.subrange(from, to));
        }
    }
}

/// The days of the month that share the ISO week number of the day at place
/// `index` are the days of its row.
pub proof fn lemma_week_is_row(date: CalendarDate, index: int)
    requires
        date.well_formed(),
        0 <= index < date.month_length(),
    ensures
        month_days(date).filter(in_week(month_days(date)[index].iso_week())) == row_days(
            date,
            row_of(date, index),
        ),
{
    let days = month_days(date);
    let row = row_of(date, index);
    let keep = in_week(days[index].iso_week());
    lemma_month_day(date, index);
    assert forall|i: int| 0 <= i < days.len() implies (keep(#[trigger] days[i]) <==> row_start(
        date,
        row,
    ) <= i < row_end(date, row)) by {
        lemma_week_number_tells_rows_apart(date, i, index);
        lemma_month_day(date, i);
    }
    lemma_filter_keeps_stretch(days, keep, row_start(date, row), row_end(date, row));
}

/// The rows of the grid: none is empty, each begins where the one before
/// ended, the first begins with the first of the month and the last ends
/// with its last day.
pub proof fn lemma_rows_tile_the_month(date: CalendarDate)
    requires
        date.well_formed(),
    ensures
        row_count(date) >= 1,
        row_start(date, 0) == 0,
        row_end(date, row_count(date) - 1) == date.month_length(),
        forall|row: int|
            0 <= row < row_count(date) ==> 0 <= #[trigger] row_start(date, row) < row_end(
                date,
                row,
            ) <= date.month_length(),
        forall|row: int|
            0 <= row < row_count(date) - 1 ==> #[trigger] row_end(date, row) == row_start(
                date,
                row + 1,
            ),
        forall|row: int|
            0 <= row < row_count(date) ==> row_of(date, #[trigger] row_start(date, row)) == row,
{
}

/// Every row of the grid is a week of the partition of the month, and every
/// week of the partition is a row.
pub proof fn lemma_rows_are_the_weeks(date: CalendarDate)
    requires
        date.well_formed(),
    ensures
        forall|row: int|
            0 <= row < row_count(date) ==> {
                let week = #[trigger] grid_rows(date)[row];
                &&& group_by_week(month_days(date)).contains_key(week.0)
                &&& group_by_week(month_days(date))[week.0] == week.1
            },
        forall|week: u32| #[trigger]
            group_by_week(month_days(date)).contains_key(week) ==> exists|row: int|
                0 <= row < row_count(date) && #[trigger] grid_rows(date)[row] == (
                    week,
                    group_by_week(month_days(date))[week],
                ),
{
    let days = month_days(date);
    let weeks = group_by_week(days);
    lemma_rows_tile_the_month(date);
    assert forall|row: int| 0 <= row < row_count(date) implies {
        let week = #[trigger] grid_rows(date)[row];
        &&& weeks.contains_key(week.0)
        &&& weeks[week.0] == week.1
    } by {
        let index = row_start(date, row);
        lemma_month_day(date, index);
        lemma_iso_week_range(days[index]);
        lemma_week_is_row(date, index);
        assert(row_days(date, row)[0] == days[index]);
    }
    assert forall|week: u32| #[trigger] weeks.contains_key(week) implies exists|row: int|
        0 <= row < row_count(date) && #[trigger] grid_rows(date)[row] == (week, weeks[week])
    by {
        let kept = days.filter(in_week(week as int));
        days.lemma_filter_pred(in_week(week as int), 0);
        assert(kept.contains(kept[0]));
        days.lemma_filter_contains_rev(in_week(week as int), kept[0]);
        let index = choose|index: int| 0 <= index < days.len() && days[index] == kept[0];
        let row = row_of(date, index);
        lemma_month_day(date, index);
        lemma_week_is_row(date, index);
        lemma_week_number_tells_rows_apart(date, index, row_start(date, row));
        assert(row_days(date, row)[0] == days[row_start(date, row)]);
        assert(grid_rows(date)[row] == (week, weeks[week]));
    }
}

/// A sequence of numbers below `bound` that ascends and takes every value
/// from 0 up to `bound` counts from 0 to `bound`.
pub proof fn lemma_ascending_onto_counts(f: Seq<int>, bound: int)
    requires
        0 <= bound,
        forall|i: int| 0 <= i < f.len() ==> 0 <= #[trigger] f[i] < bound,
        forall|i: int, j: int| 0 <= i < j < f.len() ==> f[i] < f[j],
        forall|v: int| 0 <= v < bound ==> #[trigger] f.contains(v),
    ensures
        f.len() == bound,
        forall|i: int| 0 <= i < f.len() ==> f[i] == i,
{
    lemma_ascending_onto_counts_up_to(f, bound, f.len() as int);
    if f.len() < bound {
        // the value `f.len()` is taken at some place, but each place holds itself
        assert(f.contains(f.len() as int));
        let at = choose|at: int| 0 <= at < f.len() && f[at] == f.len();
        assert(f[at] == at);
    } else if f.len() > bound {
        assert(f[f.len() - 1] == f.len() - 1);
    }
}

proof fn lemma_ascending_onto_counts_up_to(f: Seq<int>, bound: int, n: int)
    requires
        0 <= bound,
        0 <= n <= f.len(),
        forall|i: int| 0 <= i < f.len() ==> 0 <= #[trigger] f[i] < bound,
        forall|i: int, j: int| 0 <= i < j < f.len() ==> f[i] < f[j],
        forall|v: int| 0 <= v < bound ==> #[trigger] f.contains(v),
    ensures
        forall|i: int| 0 <= i < n ==> f[i] == i,
    decreases n,
{
    if n > 0 {
        lemma_ascending_onto_counts_up_to(f, bound, n - 1);
        let last = n - 1;
        if f[last] != last {
            assert(f[last] > last) by {
                if last > 0 {
                    assert(f[last - 1] < f[last]);
                }
            }
            assert(f.contains(last));
            let at = choose|at: int| 0 <= at < f.len() && f[at] == last;
            if at > last {
                assert(f[last] < f[at]);
            }
        }
    }
}

/// `grid` lists the weeks of `weeks`, each once, with first days that
/// ascend.
pub open spec fn lists_in_order(
    weeks: Map<u32, Seq<CalendarDate>>,
    grid: Seq<(u32, Seq<CalendarDate>)>,
) -> bool {
    &&& forall|row: int|
        0 <= row < grid.len() ==> weeks.contains_key((#[trigger] grid[row]).0) && weeks[grid[row].0]
            == grid[row].1
    &&& forall|week: u32| #[trigger]
        weeks.contains_key(week) ==> exists|row: int|
            0 <= row < grid.len() && #[trigger] grid[row] == (week, weeks[week])
    &&& forall|a: int, b: int|
        0 <= a < b < grid.len() ==> (#[trigger] grid[a]).1[0].is_before((#[trigger] grid[b]).1[0])
}

/// Weeks whose first days all differ can be put in order of their first
/// days in one way only.
pub proof fn lemma_week_order_is_unique(
    weeks: Map<u32, Seq<CalendarDate>>,
    grid: Seq<(u32, Seq<CalendarDate>)>,
    rows: Seq<(u32, Seq<CalendarDate>)>,
)
    requires
        lists_in_order(weeks, grid),
        is_week_order(weeks, rows),
    ensures
        rows == grid,
{
    assert forall|i: int| 0 <= i < rows.len() implies exists|row: int|
        0 <= row < grid.len() && #[trigger] grid[row] == #[trigger] rows[i] by {
        assert(weeks.contains_key(rows[i].0));
    }
    let place = Seq::new(
        rows.len(),
        |i: int| choose|row: int| 0 <= row < grid.len() && #[trigger] grid[row] == rows[i],
    );
    assert forall|i: int| 0 <= i < rows.len() implies 0 <= #[trigger] place[i] < grid.len()
        && grid[place[i]] == rows[i] by {}
    assert forall|i: int, j: int| 0 <= i < j < place.len() implies place[i] < place[j] by {
        assert(rows[i].0 != rows[j].0);
        assert(!rows[j].1[0].is_before(rows[i].1[0]));
        assert(grid[place[i]] == rows[i]);
        assert(grid[place[j]] == rows[j]);
        if place[j] < place[i] {
            assert(grid[place[j]].1[0].is_before(grid[place[i]].1[0]));
        }
    }
    assert forall|row: int| 0 <= row < grid.len() implies #[trigger] place.contains(row) by {
        assert(weeks.contains_key(grid[row].0));
        let i = choose|i: int| 0 <= i < rows.len() && (#[trigger] rows[i]).0 == grid[row].0;
        assert(rows[i] == grid[row]);
        assert(grid[place[i]] == rows[i]);
        if place[i] < row {
            assert(grid[place[i]].1[0].is_before(grid[row].1[0]));
        } else if row < place[i] {
            assert(grid[row].1[0].is_before(grid[place[i]].1[0]));
        }
        assert(place[i] == row);
    }
    lemma_ascending_onto_counts(place, grid.len() as int);
    assert forall|i: int| 0 <= i < rows.len() implies rows[i] == grid[i] by {
        assert(grid[place[i]] == rows[i]);
    }
    assert(rows =~= grid);
}

/// The rows of the grid list the weeks of the partition of the month in
/// order of their first days.
pub proof fn lemma_grid_lists_the_weeks(date: CalendarDate)
    requires
        date.well_formed(),
    ensures
        lists_in_order(group_by_week(month_days(date)), grid_rows(date)),
{
    let grid = grid_rows(date);
    lemma_rows_are_the_weeks(date);
    lemma_rows_tile_the_month(date);
    assert forall|a: int, b: int| 0 <= a < b < grid.len() implies (
    #[trigger] grid[a]).1[0].is_before((#[trigger] grid[b]).1[0]) by {
        lemma_month_day(date, row_start(date, a));
        lemma_month_day(date, row_start(date, b));
    }
}

/// The weeks of the partition of a month, put in order of their first days,
/// are the rows of the grid.
pub proof fn lemma_week_order_is_grid(date: CalendarDate, rows: Seq<(u32, Seq<CalendarDate>)>)
    requires
        date.well_formed(),
        is_week_order(group_by_week(month_days(date)), rows),
    ensures
        rows == grid_rows(date),
{
    lemma_grid_lists_the_weeks(date);
    lemma_week_order_is_unique(group_by_week(month_days(date)), grid_rows(date), rows);
}

/// Every day in a row of the grid is a day of the calendar, in the month of
/// the grid.
pub proof fn lemma_rows_hold_days(date: CalendarDate)
    requires
        date.well_formed(),
    ensures
        forall|row: int, column: int|
            0 <= row < grid_rows(date).len() && 0 <= column < grid_rows(date)[row].1.len() ==> {
                let day = #[trigger] grid_rows(date)[row].1[column];
                &&& day.well_formed()
                &&& day == month_days(date)[row_start(date, row) + column]
            },
{
    lemma_rows_tile_the_month(date);
    assert forall|row: int, column: int|
        0 <= row < grid_rows(date).len() && 0 <= column < grid_rows(date)[row].1.len() implies {
        let day = #[trigger] grid_rows(date)[row].1[column];
        &&& day.well_formed()
        &&& day == month_days(date)[row_start(date, row) + column]
    } by {
        lemma_month_day(date, row_start(date, row) + column);
    }
}

/// The days of each row, without the week numbers.
pub open spec fn days_of(rows: Seq<(u32, Seq<CalendarDate>)>) -> Seq<Seq<CalendarDate>> {
    rows.map_values(|row: (u32, Seq<CalendarDate>)| row.1)
}

/// The first `count` rows of the grid hold the days of the month up to the
/// end of the last of them.
proof fn lemma_leading_rows(date: CalendarDate, count: int)
    requires
        date.well_formed(),
        1 <= count <= row_count(date),
    ensures
        days_of(grid_rows(date).take(count)).flatten() == month_days(date).take(
            row_end(date, count - 1),
        ),
    decreases count,
{
    let grid = grid_rows(date);
    let days = month_days(date);
    lemma_rows_tile_the_month(date);
    let before = days_of(grid.take(count - 1));
    assert(days_of(grid.take(count)) =~= before.push(grid[count - 1].1));
    before.lemma_flatten_push(grid[count - 1].1);
    if count == 1 {
        assert(before =~= Seq::<Seq<CalendarDate>>::empty());
        assert(before.flatten() =~= Seq::<CalendarDate>::empty());
        assert(before.flatten() + grid[0].1 =~= days.take(row_end(date, 0)));
    } else {
        lemma_leading_rows(date, count - 1);
        assert(row_end(date, count - 2) == row_start(date, count - 1));
        assert(days.take(row_start(date, count - 1)) + grid[count - 1].1 =~= days.take(
            row_end(date, count - 1),
        ));
    }
}

/// The rows of the grid, read row after row, are the days of the month from
/// the first to the last, each once.
pub proof fn lemma_rows_hold_the_month(date: CalendarDate)
    requires
        date.well_formed(),
    ensures
        days_of(grid_rows(date)).flatten() == month_days(date),
        forall|i: int|
            0 <= i < month_days(date).len() ==> (#[trigger] month_days(date)[i]).day == i + 1,
{
    lemma_rows_tile_the_month(date);
    lemma_leading_rows(date, row_count(date));
    assert(grid_rows(date).take(row_count(date)) =~= grid_rows(date));
    assert(month_days(date).take(date.month_length()) =~= month_days(date));
}

/// Every day of a row comes before every day of the rows below it, whatever
/// the week numbers of the rows are.
pub proof fn lemma_rows_follow_the_calendar(date: CalendarDate)
    requires
        date.well_formed(),
    ensures
        forall|a: int, b: int, i: int, j: int|
            0 <= a < b < grid_rows(date).len() && 0 <= i < grid_rows(date)[a].1.len() && 0 <= j
                < grid_rows(date)[b].1.len() ==> (#[trigger] grid_rows(date)[a].1[i]).is_before(
                #[trigger] grid_rows(date)[b].1[j],
            ),
{
    lemma_rows_tile_the_month(date);
    assert forall|a: int, b: int, i: int, j: int|
        0 <= a < b < grid_rows(date).len() && 0 <= i < grid_rows(date)[a].1.len() && 0 <= j
            < grid_rows(date)[b].1.len() implies (#[trigger] grid_rows(date)[a].1[i]).is_before(
        #[trigger] grid_rows(date)[b].1[j],
    ) by {
        assert(row_end(date, a) <= row_start(date, b));
    }
}

/// The first row begins with the first of the month, in the column of its
/// weekday; every row below begins on a Monday.
pub proof fn lemma_rows_start_in_column(date: CalendarDate)
    requires
        date.well_formed(),
    ensures
        grid_rows(date).len() >= 1,
        grid_rows(date)[0].1[0] == date.month_start(),
        grid_rows(date)[0].1[0].weekday() == lead_columns(date),
        forall|row: int|
            1 <= row < grid_rows(date).len() ==> (#[trigger] grid_rows(date)[row]).1[0].weekday()
                == 0,
        forall|row: int|
            0 <= row < grid_rows(date).len() ==> 1 <= (#[trigger] grid_rows(date)[row]).1.len()
                <= 7,
{
    lemma_rows_tile_the_month(date);
    assert forall|row: int| 1 <= row < grid_rows(date).len() implies (
    #[trigger] grid_rows(date)[row]).1[0].weekday() == 0 by {
        lemma_month_day(date, row_start(date, row));
    }
}

/// The partition of a month, read week after week in the order of the first
/// days of the weeks, is the month: its days from the first to the last, each
/// once, beginning with the first of the month. Every day of a week comes
/// before every day of the weeks after it, also where the week numbers
/// start again at 1 in the middle.
pub proof fn lemma_week_order_reads_the_month(
    reference: CalendarDate,
    rows: Seq<(u32, Seq<CalendarDate>)>,
)
    requires
        reference.well_formed(),
        is_week_order(group_by_week(month_days(reference)), rows),
    ensures
        days_of(rows).flatten() == month_days(reference),
        rows.len() >= 1,
        rows[0].1[0] == reference.month_start(),
        forall|a: int, b: int, i: int, j: int|
            0 <= a < b < rows.len() && 0 <= i < rows[a].1.len() && 0 <= j < rows[b].1.len() ==> (
            #[trigger] rows[a].1[i]).is_before(#[trigger] rows[b].1[j]),
{
    lemma_week_order_is_grid(reference, rows);
    lemma_rows_hold_the_month(reference);
    lemma_rows_start_in_column(reference);
    lemma_rows_follow_the_calendar(reference);
}

/// The partition of a month depends on the month alone: two reference dates
/// within one month, and so one reference date used twice, give one
/// partition and one grid.
pub proof fn lemma_month_decides_the_grid(first: CalendarDate, second: CalendarDate)
    requires
        first.year == second.year,
        first.month == second.month,
    ensures
        month_days(first) == month_days(second),
        group_by_week(month_days(first)) == group_by_week(month_days(second)),
        grid_rows(first) == grid_rows(second),
{
    assert(month_days(first) =~= month_days(second));
    assert(grid_rows(first) =~= grid_rows(second));
}

impl GridBuilder {
    /// The rows of the month of `reference`, top to bottom: its partition by
    /// ISO week, put in order of the first day of each week.
    pub fn rows(reference: CalendarDate) -> (rows: Vec<Week>)
        requires
            reference.well_formed(),
            has_next_month(reference),
        ensures
            week_views(rows@) == grid_rows(reference),
            days_of(week_views(rows@)).flatten() == month_days(reference),
    {
        let partition = GridBuilder::build(reference);
        let rows = partition.ordered_weeks();
        proof {
            lemma_week_order_is_grid(reference, week_views(rows@));
            lemma_rows_hold_the_month(reference);
        }
        rows
    }
}

} // verus!
