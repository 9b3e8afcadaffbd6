//! What the calendar shows: a header and one row of cells per week.

use vstd::prelude::*;
use crate::config::{classes_or_empty, text_or_empty, CalendarConfig};
use crate::date::CalendarDate;
use crate::grid::{has_next_month, month_days, GridBuilder};
use crate::layout::{
    grid_rows, lemma_month_day, lemma_rows_follow_the_calendar, lemma_rows_hold_days,
    lemma_rows_start_in_column, lemma_rows_tile_the_month, row_of, row_start,
};
use crate::order::{week_views, Week};
use crate::text::{iso_date_text, lemma_iso_text_tells_dates_apart, month_title};

verus! {

/// The classes of a day cell: the cell classes, followed by a space and the
/// active classes on the cell of the active date.
pub open spec fn cell_class_text(
    cell_classes: Seq<char>,
    active_classes: Seq<char>,
    active: bool,
) -> Seq<char> {
    if active {
        cell_classes + seq![' '] + active_classes
    } else {
        cell_classes
    }
}

/// Whether `date` is the active date. Without an active date none is.
pub open spec fn is_active(date: CalendarDate, active: Option<CalendarDate>) -> bool {
    active == Some(date)
}

/// The cell of one day.
#[derive(Clone, Debug, PartialEq, Eq)]
pub struct Cell {
    pub date: CalendarDate,
    /// Tells the cell apart from the others: the date as `year-month-day`.
    pub key: String,
    pub text: String,
    /// Whether this is the cell of the active date.
    pub active: bool,
    pub classes: String,
}

impl Cell {
    /// The cell is the cell of `date` under the given active date and
    /// configuration.
    pub open spec fn shows<R: Fn(CalendarDate) -> String>(
        &self,
        date: CalendarDate,
        active: Option<CalendarDate>,
        config: &CalendarConfig<R>,
    ) -> bool {
        &&& self.date == date
        &&& self.key@ == iso_date_text(date)
        &&& config.may_show(date, self.text)
        &&& self.active == is_active(date, active)
        &&& self.classes@ == cell_class_text(
            text_or_empty(config.cell_classes),
            text_or_empty(config.active_classes),
            self.active,
        )
    }
}

/// The classes of a day cell.
pub fn cell_classes<R>(config: &CalendarConfig<R>, active: bool) -> (classes: String)
    ensures
        classes@ == cell_class_text(
            text_or_empty(config.cell_classes),
            text_or_empty(config.active_classes),
            active,
        ),
{
    let mut classes = classes_or_empty(&config.cell_classes);
    if active {
        proof {
            reveal_strlit(" ");
        }
        classes.append(" ");
        let added = classes_or_empty(&config.active_classes);
        classes.append(added.as_str());
    }
    classes
}

/// Whether `date` is the active date.
pub fn date_is_active(date: CalendarDate, active: Option<CalendarDate>) -> (yes: bool)
    ensures
        yes == is_active(date, active),
{
    match active {
        Some(day) => day == date,
        None => false,
    }
}

/// The cell of `date`.
pub fn render_cell<R: Fn(CalendarDate) -> String>(
    date: CalendarDate,
    active: Option<CalendarDate>,
    config: &CalendarConfig<R>,
) -> (cell: Cell)
    requires
        date.well_formed(),
        config.renders_every_date(),
    ensures
        cell.shows(date, active, config),
{
    let highlighted = date_is_active(date, active);
    Cell {
        date,
        key: date.iso_text(),
        text: config.cell_text(date),
        active: highlighted,
        classes: cell_classes(config, highlighted),
    }
}

impl Cell {
    /// `self` is `before` with the active date changed: the same date, key
    /// and text, and the flag and classes that the new active date calls for.
    pub open spec fn is_restyling_of<R>(
        &self,
        before: &Cell,
        active: Option<CalendarDate>,
        config: &CalendarConfig<R>,
    ) -> bool {
        &&& self.date == before.date
        &&& self.key == before.key
        &&& self.text == before.text
        &&& self.active == is_active(before.date, active)
        &&& self.classes@ == cell_class_text(
            text_or_empty(config.cell_classes),
            text_or_empty(config.active_classes),
            self.active,
        )
    }

    /// The cell under another active date. The text is kept as it is: the
    /// cell function is not called again.
    pub fn restyled<R>(&self, active: Option<CalendarDate>, config: &CalendarConfig<R>) -> (cell:
        Cell)
        ensures
            cell.is_restyling_of(self, active, config),
    {
        let highlighted = date_is_active(self.date, active);
        Cell {
            date: self.date,
            key: self.key.clone(),
            text: self.text.clone(),
            active: highlighted,
            classes: cell_classes(config, highlighted),
        }
    }
}

/// Columns to leave empty before the first cell of a row that begins on
/// `weekday`. A row that begins on Monday has no empty stretch at all.
pub open spec fn padding_for(weekday: int) -> Option<u32> {
    if weekday == 0 {
        None
    } else {
        Some(weekday as u32)
    }
}

/// One row of the calendar: the cells of the days of one week.
#[derive(Clone, Debug, PartialEq, Eq)]
pub struct WeekRow {
    /// ISO week number of the days of the row.
    pub week: u32,
    /// Tells the row apart from the others: its first day as `year-month-day`.
    pub key: String,
    /// Width of the empty stretch before the first cell, if there is one.
    pub padding: Option<u32>,
    pub cells: Vec<Cell>,
}

impl WeekRow {
    /// The row is the row of `week` under the given active date and
    /// configuration.
    pub open spec fn shows<R: Fn(CalendarDate) -> String>(
        &self,
        week: (u32, Seq<CalendarDate>),
        active: Option<CalendarDate>,
        config: &CalendarConfig<R>,
    ) -> bool {
        &&& self.week == week.0
        &&& self.key@ == iso_date_text(week.1[0])
        &&& self.padding == padding_for(week.1[0].weekday())
        &&& self.cells@.len() == week.1.len()
        &&& forall|i: int|
            0 <= i < week.1.len() ==> (#[trigger] self.cells@[i]).shows(week.1[i], active, config)
    }
}

impl WeekRow {
    /// `self` is `before` with the active date changed: the same week, key
    /// and padding, and every cell restyled.
    pub open spec fn is_restyling_of<R>(
        &self,
        before: &WeekRow,
        active: Option<CalendarDate>,
        config: &CalendarConfig<R>,
    ) -> bool {
        &&& self.week == before.week
        &&& self.key == before.key
        &&& self.padding == before.padding
        &&& self.cells@.len() == before.cells@.len()
        &&& forall|i: int|
            0 <= i < self.cells@.len() ==> (#[trigger] self.cells@[i]).is_restyling_of(
                &before.cells@[i],
                active,
                config,
            )
    }

    /// The row under another active date.
    pub fn restyled<R>(&self, active: Option<CalendarDate>, config: &CalendarConfig<R>) -> (row:
        WeekRow)
        ensures
            row.is_restyling_of(self, active, config),
    {
        let mut cells: Vec<Cell> = Vec::new();
        let mut i: usize = 0;
        while i < self.cells.len()
            invariant
                0 <= i <= self.cells@.len(),
                cells@.len() == i,
                forall|k: int|
                    0 <= k < i ==> (#[trigger] cells@[k]).is_restyling_of(
                        &self.cells@[k],
                        active,
                        config,
                    ),
            decreases self.cells@.len() - i,
        {
            cells.push(self.cells[i].restyled(active, config));
            i += 1;
        }
        WeekRow { week: self.week, key: self.key.clone(), padding: self.padding, cells }
    }
}

/// The row of `week`: an empty stretch as wide as the weekday of its first
/// day, counted from Monday, then one cell for each of its days.
pub fn render_week<R: Fn(CalendarDate) -> String>(
    week: &Week,
    active: Option<CalendarDate>,
    config: &CalendarConfig<R>,
) -> (row: WeekRow)
    requires
        week.days@.len() > 0,
        forall|i: int| 0 <= i < week.days@.len() ==> (#[trigger] week.days@[i]).well_formed(),
        config.renders_every_date(),
    ensures
        row.shows(week@, active, config),
{
    let first = week.days[0];
    let start_padding: u32 = first.weekday_from_monday();
    let padding = if start_padding > 0 {
        Some(start_padding)
    } else {
        None
    };
    let mut cells: Vec<Cell> = Vec::new();
    let mut i: usize = 0;
    while i < week.days.len()
        invariant
            0 <= i <= week.days@.len(),
            cells@.len() == i,
            config.renders_every_date(),
            forall|k: int| 0 <= k < week.days@.len() ==> (#[trigger] week.days@[k]).well_formed(),
            forall|k: int|
                0 <= k < i ==> (#[trigger] cells@[k]).shows(week.days@[k], active, config),
        decreases week.days@.len() - i,
    {
        cells.push(render_cell(week.days[i], active, config));
        i += 1;
    }
    WeekRow { week: week.number, key: first.iso_text(), padding, cells }
}

/// The letter that stands for a weekday, Monday = 0 through Sunday = 6.
pub open spec fn weekday_label(weekday: int) -> Seq<char> {
    if weekday == 0 {
        seq!['M']
    } else if weekday == 1 || weekday == 3 {
        seq!['T']
    } else if weekday == 2 {
        seq!['W']
    } else if weekday == 4 {
        seq!['F']
    } else {
        seq!['S']
    }
}

/// The seven weekday labels, Monday first.
pub fn weekday_labels() -> (labels: Vec<String>)
    ensures
        labels@.len() == 7,
        forall|weekday: int|
            0 <= weekday < 7 ==> (#[trigger] labels@[weekday])@ == weekday_label(weekday),
{
    proof {
        reveal_strlit("M");
        reveal_strlit("T");
        reveal_strlit("W");
        reveal_strlit("F");
        reveal_strlit("S");
    }
    let mut labels: Vec<String> = Vec::new();
    labels.push(String::from_str("M"));
    labels.push(String::from_str("T"));
    labels.push(String::from_str("W"));
    labels.push(String::from_str("T"));
    labels.push(String::from_str("F"));
    labels.push(String::from_str("S"));
    labels.push(String::from_str("S"));
    labels
}

/// The head of the calendar: a title that names the month, spanning all
/// seven columns, and a row of weekday labels.
#[derive(Clone, Debug, PartialEq, Eq)]
pub struct Header {
    pub title: String,
    /// Number of columns the title spans: all seven.
    pub title_span: u32,
    pub month_classes: String,
    pub header_classes: String,
    /// Classes of each weekday label.
    pub cell_classes: String,
    pub labels: Vec<String>,
}

impl Header {
    /// The header is the header of the month of `reference` under the
    /// given configuration.
    pub open spec fn shows<R>(&self, reference: CalendarDate, config: &CalendarConfig<R>) -> bool {
        &&& self.title@ == month_title(reference)
        &&& self.title_span == 7
        &&& self.month_classes@ == text_or_empty(config.month_classes)
        &&& self.header_classes@ == text_or_empty(config.header_classes)
        &&& self.cell_classes@ == text_or_empty(config.cell_classes)
        &&& self.labels@.len() == 7
        &&& forall|weekday: int|
            0 <= weekday < 7 ==> (#[trigger] self.labels@[weekday])@ == weekday_label(weekday)
    }
}

/// The header of the month of `reference`.
pub fn render_header<R>(reference: CalendarDate, config: &CalendarConfig<R>) -> (header: Header)
    requires
        reference.well_formed(),
    ensures
        header.shows(reference, config),
{
    Header {
        title: reference.month_label(),
        title_span: 7,
        month_classes: classes_or_empty(&config.month_classes),
        header_classes: classes_or_empty(&config.header_classes),
        cell_classes: classes_or_empty(&config.cell_classes),
        labels: weekday_labels(),
    }
}

/// The calendar of one month: the header, and the rows of the grid from top
/// to bottom.
#[derive(Clone, Debug, PartialEq, Eq)]
pub struct CalendarView {
    pub header: Header,
    pub rows: Vec<WeekRow>,
}

impl CalendarView {
    /// The view is the calendar of the month of `reference` under the given
    /// active date and configuration.
    pub open spec fn shows<R: Fn(CalendarDate) -> String>(
        &self,
        reference: CalendarDate,
        active: Option<CalendarDate>,
        config: &CalendarConfig<R>,
    ) -> bool {
        &&& self.header.shows(reference, config)
        &&& self.rows@.len() == grid_rows(reference).len()
        &&& forall|row: int|
            0 <= row < self.rows@.len() ==> (#[trigger] self.rows@[row]).shows(
                grid_rows(reference)[row],
                active,
                config,
            )
    }
}

impl Header {
    /// A copy of the header.
    pub fn copied(&self) -> (header: Header)
        ensures
            header.title == self.title,
            header.title_span == self.title_span,
            header.month_classes == self.month_classes,
            header.header_classes == self.header_classes,
            header.cell_classes == self.cell_classes,
            header.labels@ == self.labels@,
    {
        let mut labels: Vec<String> = Vec::new();
        let mut i: usize = 0;
        while i < self.labels.len()
            invariant
                0 <= i <= self.labels@.len(),
                labels@ == self.labels@.take(i as int),
            decreases self.labels@.len() - i,
        {
            labels.push(self.labels[i].clone());
            assert(self.labels@.take(i + 1) =~= self.labels@.take(i as int).push(
                self.labels@[i as int],
            ));
            i += 1;
        }
        assert(self.labels@.take(self.labels@.len() as int) =~= self.labels@);
        Header {
            title: self.title.clone(),
            title_span: self.title_span,
            month_classes: self.month_classes.clone(),
            header_classes: self.header_classes.clone(),
            cell_classes: self.cell_classes.clone(),
            labels,
        }
    }
}

impl CalendarView {
    /// `self` is `before` with the active date changed: the same header and
    /// as many rows, every row restyled.
    pub open spec fn is_restyling_of<R>(
        &self,
        before: &CalendarView,
        active: Option<CalendarDate>,
        config: &CalendarConfig<R>,
    ) -> bool {
        &&& self.header.title == before.header.title
        &&& self.header.title_span == before.header.title_span
        &&& self.header.month_classes == before.header.month_classes
        &&& self.header.header_classes == before.header.header_classes
        &&& self.header.cell_classes == before.header.cell_classes
        &&& self.header.labels@ == before.header.labels@
        &&& self.rows@.len() == before.rows@.len()
        &&& forall|row: int|
            0 <= row < self.rows@.len() ==> (#[trigger] self.rows@[row]).is_restyling_of(
                &before.rows@[row],
                active,
                config,
            )
    }

    /// The calendar under another active date. Only the flag and the classes
    /// of the cells are worked out again; the grid is not built again and
    /// the cell function is not called.
    pub fn restyled<R>(&self, active: Option<CalendarDate>, config: &CalendarConfig<R>) -> (view:
        CalendarView)
        ensures
            view.is_restyling_of(self, active, config),
    {
        let mut rows: Vec<WeekRow> = Vec::new();
        let mut i: usize = 0;
        while i < self.rows.len()
            invariant
                0 <= i <= self.rows@.len(),
                rows@.len() == i,
                forall|row: int|
                    0 <= row < i ==> (#[trigger] rows@[row]).is_restyling_of(
                        &self.rows@[row],
                        active,
                        config,
                    ),
            decreases self.rows@.len() - i,
        {
            rows.push(self.rows[i].restyled(active, config));
            i += 1;
        }
        CalendarView { header: self.header.copied(), rows }
    }
}

/// A view restyled for another active date is the view of the same month
/// under that active date.
pub proof fn lemma_restyled_view_shows<R: Fn(CalendarDate) -> String>(
    before: CalendarView,
    after: CalendarView,
    reference: CalendarDate,
    was_active: Option<CalendarDate>,
    active: Option<CalendarDate>,
    config: &CalendarConfig<R>,
)
    requires
        before.shows(reference, was_active, config),
        after.is_restyling_of(&before, active, config),
    ensures
        after.shows(reference, active, config),
{
    assert forall|row: int| 0 <= row < after.rows@.len() implies (
    #[trigger] after.rows@[row]).shows(grid_rows(reference)[row], active, config) by {
        let week = grid_rows(reference)[row];
        let old_row = before.rows@[row];
        let new_row = after.rows@[row];
        assert(old_row.shows(week, was_active, config));
        assert(new_row.is_restyling_of(&old_row, active, config));
        assert forall|i: int| 0 <= i < week.1.len() implies (#[trigger] new_row.cells@[i]).shows(
            week.1[i],
            active,
            config,
        ) by {
            assert(old_row.cells@[i].shows(week.1[i], was_active, config));
            assert(new_row.cells@[i].is_restyling_of(&old_row.cells@[i], active, config));
        }
    }
}

/// The first row of a view is padded by the weekday of the first of the
/// month, counted from Monday, and holds the first of the month in its first
/// cell; no row below it is padded.
pub proof fn lemma_padding_of_rows<R: Fn(CalendarDate) -> String>(
    view: CalendarView,
    reference: CalendarDate,
    active: Option<CalendarDate>,
    config: &CalendarConfig<R>,
)
    requires
        reference.well_formed(),
        view.shows(reference, active, config),
    ensures
        view.rows@.len() >= 1,
        view.rows@[0].padding == padding_for(reference.month_start().weekday()),
        view.rows@[0].cells@.len() >= 1,
        view.rows@[0].cells@[0].date == reference.month_start(),
        forall|row: int|
            1 <= row < view.rows@.len() ==> (#[trigger] view.rows@[row]).padding is None,
{
    lemma_rows_start_in_column(reference);
    assert(view.rows@[0].shows(grid_rows(reference)[0], active, config));
    assert(view.rows@[0].cells@[0].shows(grid_rows(reference)[0].1[0], active, config));
    assert forall|row: int| 1 <= row < view.rows@.len() implies (
    #[trigger] view.rows@[row]).padding is None by {
        assert(view.rows@[row].shows(grid_rows(reference)[row], active, config));
    }
}

/// The keys of a view tell its parts apart: no two rows have one key, and
/// no two cells have one key, wherever in the view they are.
pub proof fn lemma_keys_tell_apart<R: Fn(CalendarDate) -> String>(
    view: CalendarView,
    reference: CalendarDate,
    active: Option<CalendarDate>,
    config: &CalendarConfig<R>,
)
    requires
        reference.well_formed(),
        view.shows(reference, active, config),
    ensures
        forall|a: int, b: int|
            0 <= a < b < view.rows@.len() ==> (#[trigger] view.rows@[a]).key@ != (
            #[trigger] view.rows@[b]).key@,
        forall|r1: int, c1: int, r2: int, c2: int|
            0 <= r1 < view.rows@.len() && 0 <= c1 < view.rows@[r1].cells@.len() && 0 <= r2
                < view.rows@.len() && 0 <= c2 < view.rows@[r2].cells@.len() && (r1 != r2 || c1
                != c2) ==> (#[trigger] view.rows@[r1].cells@[c1]).key@ != (
            #[trigger] view.rows@[r2].cells@[c2]).key@,
{
    let grid = grid_rows(reference);
    lemma_rows_hold_days(reference);
    lemma_rows_start_in_column(reference);
    lemma_rows_follow_the_calendar(reference);
    assert forall|a: int, b: int| 0 <= a < b < view.rows@.len() implies (
    #[trigger] view.rows@[a]).key@ != (#[trigger] view.rows@[b]).key@ by {
        assert(view.rows@[a].shows(grid[a], active, config));
        assert(view.rows@[b].shows(grid[b], active, config));
        assert(grid[a].1[0].is_before(grid[b].1[0]));
        if iso_date_text(grid[a].1[0]) == iso_date_text(grid[b].1[0]) {
            lemma_iso_text_tells_dates_apart(grid[a].1[0], grid[b].1[0]);
        }
    }
    assert forall|r1: int, c1: int, r2: int, c2: int|
        0 <= r1 < view.rows@.len() && 0 <= c1 < view.rows@[r1].cells@.len() && 0 <= r2
            < view.rows@.len() && 0 <= c2 < view.rows@[r2].cells@.len() && (r1 != r2 || c1
            != c2) implies (#[trigger] view.rows@[r1].cells@[c1]).key@ != (
    #[trigger] view.rows@[r2].cells@[c2]).key@ by {
        assert(view.rows@[r1].shows(grid[r1], active, config));
        assert(view.rows@[r2].shows(grid[r2], active, config));
        let first = grid[r1].1[c1];
        let second = grid[r2].1[c2];
        assert(view.rows@[r1].cells@[c1].shows(first, active, config));
        assert(view.rows@[r2].cells@[c2].shows(second, active, config));
        if r1 < r2 {
            assert(first.is_before(second));
        } else if r2 < r1 {
            assert(second.is_before(first));
        }
        assert(first != second);
        if iso_date_text(first) == iso_date_text(second) {
            lemma_iso_text_tells_dates_apart(first, second);
        }
    }
}

/// The place of a day of the month on the grid: its row and its column
/// within the row's cells.
pub open spec fn cell_place(reference: CalendarDate, day: CalendarDate) -> (int, int) {
    let index = day.day - 1;
    (row_of(reference, index), index - row_start(reference, row_of(reference, index)))
}

/// With an active date that is a day of the month shown, the cell of that
/// day is active and no other cell is. With an active date outside the
/// month, or without one, no cell is active.
pub proof fn lemma_one_active_cell<R: Fn(CalendarDate) -> String>(
    view: CalendarView,
    reference: CalendarDate,
    active: Option<CalendarDate>,
    config: &CalendarConfig<R>,
)
    requires
        reference.well_formed(),
        view.shows(reference, active, config),
    ensures
        active is Some && month_days(reference).contains(active->0) ==> {
            let (row, column) = cell_place(reference, active->0);
            &&& 0 <= row < view.rows@.len()
            &&& 0 <= column < view.rows@[row].cells@.len()
            &&& view.rows@[row].cells@[column].date == active->0
            &&& forall|r: int, c: int|
                0 <= r < view.rows@.len() && 0 <= c < view.rows@[r].cells@.len() ==> ((
                #[trigger] view.rows@[r].cells@[c]).active <==> r == row && c == column)
        },
        active is None || !month_days(reference).contains(active->0) ==> forall|r: int, c: int|
            0 <= r < view.rows@.len() && 0 <= c < view.rows@[r].cells@.len() ==> !(
            #[trigger] view.rows@[r].cells@[c]).active,
{
    lemma_rows_hold_days(reference);
    lemma_rows_tile_the_month(reference);
    let days = month_days(reference);
    assert forall|r: int, c: int|
        0 <= r < view.rows@.len() && 0 <= c < view.rows@[r].cells@.len() implies (
    #[trigger] view.rows@[r].cells@[c]).date == days[row_start(reference, r) + c] && 0
        <= row_start(reference, r) + c < days.len() && row_of(
        reference,
        row_start(reference, r) + c,
    ) == r by {
        assert(view.rows@[r].shows(grid_rows(reference)[r], active, config));
        assert(view.rows@[r].cells@[c].shows(grid_rows(reference)[r].1[c], active, config));
    }
    assert forall|r: int, c: int|
        0 <= r < view.rows@.len() && 0 <= c < view.rows@[r].cells@.len() implies (
    #[trigger] view.rows@[r].cells@[c]).active == is_active(
        days[row_start(reference, r) + c],
        active,
    ) by {
        assert(view.rows@[r].shows(grid_rows(reference)[r], active, config));
        assert(view.rows@[r].cells@[c].shows(grid_rows(reference)[r].1[c], active, config));
    }
    if active is Some && days.contains(active->0) {
        let day = active->0;
        let index = choose|index: int| 0 <= index < days.len() && days[index] == day;
        assert(index == day.day - 1);
        lemma_month_day(reference, index);
        let (row, column) = cell_place(reference, day);
        assert(view.rows@[row].shows(grid_rows(reference)[row], active, config));
        assert(view.rows@[row].cells@[column].shows(
            grid_rows(reference)[row].1[column],
            active,
            config,
        ));
    }
}

/// The calendar of the month that `reference` lies in.
pub fn render_calendar<R: Fn(CalendarDate) -> String>(
    reference: CalendarDate,
    active: Option<CalendarDate>,
    config: &CalendarConfig<R>,
) -> (view: CalendarView)
    requires
        reference.well_formed(),
        has_next_month(reference),
        config.renders_every_date(),
    ensures
        view.shows(reference, active, config),
{
    let header = render_header(reference, config);
    let weeks = GridBuilder::rows(reference);
    proof {
        lemma_rows_hold_days(reference);
        lemma_rows_start_in_column(reference);
    }
    let mut rows: Vec<WeekRow> = Vec::new();
    let mut i: usize = 0;
    while i < weeks.len()
        invariant
            0 <= i <= weeks@.len(),
            rows@.len() == i,
            config.renders_every_date(),
            week_views(weeks@) == grid_rows(reference),
            forall|row: int, column: int|
                0 <= row < grid_rows(reference).len() && 0 <= column < grid_rows(
                    reference,
                )[row].1.len() ==> (#[trigger] grid_rows(reference)[row].1[column]).well_formed(),
            forall|row: int|
                0 <= row < grid_rows(reference).len() ==> 1 <= (#[trigger] grid_rows(
                    reference,
                )[row]).1.len(),
            forall|row: int|
                0 <= row < i ==> (#[trigger] rows@[row]).shows(
                    grid_rows(reference)[row],
                    active,
                    config,
                ),
        decreases weeks@.len() - i,
    {
        proof {
            let row = i as int;
            assert(week_views(weeks@)[row] == weeks@[row]@);
            assert(grid_rows(reference)[row].1 == weeks@[row].days@);
            assert forall|k: int| 0 <= k < weeks@[row].days@.len() implies (
            #[trigger] weeks@[row].days@[k]).well_formed() by {
                assert(grid_rows(reference)[row].1[k].well_formed());
            }
        }
        rows.push(render_week(&weeks[i], active, config));
        i += 1;
    }
    CalendarView { header, rows }
}

} // verus!
