use std::cell::Cell as Counter;
use std::rc::Rc;

use month_calendar::config::{classes_or_empty, CalendarConfig};
use month_calendar::date::CalendarDate;
use month_calendar::order::Week;
use month_calendar::view::{
    cell_classes, date_is_active, render_calendar, render_cell, render_header, render_week,
    weekday_labels, CalendarView, Cell,
};

type Plain = fn(CalendarDate) -> String;

fn day(year: i32, month: u32, day: u32) -> CalendarDate {
    CalendarDate::new(year, month, day).expect("a day of the calendar")
}

fn styled<R>(cell_renderer: Option<R>) -> CalendarConfig<R> {
    CalendarConfig {
        header_classes: Some("head".to_string()),
        cell_classes: Some("cell".to_string()),
        month_classes: Some("month".to_string()),
        active_classes: Some("active".to_string()),
        cell_renderer,
    }
}

fn cells(view: &CalendarView) -> Vec<&Cell> {
    view.rows.iter().flat_map(|row| row.cells.iter()).collect()
}

#[test]
fn default_config_is_empty() {
    let config: CalendarConfig<Plain> = CalendarConfig::default();
    assert!(config.header_classes.is_none());
    assert!(config.cell_classes.is_none());
    assert!(config.month_classes.is_none());
    assert!(config.active_classes.is_none());
    assert!(config.cell_renderer.is_none());
}

#[test]
fn absent_classes_are_the_empty_text() {
    assert_eq!(classes_or_empty(&None), "");
    assert_eq!(classes_or_empty(&Some("a b".to_string())), "a b");
    assert_eq!(classes_or_empty(&Some(String::new())), "");
}

#[test]
fn cell_classes_add_the_active_classes_after_a_space() {
    let config = styled::<Plain>(None);
    assert_eq!(cell_classes(&config, false), "cell");
    assert_eq!(cell_classes(&config, true), "cell active");
    let bare: CalendarConfig<Plain> = CalendarConfig::default();
    assert_eq!(cell_classes(&bare, false), "");
    assert_eq!(cell_classes(&bare, true), " ");
    let only_active: CalendarConfig<Plain> = CalendarConfig {
        active_classes: Some("on now".to_string()),
        ..CalendarConfig::default()
    };
    assert_eq!(cell_classes(&only_active, true), " on now");
    assert_eq!(cell_classes(&only_active, false), "");
}

#[test]
fn a_date_is_active_when_it_is_the_active_date() {
    assert!(date_is_active(day(2024, 2, 1), Some(day(2024, 2, 1))));
    assert!(!date_is_active(day(2024, 2, 1), Some(day(2024, 2, 2))));
    assert!(!date_is_active(day(2024, 2, 1), Some(day(2023, 2, 1))));
    assert!(!date_is_active(day(2024, 2, 1), Some(day(2024, 3, 1))));
    assert!(!date_is_active(day(2024, 2, 1), None));
}

#[test]
fn a_cell_shows_the_day_of_the_month_by_default() {
    let config = styled::<Plain>(None);
    let cell = render_cell(day(2024, 2, 5), Some(day(2024, 2, 6)), &config);
    assert_eq!(cell.date, day(2024, 2, 5));
    assert_eq!(cell.key, "2024-02-05");
    assert_eq!(cell.text, "05");
    assert!(!cell.active);
    assert_eq!(cell.classes, "cell");
    let cell = render_cell(day(2024, 2, 6), Some(day(2024, 2, 6)), &config);
    assert_eq!(cell.text, "06");
    assert!(cell.active);
    assert_eq!(cell.classes, "cell active");
}

#[test]
fn custom_renderer_gives_every_cell_its_text() {
    let config = styled(Some(|date: CalendarDate| format!("Day {}", date.day)));
    let view = render_calendar(day(2024, 2, 1), None, &config);
    let all = cells(&view);
    assert_eq!(all.len(), 29);
    for (index, cell) in all.iter().enumerate() {
        assert_eq!(cell.text, format!("Day {}", index + 1));
    }
}

#[test]
fn a_function_item_can_render_cells() {
    fn spelled(date: CalendarDate) -> String {
        format!("{}.{}.", date.day, date.month)
    }
    let config = styled(Some(spelled as Plain));
    let cell = render_cell(day(2024, 2, 5), None, &config);
    assert_eq!(cell.text, "5.2.");
}

#[test]
fn the_active_date_marks_exactly_its_own_cell() {
    let config = styled::<Plain>(None);
    for active_day in [1, 4, 5, 14, 29] {
        let view = render_calendar(day(2024, 2, 10), Some(day(2024, 2, active_day)), &config);
        let all = cells(&view);
        let marked: Vec<&&Cell> = all.iter().filter(|cell| cell.active).collect();
        assert_eq!(marked.len(), 1);
        assert_eq!(marked[0].date, day(2024, 2, active_day));
        assert_eq!(marked[0].classes, "cell active");
        for cell in all.iter().filter(|cell| !cell.active) {
            assert_eq!(cell.classes, "cell");
        }
    }
}

#[test]
fn an_active_date_outside_the_month_marks_no_cell() {
    let config = styled::<Plain>(None);
    for active in [day(2024, 1, 31), day(2024, 3, 1), day(2023, 2, 10), day(2025, 2, 10)] {
        let view = render_calendar(day(2024, 2, 10), Some(active), &config);
        assert!(cells(&view).iter().all(|cell| !cell.active && cell.classes == "cell"));
    }
}

#[test]
fn without_an_active_date_no_cell_is_marked() {
    let config = styled::<Plain>(None);
    for year in [1999, 2024, 2025] {
        for month in 1..=12 {
            let view = render_calendar(day(year, month, 1), None, &config);
            assert!(cells(&view).iter().all(|cell| !cell.active && cell.classes == "cell"));
        }
    }
}

#[test]
fn february_2024_is_shown_in_five_rows() {
    let config = styled::<Plain>(None);
    let view = render_calendar(day(2024, 2, 1), None, &config);
    assert_eq!(view.rows.len(), 5);
    assert_eq!(view.rows[0].padding, Some(3));
    assert_eq!(view.rows[0].week, 5);
    assert_eq!(view.rows[0].key, "2024-02-01");
    assert_eq!(view.rows[1].key, "2024-02-05");
    for row in &view.rows[1..] {
        assert_eq!(row.padding, None);
    }
    let last = view.rows[4].cells.last().unwrap();
    assert_eq!(last.text, "29");
    assert_eq!(last.key, "2024-02-29");
}

#[test]
fn december_2024_shows_week_one_last() {
    let config = styled::<Plain>(None);
    let view = render_calendar(day(2024, 12, 15), None, &config);
    let weeks: Vec<u32> = view.rows.iter().map(|row| row.week).collect();
    assert_eq!(weeks, vec![48, 49, 50, 51, 52, 1]);
    assert_eq!(view.rows[0].padding, Some(6));
    assert_eq!(view.rows[5].padding, None);
    let texts: Vec<&str> = view.rows[5].cells.iter().map(|cell| cell.text.as_str()).collect();
    assert_eq!(texts, vec!["30", "31"]);
}

#[test]
fn a_row_that_begins_on_monday_has_no_padding() {
    let config = styled::<Plain>(None);
    let view = render_calendar(day(2024, 1, 1), None, &config);
    assert_eq!(view.rows[0].padding, None);
    assert_eq!(view.rows[0].cells.len(), 7);
}

#[test]
fn padding_is_the_weekday_of_the_first_day_of_the_row() {
    let config = styled::<Plain>(None);
    let starts = [
        (2024, 1, None),
        (2024, 10, Some(1)),
        (2024, 5, Some(2)),
        (2024, 2, Some(3)),
        (2024, 3, Some(4)),
        (2024, 6, Some(5)),
        (2024, 9, Some(6)),
    ];
    for (year, month, padding) in starts {
        let view = render_calendar(day(year, month, 1), None, &config);
        assert_eq!(view.rows[0].padding, padding, "{year}-{month}");
        assert_eq!(view.rows[0].cells.len() as u32, 7 - padding.unwrap_or(0));
    }
}

#[test]
fn render_week_makes_one_cell_a_day() {
    let config = styled::<Plain>(None);
    let week = Week { number: 9, days: vec![day(2024, 2, 28), day(2024, 2, 29)] };
    let row = render_week(&week, Some(day(2024, 2, 29)), &config);
    assert_eq!(row.week, 9);
    assert_eq!(row.key, "2024-02-28");
    assert_eq!(row.padding, Some(2));
    assert_eq!(row.cells.len(), 2);
    assert_eq!(row.cells[0].text, "28");
    assert!(!row.cells[0].active);
    assert_eq!(row.cells[1].text, "29");
    assert!(row.cells[1].active);
}

#[test]
fn weekday_labels_start_on_monday() {
    assert_eq!(weekday_labels(), vec!["M", "T", "W", "T", "F", "S", "S"]);
}

#[test]
fn header_names_the_month() {
    let config = styled::<Plain>(None);
    let header = render_header(day(2024, 2, 17), &config);
    assert_eq!(header.title, "February 2024");
    assert_eq!(header.title_span, 7);
    assert_eq!(header.month_classes, "month");
    assert_eq!(header.header_classes, "head");
    assert_eq!(header.cell_classes, "cell");
    assert_eq!(header.labels, vec!["M", "T", "W", "T", "F", "S", "S"]);

    let bare: CalendarConfig<Plain> = CalendarConfig::default();
    let header = render_header(day(2024, 12, 1), &bare);
    assert_eq!(header.title, "December 2024");
    assert_eq!(header.month_classes, "");
    assert_eq!(header.header_classes, "");
    assert_eq!(header.cell_classes, "");
}

#[test]
fn restyling_keeps_the_cells_and_moves_the_mark() {
    let calls = Rc::new(Counter::new(0u32));
    let seen = Rc::clone(&calls);
    let config = styled(Some(move |date: CalendarDate| {
        seen.set(seen.get() + 1);
        format!("<{}>", date.day)
    }));
    let view = render_calendar(day(2024, 2, 1), Some(day(2024, 2, 3)), &config);
    assert_eq!(calls.get(), 29);

    let restyled = view.restyled(Some(day(2024, 2, 20)), &config);
    assert_eq!(calls.get(), 29);
    assert_eq!(restyled.header.title, view.header.title);
    assert_eq!(restyled.header.labels, view.header.labels);
    assert_eq!(restyled.rows.len(), view.rows.len());
    for (new_row, old_row) in restyled.rows.iter().zip(view.rows.iter()) {
        assert_eq!(new_row.week, old_row.week);
        assert_eq!(new_row.key, old_row.key);
        assert_eq!(new_row.padding, old_row.padding);
        assert_eq!(new_row.cells.len(), old_row.cells.len());
        for (new_cell, old_cell) in new_row.cells.iter().zip(old_row.cells.iter()) {
            assert_eq!(new_cell.date, old_cell.date);
            assert_eq!(new_cell.key, old_cell.key);
            assert_eq!(new_cell.text, old_cell.text);
            assert_eq!(new_cell.active, new_cell.date == day(2024, 2, 20));
            let classes = if new_cell.active { "cell active" } else { "cell" };
            assert_eq!(new_cell.classes, classes);
        }
    }
    let cleared = restyled.restyled(None, &config);
    assert!(cells(&cleared).iter().all(|cell| !cell.active && cell.classes == "cell"));
    assert_eq!(calls.get(), 29);
}

#[test]
fn a_copied_header_is_the_same_header() {
    let config = styled::<Plain>(None);
    let header = render_header(day(2024, 2, 17), &config);
    let copy = header.copied();
    assert_eq!(copy.title, header.title);
    assert_eq!(copy.month_classes, header.month_classes);
    assert_eq!(copy.header_classes, header.header_classes);
    assert_eq!(copy.cell_classes, header.cell_classes);
    assert_eq!(copy.labels, header.labels);
}

#[test]
fn keys_tell_rows_and_cells_apart() {
    let config = styled::<Plain>(None);
    for (year, month) in [(2024, 2), (2024, 12), (2021, 1), (-1, 12), (10000, 1)] {
        let view = render_calendar(day(year, month, 1), None, &config);
        let mut row_keys: Vec<&str> = view.rows.iter().map(|row| row.key.as_str()).collect();
        let rows = row_keys.len();
        row_keys.sort_unstable();
        row_keys.dedup();
        assert_eq!(row_keys.len(), rows);
        let mut cell_keys: Vec<&str> = cells(&view).iter().map(|cell| cell.key.as_str()).collect();
        let count = cell_keys.len();
        cell_keys.sort_unstable();
        cell_keys.dedup();
        assert_eq!(cell_keys.len(), count);
        for row in &view.rows {
            assert_eq!(row.key, row.cells[0].key);
        }
    }
}
