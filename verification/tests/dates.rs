use chrono::{Datelike, NaiveDate};
use month_calendar::date::CalendarDate;
use month_calendar::gregorian::{MAX_YEAR, MIN_YEAR};

fn date(year: i32, month: u32, day: u32) -> CalendarDate {
    CalendarDate::new(year, month, day).expect("a day of the calendar")
}

fn is_leap_year(year: i64) -> bool {
    year.rem_euclid(4) == 0 && (year.rem_euclid(100) != 0 || year.rem_euclid(400) == 0)
}

fn days_in_year(year: i64) -> i64 {
    if is_leap_year(year) {
        366
    } else {
        365
    }
}

fn days_in_month(year: i64, month: i64) -> i64 {
    match month {
        2 => {
            if is_leap_year(year) {
                29
            } else {
                28
            }
        }
        4 | 6 | 9 | 11 => 30,
        _ => 31,
    }
}

fn ordinal(year: i64, month: i64, day: i64) -> i64 {
    let mut days = day;
    for earlier in 1..month {
        days += days_in_month(year, earlier);
    }
    days
}

fn day_number(year: i64, month: i64, day: i64) -> i64 {
    let y = year - 1;
    365 * y + y.div_euclid(4) - y.div_euclid(100) + y.div_euclid(400) + ordinal(year, month, day)
}

fn weekday(year: i64, month: i64, day: i64) -> i64 {
    (day_number(year, month, day) - 1).rem_euclid(7)
}

fn iso_week(year: i64, month: i64, day: i64) -> i64 {
    let thursday = ordinal(year, month, day) - weekday(year, month, day) + 3;
    if thursday < 1 {
        (thursday + days_in_year(year - 1) - 1).div_euclid(7) + 1
    } else if thursday > days_in_year(year) {
        1
    } else {
        (thursday - 1).div_euclid(7) + 1
    }
}

fn years_to_try() -> Vec<i32> {
    let mut years: Vec<i32> = Vec::new();
    years.extend(MIN_YEAR..MIN_YEAR + 3);
    years.extend(-402..=-398);
    years.extend(-5..=5);
    years.extend(1595..=2405);
    years.extend(9998..=10001);
    years.extend(MAX_YEAR - 2..=MAX_YEAR);
    years
}

#[test]
fn new_accepts_exactly_the_days_of_the_calendar() {
    for year in years_to_try() {
        for month in 0..=13u32 {
            for day in 0..=32u32 {
                let exists = (1..=12).contains(&month)
                    && day >= 1
                    && i64::from(day) <= days_in_month(i64::from(year), i64::from(month));
                let made = CalendarDate::new(year, month, day);
                assert_eq!(made.is_some(), exists, "{year}-{month}-{day}");
                if let Some(date) = made {
                    assert_eq!((date.year, date.month, date.day), (year, month, day));
                }
            }
        }
    }
}

#[test]
fn new_rejects_years_outside_the_calendar() {
    assert!(CalendarDate::new(MIN_YEAR, 1, 1).is_some());
    assert!(CalendarDate::new(MAX_YEAR, 12, 31).is_some());
    assert!(CalendarDate::new(MIN_YEAR - 1, 12, 31).is_none());
    assert!(CalendarDate::new(MAX_YEAR + 1, 1, 1).is_none());
    assert!(CalendarDate::new(i32::MAX, 1, 1).is_none());
    assert!(CalendarDate::new(i32::MIN, 1, 1).is_none());
}

#[test]
fn new_rejects_days_that_do_not_exist() {
    assert!(CalendarDate::new(2023, 2, 29).is_none());
    assert!(CalendarDate::new(2024, 2, 29).is_some());
    assert!(CalendarDate::new(1900, 2, 29).is_none());
    assert!(CalendarDate::new(2000, 2, 29).is_some());
    assert!(CalendarDate::new(2023, 4, 31).is_none());
    assert!(CalendarDate::new(2023, 0, 1).is_none());
    assert!(CalendarDate::new(2023, 13, 1).is_none());
    assert!(CalendarDate::new(2023, 1, 0).is_none());
    assert!(CalendarDate::new(2023, 1, u32::MAX).is_none());
}

#[test]
fn weekday_and_week_number_follow_the_day_number() {
    for year in years_to_try() {
        for month in 1..=12u32 {
            let length = days_in_month(i64::from(year), i64::from(month)) as u32;
            for day in 1..=length {
                let d = date(year, month, day);
                let (y, m, dd) = (i64::from(year), i64::from(month), i64::from(day));
                let name = format!("{year}-{month}-{day}");
                assert_eq!(i64::from(d.weekday_from_monday()), weekday(y, m, dd), "{name}");
                assert_eq!(i64::from(d.iso_week_number()), iso_week(y, m, dd), "{name}");
            }
        }
    }
}

#[test]
fn day_number_is_the_count_of_days_from_year_one() {
    for year in years_to_try() {
        for month in 1..=12u32 {
            for day in [1u32, 15, 28] {
                let naive = NaiveDate::from_ymd_opt(year, month, day).unwrap();
                assert_eq!(
                    i64::from(naive.num_days_from_ce()),
                    day_number(i64::from(year), i64::from(month), i64::from(day))
                );
            }
        }
    }
}

#[test]
fn weekday_of_known_days() {
    assert_eq!(date(2024, 2, 1).weekday_from_monday(), 3);
    assert_eq!(date(2024, 12, 1).weekday_from_monday(), 6);
    assert_eq!(date(2024, 1, 1).weekday_from_monday(), 0);
    assert_eq!(date(1, 1, 1).weekday_from_monday(), 0);
    assert_eq!(date(1970, 1, 1).weekday_from_monday(), 3);
    assert_eq!(date(0, 12, 31).weekday_from_monday(), 6);
}

#[test]
fn week_number_of_known_days() {
    assert_eq!(date(2024, 2, 1).iso_week_number(), 5);
    assert_eq!(date(2024, 12, 29).iso_week_number(), 52);
    assert_eq!(date(2024, 12, 30).iso_week_number(), 1);
    assert_eq!(date(2016, 1, 3).iso_week_number(), 53);
    assert_eq!(date(2021, 1, 3).iso_week_number(), 53);
    assert_eq!(date(2021, 1, 4).iso_week_number(), 1);
    assert_eq!(date(2020, 12, 31).iso_week_number(), 53);
    assert_eq!(date(2023, 1, 1).iso_week_number(), 52);
}

#[test]
fn first_of_month_keeps_year_and_month() {
    assert_eq!(date(2024, 2, 29).first_of_month(), date(2024, 2, 1));
    assert_eq!(date(2024, 12, 15).first_of_month(), date(2024, 12, 1));
    assert_eq!(date(2024, 3, 1).first_of_month(), date(2024, 3, 1));
    assert_eq!(date(MIN_YEAR, 1, 31).first_of_month(), date(MIN_YEAR, 1, 1));
    assert_eq!(date(MAX_YEAR, 12, 31).first_of_month(), date(MAX_YEAR, 12, 1));
}

#[test]
fn plus_days_moves_along_the_calendar() {
    assert_eq!(date(2024, 2, 1).plus_days(35), date(2024, 3, 7));
    assert_eq!(date(2023, 2, 1).plus_days(35), date(2023, 3, 8));
    assert_eq!(date(2024, 12, 1).plus_days(35), date(2025, 1, 5));
    assert_eq!(date(2024, 2, 28).plus_days(1), date(2024, 2, 29));
    assert_eq!(date(2023, 2, 28).plus_days(1), date(2023, 3, 1));
    assert_eq!(date(2024, 12, 31).plus_days(1), date(2025, 1, 1));
    assert_eq!(date(2024, 1, 1).plus_days(-1), date(2023, 12, 31));
    assert_eq!(date(2024, 6, 10).plus_days(0), date(2024, 6, 10));
    assert_eq!(date(2014, 1, 1).plus_days(365 * 400 + 97), date(2414, 1, 1));
    assert_eq!(date(MAX_YEAR, 12, 30).plus_days(1), date(MAX_YEAR, 12, 31));
    assert_eq!(date(MIN_YEAR, 1, 2).plus_days(-1), date(MIN_YEAR, 1, 1));
}

#[test]
fn plus_days_adds_to_the_day_number() {
    for year in [-400, 0, 1, 1999, 2000, 2023, 2024] {
        for month in 1..=12u32 {
            for day in [1u32, 28] {
                for days in [-400i64, -31, -1, 0, 1, 29, 35, 366, 1461] {
                    let from = date(year, month, day);
                    let to = from.plus_days(days);
                    assert_eq!(
                        day_number(i64::from(to.year), i64::from(to.month), i64::from(to.day)),
                        day_number(i64::from(year), i64::from(month), i64::from(day)) + days
                    );
                }
            }
        }
    }
}

#[test]
fn precedes_orders_dates_as_the_calendar_does() {
    let days = [
        date(-1, 12, 31),
        date(0, 1, 1),
        date(2023, 12, 31),
        date(2024, 1, 1),
        date(2024, 1, 2),
        date(2024, 2, 1),
        date(2025, 1, 1),
    ];
    for (i, a) in days.iter().enumerate() {
        for (j, b) in days.iter().enumerate() {
            assert_eq!(a.precedes(b), i < j);
        }
    }
}

#[test]
fn day_label_is_two_digits() {
    assert_eq!(date(2024, 2, 1).day_label(), "01");
    assert_eq!(date(2024, 2, 9).day_label(), "09");
    assert_eq!(date(2024, 2, 10).day_label(), "10");
    assert_eq!(date(2024, 2, 29).day_label(), "29");
    assert_eq!(date(2024, 1, 31).day_label(), "31");
}

#[test]
fn month_label_names_month_and_year() {
    assert_eq!(date(2024, 2, 1).month_label(), "February 2024");
    assert_eq!(date(2024, 12, 15).month_label(), "December 2024");
    assert_eq!(date(999, 5, 1).month_label(), "May 0999");
    assert_eq!(date(0, 1, 1).month_label(), "January 0000");
    assert_eq!(date(-1, 9, 1).month_label(), "September -0001");
    assert_eq!(date(10000, 3, 1).month_label(), "March +10000");
    assert_eq!(date(MAX_YEAR, 10, 1).month_label(), "October +262142");
    assert_eq!(date(MIN_YEAR, 11, 1).month_label(), "November -262143");
    let names = [
        "January", "February", "March", "April", "May", "June", "July", "August", "September",
        "October", "November", "December",
    ];
    for (index, name) in names.iter().enumerate() {
        assert_eq!(date(2001, index as u32 + 1, 1).month_label(), format!("{name} 2001"));
    }
}

#[test]
fn iso_text_is_year_month_day() {
    assert_eq!(date(2024, 2, 1).iso_text(), "2024-02-01");
    assert_eq!(date(2015, 9, 5).iso_text(), "2015-09-05");
    assert_eq!(date(0, 1, 1).iso_text(), "0000-01-01");
    assert_eq!(date(9999, 12, 31).iso_text(), "9999-12-31");
    assert_eq!(date(-1, 1, 1).iso_text(), "-0001-01-01");
    assert_eq!(date(10000, 12, 31).iso_text(), "+10000-12-31");
}
