//! How dates are written: digits, month names, and the texts built from them.

use vstd::prelude::*;
use crate::date::CalendarDate;

verus! {

pub open spec fn digit_char(n: int) -> char {
    if n == 0 {
        '0'
    } else if n == 1 {
        '1'
    } else if n == 2 {
        '2'
    } else if n == 3 {
        '3'
    } else if n == 4 {
        '4'
    } else if n == 5 {
        '5'
    } else if n == 6 {
        '6'
    } else if n == 7 {
        '7'
    } else if n == 8 {
        '8'
    } else {
        '9'
    }
}

/// `n` in decimal, padded with leading zeros to at least `width` digits.
pub open spec fn decimal(n: nat, width: nat) -> Seq<char>
    decreases n, width,
{
    if n < 10 && width <= 1 {
        seq![digit_char(n as int)]
    } else {
        decimal(n / 10, if width > 0 { (width - 1) as nat } else { 0 }).push(
            digit_char((n % 10) as int),
        )
    }
}

/// A year as ISO 8601 writes it: four digits from 0 to 9999, otherwise a
/// sign followed by at least four digits.
pub open spec fn year_text(year: int) -> Seq<char> {
    if 0 <= year <= 9999 {
        decimal(year as nat, 4)
    } else if year > 9999 {
        seq!['+'] + decimal(year as nat, 4)
    } else {
        seq!['-'] + decimal((-year) as nat, 4)
    }
}

/// English name of a month, months numbered from 1.
pub open spec fn month_name(month: int) -> Seq<char> {
    if month == 1 {
        "January"@
    } else if month == 2 {
        "February"@
    } else if month == 3 {
        "March"@
    } else if month == 4 {
        "April"@
    } else if month == 5 {
        "May"@
    } else if month == 6 {
        "June"@
    } else if month == 7 {
        "July"@
    } else if month == 8 {
        "August"@
    } else if month == 9 {
        "September"@
    } else if month == 10 {
        "October"@
    } else if month == 11 {
        "November"@
    } else {
        "December"@
    }
}

/// Day of the month as two digits: `01` to `31`.
pub open spec fn day_text(date: CalendarDate) -> Seq<char> {
    decimal(date.day as nat, 2)
}

/// Month name, a space, and the year: `February 2024`.
pub open spec fn month_title(date: CalendarDate) -> Seq<char> {
    month_name(date.month as int) + seq![' '] + year_text(date.year as int)
}

/// Year, month and day joined by hyphens: `2024-02-01`.
pub open spec fn iso_date_text(date: CalendarDate) -> Seq<char> {
    year_text(date.year as int) + seq!['-'] + decimal(date.month as nat, 2) + seq!['-'] + decimal(
        date.day as nat,
        2,
    )
}

/// The digit that a character stands for.
pub open spec fn digit_value(c: char) -> int {
    if c == '0' {
        0
    } else if c == '1' {
        1
    } else if c == '2' {
        2
    } else if c == '3' {
        3
    } else if c == '4' {
        4
    } else if c == '5' {
        5
    } else if c == '6' {
        6
    } else if c == '7' {
        7
    } else if c == '8' {
        8
    } else {
        9
    }
}

/// The number that a row of digits writes.
pub open spec fn number_written(digits: Seq<char>) -> int
    decreases digits.len(),
{
    if digits.len() == 0 {
        0
    } else {
        10 * number_written(digits.drop_last()) + digit_value(digits.last())
    }
}

/// A number written in decimal reads back as itself; its text has at least
/// one digit and at least as many as asked for, starts with neither sign,
/// and has exactly `width` digits where the number needs no more.
pub proof fn lemma_decimal_reads_back(n: nat, width: nat)
    ensures
        number_written(decimal(n, width)) == n,
        decimal(n, width).len() >= 1,
        decimal(n, width).len() >= width,
        decimal(n, width)[0] != '+',
        decimal(n, width)[0] != '-',
        n < 10 && width == 1 ==> decimal(n, width).len() == 1,
        n < 100 && width == 2 ==> decimal(n, width).len() == 2,
    decreases n, width,
{
    if n < 10 && width <= 1 {
        let text = seq![digit_char(n as int)];
        assert(number_written(text) == 10 * number_written(text.drop_last()) + digit_value(
            text.last(),
        ));
    } else {
        let rest = decimal(n / 10, if width > 0 { (width - 1) as nat } else { 0 });
        let last = digit_char((n % 10) as int);
        lemma_decimal_reads_back(n / 10, if width > 0 { (width - 1) as nat } else { 0 });
        let text = rest.push(last);
        assert(text.drop_last() =~= rest);
    }
}

/// Two years that are written alike are one year.
pub proof fn lemma_year_text_tells_years_apart(a: int, b: int)
    requires
        year_text(a) == year_text(b),
    ensures
        a == b,
{
    let size_a = if 0 <= a { a as nat } else { (-a) as nat };
    let size_b = if 0 <= b { b as nat } else { (-b) as nat };
    lemma_decimal_reads_back(size_a, 4);
    lemma_decimal_reads_back(size_b, 4);
    // A sign, where there is one, is the first character; the digits follow.
    if !(0 <= a <= 9999) {
        assert(year_text(a)[0] == if a > 9999 { '+' } else { '-' });
        assert(year_text(a).subrange(1, year_text(a).len() as int) =~= decimal(size_a, 4));
    }
    if !(0 <= b <= 9999) {
        assert(year_text(b)[0] == if b > 9999 { '+' } else { '-' });
        assert(year_text(b).subrange(1, year_text(b).len() as int) =~= decimal(size_b, 4));
    }
}

/// Two dates that are written alike are one date.
pub proof fn lemma_iso_text_tells_dates_apart(a: CalendarDate, b: CalendarDate)
    requires
        a.well_formed(),
        b.well_formed(),
        iso_date_text(a) == iso_date_text(b),
    ensures
        a == b,
{
    lemma_text_parts(a);
    lemma_text_parts(b);
    lemma_year_text_tells_years_apart(a.year as int, b.year as int);
    lemma_decimal_reads_back(a.month as nat, 2);
    lemma_decimal_reads_back(b.month as nat, 2);
    lemma_decimal_reads_back(a.day as nat, 2);
    lemma_decimal_reads_back(b.day as nat, 2);
}

/// The text of a date falls into its year, its month and its day: the last
/// six characters are the hyphens and the two digits of each of the latter.
proof fn lemma_text_parts(date: CalendarDate)
    requires
        date.well_formed(),
    ensures
        iso_date_text(date).len() == year_text(date.year as int).len() + 6,
        iso_date_text(date).subrange(0, iso_date_text(date).len() - 6) == year_text(
            date.year as int,
        ),
        iso_date_text(date).subrange(
            iso_date_text(date).len() - 5,
            iso_date_text(date).len() - 3,
        ) == decimal(date.month as nat, 2),
        iso_date_text(date).subrange(
            iso_date_text(date).len() - 2,
            iso_date_text(date).len() as int,
        ) == decimal(date.day as nat, 2),
{
    lemma_decimal_reads_back(date.month as nat, 2);
    lemma_decimal_reads_back(date.day as nat, 2);
}

} // verus!
