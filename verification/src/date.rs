//! Calendar dates without a time component: validity, conversion from a
//! seconds-since-epoch timestamp, ordering, and display formatting in the
//! form `01 January 2024`.

use vstd::prelude::*;

verus! {

/// The largest timestamp (seconds since 1970-01-01) that `date_of_timestamp`
/// accepts; it keeps the resulting year within `u16`.
pub const MAX_TIMESTAMP: u64 = 2_000_000_000_000;

/// A calendar date in the proleptic Gregorian calendar.
#[derive(Clone, Copy, Debug, PartialEq, Eq, Structural)]
pub struct Date {
    pub year: u16,
    pub month: u8,
    pub day: u8,
}

/// Gregorian leap-year rule.
pub open spec fn is_leap(y: int) -> bool {
    y % 4 == 0 && (y % 100 != 0 || y % 400 == 0)
}

pub open spec fn days_in_year(y: int) -> int {
    if is_leap(y) {
        366
    } else {
        365
    }
}

pub open spec fn days_in_month(y: int, m: int) -> int {
    if m == 1 {
        31
    } else if m == 2 {
        if is_leap(y) {
            29
        } else {
            28
        }
    } else if m == 3 {
        31
    } else if m == 4 {
        30
    } else if m == 5 {
        31
    } else if m == 6 {
        30
    } else if m == 7 {
        31
    } else if m == 8 {
        31
    } else if m == 9 {
        30
    } else if m == 10 {
        31
    } else if m == 11 {
        30
    } else {
        31
    }
}

/// The date names an existing day of its month.
pub open spec fn valid_date(d: Date) -> bool {
    1 <= d.month <= 12 && 1 <= d.day <= days_in_month(d.year as int, d.month as int)
}

/// Days from 1970-01-01 to the first day of year `y`.
pub open spec fn days_before_year(y: int) -> int
    decreases y,
{
    if y <= 1970 {
        0
    } else {
        days_before_year(y - 1) + days_in_year(y - 1)
    }
}

/// Days from the first of year `y` to the first day of its month `m`.
pub open spec fn days_before_month(y: int, m: int) -> int
    decreases m,
{
    if m <= 1 {
        0
    } else {
        days_before_month(y, m - 1) + days_in_month(y, m - 1)
    }
}

/// Days from 1970-01-01 to the date `d`.
pub open spec fn days_from_civil(d: Date) -> int {
    days_before_year(d.year as int) + days_before_month(d.year as int, d.month as int) + d.day - 1
}

proof fn lemma_days_before_year_lower(y: int)
    requires
        y >= 1970,
    ensures
        days_before_year(y) >= 365 * (y - 1970),
    decreases y,
{
    if y > 1970 {
        lemma_days_before_year_lower(y - 1);
    }
}

proof fn lemma_year_days(y: int)
    ensures
        days_before_month(y, 13) == days_in_year(y),
{
    reveal_with_fuel(days_before_month, 14);
}

fn days_in_year_exec(y: u64) -> (r: u64)
    ensures
        r == days_in_year(y as int),
{
    if y % 4 == 0 && (y % 100 != 0 || y % 400 == 0) {
        366
    } else {
        365
    }
}

fn days_in_month_exec(y: u64, m: u64) -> (r: u64)
    requires
        1 <= m <= 12,
    ensures
        r == days_in_month(y as int, m as int),
{
    if m == 1 {
        31
    } else if m == 2 {
        if y % 4 == 0 && (y % 100 != 0 || y % 400 == 0) {
            29
        } else {
            28
        }
    } else if m == 3 {
        31
    } else if m == 4 {
        30
    } else if m == 5 {
        31
    } else if m == 6 {
        30
    } else if m == 7 {
        31
    } else if m == 8 {
        31
    } else if m == 9 {
        30
    } else if m == 10 {
        31
    } else if m == 11 {
        30
    } else {
        31
    }
}

/// The calendar date holding the timestamp `ts` (seconds since the epoch),
/// that is, the unique valid date whose day count from 1970-01-01 equals
/// `ts` divided by the seconds of one day.
pub fn date_of_timestamp(ts: u64) -> (d: Date)
    requires
        ts <= MAX_TIMESTAMP,
    ensures
        valid_date(d),
        days_from_civil(d) == ts as int / 86400,
{
    let total: u64 = ts / 86400;
    let mut days: u64 = total;
    let mut y: u64 = 1970;
    while days >= days_in_year_exec(y)
        invariant
            1970 <= y,
            total <= MAX_TIMESTAMP / 86400,
            days_before_year(y as int) + days == total,
            days <= total,
        decreases days,
    {
        proof {
            lemma_days_before_year_lower(y as int + 1);
        }
        days = days - days_in_year_exec(y);
        y = y + 1;
    }
    proof {
        lemma_days_before_year_lower(y as int);
        lemma_year_days(y as int);
    }
    assert(y - 1970 <= 63420);
    let ghost within_year = days as int;
    let mut m: u64 = 1;
    while days >= days_in_month_exec(y, m)
        invariant
            1 <= m <= 12,
            1970 <= y <= 65535,
            days_before_month(y as int, m as int) + days == within_year,
            within_year < days_in_year(y as int),
            days_before_month(y as int, 13) == days_in_year(y as int),
        decreases 12 - m,
    {
        if m == 12 {
            proof {
                lemma_year_days(y as int);
                assert(days_before_month(y as int, 13) == days_before_month(y as int, 12)
                    + days_in_month(y as int, 12));
                assert(false);
            }
        }
        days = days - days_in_month_exec(y, m);
        m = m + 1;
    }
    proof {
        assert(days_before_month(y as int, m as int + 1) == days_before_month(y as int, m as int)
            + days_in_month(y as int, m as int));
    }
    assert(days < days_in_month(y as int, m as int));
    Date { year: y as u16, month: m as u8, day: (days + 1) as u8 }
}

/// `a` is on or before `b` in calendar order.
pub open spec fn date_le(a: Date, b: Date) -> bool {
    a.year < b.year || (a.year == b.year && (a.month < b.month || (a.month == b.month && a.day
        <= b.day)))
}

/// Executable calendar comparison, matching `date_le`.
pub fn date_le_exec(a: &Date, b: &Date) -> (r: bool)
    ensures
        r == date_le(*a, *b),
{
    a.year < b.year || (a.year == b.year && (a.month < b.month || (a.month == b.month && a.day
        <= b.day)))
}

/// The decimal digit character for `n`.
pub open spec fn digit(n: int) -> char {
    if n == 0 {
        '0'
    } else if n == 1 {
        '1'
    } else if n == 2 {
        '2'
    } else if n == 3 {
        '3'
    } else if n == 4 {
        '4'
    } else if n == 5 {
        '5'
    } else if n == 6 {
        '6'
    } else if n == 7 {
        '7'
    } else if n == 8 {
        '8'
    } else {
        '9'
    }
}

fn digit_exec(n: u64) -> (c: char)
    requires
        n <= 9,
    ensures
        c == digit(n as int),
{
    if n == 0 {
        '0'
    } else if n == 1 {
        '1'
    } else if n == 2 {
        '2'
    } else if n == 3 {
        '3'
    } else if n == 4 {
        '4'
    } else if n == 5 {
        '5'
    } else if n == 6 {
        '6'
    } else if n == 7 {
        '7'
    } else if n == 8 {
        '8'
    } else {
        '9'
    }
}

/// The English month name, for months 1 through 12.
pub open spec fn month_name(m: int) -> Seq<char> {
    if m == 1 {
        "January"@
    } else if m == 2 {
        "February"@
    } else if m == 3 {
        "March"@
    } else if m == 4 {
        "April"@
    } else if m == 5 {
        "May"@
    } else if m == 6 {
        "June"@
    } else if m == 7 {
        "July"@
    } else if m == 8 {
        "August"@
    } else if m == 9 {
        "September"@
    } else if m == 10 {
        "October"@
    } else if m == 11 {
        "November"@
    } else {
        "December"@
    }
}

/// The day zero-padded to two digits.
pub open spec fn two_digits(n: int) -> Seq<char> {
    seq![digit(n / 10), digit(n % 10)]
}

/// The year zero-padded to four digits; five digits when it does not fit in
/// four.
pub open spec fn year_digits(y: int) -> Seq<char> {
    if y <= 9999 {
        seq![digit(y / 1000), digit((y / 100) % 10), digit((y / 10) % 10), digit(y % 10)]
    } else {
        seq![
            digit(y / 10000),
            digit((y / 1000) % 10),
            digit((y / 100) % 10),
            digit((y / 10) % 10),
            digit(y % 10),
        ]
    }
}

/// The display form of a date: padded day, full English month name, padded
/// year, separated by single spaces.
pub open spec fn format_date_spec(d: Date) -> Seq<char> {
    two_digits(d.day as int) + seq![' '] + month_name(d.month as int) + seq![' '] + year_digits(
        d.year as int,
    )
}

/// Formats a date for index listings, matching `format_date_spec`.
pub fn format_date(d: &Date) -> (r: String)
    requires
        valid_date(*d),
    ensures
        r@ == format_date_spec(*d),
{
    let mut v: Vec<char> = Vec::new();
    let day: u64 = d.day as u64;
    v.push(digit_exec(day / 10));
    v.push(digit_exec(day % 10));
    v.push(' ');
    let mut name = crate::text::str_to_chars(month_name_exec(d.month));
    v.append(&mut name);
    v.push(' ');
    let y: u64 = d.year as u64;
    if y <= 9999 {
        v.push(digit_exec(y / 1000));
        v.push(digit_exec((y / 100) % 10));
        v.push(digit_exec((y / 10) % 10));
        v.push(digit_exec(y % 10));
    } else {
        v.push(digit_exec(y / 10000));
        v.push(digit_exec((y / 1000) % 10));
        v.push(digit_exec((y / 100) % 10));
        v.push(digit_exec((y / 10) % 10));
        v.push(digit_exec(y % 10));
    }
    assert(v@ =~= format_date_spec(*d));
    crate::text::chars_to_string(&v)
}

fn month_name_exec(m: u8) -> (r: &'static str)
    requires
        1 <= m <= 12,
    ensures
        r@ == month_name(m as int),
{
    if m == 1 {
        "January"
    } else if m == 2 {
        "February"
    } else if m == 3 {
        "March"
    } else if m == 4 {
        "April"
    } else if m == 5 {
        "May"
    } else if m == 6 {
        "June"
    } else if m == 7 {
        "July"
    } else if m == 8 {
        "August"
    } else if m == 9 {
        "September"
    } else if m == 10 {
        "October"
    } else if m == 11 {
        "November"
    } else {
        "December"
    }
}

} // verus!
