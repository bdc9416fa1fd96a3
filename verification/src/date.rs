//! The calendar date of a day, and how a signature writes it.

use vstd::prelude::*;

#[allow(unused_imports)]
use crate::text::{decimal, digit};

verus! {

/// A year with a 29th of February, in the Gregorian calendar.
pub open spec fn is_leap(year: int) -> bool {
    (year % 4 == 0 && year % 100 != 0) || year % 400 == 0
}

/// How many days lie between the beginnings of the year 0 and of `year`.
pub open spec fn days_to_year(year: int) -> int {
    365 * year + (year + 3) / 4 - (year + 99) / 100 + (year + 399) / 400
}

/// How many days a month has.
pub open spec fn month_length(year: int, month: int) -> int {
    if month == 2 {
        if is_leap(year) {
            29
        } else {
            28
        }
    } else if month == 4 || month == 6 || month == 9 || month == 11 {
        30
    } else {
        31
    }
}

/// How many days of a year lie before a month.
pub open spec fn days_to_month(year: int, month: int) -> int
    decreases month,
{
    if month <= 1 {
        0
    } else {
        days_to_month(year, month - 1) + month_length(year, month - 1)
    }
}

/// The day with a number of days since 1 January 1970 has this date.
pub open spec fn is_date(day: int, year: int, month: int, date: int) -> bool {
    &&& 1 <= month <= 12
    &&& 1 <= date <= month_length(year, month)
    &&& day + days_to_year(1970) == days_to_year(year) + days_to_month(year, month) + date - 1
}

/// The day has a date.
pub open spec fn has_date(day: int) -> bool {
    exists|year: int, month: int, date: int| is_date(day, year, month, date)
}

/// A number with zeros before it up to a width.
pub open spec fn padded(n: nat, width: nat) -> Seq<char> {
    let text = decimal(n);
    if text.len() < width {
        Seq::new((width - text.len()) as nat, |i: int| '0') + text
    } else {
        text
    }
}

/// A year in four places, the sign of one before the year 0 among them.
pub open spec fn year_text(year: int) -> Seq<char> {
    if year >= 0 {
        padded(year as nat, 4)
    } else {
        "-"@ + padded((-year) as nat, 3)
    }
}

/// Two decimal digits.
pub open spec fn two_digits(n: int) -> Seq<char> {
    seq![digit((n / 10) as nat), digit((n % 10) as nat)]
}

/// A date as a signature carries it: the year, the month and the day of the month.
pub open spec fn date_text(year: int, month: int, date: int) -> Seq<char> {
    year_text(year) + two_digits(month) + two_digits(date)
}

/// The date of a day as a signature carries it.
pub open spec fn utc_date(day: int) -> Seq<char> {
    let (year, month, date) = choose|year: int, month: int, date: int|
        is_date(day, year, month, date);
    date_text(year, month, date)
}

/// A time in UTC as a signature carries it: the date, and after a `T` the hour,
/// the minute and the second.
pub open spec fn utc_time(unix_seconds: int) -> Seq<char> {
    let second = unix_seconds % 86_400;
    utc_date(unix_seconds / 86_400) + "T"@ + two_digits(second / 3600) + two_digits(
        second / 60 % 60,
    ) + two_digits(second % 60) + "Z"@
}

proof fn lemma_year_length(year: int)
    ensures
        days_to_year(year + 1) == days_to_year(year) + if is_leap(year) {
            366int
        } else {
            365int
        },
{
    assert((year + 4) / 4 - (year + 3) / 4 == if year % 4 == 0 { 1int } else { 0int });
    assert((year + 100) / 100 - (year + 99) / 100 == if year % 100 == 0 { 1int } else { 0int });
    assert((year + 400) / 400 - (year + 399) / 400 == if year % 400 == 0 { 1int } else { 0int });
}

proof fn lemma_months(year: int)
    ensures
        days_to_month(year, 1) == 0,
        forall|month: int|
            #![trigger days_to_month(year, month)]
            1 <= month <= 12 ==> days_to_month(year, month) >= 0 && days_to_month(year, month)
                + month_length(year, month) <= if is_leap(year) {
                366int
            } else {
                365int
            },
        days_to_month(year, 12) + 31 == if is_leap(year) {
            366int
        } else {
            365int
        },
{
    reveal_with_fuel(days_to_month, 13);
}

proof fn lemma_months_grow(year: int, a: int, b: int)
    requires
        1 <= a < b <= 12,
    ensures
        days_to_month(year, a) + month_length(year, a) <= days_to_month(year, b),
    decreases b - a,
{
    if a + 1 < b {
        lemma_months_grow(year, a, b - 1);
    }
}

proof fn lemma_years_grow(a: int, b: int)
    requires
        a < b,
    ensures
        days_to_year(a + 1) <= days_to_year(b),
    decreases b - a,
{
    if a + 1 < b {
        lemma_years_grow(a, b - 1);
        lemma_year_length(b - 1);
    }
}

proof fn lemma_in_year(day: int, year: int, month: int, date: int)
    requires
        is_date(day, year, month, date),
    ensures
        days_to_year(year) <= day + days_to_year(1970) < days_to_year(year + 1),
{
    lemma_months(year);
    lemma_year_length(year);
}

/// No day has two dates.
pub proof fn law_date_unique(
    day: int,
    year: int,
    month: int,
    date: int,
    other_year: int,
    other_month: int,
    other_date: int,
)
    requires
        is_date(day, year, month, date),
        is_date(day, other_year, other_month, other_date),
    ensures
        year == other_year,
        month == other_month,
        date == other_date,
{
    lemma_in_year(day, year, month, date);
    lemma_in_year(day, other_year, other_month, other_date);
    if year < other_year {
        lemma_years_grow(year, other_year);
    }
    if other_year < year {
        lemma_years_grow(other_year, year);
    }
    if month < other_month {
        lemma_months_grow(year, month, other_month);
    }
    if other_month < month {
        lemma_months_grow(year, other_month, month);
    }
}

proof fn lemma_next_day(day: int)
    requires
        has_date(day),
    ensures
        has_date(day + 1),
{
    let (year, month, date) = choose|year: int, month: int, date: int|
        is_date(day, year, month, date);
    lemma_months(year);
    lemma_months(year + 1);
    lemma_year_length(year);
    if date < month_length(year, month) {
        assert(is_date(day + 1, year, month, date + 1));
    } else if month < 12 {
        assert(is_date(day + 1, year, month + 1, 1));
    } else {
        assert(is_date(day + 1, year + 1, 1, 1));
    }
}

proof fn lemma_day_before(day: int)
    requires
        has_date(day),
    ensures
        has_date(day - 1),
{
    let (year, month, date) = choose|year: int, month: int, date: int|
        is_date(day, year, month, date);
    lemma_months(year);
    lemma_months(year - 1);
    lemma_year_length(year - 1);
    if date > 1 {
        assert(is_date(day - 1, year, month, date - 1));
    } else if month > 1 {
        assert(is_date(day - 1, year, month - 1, month_length(year, month - 1)));
    } else {
        assert(is_date(day - 1, year - 1, 12, 31));
    }
}

/// Every day has a date.
pub proof fn law_every_day_has_a_date(day: int)
    ensures
        has_date(day),
    decreases if day >= 0 { day } else { -day },
{
    if day > 0 {
        law_every_day_has_a_date(day - 1);
        lemma_next_day(day - 1);
    } else if day < 0 {
        law_every_day_has_a_date(day + 1);
        lemma_day_before(day + 1);
    } else {
        assert(is_date(0, 1970, 1, 1));
    }
}

/// What a signature carries for a day is the day's date.
pub proof fn law_utc_date(day: int, year: int, month: int, date: int)
    requires
        is_date(day, year, month, date),
    ensures
        utc_date(day) == date_text(year, month, date),
{
    let (y, m, d) = choose|y: int, m: int, d: int| is_date(day, y, m, d);
    law_date_unique(day, year, month, date, y, m, d);
}

} // verus!
