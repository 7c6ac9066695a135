use chrono::{Datelike, NaiveDate};
use std::fmt::Write;
use crate::format::{decimal, padded2};
use crate::model::DateRange;
use crate::time::{local_at, local_at_result};
use vstd::prelude::*;

verus! {

/// First year that the date library represents.
pub const MIN_YEAR: i32 = -262143;

/// Last year that the date library represents.
pub const MAX_YEAR: i32 = 262142;

/// Day number of `MIN_YEAR`-01-01.
pub const MIN_DAY: i32 = -95746129;

/// Day number of `MAX_YEAR`-12-31.
pub const MAX_DAY: i32 = 95745399;

/// Leap years of the proleptic Gregorian calendar.
pub open spec fn is_leap_year(y: int) -> bool {
    (y % 4 == 0 && y % 100 != 0) || y % 400 == 0
}

/// Number of days in month `m` (1-based) of year `y`.
pub open spec fn days_in_month(y: int, m: int) -> int {
    if m == 2 {
        if is_leap_year(y) {
            29
        } else {
            28
        }
    } else if m == 4 || m == 6 || m == 9 || m == 11 {
        30
    } else {
        31
    }
}

/// Days of year `y` that precede the first day of month `m`.
pub open spec fn days_before_month(y: int, m: int) -> int {
    let base: int = if m <= 1 {
        0
    } else if m == 2 {
        31
    } else if m == 3 {
        59
    } else if m == 4 {
        90
    } else if m == 5 {
        120
    } else if m == 6 {
        151
    } else if m == 7 {
        181
    } else if m == 8 {
        212
    } else if m == 9 {
        243
    } else if m == 10 {
        273
    } else if m == 11 {
        304
    } else {
        334
    };
    if m > 2 && is_leap_year(y) {
        base + 1
    } else {
        base
    }
}

/// Days between 0001-01-01 and the first day of year `y`, counting leap days.
pub open spec fn days_before_year(y: int) -> int {
    365 * (y - 1) + (y - 1) / 4 - (y - 1) / 100 + (y - 1) / 400
}

/// The day number of a calendar date: 0001-01-01 is day 1, the day before it day 0.
pub open spec fn day_number(y: int, m: int, d: int) -> int {
    days_before_year(y) + days_before_month(y, m) + d
}

/// A date of the supported range with an existing month and day.
pub open spec fn valid_ymd(y: int, m: int, d: int) -> bool {
    &&& MIN_YEAR <= y <= MAX_YEAR
    &&& 1 <= m <= 12
    &&& 1 <= d <= days_in_month(y, m)
}

/// The calendar date (year, month, day) of a day number.
pub open spec fn ymd_of(n: int) -> (int, int, int) {
    choose|y: int, m: int, d: int| valid_ymd(y, m, d) && day_number(y, m, d) == n
}

/// Day of the week counted from Monday (0) to Sunday (6); day 1 was a Monday.
pub open spec fn weekday_from_monday(n: int) -> int {
    (n - 1) % 7
}

/// Day of the week counted from Sunday (0) to Saturday (6).
pub open spec fn weekday_from_sunday(n: int) -> int {
    n % 7
}

/// A calendar date, held as its day number.
#[derive(Clone, Copy, Debug, PartialEq, Eq, Structural)]
pub struct Day {
    pub n: i32,
}

impl Day {
    /// The day lies in the supported range.
    pub open spec fn wf(self) -> bool {
        MIN_DAY <= self.n <= MAX_DAY
    }

    pub open spec fn year(self) -> int {
        ymd_of(self.n as int).0
    }

    pub open spec fn month(self) -> int {
        ymd_of(self.n as int).1
    }

    /// Makes the date `y`-`m`-`d`, if it exists.
    pub fn from_ymd(y: i32, m: u32, d: u32) -> (r: Option<Day>)
        ensures
            r is Some <==> valid_ymd(y as int, m as int, d as int),
            r matches Some(day) ==> day.wf() && day.n == day_number(y as int, m as int, d as int),
    {
        chrono_from_ymd(y, m, d)
    }

    /// Year, month and day of the date.
    pub fn ymd(self) -> (r: (i32, u32, u32))
        requires
            self.wf(),
        ensures
            valid_ymd(r.0 as int, r.1 as int, r.2 as int),
            day_number(r.0 as int, r.1 as int, r.2 as int) == self.n,
            (r.0 as int, r.1 as int, r.2 as int) == ymd_of(self.n as int),
    {
        chrono_ymd(self)
    }

    /// Day of the week, Monday being 0.
    pub fn weekday_from_monday(self) -> (r: u32)
        requires
            self.wf(),
        ensures
            r == weekday_from_monday(self.n as int),
            r < 7,
    {
        chrono_weekday(self)
    }

    /// Day of the week, Sunday being 0.
    pub fn weekday_from_sunday(self) -> (r: u32)
        requires
            self.wf(),
        ensures
            r == weekday_from_sunday(self.n as int),
            r < 7,
    {
        let w = chrono_weekday(self);
        if w == 6 {
            0
        } else {
            w + 1
        }
    }

    /// The date `k` days later (earlier for negative `k`), if it is in range.
    pub fn add_days(self, k: i64) -> (r: Option<Day>)
        ensures
            r is Some <==> (MIN_DAY <= self.n + k <= MAX_DAY),
            r matches Some(day) ==> day.wf() && day.n == self.n + k,
    {
        if k < MIN_DAY as i64 - self.n as i64 || k > MAX_DAY as i64 - self.n as i64 {
            None
        } else {
            Some(Day { n: (self.n as i64 + k) as i32 })
        }
    }

    /// Whether the date falls on a Saturday or a Sunday.
    pub fn is_weekend(self) -> (r: bool)
        requires
            self.wf(),
        ensures
            r == (weekday_from_monday(self.n as int) >= 5),
    {
        self.weekday_from_monday() >= 5
    }
}

/// `NaiveDate::from_ymd_opt` followed by `num_days_from_ce`: chrono makes a date exactly when
/// the month and day exist in its year range, and numbers days from 0001-01-01 (day 1) in the
/// proleptic Gregorian calendar.
#[verifier::external_body]
fn chrono_from_ymd(y: i32, m: u32, d: u32) -> (r: Option<Day>)
    ensures
        r is Some <==> valid_ymd(y as int, m as int, d as int),
        r matches Some(day) ==> day.wf() && day.n == day_number(y as int, m as int, d as int),
{
    match NaiveDate::from_ymd_opt(y, m, d) {
        Some(date) => Some(Day { n: date.num_days_from_ce() }),
        None => None,
    }
}

/// `NaiveDate::from_num_days_from_ce_opt` followed by `year`, `month` and `day`: the calendar
/// date whose day number is the given one.
#[verifier::external_body]
fn chrono_ymd(day: Day) -> (r: (i32, u32, u32))
    requires
        day.wf(),
    ensures
        valid_ymd(r.0 as int, r.1 as int, r.2 as int),
        day_number(r.0 as int, r.1 as int, r.2 as int) == day.n,
        (r.0 as int, r.1 as int, r.2 as int) == ymd_of(day.n as int),
{
    let date = NaiveDate::from_num_days_from_ce_opt(day.n).unwrap();
    (date.year(), date.month(), date.day())
}

/// `Datelike::weekday` followed by `num_days_from_monday`: day 1 (0001-01-01) was a Monday.
#[verifier::external_body]
fn chrono_weekday(day: Day) -> (r: u32)
    requires
        day.wf(),
    ensures
        r == weekday_from_monday(day.n as int),
{
    NaiveDate::from_num_days_from_ce_opt(day.n).unwrap().weekday().num_days_from_monday()
}

/// `n` in at least four digits, zero-padded.
pub open spec fn padded4(n: nat) -> Seq<char> {
    if n < 10 {
        "000"@ + decimal(n)
    } else if n < 100 {
        "00"@ + decimal(n)
    } else if n < 1000 {
        "0"@ + decimal(n)
    } else {
        decimal(n)
    }
}

/// A year as chrono's `%Y` writes it: four digits, zero-padded, from 0 to 9999; outside that
/// range with a sign in front (and at least four digits after a minus).
pub open spec fn year_text(y: int) -> Seq<char> {
    if 0 <= y <= 9999 {
        padded4(y as nat)
    } else if y < 0 {
        "-"@ + padded4((-y) as nat)
    } else {
        "+"@ + decimal(y as nat)
    }
}

/// The text that chrono writes for the date of day `n` with the format `%Y-%m-%d`: the year,
/// then the month and the day in two digits, joined by hyphens.
pub open spec fn iso_date_text(n: int) -> Seq<char> {
    let (y, m, d) = ymd_of(n);
    year_text(y) + "-"@ + padded2(m as nat) + "-"@ + padded2(d as nat)
}

/// `NaiveDate::format("%Y-%m-%d")` of the date: a function of the date alone. chrono writes
/// the year with a sign outside 0 to 9999 and its `%Y` parser reads such a sign, so
/// `parse_from_str` with the same format reads the text back as the same date.
#[verifier::external_body]
pub(crate) fn format_iso_date(day: Day) -> (r: String)
    requires
        day.wf(),
    ensures
        r@ == iso_date_text(day.n as int),
        parse_iso_date_text(r@) == Some(day.n as int),
{
    NaiveDate::from_num_days_from_ce_opt(day.n).unwrap().format("%Y-%m-%d").to_string()
}

/// The name for the ISO 8601 week number of day `n` (the week that holds its Thursday).
pub uninterp spec fn iso_week_of(n: int) -> int;

/// `NaiveDate::iso_week().week()`: the ISO week number of the date, from 1 to 53, a function
/// of the date alone.
#[verifier::external_body]
pub(crate) fn iso_week_number(day: Day) -> (r: u32)
    requires
        day.wf(),
    ensures
        r == iso_week_of(day.n as int),
        1 <= r <= 53,
{
    NaiveDate::from_num_days_from_ce_opt(day.n).unwrap().iso_week().week()
}

/// The name for the text chrono writes for the date of day `n` with the strftime format
/// `fmt`, or `None` where the format asks for what a date lacks or does not parse.
pub uninterp spec fn date_format_text(n: int, fmt: Seq<char>) -> Option<Seq<char>>;

/// `write!` of `NaiveDate::format(fmt)` into a text: what chrono writes for the date with the
/// format, `None` where the formatting reports an error. A function of the date and the format.
#[verifier::external_body]
pub(crate) fn format_date_with(day: Day, fmt: &str) -> (r: Option<String>)
    requires
        day.wf(),
    ensures
        match r {
            Some(t) => date_format_text(day.n as int, fmt@) == Some(t@),
            None => date_format_text(day.n as int, fmt@) is None,
        },
{
    let mut text = String::new();
    match write!(text, "{}", NaiveDate::from_num_days_from_ce_opt(day.n).unwrap().format(fmt)) {
        Ok(()) => Some(text),
        Err(_) => None,
    }
}

/// The name for the day number of the date that chrono reads from a text with the format
/// `%Y-%m-%d`, if it reads one.
pub uninterp spec fn parse_iso_date_text(s: Seq<char>) -> Option<int>;

/// `NaiveDate::parse_from_str(s, "%Y-%m-%d")` as a day number: a function of the text; a date
/// chrono makes lies in its range.
#[verifier::external_body]
pub(crate) fn parse_iso_date(s: &str) -> (r: Option<Day>)
    ensures
        match r {
            Some(d) => parse_iso_date_text(s@) == Some(d.n as int) && d.wf(),
            None => parse_iso_date_text(s@) is None,
        },
{
    match NaiveDate::parse_from_str(s, "%Y-%m-%d") {
        Ok(date) => Some(Day { n: date.num_days_from_ce() }),
        Err(_) => None,
    }
}

/// Number of days in month `month` of `year`.
#[verifier::spinoff_prover]
pub fn last_day_of_month(year: i32, month: u32) -> (r: u32)
    requires
        1 <= month <= 12,
    ensures
        r == days_in_month(year as int, month as int),
{
    if month == 2 {
        if (year % 4 == 0 && year % 100 != 0) || year % 400 == 0 {
            29
        } else {
            28
        }
    } else if month == 4 || month == 6 || month == 9 || month == 11 {
        30
    } else {
        31
    }
}

/// The Monday that begins the week of `date`.
pub fn week_start(date: Day) -> (r: Day)
    requires
        date.wf(),
        date.n - weekday_from_monday(date.n as int) >= MIN_DAY,
    ensures
        r.wf(),
        r.n == date.n - weekday_from_monday(date.n as int),
        weekday_from_monday(r.n as int) == 0,
{
    let w = date.weekday_from_monday();
    Day { n: date.n - w as i32 }
}

/// The day after a day is the next day of the week.
pub proof fn lemma_weekday_next(n: int)
    ensures
        weekday_from_monday(n + 1) == (weekday_from_monday(n) + 1) % 7,
        weekday_from_monday(n - 1) == (weekday_from_monday(n) + 6) % 7,
        0 <= weekday_from_monday(n) < 7,
{
}

/// The first supported day is a Thursday.
pub proof fn lemma_first_day_is_thursday()
    ensures
        weekday_from_monday(MIN_DAY as int) == 3,
{
}

/// The Monday that begins the six-week grid of the month of `date`: the week start of the
/// month's first day.
pub fn month_grid_start(date: Day) -> (r: Day)
    requires
        date.wf(),
        ({
            let first = date.n - (ymd_of(date.n as int).2 - 1);
            first - weekday_from_monday(first) >= MIN_DAY
        }),
    ensures
        r.wf(),
        ({
            let first = date.n - (ymd_of(date.n as int).2 - 1);
            r.n == first - weekday_from_monday(first)
        }),
        weekday_from_monday(r.n as int) == 0,
{
    let (_, _, d) = date.ymd();
    let first = Day { n: date.n - (d as i32 - 1) };
    week_start(first)
}

/// The week of `date`, Monday to Monday, as a range of local midnights; `None` when a day is
/// out of range or a midnight does not exist in the local time zone.
pub fn range_for_week(date: Day) -> (r: Option<DateRange>)
    requires
        date.wf(),
    ensures
        ({
            let s = date.n - weekday_from_monday(date.n as int);
            &&& (s < MIN_DAY || s + 7 > MAX_DAY) ==> r is None
            &&& r matches Some(range) ==> local_at_result(range.from, Day { n: s as i32 }, 0, 0)
                && local_at_result(range.to, Day { n: (s + 7) as i32 }, 0, 0)
        }),
{
    let w = date.weekday_from_monday() as i32;
    if date.n - w < MIN_DAY || date.n - w > MAX_DAY - 7 {
        return None;
    }
    let s = week_start(date);
    match (local_at(s, 0, 0), local_at(Day { n: s.n + 7 }, 0, 0)) {
        (Some(from), Some(to)) => Some(DateRange::new(from, to)),
        _ => None,
    }
}

/// The six weeks of the month grid of `date` as a range of local midnights; `None` when a
/// day is out of range or a midnight does not exist in the local time zone.
pub fn range_for_month(date: Day) -> (r: Option<DateRange>)
    requires
        date.wf(),
    ensures
        ({
            let first = date.n - (ymd_of(date.n as int).2 - 1);
            let s = first - weekday_from_monday(first);
            &&& (s < MIN_DAY || s + 42 > MAX_DAY) ==> r is None
            &&& r matches Some(range) ==> local_at_result(range.from, Day { n: s as i32 }, 0, 0)
                && local_at_result(range.to, Day { n: (s + 42) as i32 }, 0, 0)
        }),
{
    let (_, _, d) = date.ymd();
    let first = date.n - (d as i32 - 1);
    if first < MIN_DAY {
        return None;
    }
    let w = Day { n: first }.weekday_from_monday() as i32;
    if first - w < MIN_DAY || first - w > MAX_DAY - 42 {
        return None;
    }
    let s = month_grid_start(date);
    match (local_at(s, 0, 0), local_at(Day { n: s.n + 42 }, 0, 0)) {
        (Some(from), Some(to)) => Some(DateRange::new(from, to)),
        _ => None,
    }
}

} // verus!
