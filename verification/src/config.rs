use crate::event_details::{digit_value, digits_value, parse_unsigned};
use crate::text::{chars_of, find_char, index_of, lemma_index_of, slice, to_string};
use chrono::format::{Item, StrftimeItems};
use chrono::{NaiveTime, Timelike};
use vstd::prelude::*;

verus! {

/// Colours of the interface, by name.
#[derive(Debug)]
pub struct ThemeConfig {
    pub today: String,
    pub selected: String,
    pub muted: String,
    pub border: String,
}

impl Default for ThemeConfig {
    fn default() -> (r: Self)
        ensures
            r.today@ == "cyan"@,
            r.selected@ == "blue"@,
            r.muted@ == "dark_gray"@,
            r.border@ == "dark_gray"@,
    {
        ThemeConfig {
            today: String::from_str("cyan"),
            selected: String::from_str("blue"),
            muted: String::from_str("dark_gray"),
            border: String::from_str("dark_gray"),
        }
    }
}

impl Clone for ThemeConfig {
    fn clone(&self) -> (r: Self)
        ensures
            r == *self,
    {
        ThemeConfig {
            today: self.today.clone(),
            selected: self.selected.clone(),
            muted: self.muted.clone(),
            border: self.border.clone(),
        }
    }
}

/// The user's configuration.
#[derive(Debug)]
pub struct Config {
    pub default_view: String,
    pub week_starts_on: String,
    pub time_format: String,
    pub date_format: String,
    pub day_start: String,
    pub day_end: String,
    pub default_event_duration_minutes: i64,
    pub default_event_start: String,
    pub show_weekends: bool,
    pub show_current_time: bool,
    pub hidden_calendars: Vec<String>,
    pub theme: ThemeConfig,
}

impl Default for Config {
    fn default() -> (r: Self)
        ensures
            r.default_view@ == "week"@,
            r.week_starts_on@ == "monday"@,
            r.time_format@ == "24h"@,
            r.date_format@ == "%d %b"@,
            r.day_start@ == "08:00"@,
            r.day_end@ == "20:00"@,
            r.default_event_duration_minutes == 60,
            r.default_event_start@ == "09:00"@,
            r.show_weekends,
            r.show_current_time,
            r.hidden_calendars@.len() == 0,
            r.theme.today@ == "cyan"@,
            r.theme.selected@ == "blue"@,
            r.theme.muted@ == "dark_gray"@,
            r.theme.border@ == "dark_gray"@,
    {
        Config {
            default_view: String::from_str("week"),
            week_starts_on: String::from_str("monday"),
            time_format: String::from_str("24h"),
            date_format: String::from_str("%d %b"),
            day_start: String::from_str("08:00"),
            day_end: String::from_str("20:00"),
            default_event_duration_minutes: 60,
            default_event_start: String::from_str("09:00"),
            show_weekends: true,
            show_current_time: true,
            hidden_calendars: Vec::new(),
            theme: ThemeConfig::default(),
        }
    }
}

/// What `u16::from_str` accepts: an optional `+` and decimal digits with a value up to 65535.
pub open spec fn parse_u16(s: Seq<char>) -> Option<u16> {
    match parse_unsigned(s, 10) {
        Some(v) => if v <= 65535 {
            Some(v as u16)
        } else {
            None
        },
        None => None,
    }
}

/// The text of `s` up to its first `:` (all of it when there is none).
pub open spec fn first_field(s: Seq<char>) -> Seq<char> {
    let i = index_of(s, ':');
    if i < 0 {
        s
    } else {
        s.take(i)
    }
}

/// Minutes since midnight written as `H:M` (decimal hour and minute, any further `:` fields
/// ignored), with `24:00` for the end of the day; `fallback` for anything else.
pub open spec fn clock_minutes(s: Seq<char>, fallback: int) -> int {
    let i = index_of(s, ':');
    let hour = parse_u16(first_field(s));
    let minute = if i < 0 {
        None
    } else {
        parse_u16(first_field(s.skip(i + 1)))
    };
    if hour == Some(24u16) && minute == Some(0u16) {
        1440
    } else if hour is Some && minute is Some && hour->0 < 24 && minute->0 < 60 {
        hour->0 * 60 + minute->0
    } else {
        fallback
    }
}

/// The visible hours `(start, end)` in minutes since midnight: the configured ones when both
/// parse and span at least an hour, else 08:00 to 20:00.
pub open spec fn day_minutes_spec(day_start: Seq<char>, day_end: Seq<char>) -> (int, int) {
    let start = clock_minutes(day_start, 480);
    let end = clock_minutes(day_end, 1200);
    if end >= start + 60 {
        (start, end)
    } else {
        (480, 1200)
    }
}

/// The decimal number written in `v[lo..hi]`, if it is one that `u16::from_str` accepts.
fn parse_u16_exec(v: &Vec<char>, lo: usize, hi: usize) -> (r: Option<u16>)
    requires
        lo <= hi <= v.len(),
    ensures
        r == parse_u16(v@.subrange(lo as int, hi as int)),
{
    let part = slice(v, lo, hi);
    assert(part@.skip(0) =~= part@);
    match crate::event_details::parse_unsigned_exec(&part, 0, 10) {
        Some(x) => if x <= 65535 {
            Some(x as u16)
        } else {
            None
        },
        None => None,
    }
}

/// Minutes since midnight written as `H:M`, or `fallback`.
fn clock_minutes_exec(value: &String, fallback: u16) -> (r: u16)
    requires
        fallback <= 1440,
    ensures
        r == clock_minutes(value@, fallback as int),
        r <= 1440,
{
    let v = chars_of(value.as_str());
    let (hour, minute) = match find_char(&v, 0, v.len(), ':') {
        None => {
            assert(v@.subrange(0, v.len() as int) =~= v@);
            (parse_u16_exec(&v, 0, v.len()), None)
        },
        Some(i) => {
            assert(v@.subrange(0, v.len() as int) =~= v@);
            assert(v@.take(i as int) =~= v@.subrange(0, i as int));
            let h = parse_u16_exec(&v, 0, i);
            let ghost rest = v@.skip(i + 1);
            assert(rest =~= v@.subrange(i + 1, v.len() as int));
            let m = match find_char(&v, i + 1, v.len(), ':') {
                None => parse_u16_exec(&v, i + 1, v.len()),
                Some(j) => {
                    assert(rest.take(j - i - 1) =~= v@.subrange(i + 1, j as int));
                    parse_u16_exec(&v, i + 1, j)
                },
            };
            (h, m)
        },
    };
    match (hour, minute) {
        (Some(24), Some(0)) => 1440,
        (Some(h), Some(m)) => if h < 24 && m < 60 {
            h * 60 + m
        } else {
            fallback
        },
        _ => fallback,
    }
}

/// The name for `NaiveTime::parse_from_str(s, "%H:%M")`: the hour and minute of the time that
/// chrono reads from the text, if it reads one.
pub uninterp spec fn parse_hh_mm(s: Seq<char>) -> Option<(u32, u32)>;

/// `NaiveTime::parse_from_str` with the format `%H:%M`, as hour and minute. The result is a
/// function of the text; what chrono's parser accepts is not restated here. A time's hour is
/// below 24 and its minute below 60.
#[verifier::external_body]
pub(crate) fn parse_time_hm(s: &str) -> (r: Option<(u32, u32)>)
    ensures
        r == parse_hh_mm(s@),
        r matches Some(t) ==> t.0 < 24 && t.1 < 60,
{
    match NaiveTime::parse_from_str(s, "%H:%M") {
        Ok(t) => Some((t.hour(), t.minute())),
        Err(_) => None,
    }
}

/// The name for whether chrono's strftime parser (`StrftimeItems`) finds an error item in a
/// format string.
pub uninterp spec fn strftime_has_error(fmt: Seq<char>) -> bool;

/// Whether `StrftimeItems::new(fmt)` yields an `Item::Error`; a function of the format text.
#[verifier::external_body]
fn strftime_error(fmt: &str) -> (r: bool)
    ensures
        r == strftime_has_error(fmt@),
{
    StrftimeItems::new(fmt).any(|item| item == Item::Error)
}

/// A configuration made usable: unknown views, week starts, time formats, invalid date formats
/// and invalid default start times fall back to their defaults, and the default duration is
/// kept between 1 and 1440 minutes.
pub open spec fn normalized_ok(before: &Config, after: &Config) -> bool {
    &&& after.default_view@ == (if before.default_view@ == "agenda"@ || before.default_view@
        == "week"@ || before.default_view@ == "month"@ {
        before.default_view@
    } else {
        "week"@
    })
    &&& after.week_starts_on@ == (if before.week_starts_on@ == "monday"@ || before.week_starts_on@
        == "sunday"@ {
        before.week_starts_on@
    } else {
        "monday"@
    })
    &&& after.time_format@ == (if before.time_format@ == "12h"@ || before.time_format@ == "24h"@ {
        before.time_format@
    } else {
        "24h"@
    })
    &&& after.date_format@ == (if strftime_has_error(before.date_format@) {
        "%d %b"@
    } else {
        before.date_format@
    })
    &&& after.default_event_start@ == (if parse_hh_mm(before.default_event_start@) is None {
        "09:00"@
    } else {
        before.default_event_start@
    })
    &&& after.default_event_duration_minutes == (if before.default_event_duration_minutes < 1 {
        1
    } else if before.default_event_duration_minutes > 1440 {
        1440
    } else {
        before.default_event_duration_minutes
    })
    &&& after.day_start == before.day_start
    &&& after.day_end == before.day_end
    &&& after.show_weekends == before.show_weekends
    &&& after.show_current_time == before.show_current_time
    &&& after.hidden_calendars == before.hidden_calendars
    &&& after.theme == before.theme
}

/// Whether a text equals a literal.
pub(crate) fn is(value: &String, literal: &str) -> (r: bool)
    ensures
        r == (value@ == literal@),
{
    *value == String::from_str(literal)
}

impl Config {
    /// The visible hours `(start, end)` in minutes since midnight. `day_start` and `day_end`
    /// are read as `H:M` (`24:00` allowed for the end); when either does not parse or they span
    /// less than an hour, 08:00 to 20:00.
    pub fn day_minutes(&self) -> (r: (u16, u16))
        ensures
            r.0 as int == day_minutes_spec(self.day_start@, self.day_end@).0,
            r.1 as int == day_minutes_spec(self.day_start@, self.day_end@).1,
            r.0 + 60 <= r.1 <= 1440,
    {
        let start = clock_minutes_exec(&self.day_start, 8 * 60);
        let end = clock_minutes_exec(&self.day_end, 20 * 60);
        if end >= start + 60 {
            (start, end)
        } else {
            (8 * 60, 20 * 60)
        }
    }

    /// The configuration with invalid display settings replaced by their defaults.
    pub fn normalized(self) -> (r: Self)
        ensures
            normalized_ok(&self, &r),
    {
        let mut c = self;
        if !(is(&c.default_view, "agenda") || is(&c.default_view, "week") || is(
            &c.default_view,
            "month",
        )) {
            c.default_view = String::from_str("week");
        }
        if !(is(&c.week_starts_on, "monday") || is(&c.week_starts_on, "sunday")) {
            c.week_starts_on = String::from_str("monday");
        }
        if !(is(&c.time_format, "12h") || is(&c.time_format, "24h")) {
            c.time_format = String::from_str("24h");
        }
        if strftime_error(c.date_format.as_str()) {
            c.date_format = String::from_str("%d %b");
        }
        if parse_time_hm(c.default_event_start.as_str()).is_none() {
            c.default_event_start = String::from_str("09:00");
        }
        c.default_event_duration_minutes = if c.default_event_duration_minutes < 1 {
            1
        } else if c.default_event_duration_minutes > 1440 {
            1440
        } else {
            c.default_event_duration_minutes
        };
        c
    }
}

/// Two decimal digits of a number below 100.
pub open spec fn two_digits(n: int) -> Seq<char> {
    seq![((n / 10) + 48) as char, ((n % 10) + 48) as char]
}

/// A time of day written `HH:MM` for minutes since midnight (24:00 for 1440).
pub open spec fn clock_text(minutes: int) -> Seq<char> {
    two_digits(minutes / 60) + seq![':'] + two_digits(minutes % 60)
}

/// The digit character for a value below 10.
fn digit_char(d: u16) -> (r: char)
    requires
        d < 10,
    ensures
        r == (d + 48) as char,
{
    let b = (d + 48) as u8;
    b as char
}

/// `minutes` written `HH:MM`.
pub fn clock_string(minutes: u16) -> (r: String)
    requires
        minutes <= 1440,
    ensures
        r@ == clock_text(minutes as int),
{
    let h = minutes / 60;
    let m = minutes % 60;
    let mut s = String::new();
    s.push(digit_char(h / 10));
    s.push(digit_char(h % 10));
    s.push(':');
    s.push(digit_char(m / 10));
    s.push(digit_char(m % 10));
    assert(s@ =~= clock_text(minutes as int));
    s
}

/// Two digits written by `two_digits` read back as their number.
pub proof fn lemma_two_digits_read(n: int)
    requires
        0 <= n < 100,
    ensures
        parse_u16(two_digits(n)) == Some(n as u16),
        index_of(two_digits(n), ':') == -1,
{
    let s = two_digits(n);
    assert(s.len() == 2);
    assert(digit_value(s[0], 10) == n / 10);
    assert(digit_value(s[1], 10) == n % 10);
    assert(s.drop_last() =~= seq![s[0]]);
    let one = seq![s[0]];
    assert(one.drop_last() =~= Seq::<char>::empty());
    assert(digits_value(Seq::<char>::empty(), 10) == 0);
    assert(one.last() == s[0]);
    assert(digits_value(one, 10) == digits_value(one.drop_last(), 10) * 10 + digit_value(one.last(), 10));
    assert(digits_value(one, 10) == n / 10);
    assert(digits_value(s, 10) == n);
    assert(s[0] != '+');
    lemma_index_of(s, ':');
}

/// A time written by `clock_text` reads back as the same minutes.
pub proof fn lemma_clock_text_read(m: int, fallback: int)
    requires
        0 <= m <= 1440,
    ensures
        clock_minutes(clock_text(m), fallback) == m,
{
    let s = clock_text(m);
    let h = two_digits(m / 60);
    let mm = two_digits(m % 60);
    lemma_two_digits_read(m / 60);
    lemma_two_digits_read(m % 60);
    assert(s[0] != ':' && s[1] != ':' && s[2] == ':');
    lemma_index_of(s, ':');
    assert(index_of(s, ':') == 2);
    assert(first_field(s) =~= h);
    assert(s.skip(3) =~= mm);
    lemma_index_of(mm, ':');
    assert(first_field(mm) =~= mm);
}

/// Visible hours written by `clock_text` that span at least an hour read back as themselves.
pub proof fn lemma_day_minutes_read(start: int, end: int)
    requires
        0 <= start,
        start + 60 <= end <= 1440,
    ensures
        day_minutes_spec(clock_text(start), clock_text(end)) == (start, end),
{
    lemma_clock_text_read(start, 480);
    lemma_clock_text_read(end, 1200);
}

} // verus!
