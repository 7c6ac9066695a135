use crate::app::App;
use crate::config::{clock_string, clock_text, two_digits};
use crate::date::{weekday_from_monday, year_text, ymd_of, Day};
use crate::model::Event;
use crate::text::{chars_of, lower, lower_vec, seq_eq};
use crate::time::Moment;
use chrono::NaiveDate;
use unicode_width::UnicodeWidthStr;
use vstd::prelude::*;
use vstd::view::View as _;

verus! {

/// The decimal digit character for a value below 10.
pub open spec fn digit(d: nat) -> char {
    (d + 48) as char
}

/// A number written in decimal, without leading zeros.
pub open spec fn decimal(n: nat) -> Seq<char>
    decreases n,
{
    if n < 10 {
        seq![digit(n)]
    } else {
        decimal(n / 10) + seq![digit(n % 10)]
    }
}

/// A number written in decimal with at least two digits.
pub open spec fn padded2(n: nat) -> Seq<char> {
    if n < 10 {
        seq!['0'] + decimal(n)
    } else {
        decimal(n)
    }
}

/// Appends `n` written in decimal.
pub fn push_decimal(s: &mut String, n: u32)
    ensures
        final(s)@ == old(s)@ + decimal(n as nat),
    decreases n,
{
    if n >= 10 {
        push_decimal(s, n / 10);
    }
    let d = (n % 10) as u8 + 48;
    let c = d as char;
    assert(c == digit((n % 10) as nat));
    s.push(c);
}

/// Appends `n` written in decimal with at least two digits.
pub fn push_padded2(s: &mut String, n: u32)
    ensures
        final(s)@ == old(s)@ + padded2(n as nat),
{
    if n < 10 {
        s.push('0');
    }
    push_decimal(s, n);
    assert(padded2(n as nat) == if n < 10 { seq!['0'] + decimal(n as nat) } else { decimal(n as nat) });
}

/// Appends the characters of a text.
pub fn push_str(s: &mut String, t: &str)
    ensures
        final(s)@ == old(s)@ + t@,
{
    let v = chars_of(t);
    let ghost start = s@;
    let mut i: usize = 0;
    while i < v.len()
        invariant
            i <= v.len(),
            v@ == t@,
            s@ == start + v@.take(i as int),
        decreases v.len() - i,
    {
        s.push(v[i]);
        assert(v@.take(i + 1) =~= v@.take(i as int).push(v@[i as int]));
        i = i + 1;
    }
    assert(v@.take(i as int) =~= v@);
}

/// The interface shows times on a twelve-hour clock.
pub open spec fn twelve_hour(app: App) -> bool {
    app.config.time_format@ == "12h"@
}

/// Minutes since midnight as a time of day: `H:MMa`/`H:MMp` on a twelve-hour clock (midnight
/// and 24:00 as `12:00a`), else `HH:MM`.
pub open spec fn minutes_text(twelve: bool, minutes: int) -> Seq<char> {
    let hour = minutes / 60;
    let minute = minutes % 60;
    if twelve {
        let clock_hour = hour % 24;
        let display = if clock_hour % 12 == 0 {
            12
        } else {
            clock_hour % 12
        };
        decimal(display as nat) + seq![':'] + padded2(minute as nat) + if clock_hour < 12 {
            seq!['a']
        } else {
            seq!['p']
        }
    } else {
        padded2(hour as nat) + seq![':'] + padded2(minute as nat)
    }
}

/// The time of day `minutes` after midnight, for the time grid (see `minutes_text`).
pub fn format_minutes(app: &App, minutes: u16) -> (r: String)
    ensures
        r@ == minutes_text(twelve_hour(*app), minutes as int),
{
    let hour = (minutes / 60) as u32;
    let minute = (minutes % 60) as u32;
    let mut s = String::new();
    if app.config.time_format == String::from_str("12h") {
        let clock_hour = hour % 24;
        let display = if clock_hour % 12 == 0 {
            12
        } else {
            clock_hour % 12
        };
        push_decimal(&mut s, display);
        s.push(':');
        push_padded2(&mut s, minute);
        s.push(
            if clock_hour < 12 {
                'a'
            } else {
                'p'
            },
        );
    } else {
        push_padded2(&mut s, hour);
        s.push(':');
        push_padded2(&mut s, minute);
    }
    assert(s@ =~= minutes_text(twelve_hour(*app), minutes as int));
    s
}

/// An instant's local time of day: `H:MM AM`/`H:MM PM` on a twelve-hour clock, else
/// `HH:MM`.
pub open spec fn time_text(twelve: bool, m: Moment) -> Seq<char> {
    if twelve {
        let h = m.hour % 12;
        decimal((if h == 0 { 12 } else { h }) as nat) + seq![':'] + two_digits(m.minute as int)
            + if m.hour < 12 {
            " AM"@
        } else {
            " PM"@
        }
    } else {
        clock_text(m.minutes())
    }
}

/// The twelve-hour clock: a time's text ends in " PM" exactly when its hour of the day is 12
/// or more and in " AM" otherwise; a morning time and the afternoon time twelve hours later
/// show the same clock face; the hours 0 and 12 show as "12"; and the minute is shown as in
/// the 24-hour text.
pub proof fn law_twelve_hour_clock(m: Moment, n: Moment)
    requires
        m.hour < 24,
        m.minute < 60,
    ensures
        ({
            let t = time_text(true, m);
            &&& t.len() >= 3
            &&& t.subrange(t.len() - 3, t.len() as int) == if m.hour >= 12 {
                " PM"@
            } else {
                " AM"@
            }
        }),
        m.hour < 12 && n.hour == m.hour + 12 && n.minute == m.minute ==> ({
            let a = time_text(true, m);
            let b = time_text(true, n);
            a.len() == b.len() && a.take(a.len() - 3) == b.take(b.len() - 3)
        }),
        m.hour % 12 == 0 ==> time_text(true, m).take(3) == "12:"@,
        ({
            let t = time_text(true, m);
            let c = time_text(false, m);
            t.subrange(t.len() - 5, t.len() - 3) == c.subrange(3, 5)
        }),
{
    reveal_strlit(" AM");
    reveal_strlit(" PM");
    reveal_strlit("12:");
    let h = m.hour % 12;
    let face = decimal((if h == 0 { 12 } else { h }) as nat) + seq![':'] + two_digits(m.minute as int);
    let suffix = if m.hour < 12 { " AM"@ } else { " PM"@ };
    let t = time_text(true, m);
    assert(t == face + suffix);
    assert(t.subrange(t.len() - 3, t.len() as int) =~= suffix);
    assert(t.subrange(t.len() - 5, t.len() - 3) =~= two_digits(m.minute as int));
    assert(time_text(false, m).subrange(3, 5) =~= two_digits(m.minute as int));
    if m.hour % 12 == 0 {
        reveal_with_fuel(decimal, 2);
        assert(decimal(12) =~= seq!['1', '2']);
        assert(t.take(3) =~= "12:"@);
    }
    if m.hour < 12 && n.hour == m.hour + 12 && n.minute == m.minute {
        let b = time_text(true, n);
        assert(n.hour % 12 == h);
        assert(b == face + " PM"@);
        assert(t.take(t.len() - 3) =~= face);
        assert(b.take(b.len() - 3) =~= face);
    }
}

/// The local time of day of an instant (see `time_text`).
pub fn format_time(app: &App, m: Moment) -> (r: String)
    requires
        m.wf(),
    ensures
        r@ == time_text(twelve_hour(*app), m),
{
    if app.config.time_format == String::from_str("12h") {
        let h = m.hour % 12;
        let mut s = String::new();
        push_decimal(&mut s, if h == 0 { 12 } else { h });
        s.push(':');
        push_padded2(&mut s, m.minute);
        assert(padded2(m.minute as nat) =~= two_digits(m.minute as int)) by {
            reveal_with_fuel(decimal, 2);
        }
        push_str(&mut s, if m.hour < 12 { " AM" } else { " PM" });
        s
    } else {
        clock_string(m.minutes_into_day() as u16)
    }
}

/// The English name of the weekday counted from Monday (0), as chrono's `%A` writes it.
pub open spec fn weekday_name(w: int) -> Seq<char> {
    if w == 0 {
        "Monday"@
    } else if w == 1 {
        "Tuesday"@
    } else if w == 2 {
        "Wednesday"@
    } else if w == 3 {
        "Thursday"@
    } else if w == 4 {
        "Friday"@
    } else if w == 5 {
        "Saturday"@
    } else {
        "Sunday"@
    }
}

/// The English name of month `m` (1 to 12), as chrono's `%B` writes it.
pub open spec fn month_name(m: int) -> Seq<char> {
    if m == 1 {
        "January"@
    } else if m == 2 {
        "February"@
    } else if m == 3 {
        "March"@
    } else if m == 4 {
        "April"@
    } else if m == 5 {
        "May"@
    } else if m == 6 {
        "June"@
    } else if m == 7 {
        "July"@
    } else if m == 8 {
        "August"@
    } else if m == 9 {
        "September"@
    } else if m == 10 {
        "October"@
    } else if m == 11 {
        "November"@
    } else {
        "December"@
    }
}

/// The text chrono writes for day `n` with the format `%A, %-d %B %Y`: the weekday's name, a
/// comma, the day of the month without padding, the month's name and the year (see
/// `year_text`).
pub open spec fn long_date_text(n: int) -> Seq<char> {
    let (y, m, d) = ymd_of(n);
    weekday_name(weekday_from_monday(n)) + ", "@ + decimal(d as nat) + " "@ + month_name(m) + " "@
        + year_text(y)
}

/// `NaiveDate::format("%A, %-d %B %Y")` of the date: its weekday, day, month and year in
/// words, a function of the date alone.
#[verifier::external_body]
pub(crate) fn format_long_date(day: Day) -> (r: String)
    requires
        day.wf(),
    ensures
        r@ == long_date_text(day.n as int),
{
    NaiveDate::from_num_days_from_ce_opt(day.n).unwrap().format("%A, %-d %B %Y").to_string()
}

/// When an event takes place, as the details show it: the day (or first and last day) of an
/// all-day event, else the start and end with their days.
pub open spec fn when_text(twelve: bool, e: Event) -> Seq<char> {
    let sd = e.start.day.n as int;
    let ed = e.end.day.n as int;
    if e.all_day {
        let last = if ed > sd {
            ed - 1
        } else {
            sd
        };
        if last > sd {
            long_date_text(sd) + " → "@ + long_date_text(last) + "\nall day"@
        } else {
            long_date_text(sd) + " · all day"@
        }
    } else if ed != sd {
        long_date_text(sd) + seq![' '] + time_text(twelve, e.start) + "\n→ "@ + long_date_text(ed)
            + seq![' '] + time_text(twelve, e.end)
    } else {
        long_date_text(sd) + seq!['\n'] + time_text(twelve, e.start) + " → "@ + time_text(
            twelve,
            e.end,
        )
    }
}

/// When the event takes place (see `when_text`).
pub fn format_event_when(app: &App, event: &Event) -> (r: String)
    requires
        event.wf(),
    ensures
        r@ == when_text(twelve_hour(*app), *event),
{
    let sd = event.start.day;
    let ed = event.end.day;
    let mut s = format_long_date(sd);
    if event.all_day {
        let last = if ed.n > sd.n {
            Day { n: ed.n - 1 }
        } else {
            sd
        };
        if last.n > sd.n {
            push_str(&mut s, " → ");
            let l = format_long_date(last);
            push_str(&mut s, l.as_str());
            push_str(&mut s, "\nall day");
        } else {
            push_str(&mut s, " · all day");
        }
    } else if ed.n != sd.n {
        s.push(' ');
        let a = format_time(app, event.start);
        push_str(&mut s, a.as_str());
        push_str(&mut s, "\n→ ");
        let e = format_long_date(ed);
        push_str(&mut s, e.as_str());
        s.push(' ');
        let b = format_time(app, event.end);
        push_str(&mut s, b.as_str());
    } else {
        s.push('\n');
        let a = format_time(app, event.start);
        push_str(&mut s, a.as_str());
        push_str(&mut s, " → ");
        let b = format_time(app, event.end);
        push_str(&mut s, b.as_str());
    }
    assert(s@ =~= when_text(twelve_hour(*app), *event));
    s
}

/// The colours a theme can name.
#[derive(Clone, Copy, Debug, PartialEq, Eq, Structural)]
pub enum NamedColor {
    Black,
    Red,
    Green,
    Yellow,
    Blue,
    Magenta,
    Cyan,
    Gray,
    DarkGray,
    White,
}

/// The colour a theme setting names, ignoring ASCII case (`grey` and `dark_grey` too);
/// `fallback` for any other text.
pub open spec fn color_named(value: Seq<char>, fallback: NamedColor) -> NamedColor {
    let v = lower(value);
    if v == "black"@ {
        NamedColor::Black
    } else if v == "red"@ {
        NamedColor::Red
    } else if v == "green"@ {
        NamedColor::Green
    } else if v == "yellow"@ {
        NamedColor::Yellow
    } else if v == "blue"@ {
        NamedColor::Blue
    } else if v == "magenta"@ {
        NamedColor::Magenta
    } else if v == "cyan"@ {
        NamedColor::Cyan
    } else if v == "gray"@ || v == "grey"@ {
        NamedColor::Gray
    } else if v == "dark_gray"@ || v == "dark_grey"@ {
        NamedColor::DarkGray
    } else if v == "white"@ {
        NamedColor::White
    } else {
        fallback
    }
}

/// Whether the characters spell the literal.
fn spells(v: &Vec<char>, literal: &str) -> (r: bool)
    ensures
        r == (v@ == literal@),
{
    seq_eq(v, &chars_of(literal))
}

/// The colour a theme setting names (see `color_named`).
pub fn config_color(value: &str, fallback: NamedColor) -> (r: NamedColor)
    ensures
        r == color_named(value@, fallback),
{
    let v = lower_vec(&chars_of(value));
    if spells(&v, "black") {
        NamedColor::Black
    } else if spells(&v, "red") {
        NamedColor::Red
    } else if spells(&v, "green") {
        NamedColor::Green
    } else if spells(&v, "yellow") {
        NamedColor::Yellow
    } else if spells(&v, "blue") {
        NamedColor::Blue
    } else if spells(&v, "magenta") {
        NamedColor::Magenta
    } else if spells(&v, "cyan") {
        NamedColor::Cyan
    } else if spells(&v, "gray") || spells(&v, "grey") {
        NamedColor::Gray
    } else if spells(&v, "dark_gray") || spells(&v, "dark_grey") {
        NamedColor::DarkGray
    } else if spells(&v, "white") {
        NamedColor::White
    } else {
        fallback
    }
}

/// A rectangle of terminal cells.
#[derive(Clone, Copy, Debug, PartialEq, Eq, Structural)]
pub struct Rect {
    pub x: u16,
    pub y: u16,
    pub width: u16,
    pub height: u16,
}

/// `a - b`, or 0 when `b` is larger.
pub open spec fn less(a: int, b: int) -> int {
    if a >= b {
        a - b
    } else {
        0
    }
}

/// A box of at most the given size (and at most the area less a cell on each side),
/// centred in the area.
pub open spec fn centered_rect(area: Rect, width: int, height: int) -> (int, int, int, int) {
    let w = if width < less(area.width as int, 2) {
        width
    } else {
        less(area.width as int, 2)
    };
    let h = if height < less(area.height as int, 2) {
        height
    } else {
        less(area.height as int, 2)
    };
    (area.x + less(area.width as int, w) / 2, area.y + less(area.height as int, h) / 2, w, h)
}

/// A box centred in the area (see `centered_rect`).
pub fn centered(area: Rect, width: u16, height: u16) -> (r: Rect)
    requires
        centered_rect(area, width as int, height as int).0 <= u16::MAX,
        centered_rect(area, width as int, height as int).1 <= u16::MAX,
    ensures
        (r.x as int, r.y as int, r.width as int, r.height as int) == centered_rect(
            area,
            width as int,
            height as int,
        ),
{
    let max_w = if area.width >= 2 {
        area.width - 2
    } else {
        0
    };
    let max_h = if area.height >= 2 {
        area.height - 2
    } else {
        0
    };
    let w = if width < max_w {
        width
    } else {
        max_w
    };
    let h = if height < max_h {
        height
    } else {
        max_h
    };
    Rect { x: area.x + (area.width - w) / 2, y: area.y + (area.height - h) / 2, width: w, height: h }
}

/// The name for the number of terminal columns a text takes, as unicode-width measures it.
pub uninterp spec fn display_width(s: Seq<char>) -> int;

/// `UnicodeWidthStr::width`: the columns the text takes, a function of the text.
#[verifier::external_body]
fn text_width(s: &str) -> (r: usize)
    ensures
        r == display_width(s@),
{
    s.width()
}

/// How many characters `truncate` keeps: up to the first character whose width, with the
/// kept text and the ellipsis, would exceed `width`.
pub open spec fn kept_chars(s: Seq<char>, width: int) -> int {
    let k = crate::model::first_where(
        s.len() as int,
        |i: int| display_width(s.take(i)) + display_width(seq![s[i]]) + 1 > width,
    );
    if k >= 0 {
        k
    } else {
        s.len() as int
    }
}

/// The text cut to `width` columns: as it is when it fits; else `…` alone when `width` is at
/// most one column; else its longest beginning that fits with a trailing `…`.
pub open spec fn truncated(s: Seq<char>, width: int) -> Seq<char> {
    if display_width(s) <= width {
        s
    } else if width <= 1 {
        seq!['…']
    } else {
        s.take(kept_chars(s, width)).push('…')
    }
}

/// The text cut to `width` columns (see `truncated`).
pub fn truncate(value: &str, width: usize) -> (r: String)
    ensures
        r@ == truncated(value@, width as int),
{
    if text_width(value) <= width {
        return value.to_owned();
    }
    if width <= 1 {
        let mut s = String::new();
        s.push('…');
        return s;
    }
    let v = chars_of(value);
    let ghost p = |i: int| display_width(v@.take(i)) + display_width(seq![v@[i]]) + 1 > width;
    let mut result = String::new();
    let mut k: usize = 0;
    while k < v.len()
        invariant_except_break
            crate::model::first_where(k as int, p) == -1,
        invariant
            k <= v.len(),
            v@ == value@,
            result@ == v@.take(k as int),
            p == (|i: int| display_width(v@.take(i)) + display_width(seq![v@[i]]) + 1 > width),
        ensures
            k == kept_chars(value@, width as int),
        decreases v.len() - k,
    {
        proof {
            crate::model::lemma_first_where_step(k as int, p);
        }
        let mut one = String::new();
        one.push(v[k]);
        assert(one@ =~= seq![v@[k as int]]);
        let total = text_width(result.as_str()) as u128 + text_width(one.as_str()) as u128 + 1;
        if total > width as u128 {
            assert(p(k as int));
            proof {
                crate::model::lemma_first_where(k as int, p);
                crate::model::lemma_first_where(v@.len() as int, p);
            }
            break;
        }
        result.push(v[k]);
        assert(v@.take(k + 1) =~= v@.take(k as int).push(v@[k as int]));
        k = k + 1;
    }
    result.push('…');
    result
}

} // verus!
