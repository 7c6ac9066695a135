use crate::config::{clock_string, clock_text, is, parse_hh_mm, parse_time_hm, Config};
use crate::config::{clock_text as clock, day_minutes_spec, lemma_day_minutes_read};
use crate::date::{
    last_day_of_month,
    format_iso_date, iso_date_text, parse_iso_date, parse_iso_date_text, weekday_from_monday,
    days_in_month, day_number, lemma_first_day_is_thursday, lemma_weekday_next, valid_ymd,
    weekday_from_sunday, ymd_of, Day, MAX_DAY, MAX_YEAR, MIN_DAY, MIN_YEAR,
};
use crate::mock::{clone_events, event_views, events_wf, overlapping, overlapping_events};
use crate::model::{
    first_where, lemma_first_where, lemma_first_where_step, opt_view, Calendar, CalendarId, DateRange, Event,
    EventId, EventPatch, EventView, NewEvent, PermissionStatus,
};
use crate::text::{chars_of, lower, lower_vec, seq_eq, trim, trimmed};
use crate::time::{local_at, local_at_result, now, Moment};
use vstd::prelude::*;
use vstd::view::View as _;

verus! {

/// The calendar view that the main area shows.
#[derive(Clone, Copy, Debug, PartialEq, Eq, Structural)]
pub enum View {
    Agenda,
    Week,
    Month,
}

/// The interaction mode; every mode but `Normal` draws an overlay.
#[derive(Clone, Copy, Debug, PartialEq, Eq, Structural)]
pub enum Mode {
    Normal,
    EventDetail,
    EventEditor,
    CalendarPicker,
    Search,
    ConfirmDelete,
    ConfirmUpdate,
    Help,
}

/// The fields of the event editor, in tab order.
#[derive(Clone, Copy, Debug, PartialEq, Eq, Structural)]
pub enum EditorField {
    Title,
    Calendar,
    Date,
    Start,
    End,
    AllDay,
    Location,
    Notes,
}

impl EditorField {
    /// Position of the field in tab order.
    pub open spec fn index(self) -> int {
        match self {
            EditorField::Title => 0,
            EditorField::Calendar => 1,
            EditorField::Date => 2,
            EditorField::Start => 3,
            EditorField::End => 4,
            EditorField::AllDay => 5,
            EditorField::Location => 6,
            EditorField::Notes => 7,
        }
    }

    /// The field that follows in tab order, wrapping from the last to the first.
    pub fn next(self) -> (r: Self)
        ensures
            r.index() == (self.index() + 1) % 8,
    {
        match self {
            EditorField::Title => EditorField::Calendar,
            EditorField::Calendar => EditorField::Date,
            EditorField::Date => EditorField::Start,
            EditorField::Start => EditorField::End,
            EditorField::End => EditorField::AllDay,
            EditorField::AllDay => EditorField::Location,
            EditorField::Location => EditorField::Notes,
            EditorField::Notes => EditorField::Title,
        }
    }

    /// The field that precedes in tab order, wrapping from the first to the last.
    pub fn previous(self) -> (r: Self)
        ensures
            r.index() == (self.index() + 7) % 8,
    {
        match self {
            EditorField::Title => EditorField::Notes,
            EditorField::Calendar => EditorField::Title,
            EditorField::Date => EditorField::Calendar,
            EditorField::Start => EditorField::Date,
            EditorField::End => EditorField::Start,
            EditorField::AllDay => EditorField::End,
            EditorField::Location => EditorField::AllDay,
            EditorField::Notes => EditorField::Location,
        }
    }
}

/// Moving to the next field and then to the previous one (or the other way round) returns to
/// the field one started from.
pub proof fn law_next_previous_inverse(f: EditorField, n: EditorField, p: EditorField)
    requires
        n.index() == (f.index() + 1) % 8,
        p.index() == (n.index() + 7) % 8,
    ensures
        p == f,
{
}

/// Minutes since midnight of a time written `%H:%M`, as chrono reads it.
pub open spec fn time_minutes(s: Seq<char>) -> Option<int> {
    match parse_hh_mm(s) {
        Some(t) => Some(t.0 * 60 + t.1),
        None => None,
    }
}

/// Minutes since midnight of a time written `HH:MM`, if it is one.
pub fn parse_time_minutes(value: &str) -> (r: Option<u16>)
    ensures
        match time_minutes(value@) {
            Some(v) => r == Some(v as u16) && v < 1440,
            None => r is None,
        },
{
    match parse_time_hm(value) {
        Some((h, m)) => Some((h * 60 + m) as u16),
        None => None,
    }
}

/// The event editor's form: one text per field, as typed.
#[derive(Debug)]
pub struct EventEditor {
    /// The event being edited; `None` while creating one.
    pub editing: Option<EventId>,
    pub field: EditorField,
    pub title: String,
    pub calendar_id: CalendarId,
    pub date: String,
    pub start: String,
    pub end: String,
    pub all_day: bool,
    pub location: String,
    pub notes: String,
    /// How many days an all-day event spans (at least one).
    pub all_day_duration_days: u64,
}

impl Clone for EventEditor {
    fn clone(&self) -> (r: Self)
        ensures
            r.editing_view() == self.editing_view(),
            r.field == self.field,
            r.title@ == self.title@,
            r.calendar_id@ == self.calendar_id@,
            r.date@ == self.date@,
            r.start@ == self.start@,
            r.end@ == self.end@,
            r.all_day == self.all_day,
            r.location@ == self.location@,
            r.notes@ == self.notes@,
            r.all_day_duration_days == self.all_day_duration_days,
    {
        EventEditor {
            editing: match &self.editing {
                Some(id) => Some(id.clone()),
                None => None,
            },
            field: self.field,
            title: self.title.clone(),
            calendar_id: self.calendar_id.clone(),
            date: self.date.clone(),
            start: self.start.clone(),
            end: self.end.clone(),
            all_day: self.all_day,
            location: self.location.clone(),
            notes: self.notes.clone(),
            all_day_duration_days: self.all_day_duration_days,
        }
    }
}

/// What the editor's form stands for: an invalid form with the message shown to the user, or
/// the local wall-clock times of start and end (day number, hour, minute).
pub enum EditorCheck {
    Invalid(Seq<char>),
    Times(int, u32, u32, int, u32, u32),
}

impl EventEditor {
    /// The id of the edited event, if any.
    pub open spec fn editing_view(&self) -> Option<Seq<char>> {
        match self.editing {
            Some(id) => Some(id@),
            None => None,
        }
    }

    /// The text of the field that takes typing, if the focused field takes any.
    pub open spec fn text_of(&self, f: EditorField) -> Option<Seq<char>> {
        match f {
            EditorField::Title => Some(self.title@),
            EditorField::Date => Some(self.date@),
            EditorField::Start => Some(self.start@),
            EditorField::End => Some(self.end@),
            EditorField::Location => Some(self.location@),
            EditorField::Notes => Some(self.notes@),
            EditorField::Calendar | EditorField::AllDay => None,
        }
    }

    /// `a` and `b` agree on everything but the texts of the fields.
    pub open spec fn same_but_texts(a: &EventEditor, b: &EventEditor) -> bool {
        &&& a.editing_view() == b.editing_view()
        &&& a.field == b.field
        &&& a.calendar_id@ == b.calendar_id@
        &&& a.all_day == b.all_day
        &&& a.all_day_duration_days == b.all_day_duration_days
    }

    /// `a` and `b` have the same text in every field but `f`.
    pub open spec fn texts_agree_except(a: &EventEditor, b: &EventEditor, f: EditorField) -> bool {
        forall|g: EditorField| g != f ==> a.text_of(g) == b.text_of(g)
    }

    /// What typing `c` does: the character is appended to the focused field's text; fields
    /// without text, and everything else, stay as they are.
    pub open spec fn inserted(before: &EventEditor, after: &EventEditor, c: char) -> bool {
        &&& EventEditor::same_but_texts(before, after)
        &&& EventEditor::texts_agree_except(before, after, before.field)
        &&& match before.text_of(before.field) {
            Some(t) => after.text_of(before.field) == Some(t.push(c)),
            None => after.text_of(before.field) is None,
        }
    }

    /// What a backspace does: the focused field's text loses its last character, if any;
    /// fields without text, and everything else, stay as they are.
    pub open spec fn backspaced(before: &EventEditor, after: &EventEditor) -> bool {
        &&& EventEditor::same_but_texts(before, after)
        &&& EventEditor::texts_agree_except(before, after, before.field)
        &&& match before.text_of(before.field) {
            Some(t) => after.text_of(before.field) == Some(
                if t.len() == 0 {
                    t
                } else {
                    t.drop_last()
                },
            ),
            None => after.text_of(before.field) is None,
        }
    }

    /// Types a character into the focused field (see `inserted`).
    pub fn insert(&mut self, character: char)
        ensures
            EventEditor::inserted(&*old(self), &*final(self), character),
    {
        match self.field {
            EditorField::Title => self.title.push(character),
            EditorField::Date => self.date.push(character),
            EditorField::Start => self.start.push(character),
            EditorField::End => self.end.push(character),
            EditorField::Location => self.location.push(character),
            EditorField::Notes => self.notes.push(character),
            EditorField::Calendar | EditorField::AllDay => {},
        }
    }

    /// Deletes the last character of the focused field (see `backspaced`).
    pub fn backspace(&mut self)
        ensures
            EventEditor::backspaced(&*old(self), &*final(self)),
    {
        match self.field {
            EditorField::Title => {
                self.title.pop();
            },
            EditorField::Date => {
                self.date.pop();
            },
            EditorField::Start => {
                self.start.pop();
            },
            EditorField::End => {
                self.end.pop();
            },
            EditorField::Location => {
                self.location.pop();
            },
            EditorField::Notes => {
                self.notes.pop();
            },
            EditorField::Calendar | EditorField::AllDay => {},
        }
    }

    /// The form read as an event's times: the title must not be blank, the date must read as
    /// `YYYY-MM-DD`; an all-day event runs from midnight of the date for its number of days;
    /// otherwise start and end read as `HH:MM`, must differ, and an end before the start falls
    /// on the next day.
    pub open spec fn check(&self) -> EditorCheck {
        if trim(self.title@).len() == 0 {
            EditorCheck::Invalid("Title cannot be empty."@)
        } else {
            match parse_iso_date_text(self.date@) {
                None => EditorCheck::Invalid("Date must use YYYY-MM-DD."@),
                Some(d) => if self.all_day {
                    let days: int = if self.all_day_duration_days >= 1 {
                        self.all_day_duration_days as int
                    } else {
                        1
                    };
                    if d + days > MAX_DAY {
                        EditorCheck::Invalid("Date is out of range."@)
                    } else {
                        EditorCheck::Times(d, 0, 0, d + days, 0, 0)
                    }
                } else {
                    match parse_hh_mm(self.start@) {
                        None => EditorCheck::Invalid("Start must use HH:MM."@),
                        Some(s) => match parse_hh_mm(self.end@) {
                            None => EditorCheck::Invalid("End must use HH:MM."@),
                            Some(e) => if e == s {
                                EditorCheck::Invalid("End must differ from start."@)
                            } else if e.0 * 60 + e.1 < s.0 * 60 + s.1 {
                                if d + 1 > MAX_DAY {
                                    EditorCheck::Invalid("Date is out of range."@)
                                } else {
                                    EditorCheck::Times(d, s.0, s.1, d + 1, e.0, e.1)
                                }
                            } else {
                                EditorCheck::Times(d, s.0, s.1, d, e.0, e.1)
                            },
                        },
                    }
                },
            }
        }
    }

    /// Start and end of the event that the form describes (see `check`). Where a wall-clock
    /// time does not exist in the local time zone, the error "Local time does not exist.".
    pub fn values(&self) -> (r: Result<(Moment, Moment), String>)
        ensures
            match self.check() {
                EditorCheck::Invalid(msg) => r matches Err(m) && m@ == msg,
                EditorCheck::Times(sd, sh, sm, ed, eh, em) => match r {
                    Ok(t) => local_at_result(t.0, Day { n: sd as i32 }, sh, sm)
                        && local_at_result(t.1, Day { n: ed as i32 }, eh, em),
                    Err(m) => m@ == "Local time does not exist."@,
                },
            },
    {
        let title = trimmed(self.title.as_str());
        if title.as_str().unicode_len() == 0 {
            return Err(String::from_str("Title cannot be empty."));
        }
        let date = match parse_iso_date(self.date.as_str()) {
            Some(d) => d,
            None => return Err(String::from_str("Date must use YYYY-MM-DD.")),
        };
        if self.all_day {
            let days: u64 = if self.all_day_duration_days >= 1 {
                self.all_day_duration_days
            } else {
                1
            };
            if days > (MAX_DAY as i64 - date.n as i64) as u64 {
                return Err(String::from_str("Date is out of range."));
            }
            let next = Day { n: (date.n as i64 + days as i64) as i32 };
            let from = local_at(date, 0, 0);
            let to = local_at(next, 0, 0);
            return match (from, to) {
                (Some(a), Some(b)) => Ok((a, b)),
                _ => Err(String::from_str("Local time does not exist.")),
            };
        }
        let (sh, sm) = match parse_time_hm(self.start.as_str()) {
            Some(t) => t,
            None => return Err(String::from_str("Start must use HH:MM.")),
        };
        let (eh, em) = match parse_time_hm(self.end.as_str()) {
            Some(t) => t,
            None => return Err(String::from_str("End must use HH:MM.")),
        };
        if eh == sh && em == sm {
            return Err(String::from_str("End must differ from start."));
        }
        let end_date = if eh * 60 + em < sh * 60 + sm {
            if date.n >= MAX_DAY {
                return Err(String::from_str("Date is out of range."));
            }
            Day { n: date.n + 1 }
        } else {
            date
        };
        let from = local_at(date, sh, sm);
        let to = local_at(end_date, eh, em);
        match (from, to) {
            (Some(a), Some(b)) => Ok((a, b)),
            _ => Err(String::from_str("Local time does not exist.")),
        }
    }

    /// The form shows the event `e` for editing.
    pub open spec fn filled_from(&self, e: EventView) -> bool {
        &&& self.editing_view() == Some(e.id)
        &&& self.field == EditorField::Title
        &&& self.title@ == e.title
        &&& self.calendar_id@ == e.calendar_id
        &&& self.date@ == iso_date_text(e.start.day.n as int)
        &&& self.start@ == clock_text(e.start.minutes())
        &&& self.end@ == clock_text(e.end.minutes())
        &&& self.all_day == e.all_day
        &&& self.location@ == (match e.location {
            Some(t) => t,
            None => Seq::<char>::empty(),
        })
        &&& self.notes@ == (match e.notes {
            Some(t) => t,
            None => Seq::<char>::empty(),
        })
        &&& self.all_day_duration_days == (if e.end.day.n - e.start.day.n >= 1 {
            e.end.day.n - e.start.day.n
        } else {
            1
        })
    }

    /// A form filled in from an existing event. Its date reads back as the event's day, so an
    /// all-day event keeps its days when the form is checked unchanged.
    pub fn from_event(event: &Event) -> (r: EventEditor)
        requires
            event.wf(),
        ensures
            r.filled_from(event@),
            parse_iso_date_text(r.date@) == Some(event.start.day.n as int),
            event.all_day && trim(event.title@).len() > 0 && event.end.day.n > event.start.day.n
                ==> r.check() == EditorCheck::Times(
                event.start.day.n as int,
                0,
                0,
                event.end.day.n as int,
                0,
                0,
            ),
    {
        let span: i64 = event.end.day.n as i64 - event.start.day.n as i64;
        let days: u64 = if span >= 1 {
            span as u64
        } else {
            1
        };
        EventEditor {
            editing: Some(event.id.clone()),
            field: EditorField::Title,
            title: event.title.clone(),
            calendar_id: event.calendar_id.clone(),
            date: format_iso_date(event.start.day),
            start: clock_string(event.start.minutes_into_day() as u16),
            end: clock_string(event.end.minutes_into_day() as u16),
            all_day: event.all_day,
            location: match &event.location {
                Some(l) => l.clone(),
                None => String::new(),
            },
            notes: match &event.notes {
                Some(n) => n.clone(),
                None => String::new(),
            },
            all_day_duration_days: days,
        }
    }
}

/// The search overlay: the query as typed, its results and the highlighted result.
#[derive(Debug)]
pub struct SearchState {
    pub query: String,
    pub results: Vec<Event>,
    pub selected: usize,
}

impl Default for SearchState {
    fn default() -> (r: Self)
        ensures
            r.query@.len() == 0,
            r.results@.len() == 0,
            r.selected == 0,
    {
        SearchState { query: String::new(), results: Vec::new(), selected: 0 }
    }
}

/// The ids of a list of calendar ids, as texts.
pub open spec fn id_views(v: Seq<CalendarId>) -> Seq<Seq<char>> {
    v.map_values(|c: CalendarId| c@)
}

/// The view that a configured name selects: week unless it names agenda or month.
pub open spec fn view_named(s: Seq<char>) -> View {
    if s == "agenda"@ {
        View::Agenda
    } else if s == "month"@ {
        View::Month
    } else {
        View::Week
    }
}

/// The day falls on a Saturday or a Sunday.
pub open spec fn weekend(n: int) -> bool {
    weekday_from_monday(n) >= 5
}

/// Days back from a weekend day to the Friday before it (0 on weekdays).
pub open spec fn back_to_weekday(n: int) -> int {
    if weekday_from_monday(n) == 5 {
        1
    } else if weekday_from_monday(n) == 6 {
        2
    } else {
        0
    }
}

/// Position of a day in its week, the week starting on Sunday or on Monday.
pub open spec fn week_offset(sunday: bool, n: int) -> int {
    if sunday {
        weekday_from_sunday(n)
    } else {
        weekday_from_monday(n)
    }
}

/// The state of the calendar interface.
#[derive(Debug)]
pub struct App {
    pub config: Config,
    pub view: View,
    pub mode: Mode,
    pub cursor_date: Day,
    /// Minutes since midnight of the cursor in the week view.
    pub cursor_minutes: u16,
    pub selected_event: Option<EventId>,
    pub calendars: Vec<Calendar>,
    /// The calendars whose events are shown; no id occurs twice.
    pub visible_calendars: Vec<CalendarId>,
    pub events: Vec<Event>,
    pub error: Option<String>,
    pub status: Option<String>,
    pub editor: Option<EventEditor>,
    pub search: SearchState,
    pub calendar_picker_index: usize,
    pub should_quit: bool,
    pub last_used_calendar: Option<CalendarId>,
    /// Fetched events by the Unix seconds `(from, to)` of the range they were fetched for, in
    /// the order the ranges were first fetched; no range occurs twice.
    pub cache: Vec<((i64, i64), Vec<Event>)>,
    /// The visible calendars when the calendar picker was opened.
    pub picker_original: Option<Vec<CalendarId>>,
    /// The day of the month that month navigation aims for.
    pub preferred_month_day: u32,
    /// The mode that cancelling a delete confirmation returns to.
    pub confirm_return_mode: Mode,
}

/// Whether the calendar at an index has the given id.
pub open spec fn calendar_with_id(cals: Seq<Calendar>, id: Seq<char>) -> spec_fn(int) -> bool {
    |i: int| cals[i].id@ == id
}

/// The ranges of the cache.
pub open spec fn cache_keys(c: Seq<((i64, i64), Vec<Event>)>) -> Seq<(i64, i64)> {
    c.map_values(|e: ((i64, i64), Vec<Event>)| e.0)
}

impl App {
    /// The loaded events as plain values.
    pub open spec fn ev(&self) -> Seq<EventView> {
        event_views(self.events@)
    }

    /// The ids of the visible calendars.
    pub open spec fn vis(&self) -> Seq<Seq<char>> {
        id_views(self.visible_calendars@)
    }

    /// The id of the selected event.
    pub open spec fn selected_id(&self) -> Option<Seq<char>> {
        match self.selected_event {
            Some(id) => Some(id@),
            None => None,
        }
    }

    /// The state's invariant.
    pub open spec fn wf(&self) -> bool {
        &&& self.cursor_date.wf()
        &&& self.cursor_minutes <= 1440
        &&& events_wf(self.events@)
        &&& events_wf(self.search.results@)
        &&& forall|i: int| 0 <= i < self.cache.len() ==> events_wf(#[trigger] self.cache@[i].1@)
        &&& cache_keys(self.cache@).no_duplicates()
        &&& self.vis().no_duplicates()
        &&& (self.picker_original matches Some(v) ==> id_views(v@).no_duplicates())
        &&& 1 <= self.preferred_month_day <= 31
    }

    /// The week starts on Sunday: `week_starts_on` reads "sunday", ignoring ASCII case.
    pub open spec fn sunday_first(&self) -> bool {
        lower(self.config.week_starts_on@) == lower("sunday"@)
    }

    /// Weekends are skipped: they are hidden and the view is a grid.
    pub open spec fn skips_weekends(&self) -> bool {
        !self.config.show_weekends && self.view != View::Agenda
    }

    /// The first and the day after the last day that the view asks the backend for: the
    /// week padded by a week on each side, the six weeks of the month grid, or fifteen days
    /// of agenda. `None` when a day falls outside the supported range.
    pub open spec fn requested_days(&self) -> Option<(int, int)> {
        let n = self.cursor_date.n as int;
        match self.view {
            View::Week => {
                let s = n - week_offset(self.sunday_first(), n);
                if s - 7 >= MIN_DAY && s + 14 <= MAX_DAY {
                    Some((s - 7, s + 14))
                } else {
                    None
                }
            },
            View::Month => {
                let first = n - (ymd_of(n).2 - 1);
                let s = first - week_offset(self.sunday_first(), first);
                if s >= MIN_DAY && s + 42 <= MAX_DAY {
                    Some((s, s + 42))
                } else {
                    None
                }
            },
            View::Agenda => if n + 15 <= MAX_DAY {
                Some((n, n + 15))
            } else {
                None
            },
        }
    }

    /// The days the view shows: the week itself in the week view, else what it requests.
    pub open spec fn visible_days(&self) -> Option<(int, int)> {
        let n = self.cursor_date.n as int;
        if self.view == View::Week {
            let s = n - week_offset(self.sunday_first(), n);
            if s >= MIN_DAY && s + 7 <= MAX_DAY {
                Some((s, s + 7))
            } else {
                None
            }
        } else {
            self.requested_days()
        }
    }
}

/// Whether the configured week starts on Sunday.
pub(crate) fn starts_on_sunday(config: &Config) -> (r: bool)
    ensures
        r == (lower(config.week_starts_on@) == lower("sunday"@)),
{
    let a = lower_vec(&chars_of(config.week_starts_on.as_str()));
    let b = lower_vec(&chars_of("sunday"));
    seq_eq(&a, &b)
}

/// Position of a day in its week.
fn offset_in_week(date: Day, sunday: bool) -> (r: i32)
    requires
        date.wf(),
    ensures
        r == week_offset(sunday, date.n as int),
        0 <= r < 7,
{
    if sunday {
        date.weekday_from_sunday() as i32
    } else {
        date.weekday_from_monday() as i32
    }
}

/// The Friday before a weekend day; other days unchanged.
pub fn previous_weekday(date: Day) -> (r: Day)
    requires
        date.wf(),
    ensures
        r.wf(),
        r.n == date.n - back_to_weekday(date.n as int),
{
    proof {
        lemma_first_day_is_thursday();
        if date.n < MIN_DAY + 2 {
            lemma_weekday_next(MIN_DAY as int);
        }
    }
    let w = date.weekday_from_monday();
    if w == 5 {
        Day { n: date.n - 1 }
    } else if w == 6 {
        Day { n: date.n - 2 }
    } else {
        date
    }
}

/// The day `a` to `b` as a range of local midnights, if both exist.
fn midnights(a: i32, b: i32) -> (r: Option<DateRange>)
    requires
        MIN_DAY <= a <= MAX_DAY,
        MIN_DAY <= b <= MAX_DAY,
    ensures
        r matches Some(range) ==> local_at_result(range.from, Day { n: a }, 0, 0)
            && local_at_result(range.to, Day { n: b }, 0, 0),
{
    match (local_at(Day { n: a }, 0, 0), local_at(Day { n: b }, 0, 0)) {
        (Some(from), Some(to)) => Some(DateRange::new(from, to)),
        _ => None,
    }
}

impl App {
    /// A fresh state on `initial_date`; where weekends are skipped and that day is a weekend
    /// day, on the Friday before. The cursor starts an hour into the visible hours.
    pub fn new(config: Config, initial_date: Day, initial_view: Option<View>) -> (r: App)
        requires
            initial_date.wf(),
        ensures
            r.wf(),
            r.config == config,
            r.view == (match initial_view {
                Some(v) => v,
                None => view_named(config.default_view@),
            }),
            r.cursor_date.n == (if r.skips_weekends() && weekend(initial_date.n as int) {
                initial_date.n - back_to_weekday(initial_date.n as int)
            } else {
                initial_date.n as int
            }),
            r.cursor_minutes == day_minutes_spec(config.day_start@, config.day_end@).0 + 60,
            r.preferred_month_day == ymd_of(r.cursor_date.n as int).2,
            r.mode == Mode::Normal,
            r.selected_event is None,
            r.calendars@.len() == 0,
            r.visible_calendars@.len() == 0,
            r.events@.len() == 0,
            r.error is None,
            r.status is None,
            r.editor is None,
            r.search.query@.len() == 0,
            r.search.results@.len() == 0,
            r.search.selected == 0,
            r.calendar_picker_index == 0,
            !r.should_quit,
            r.last_used_calendar is None,
            r.cache@.len() == 0,
            r.picker_original is None,
            r.confirm_return_mode == Mode::Normal,
    {
        let view = match initial_view {
            Some(v) => v,
            None => if is(&config.default_view, "agenda") {
                View::Agenda
            } else if is(&config.default_view, "month") {
                View::Month
            } else {
                View::Week
            },
        };
        let (day_start, _) = config.day_minutes();
        let cursor_date = if !config.show_weekends && view != View::Agenda
            && initial_date.is_weekend() {
            previous_weekday(initial_date)
        } else {
            initial_date
        };
        let (_, _, day) = cursor_date.ymd();
        let r = App {
            config,
            view,
            mode: Mode::Normal,
            cursor_date,
            cursor_minutes: day_start + 60,
            selected_event: None,
            calendars: Vec::new(),
            visible_calendars: Vec::new(),
            events: Vec::new(),
            error: None,
            status: None,
            editor: None,
            search: SearchState::default(),
            calendar_picker_index: 0,
            should_quit: false,
            last_used_calendar: None,
            cache: Vec::new(),
            picker_original: None,
            preferred_month_day: day,
            confirm_return_mode: Mode::Normal,
        };
        assert(r.vis() =~= Seq::<Seq<char>>::empty());
        assert(cache_keys(r.cache@) =~= Seq::<(i64, i64)>::empty());
        r
    }

    /// The first day of the week of the cursor.
    pub fn week_start(&self) -> (r: Day)
        requires
            self.wf(),
            self.cursor_date.n - week_offset(self.sunday_first(), self.cursor_date.n as int)
                >= MIN_DAY,
        ensures
            r.wf(),
            r.n == self.cursor_date.n - week_offset(self.sunday_first(), self.cursor_date.n as int),
    {
        let o = offset_in_week(self.cursor_date, starts_on_sunday(&self.config));
        Day { n: self.cursor_date.n - o }
    }

    /// The first day of the six-week grid that shows the cursor's month.
    pub fn month_grid_start(&self) -> (r: Day)
        requires
            self.wf(),
            ({
                let n = self.cursor_date.n as int;
                let first = n - (ymd_of(n).2 - 1);
                first - week_offset(self.sunday_first(), first) >= MIN_DAY
            }),
        ensures
            r.wf(),
            ({
                let n = self.cursor_date.n as int;
                let first = n - (ymd_of(n).2 - 1);
                r.n == first - week_offset(self.sunday_first(), first)
            }),
    {
        let (_, _, d) = self.cursor_date.ymd();
        let first = Day { n: self.cursor_date.n - (d as i32 - 1) };
        let o = offset_in_week(first, starts_on_sunday(&self.config));
        Day { n: first.n - o }
    }

    /// The days of `requested_days`, computed.
    pub fn requested_day_span(&self) -> (r: Option<(i32, i32)>)
        requires
            self.wf(),
        ensures
            match self.requested_days() {
                Some(d) => r == Some((d.0 as i32, d.1 as i32)),
                None => r is None,
            },
    {
        let n = self.cursor_date.n;
        let sunday = starts_on_sunday(&self.config);
        match self.view {
            View::Week => {
                let s = n - offset_in_week(self.cursor_date, sunday);
                if s >= MIN_DAY + 7 && s <= MAX_DAY - 14 {
                    Some((s - 7, s + 14))
                } else {
                    None
                }
            },
            View::Month => {
                let (_, _, d) = self.cursor_date.ymd();
                let first = n - (d as i32 - 1);
                if first < MIN_DAY {
                    return None;
                }
                let s = first - offset_in_week(Day { n: first }, sunday);
                if s >= MIN_DAY && s <= MAX_DAY - 42 {
                    Some((s, s + 42))
                } else {
                    None
                }
            },
            View::Agenda => if n <= MAX_DAY - 15 {
                Some((n, n + 15))
            } else {
                None
            },
        }
    }

    /// The days of `visible_days`, computed.
    fn visible_day_span(&self) -> (r: Option<(i32, i32)>)
        requires
            self.wf(),
        ensures
            match self.visible_days() {
                Some(d) => r == Some((d.0 as i32, d.1 as i32)),
                None => r is None,
            },
    {
        if self.view != View::Week {
            return self.requested_day_span();
        }
        let s = self.cursor_date.n - offset_in_week(self.cursor_date, starts_on_sunday(&self.config));
        if s >= MIN_DAY && s <= MAX_DAY - 7 {
            Some((s, s + 7))
        } else {
            None
        }
    }

    /// The range of instants the view asks the backend for: local midnight of the first
    /// requested day to local midnight after the last. `None` when a day is out of range or
    /// a midnight does not exist in the local time zone.
    pub fn requested_range(&self) -> (r: Option<DateRange>)
        requires
            self.wf(),
        ensures
            self.requested_days() is None ==> r is None,
            r matches Some(range) ==> ({
                let d = self.requested_days()->Some_0;
                &&& local_at_result(range.from, Day { n: d.0 as i32 }, 0, 0)
                &&& local_at_result(range.to, Day { n: d.1 as i32 }, 0, 0)
            }),
    {
        match self.requested_day_span() {
            Some((a, b)) => midnights(a, b),
            None => None,
        }
    }

    /// The range of instants the view shows (see `visible_days`).
    pub fn visible_range(&self) -> (r: Option<DateRange>)
        requires
            self.wf(),
        ensures
            self.visible_days() is None ==> r is None,
            r matches Some(range) ==> ({
                let d = self.visible_days()->Some_0;
                &&& local_at_result(range.from, Day { n: d.0 as i32 }, 0, 0)
                &&& local_at_result(range.to, Day { n: d.1 as i32 }, 0, 0)
            }),
    {
        match self.visible_day_span() {
            Some((a, b)) => midnights(a, b),
            None => None,
        }
    }

    /// The calendar with the given id.
    pub fn calendar(&self, id: &CalendarId) -> (r: Option<&Calendar>)
        ensures
            ({
                let k = first_where(self.calendars@.len() as int, calendar_with_id(self.calendars@, id@));
                match r {
                    Some(c) => 0 <= k < self.calendars@.len() && *c == self.calendars@[k],
                    None => k == -1,
                }
            }),
    {
        let ghost p = calendar_with_id(self.calendars@, id@);
        let mut k: usize = 0;
        while k < self.calendars.len()
            invariant
                k <= self.calendars.len(),
                p == calendar_with_id(self.calendars@, id@),
                first_where(k as int, p) == -1,
            decreases self.calendars.len() - k,
        {
            proof {
                lemma_first_where_step(k as int, p);
            }
            if self.calendars[k].id.same(id) {
                proof {
                    lemma_first_where(k as int, p);
                    lemma_first_where(self.calendars@.len() as int, p);
                }
                return Some(&self.calendars[k]);
            }
            k = k + 1;
        }
        None
    }

    /// Shows an error message.
    pub fn set_error(&mut self, message: String)
        ensures
            *final(self) == (App { error: Some(message), ..*old(self) }),
    {
        self.error = Some(message);
    }
}

/// Whether an event shows on a day: a timed event on the day it starts, an all-day event on
/// every day from its start up to (excluding) its end day, and at least on its start day.
pub open spec fn occurs_on(e: EventView, date: int) -> bool {
    if !e.all_day {
        e.start.day.n == date
    } else {
        let s = e.start.day.n as int;
        let end = if e.end.day.n > s {
            e.end.day.n as int
        } else {
            s + 1
        };
        s <= date < end
    }
}

/// Whether `event` shows on `date` (see `occurs_on`).
pub fn event_occurs_on(event: &Event, date: Day) -> (r: bool)
    ensures
        r == occurs_on(event@, date.n as int),
{
    if !event.all_day {
        return event.start.day.n == date.n;
    }
    let s = event.start.day.n as i64;
    let end: i64 = if event.end.day.n as i64 > s {
        event.end.day.n as i64
    } else {
        s + 1
    };
    s <= date.n as i64 && (date.n as i64) < end
}

/// How far an event is from the cursor when choosing what to select: the distance in minutes
/// from its start, all-day events coming last.
pub open spec fn selection_key(e: EventView, cursor: int) -> int {
    if e.all_day {
        0x3fff_ffff_ffff_ffff
    } else {
        let d = e.start.minutes() - cursor;
        if d < 0 {
            -d
        } else {
            d
        }
    }
}

/// The events whose calendar is visible, in order.
pub open spec fn shown(s: Seq<EventView>, vis: Seq<Seq<char>>) -> Seq<EventView>
    decreases s.len(),
{
    if s.len() == 0 {
        Seq::empty()
    } else {
        let prev = shown(s.drop_last(), vis);
        if vis.contains(s.last().calendar_id) {
            prev.push(s.last())
        } else {
            prev
        }
    }
}

impl App {
    /// The event may be chosen as selection: its calendar is visible and it shows on the
    /// cursor's day.
    pub open spec fn candidate(&self, e: EventView) -> bool {
        self.vis().contains(e.calendar_id) && occurs_on(e, self.cursor_date.n as int)
    }

    /// `k` is the first of the candidates nearest to the cursor.
    pub open spec fn best_candidate(&self, k: int) -> bool {
        &&& 0 <= k < self.ev().len()
        &&& self.candidate(self.ev()[k])
        &&& forall|j: int|
            0 <= j < self.ev().len() && self.candidate(#[trigger] self.ev()[j]) ==> selection_key(
                self.ev()[k],
                self.cursor_minutes as int,
            ) <= selection_key(self.ev()[j], self.cursor_minutes as int)
        &&& forall|j: int|
            0 <= j < k && self.candidate(#[trigger] self.ev()[j]) ==> selection_key(
                self.ev()[j],
                self.cursor_minutes as int,
            ) > selection_key(self.ev()[k], self.cursor_minutes as int)
    }

    /// The selected event is loaded and its calendar is visible.
    pub open spec fn selection_shown(&self) -> bool {
        match self.selected_id() {
            Some(id) => exists|i: int|
                0 <= i < self.ev().len() && (#[trigger] self.ev()[i]).id == id
                    && self.vis().contains(self.ev()[i].calendar_id),
            None => false,
        }
    }

    /// What `ensure_selection` does to the selection: a shown selection stays; otherwise the
    /// first candidate nearest to the cursor is selected, or nothing when there is none.
    pub open spec fn selection_settled(before: App, after: App) -> bool {
        &&& after == (App { selected_event: after.selected_event, ..before })
        &&& if before.selection_shown() {
            after.selected_id() == before.selected_id()
        } else {
            match after.selected_id() {
                None => forall|i: int|
                    0 <= i < before.ev().len() ==> !before.candidate(#[trigger] before.ev()[i]),
                Some(id) => exists|k: int| before.best_candidate(k) && id == before.ev()[k].id,
            }
        }
    }

    /// Whether the calendar is visible.
    pub fn is_visible(&self, id: &CalendarId) -> (r: bool)
        ensures
            r == self.vis().contains(id@),
    {
        let mut k: usize = 0;
        while k < self.visible_calendars.len()
            invariant
                k <= self.visible_calendars.len(),
                forall|j: int| 0 <= j < k ==> self.vis()[j] != id@,
            decreases self.visible_calendars.len() - k,
        {
            if self.visible_calendars[k].same(id) {
                assert(self.vis()[k as int] == id@);
                return true;
            }
            k = k + 1;
        }
        false
    }

    /// The loaded events whose calendar is visible, in order.
    pub fn visible_events(&self) -> (r: Vec<Event>)
        ensures
            event_views(r@) == shown(self.ev(), self.vis()),
            events_wf(self.events@) ==> events_wf(r@),
    {
        let ghost s = self.ev();
        let mut r: Vec<Event> = Vec::new();
        let mut k: usize = 0;
        assert(s.take(0) =~= Seq::<EventView>::empty());
        while k < self.events.len()
            invariant
                k <= self.events.len(),
                s == self.ev(),
                event_views(r@) == shown(s.take(k as int), self.vis()),
                events_wf(self.events@) ==> events_wf(r@),
            decreases self.events.len() - k,
        {
            let ghost before = event_views(r@);
            let ghost rb = r@;
            if self.is_visible(&self.events[k].calendar_id) {
                r.push(self.events[k].clone());
                assert(event_views(r@) =~= before.push(s[k as int]));
            }
            assert(s.take(k + 1).drop_last() =~= s.take(k as int));
            k = k + 1;
        }
        assert(s.take(k as int) =~= s);
        r
    }

    /// The selected event, if it is loaded.
    pub fn selected(&self) -> (r: Option<&Event>)
        ensures
            match self.selected_id() {
                None => r is None,
                Some(id) => {
                    let k = first_where(self.events@.len() as int, event_with_id(self.events@, id));
                    match r {
                        Some(e) => 0 <= k < self.events@.len() && *e == self.events@[k],
                        None => k == -1,
                    }
                },
            },
    {
        match &self.selected_event {
            None => None,
            Some(id) => match find_event(&self.events, id) {
                Some(k) => Some(&self.events[k]),
                None => None,
            },
        }
    }

    /// Whether an event with the id is loaded in a visible calendar.
    fn shows_event(&self, id: &EventId) -> (r: bool)
        ensures
            r == exists|i: int|
                0 <= i < self.ev().len() && (#[trigger] self.ev()[i]).id == id@
                    && self.vis().contains(self.ev()[i].calendar_id),
    {
        let mut k: usize = 0;
        while k < self.events.len()
            invariant
                k <= self.events.len(),
                forall|i: int|
                    0 <= i < k ==> !((#[trigger] self.ev()[i]).id == id@ && self.vis().contains(
                        self.ev()[i].calendar_id,
                    )),
            decreases self.events.len() - k,
        {
            if self.events[k].id.same(id) && self.is_visible(&self.events[k].calendar_id) {
                assert(self.ev()[k as int].id == id@);
                return true;
            }
            k = k + 1;
        }
        false
    }

    /// Keeps a selection that is shown; otherwise selects the event of the cursor's day nearest
    /// to the cursor (the first of equals; all-day events last), or nothing.
    pub fn ensure_selection(&mut self)
        ensures
            App::selection_settled(*old(self), *final(self)),
    {
        if let Some(id) = &self.selected_event {
            if self.shows_event(id) {
                return;
            }
        }
        let cursor = self.cursor_minutes as i64;
        let mut best: Option<usize> = None;
        let mut best_key: i64 = 0;
        let mut k: usize = 0;
        while k < self.events.len()
            invariant
                k <= self.events.len(),
                cursor == self.cursor_minutes,
                match best {
                    None => forall|j: int| 0 <= j < k ==> !self.candidate(#[trigger] self.ev()[j]),
                    Some(b) => {
                        &&& b < k
                        &&& self.candidate(self.ev()[b as int])
                        &&& best_key == selection_key(self.ev()[b as int], cursor as int)
                        &&& forall|j: int|
                            0 <= j < k && self.candidate(#[trigger] self.ev()[j]) ==> best_key
                                <= selection_key(self.ev()[j], cursor as int)
                        &&& forall|j: int|
                            0 <= j < b && self.candidate(#[trigger] self.ev()[j]) ==> selection_key(
                                self.ev()[j],
                                cursor as int,
                            ) > best_key
                    },
                },
            decreases self.events.len() - k,
        {
            let e = &self.events[k];
            if self.is_visible(&e.calendar_id) && event_occurs_on(e, self.cursor_date) {
                let key: i64 = if e.all_day {
                    0x3fff_ffff_ffff_ffff
                } else {
                    let d = e.start.hour as i64 * 60 + e.start.minute as i64 - cursor;
                    if d < 0 {
                        -d
                    } else {
                        d
                    }
                };
                let better = match best {
                    None => true,
                    Some(_) => key < best_key,
                };
                if better {
                    best = Some(k);
                    best_key = key;
                }
            }
            k = k + 1;
        }
        let ghost before = *self;
        match best {
            Some(b) => {
                let id = self.events[b].id.clone();
                self.selected_event = Some(id);
                assert(before.best_candidate(b as int));
            },
            None => {
                self.selected_event = None;
            },
        }
    }
}

/// Whether the event at an index has the given id.
pub open spec fn event_with_id(events: Seq<Event>, id: Seq<char>) -> spec_fn(int) -> bool {
    |i: int| events[i].id@ == id
}

/// The first event with the given id.
pub fn find_event(events: &Vec<Event>, id: &EventId) -> (r: Option<usize>)
    ensures
        ({
            let k = first_where(events@.len() as int, event_with_id(events@, id@));
            match r {
                Some(i) => i == k && 0 <= k < events.len(),
                None => k == -1,
            }
        }),
{
    let ghost p = event_with_id(events@, id@);
    let mut k: usize = 0;
    while k < events.len()
        invariant
            k <= events.len(),
            p == event_with_id(events@, id@),
            first_where(k as int, p) == -1,
        decreases events.len() - k,
    {
        proof {
            lemma_first_where_step(k as int, p);
        }
        if events[k].id.same(id) {
            proof {
                lemma_first_where(k as int, p);
                lemma_first_where(events@.len() as int, p);
            }
            return Some(k);
        }
        k = k + 1;
    }
    None
}

/// The cache as plain values: each range with its events.
pub open spec fn cache_view(c: Seq<((i64, i64), Vec<Event>)>) -> Seq<((i64, i64), Seq<EventView>)> {
    c.map_values(|e: ((i64, i64), Vec<Event>)| (e.0, event_views(e.1@)))
}

/// Whether the cache entry at an index is for exactly the range `key`.
pub open spec fn entry_for(c: Seq<((i64, i64), Seq<EventView>)>, key: (i64, i64)) -> spec_fn(int) -> bool {
    |i: int| c[i].0 == key
}

/// Whether the cache entry at an index was fetched for a range that covers `[from, to]`.
pub open spec fn entry_covering(c: Seq<((i64, i64), Seq<EventView>)>, from: i64, to: i64) -> spec_fn(
    int,
) -> bool {
    |i: int| c[i].0.0 <= from && c[i].0.1 >= to
}

/// The Unix seconds of a range, the key it is cached under.
pub open spec fn range_key(r: DateRange) -> (i64, i64) {
    (r.from.secs, r.to.secs)
}

/// The events that the cache holds for `range`: the entry for exactly that range; else those
/// of the first entry covering it that overlap it; else those of the first entry covering the
/// visible range `vis` that overlap `vis`. `None` when no entry serves.
pub open spec fn cache_lookup(c: Seq<((i64, i64), Seq<EventView>)>, range: DateRange, vis: DateRange) -> Option<
    Seq<EventView>,
> {
    let e = first_where(c.len() as int, entry_for(c, range_key(range)));
    let s = first_where(c.len() as int, entry_covering(c, range.from.secs, range.to.secs));
    let v = first_where(c.len() as int, entry_covering(c, vis.from.secs, vis.to.secs));
    if e >= 0 {
        Some(c[e].1)
    } else if s >= 0 {
        Some(overlapping(c[s].1, range.from, range.to))
    } else if v >= 0 {
        Some(overlapping(c[v].1, vis.from, vis.to))
    } else {
        None
    }
}

/// The cache after storing `events` for `key`: the entry for `key` replaced if there is one,
/// else a new entry at the end.
pub open spec fn cache_store(c: Seq<((i64, i64), Seq<EventView>)>, key: (i64, i64), events: Seq<EventView>) -> Seq<
    ((i64, i64), Seq<EventView>),
> {
    let i = first_where(c.len() as int, entry_for(c, key));
    if i >= 0 {
        c.update(i, (key, events))
    } else {
        c.push((key, events))
    }
}

/// The most ranges the cache holds before it is emptied.
pub const CACHE_LIMIT: usize = 24;

/// The first cache entry that satisfies a test on its range.
fn find_entry(c: &Vec<((i64, i64), Vec<Event>)>, key: (i64, i64), cover: bool) -> (r: Option<usize>)
    ensures
        ({
            let p = if cover {
                entry_covering(cache_view(c@), key.0, key.1)
            } else {
                entry_for(cache_view(c@), key)
            };
            let k = first_where(c@.len() as int, p);
            match r {
                Some(i) => i == k && 0 <= k < c@.len(),
                None => k == -1,
            }
        }),
{
    let ghost p = if cover {
        entry_covering(cache_view(c@), key.0, key.1)
    } else {
        entry_for(cache_view(c@), key)
    };
    let mut k: usize = 0;
    while k < c.len()
        invariant
            k <= c.len(),
            p == (if cover {
                entry_covering(cache_view(c@), key.0, key.1)
            } else {
                entry_for(cache_view(c@), key)
            }),
            first_where(k as int, p) == -1,
        decreases c.len() - k,
    {
        proof {
            lemma_first_where_step(k as int, p);
        }
        let (from, to) = c[k].0;
        let hit = if cover {
            from <= key.0 && to >= key.1
        } else {
            from == key.0 && to == key.1
        };
        if hit {
            assert(p(k as int));
            proof {
                lemma_first_where(k as int, p);
                lemma_first_where(c@.len() as int, p);
            }
            return Some(k);
        }
        k = k + 1;
    }
    None
}

impl App {
    /// What reloading the view's events does to `before`, giving `after` and `r` (see
    /// `plan_refresh`).
    pub open spec fn refreshed(before: App, after: App, force: bool, r: Result<Option<DateRange>, String>) -> bool {
        &&& before.requested_days() is None ==> r is Err
        &&& force ==> !(r matches Ok(None))
        &&& match r {
            Err(m) => m@ == "Date is out of range."@ && after == before,
            Ok(Some(range)) => midnights_of(before.requested_days(), range) && if force {
                after == (App { cache: after.cache, ..before }) && after.cache@.len() == 0
            } else {
                after == before && exists|visible: DateRange|
                    #[trigger] midnights_of(before.visible_days(), visible)
                        && cache_lookup(cache_view(before.cache@), range, visible) is None
            },
            Ok(None) => exists|range: DateRange, visible: DateRange|
                {
                    &&& #[trigger] cache_lookup(cache_view(before.cache@), range, visible) == Some(
                        after.ev(),
                    )
                    &&& midnights_of(before.requested_days(), range)
                    &&& midnights_of(before.visible_days(), visible)
                    &&& after == (App {
                        events: after.events,
                        selected_event: after.selected_event,
                        ..before
                    })
                    &&& App::selection_settled(
                        (App { selected_event: before.selected_event, ..after }),
                        after,
                    )
                },
        }
    }

}

/// `range` runs from local midnight of the first day of `days` to local midnight of the second.
pub open spec fn midnights_of(days: Option<(int, int)>, range: DateRange) -> bool {
    days matches Some(d) && local_at_result(range.from, Day { n: d.0 as i32 }, 0, 0)
        && local_at_result(range.to, Day { n: d.1 as i32 }, 0, 0)
}

impl App {
    /// Loads the view's events from the cache when an entry serves `range` (see
    /// `cache_lookup`), then settles the selection; otherwise changes nothing.
    pub fn serve_from_cache(&mut self, range: DateRange, visible: DateRange) -> (r: bool)
        requires
            old(self).wf(),
        ensures
            final(self).wf(),
            r == cache_lookup(cache_view(old(self).cache@), range, visible) is Some,
            !r ==> *final(self) == *old(self),
            r ==> final(self).ev() == cache_lookup(cache_view(old(self).cache@), range, visible)->Some_0,
            r ==> *final(self) == (App {
                events: final(self).events,
                selected_event: final(self).selected_event,
                ..*old(self)
            }),
            r ==> App::selection_settled(
                (App { selected_event: old(self).selected_event, ..*final(self) }),
                *final(self),
            ),
    {
        let ghost c = cache_view(self.cache@);
        let key = (range.from.secs, range.to.secs);
        let hit = match find_entry(&self.cache, key, false) {
            Some(i) => Some(clone_events(&self.cache[i].1)),
            None => match find_entry(&self.cache, key, true) {
                Some(i) => Some(overlapping_events(&self.cache[i].1, range.from, range.to)),
                None => match find_entry(&self.cache, (visible.from.secs, visible.to.secs), true) {
                    Some(i) => Some(overlapping_events(&self.cache[i].1, visible.from, visible.to)),
                    None => None,
                },
            },
        };
        match hit {
            None => false,
            Some(events) => {
                self.events = events;
                self.ensure_selection();
                true
            },
        }
    }

    /// Stores events fetched for `range` (emptying the cache first when it is full), makes them
    /// the view's events and settles the selection.
    pub fn finish_refresh(&mut self, range: DateRange, events: Vec<Event>)
        requires
            old(self).wf(),
            events_wf(events@),
        ensures
            final(self).wf(),
            final(self).ev() == event_views(events@),
            cache_view(final(self).cache@) == cache_store(
                if old(self).cache@.len() >= CACHE_LIMIT {
                    Seq::empty()
                } else {
                    cache_view(old(self).cache@)
                },
                range_key(range),
                event_views(events@),
            ),
            *final(self) == (App {
                events: final(self).events,
                cache: final(self).cache,
                selected_event: final(self).selected_event,
                ..*old(self)
            }),
            App::selection_settled(
                (App { selected_event: old(self).selected_event, ..*final(self) }),
                *final(self),
            ),
    {
        if self.cache.len() >= CACHE_LIMIT {
            self.cache = Vec::new();
        }
        let key = (range.from.secs, range.to.secs);
        let copy = clone_events(&events);
        let ghost c = cache_view(self.cache@);
        let ghost keys = cache_keys(self.cache@);
        match find_entry(&self.cache, key, false) {
            Some(i) => {
                proof {
                    lemma_first_where(c.len() as int, entry_for(c, key));
                    assert(keys[i as int] == key);
                }
                self.cache.set(i, (key, copy));
                assert(cache_view(self.cache@) =~= c.update(i as int, (key, event_views(events@))));
                assert(cache_keys(self.cache@) =~= keys);
            },
            None => {
                self.cache.push((key, copy));
                assert(cache_view(self.cache@) =~= c.push((key, event_views(events@))));
                assert(cache_keys(self.cache@) =~= keys.push(key));
                proof {
                    lemma_first_where(c.len() as int, entry_for(c, key));
                    assert forall|j: int| 0 <= j < keys.len() implies keys[j] != key by {
                        assert(!entry_for(c, key)(j));
                    }
                }
            },
        }
        self.events = events;
        self.ensure_selection();
    }

    /// Reloads the view's events. Without `force`, a cache entry that serves the view (see
    /// `serve_from_cache`) is used and the result is `Ok(None)`; otherwise the state is
    /// unchanged and `Ok(Some(range))` names the range to fetch, whose events `finish_refresh`
    /// then takes. With `force` the cache is emptied and the range is always fetched. The error
    /// "Date is out of range." when the view's days or their local midnights cannot be had.
    pub fn plan_refresh(&mut self, force: bool) -> (r: Result<Option<DateRange>, String>)
        requires
            old(self).wf(),
        ensures
            final(self).wf(),
            App::refreshed(*old(self), *final(self), force, r),
    {
        let range = match self.requested_range() {
            Some(r) => r,
            None => return Err(String::from_str("Date is out of range.")),
        };
        let visible = match self.visible_range() {
            Some(r) => r,
            None => return Err(String::from_str("Date is out of range.")),
        };
        if force {
            self.cache = Vec::new();
            assert(cache_keys(self.cache@) =~= Seq::<(i64, i64)>::empty());
            return Ok(Some(range));
        }
        if self.serve_from_cache(range, visible) {
            return Ok(None);
        }
        assert(midnights_of(old(self).visible_days(), visible));
        Ok(Some(range))
    }
}

/// Where stepping by `step` from `n` first leaves the weekend (`n` itself on a weekday).
pub open spec fn skip_weekend(n: int, step: int) -> int {
    if !weekend(n) {
        n
    } else if !weekend(n + step) {
        n + step
    } else {
        n + 2 * step
    }
}

/// Two steps from a weekend day in either direction always reach a weekday.
pub proof fn lemma_skip_weekend(n: int, step: int)
    requires
        step == 1 || step == -1,
    ensures
        !weekend(skip_weekend(n, step)),
{
    lemma_weekday_next(n);
    lemma_weekday_next(n + step);
}

/// `x` held between `lo` and `hi`.
pub open spec fn clamp(x: int, lo: int, hi: int) -> int {
    if x < lo {
        lo
    } else if x > hi {
        hi
    } else {
        x
    }
}

impl App {
    /// The cursor's day after moving `days` days; where weekends are skipped, a move that lands
    /// on a weekend day goes on in the same direction to the next weekday. `None` when a day
    /// on the way is out of range.
    pub open spec fn day_moved(&self, days: int) -> Option<int> {
        let t = self.cursor_date.n + days;
        if t < MIN_DAY || t > MAX_DAY {
            None
        } else if self.skips_weekends() && days != 0 {
            let l = skip_weekend(t, if days > 0 { 1 } else { -1 });
            if MIN_DAY <= l <= MAX_DAY {
                Some(l)
            } else {
                None
            }
        } else {
            Some(t)
        }
    }

    /// The state with the cursor on day `n`, the preferred day of the month following it and
    /// no selection.
    pub open spec fn at_day(self, n: int) -> App {
        App {
            cursor_date: Day { n: n as i32 },
            preferred_month_day: ymd_of(n).2 as u32,
            selected_event: None,
            ..self
        }
    }

    /// The cursor's day after moving `months` months: the preferred day of the month, or the
    /// month's last day when it is shorter; where weekends are skipped, a weekend day gives the
    /// Friday before. `None` when the month is out of range.
    pub open spec fn month_moved(&self, months: int) -> Option<int> {
        let ymd = ymd_of(self.cursor_date.n as int);
        let index = ymd.0 * 12 + (ymd.1 - 1) + months;
        let y = index / 12;
        let m = index % 12 + 1;
        let d = if self.preferred_month_day < days_in_month(y, m) {
            self.preferred_month_day as int
        } else {
            days_in_month(y, m)
        };
        if valid_ymd(y, m, d) {
            let n = day_number(y, m, d);
            Some(
                if self.skips_weekends() && weekend(n) {
                    n - back_to_weekday(n)
                } else {
                    n
                },
            )
        } else {
            None
        }
    }

    /// The state on the day of `now`, at its time of day, with no selection; the agenda view
    /// when `now` is a weekend day that the view would skip.
    pub open spec fn at_now(self, now: Moment) -> App {
        App {
            cursor_date: now.day,
            view: if self.skips_weekends() && weekend(now.day.n as int) {
                View::Agenda
            } else {
                self.view
            },
            preferred_month_day: ymd_of(now.day.n as int).2 as u32,
            cursor_minutes: now.minutes() as u16,
            selected_event: None,
            ..self
        }
    }

    /// Switches the view and returns to the normal mode, then reloads (see `plan_refresh`).
    pub fn set_view(&mut self, view: View) -> (r: Result<Option<DateRange>, String>)
        requires
            old(self).wf(),
        ensures
            final(self).wf(),
            App::refreshed(App { view: view, mode: Mode::Normal, ..*old(self) }, *final(self), false, r),
    {
        self.view = view;
        self.mode = Mode::Normal;
        self.plan_refresh(false)
    }

    /// Moves the cursor by `days` days (see `day_moved`), clears the selection and reloads;
    /// the error "Date is out of range." leaves the state as it was.
    pub fn move_cursor_days(&mut self, days: i64) -> (r: Result<Option<DateRange>, String>)
        requires
            old(self).wf(),
        ensures
            final(self).wf(),
            match old(self).day_moved(days as int) {
                None => r matches Err(m) && m@ == "Date is out of range."@ && *final(self) == *old(self),
                Some(n) => App::refreshed(old(self).at_day(n), *final(self), false, r),
            },
    {
        let mut target = match self.cursor_date.add_days(days) {
            Some(d) => d,
            None => return Err(String::from_str("Date is out of range.")),
        };
        if !self.config.show_weekends && self.view != View::Agenda && days != 0 {
            let step: i64 = if days > 0 {
                1
            } else {
                -1
            };
            proof {
                lemma_skip_weekend(target.n as int, step as int);
            }
            if target.is_weekend() {
                target = match target.add_days(step) {
                    Some(d) => d,
                    None => return Err(String::from_str("Date is out of range.")),
                };
                if target.is_weekend() {
                    target = match target.add_days(step) {
                        Some(d) => d,
                        None => return Err(String::from_str("Date is out of range.")),
                    };
                }
            }
        }
        let (_, _, d) = target.ymd();
        self.cursor_date = target;
        self.preferred_month_day = d;
        self.selected_event = None;
        self.plan_refresh(false)
    }

    /// Moves the cursor by `months` months (see `month_moved`), clears the selection and
    /// reloads; the error "Date is out of range." leaves the state as it was.
    pub fn move_month(&mut self, months: i32) -> (r: Result<Option<DateRange>, String>)
        requires
            old(self).wf(),
        ensures
            final(self).wf(),
            match old(self).month_moved(months as int) {
                None => r matches Err(m) && m@ == "Date is out of range."@ && *final(self) == *old(self),
                Some(n) => App::refreshed(
                    App { cursor_date: Day { n: n as i32 }, selected_event: None, ..*old(self) },
                    *final(self),
                    false,
                    r,
                ),
            },
    {
        let (y, m, _) = self.cursor_date.ymd();
        let shifted: i64 = y as i64 * 12 + (m as i64 - 1) + months as i64 + 3_600_000_000;
        let year: i64 = shifted / 12 - 300_000_000;
        let month: i64 = shifted % 12 + 1;
        proof {
            let index = y * 12 + (m - 1) + months;
            assert(index / 12 == year) by {
                assert(shifted == index + 12 * 300_000_000);
            }
            assert(index % 12 + 1 == month) by {
                assert(shifted == index + 12 * 300_000_000);
            }
        }
        if year < MIN_YEAR as i64 || year > MAX_YEAR as i64 {
            return Err(String::from_str("Date is out of range."));
        }
        let last = last_day_of_month(year as i32, month as u32);
        let day = if self.preferred_month_day < last {
            self.preferred_month_day
        } else {
            last
        };
        let mut date = match Day::from_ymd(year as i32, month as u32, day) {
            Some(d) => d,
            None => return Err(String::from_str("Date is out of range.")),
        };
        if !self.config.show_weekends && self.view != View::Agenda && date.is_weekend() {
            date = previous_weekday(date);
        }
        self.cursor_date = date;
        self.selected_event = None;
        self.plan_refresh(false)
    }

    /// Jumps to `now` (see `at_now`) and reloads.
    pub fn today_at(&mut self, now: Moment) -> (r: Result<Option<DateRange>, String>)
        requires
            old(self).wf(),
            now.wf(),
        ensures
            final(self).wf(),
            App::refreshed(old(self).at_now(now), *final(self), false, r),
    {
        self.cursor_date = now.day;
        if !self.config.show_weekends && self.view != View::Agenda && self.cursor_date.is_weekend() {
            self.view = View::Agenda;
        }
        let (_, _, d) = self.cursor_date.ymd();
        self.preferred_month_day = d;
        self.cursor_minutes = now.minutes_into_day() as u16;
        self.selected_event = None;
        self.plan_refresh(false)
    }

    /// Jumps to the current local date and time (see `today_at`).
    pub fn today(&mut self) -> (r: Result<Option<DateRange>, String>)
        requires
            old(self).wf(),
        ensures
            final(self).wf(),
            exists|n: Moment| n.wf() && App::refreshed(old(self).at_now(n), *final(self), false, r),
    {
        let n = now();
        self.today_at(n)
    }

    /// What moving the cursor by `minutes` does (see `move_time`).
    pub open spec fn time_moved(before: App, after: App, minutes: i16) -> bool {
        &&& ({
            let hours = day_minutes_spec(before.config.day_start@, before.config.day_end@);
            let moved = clamp(before.cursor_minutes + minutes, 0, 65535);
            App::selection_settled(
                App {
                    cursor_minutes: clamp(moved, hours.0, hours.1 - 1) as u16,
                    selected_event: None,
                    ..before
                },
                after,
            )
        })
    }

    /// Moves the cursor by `minutes` within the visible hours, clears the selection and
    /// settles a new one.
    pub fn move_time(&mut self, minutes: i16)
        requires
            old(self).wf(),
        ensures
            final(self).wf(),
            App::time_moved(*old(self), *final(self), minutes),
    {
        let (start, end) = self.config.day_minutes();
        let sum: i32 = self.cursor_minutes as i32 + minutes as i32;
        let moved: u16 = if sum < 0 {
            0
        } else if sum > 65535 {
            65535
        } else {
            sum as u16
        };
        self.cursor_minutes = if moved < start {
            start
        } else if moved > end - 1 {
            end - 1
        } else {
            moved
        };
        self.selected_event = None;
        self.ensure_selection();
    }

    /// What scrolling the visible hours by `hours` does (see `scroll_hours`).
    pub open spec fn hours_scrolled(before: App, after: App, hours: i16) -> bool {
        &&& ({
            let h = day_minutes_spec(before.config.day_start@, before.config.day_end@);
            let span = h.1 - h.0;
            let raised = clamp(h.0 + clamp(hours * 60, -32768, 32767), 0, 65535);
            let start = if raised < 1440 - span {
                raised
            } else {
                1440 - span
            };
            &&& after.config.day_start@ == clock(start)
            &&& after.config.day_end@ == clock(start + span)
            &&& day_minutes_spec(after.config.day_start@, after.config.day_end@) == (
                start,
                start + span,
            )
            &&& after.config == (Config {
                day_start: after.config.day_start,
                day_end: after.config.day_end,
                ..before.config
            })
            &&& after == (App {
                config: after.config,
                cursor_minutes: clamp(before.cursor_minutes as int, start, start + span - 1) as u16,
                ..before
            })
        })
    }

    /// Scrolls the visible hours by `hours`, keeping their span and staying within the day;
    /// the cursor is kept inside them.
    pub fn scroll_hours(&mut self, hours: i16)
        requires
            old(self).wf(),
        ensures
            final(self).wf(),
            App::hours_scrolled(*old(self), *final(self), hours),
    {
        let (start, end) = self.config.day_minutes();
        let span = end - start;
        let max_start = 24 * 60 - span;
        let product: i32 = hours as i32 * 60;
        let step: i32 = if product < -32768 {
            -32768
        } else if product > 32767 {
            32767
        } else {
            product
        };
        let sum: i32 = start as i32 + step;
        let raised: u16 = if sum < 0 {
            0
        } else if sum > 65535 {
            65535
        } else {
            sum as u16
        };
        let new_start = if raised < max_start {
            raised
        } else {
            max_start
        };
        let new_end = new_start + span;
        proof {
            lemma_day_minutes_read(new_start as int, new_end as int);
        }
        self.config.day_start = clock_string(new_start);
        self.config.day_end = clock_string(new_end);
        self.cursor_minutes = if self.cursor_minutes < new_start {
            new_start
        } else if self.cursor_minutes > new_end - 1 {
            new_end - 1
        } else {
            self.cursor_minutes
        };
    }
}

/// Adding a wrapped step to an index below `len` is adding the step modulo `len`.
pub proof fn lemma_wrap(cur: int, d: int, len: int)
    requires
        len > 0,
        0 <= cur < len,
    ensures
        d >= 0 ==> (cur + d % len) % len == (cur + d) % len,
        d < 0 ==> (cur + len - (-d) % len) % len == (cur + d) % len,
{
    if d >= 0 {
        let q = d / len;
        let r = d % len;
        vstd::arithmetic::div_mod::lemma_fundamental_div_mod(d, len);
        let q2 = (cur + r) / len;
        let t = (cur + r) % len;
        vstd::arithmetic::div_mod::lemma_fundamental_div_mod(cur + r, len);
        assert(cur + d == (q + q2) * len + t) by (nonlinear_arith)
            requires
                d == len * q + r,
                cur + r == len * q2 + t,
        ;
        vstd::arithmetic::div_mod::lemma_fundamental_div_mod_converse_mod(cur + d, len, q + q2, t);
    } else {
        let e = -d;
        let q = e / len;
        let r = e % len;
        vstd::arithmetic::div_mod::lemma_fundamental_div_mod(e, len);
        let q2 = (cur + len - r) / len;
        let t = (cur + len - r) % len;
        vstd::arithmetic::div_mod::lemma_fundamental_div_mod(cur + len - r, len);
        assert(cur + d == (q2 - q - 1) * len + t) by (nonlinear_arith)
            requires
                e == len * q + r,
                d == -e,
                cur + len - r == len * q2 + t,
        ;
        vstd::arithmetic::div_mod::lemma_fundamental_div_mod_converse_mod(cur + d, len, q2 - q - 1, t);
    }
}

/// `(cur + delta)` wrapped into `0..len`.
pub fn wrap_index(cur: usize, delta: i32, len: usize) -> (r: usize)
    requires
        0 <= cur < len,
    ensures
        r == (cur + delta) % (len as int),
        r < len,
{
    proof {
        lemma_wrap(cur as int, delta as int, len as int);
    }
    if delta >= 0 {
        let step = delta as usize % len;
        ((cur as u128 + step as u128) % len as u128) as usize
    } else {
        let back = ((-(delta as i64)) as u64 % len as u64) as usize;
        ((cur as u128 + len as u128 - back as u128) % len as u128) as usize
    }
}

/// Where a stable insertion by instant puts `x` into `t`: after every item that is not later.
pub open spec fn instant_insert_pos(t: Seq<(Seq<char>, Moment)>, x: (Seq<char>, Moment)) -> int
    decreases t.len(),
{
    if t.len() == 0 {
        0
    } else if x.1.before(t[0].1) {
        0
    } else {
        1 + instant_insert_pos(t.drop_first(), x)
    }
}

/// The place where an entry goes into a list sorted by instant lies within the list.
pub proof fn lemma_instant_insert_pos_bounds(t: Seq<(Seq<char>, Moment)>, x: (Seq<char>, Moment))
    ensures
        0 <= instant_insert_pos(t, x) <= t.len(),
    decreases t.len(),
{
    if t.len() > 0 && !x.1.before(t[0].1) {
        lemma_instant_insert_pos_bounds(t.drop_first(), x);
    }
}

/// Ids stably sorted by their instants (what `sort_by_key` on the instant yields).
pub open spec fn sort_by_instant(s: Seq<(Seq<char>, Moment)>) -> Seq<(Seq<char>, Moment)>
    decreases s.len(),
{
    if s.len() == 0 {
        Seq::empty()
    } else {
        let t = sort_by_instant(s.drop_last());
        t.insert(instant_insert_pos(t, s.last()), s.last())
    }
}

/// Sorting by instant keeps the number of entries.
pub proof fn lemma_sort_by_instant_len(s: Seq<(Seq<char>, Moment)>)
    ensures
        sort_by_instant(s).len() == s.len(),
    decreases s.len(),
{
    if s.len() > 0 {
        lemma_sort_by_instant_len(s.drop_last());
        lemma_instant_insert_pos_bounds(sort_by_instant(s.drop_last()), s.last());
    }
}

/// Ids with instants as plain values.
pub open spec fn pair_views(v: Seq<(EventId, Moment)>) -> Seq<(Seq<char>, Moment)> {
    v.map_values(|p: (EventId, Moment)| (p.0@, p.1))
}

/// Copies of the pairs, sorted stably by instant.
fn sort_pairs(v: &Vec<(EventId, Moment)>) -> (r: Vec<(EventId, Moment)>)
    ensures
        pair_views(r@) == sort_by_instant(pair_views(v@)),
{
    let ghost vv = pair_views(v@);
    let mut sorted: Vec<(EventId, Moment)> = Vec::new();
    let mut i: usize = 0;
    assert(vv.take(0) =~= Seq::<(Seq<char>, Moment)>::empty());
    while i < v.len()
        invariant
            i <= v.len(),
            vv == pair_views(v@),
            pair_views(sorted@) == sort_by_instant(vv.take(i as int)),
        decreases v.len() - i,
    {
        let x = (v[i].0.clone(), v[i].1);
        assert((x.0@, x.1) == vv[i as int]);
        let mut p: usize = 0;
        proof {
            lemma_sort_by_instant_len(vv.take(i as int));
            assert(pair_views(sorted@).skip(0) =~= pair_views(sorted@));
        }
        while p < sorted.len() && !x.1.is_before(&sorted[p].1)
            invariant
                p <= sorted.len(),
                instant_insert_pos(pair_views(sorted@), (x.0@, x.1)) == p + instant_insert_pos(
                    pair_views(sorted@).skip(p as int),
                    (x.0@, x.1),
                ),
            decreases sorted.len() - p,
        {
            assert(pair_views(sorted@).skip(p as int).drop_first() =~= pair_views(sorted@).skip(
                p + 1,
            ));
            p = p + 1;
        }
        assert(instant_insert_pos(pair_views(sorted@), (x.0@, x.1)) == p) by {
            if p < sorted.len() {
                assert(pair_views(sorted@).skip(p as int)[0] == (sorted@[p as int].0@, sorted@[p as int].1));
            }
        }
        let ghost before = pair_views(sorted@);
        sorted.insert(p, x);
        proof {
            assert(pair_views(sorted@) =~= before.insert(p as int, vv[i as int]));
            let t = vv.take(i + 1);
            assert(t.drop_last() =~= vv.take(i as int));
            assert(t.last() == vv[i as int]);
        }
        i = i + 1;
    }
    assert(vv.take(i as int) =~= vv);
    sorted
}

/// Whether the pair at an index has the given id.
pub open spec fn pair_with_id(s: Seq<(Seq<char>, Moment)>, id: Seq<char>) -> spec_fn(int) -> bool {
    |i: int| s[i].0 == id
}

/// The first pair with the given id.
fn find_pair(v: &Vec<(EventId, Moment)>, id: &EventId) -> (r: Option<usize>)
    ensures
        ({
            let k = first_where(v@.len() as int, pair_with_id(pair_views(v@), id@));
            match r {
                Some(i) => i == k && 0 <= k < v@.len(),
                None => k == -1,
            }
        }),
{
    let ghost p = pair_with_id(pair_views(v@), id@);
    let mut k: usize = 0;
    while k < v.len()
        invariant
            k <= v.len(),
            p == pair_with_id(pair_views(v@), id@),
            first_where(k as int, p) == -1,
        decreases v.len() - k,
    {
        proof {
            lemma_first_where_step(k as int, p);
        }
        if v[k].0.same(id) {
            assert(p(k as int));
            proof {
                lemma_first_where(k as int, p);
                lemma_first_where(v@.len() as int, p);
            }
            return Some(k);
        }
        k = k + 1;
    }
    None
}

impl App {
    /// The event takes part in cycling: its calendar is visible and, outside the agenda, it
    /// shows on the cursor's day.
    pub open spec fn listed(&self, e: EventView) -> bool {
        self.vis().contains(e.calendar_id) && (self.view == View::Agenda || occurs_on(
            e,
            self.cursor_date.n as int,
        ))
    }

    /// The start of the first loaded event with the id.
    pub open spec fn first_start(&self, id: Seq<char>) -> Moment {
        self.ev()[first_where(self.events@.len() as int, event_with_id(self.events@, id))].start
    }

    /// The selected event's index among the loaded events.
    pub open spec fn selected_index(&self) -> int {
        match self.selected_id() {
            Some(id) => first_where(self.events@.len() as int, event_with_id(self.events@, id)),
            None => -1,
        }
    }
}

/// The ids of the listed events of `s`, in order, each with the start it is ordered by.
pub open spec fn cycle_items(app: App, s: Seq<EventView>) -> Seq<(Seq<char>, Moment)>
    decreases s.len(),
{
    if s.len() == 0 {
        Seq::empty()
    } else {
        let prev = cycle_items(app, s.drop_last());
        if app.listed(s.last()) {
            prev.push((s.last().id, app.first_start(s.last().id)))
        } else {
            prev
        }
    }
}

impl App {
    /// The state after moving the cursor to the selected event's start (its day; its time of
    /// day unless it lasts all day).
    pub open spec fn at_selected(self) -> App {
        let e = self.ev()[self.selected_index()];
        App {
            cursor_date: e.start.day,
            preferred_month_day: ymd_of(e.start.day.n as int).2 as u32,
            cursor_minutes: if e.all_day {
                self.cursor_minutes
            } else {
                e.start.minutes() as u16
            },
            ..self
        }
    }

    /// What cycling the selection by `delta` does (see `cycle_event`).
    pub open spec fn event_cycled(before: App, after: App, delta: i32) -> bool {
        &&& ({
            let sorted = sort_by_instant(cycle_items(before, before.ev()));
            if sorted.len() == 0 {
                after == (App { selected_event: None, ..before })
            } else {
                let found = match before.selected_id() {
                    Some(id) => first_where(sorted.len() as int, pair_with_id(sorted, id)),
                    None => -1,
                };
                let cur = if found >= 0 {
                    found
                } else {
                    0
                };
                let id = sorted[(cur + delta) % (sorted.len() as int)].0;
                let chosen = App { selected_event: after.selected_event, ..before };
                &&& after.selected_id() == Some(id)
                &&& after == if before.view != View::Agenda && chosen.selected_index()
                    >= 0 {
                    chosen.at_selected()
                } else {
                    chosen
                }
            }
        })
    }

    /// Selects the event `delta` places after the selected one (before, for negative `delta`,
    /// wrapping around) among the listed events ordered by start; outside the agenda, the
    /// cursor follows it.
    pub fn cycle_event(&mut self, delta: i32)
        requires
            old(self).wf(),
        ensures
            final(self).wf(),
            App::event_cycled(*old(self), *final(self), delta),
    {
        let ghost app = *self;
        let ghost s = self.ev();
        let mut items: Vec<(EventId, Moment)> = Vec::new();
        let mut k: usize = 0;
        assert(s.take(0) =~= Seq::<EventView>::empty());
        while k < self.events.len()
            invariant
                k <= self.events.len(),
                app == *self,
                app == *old(self),
                self.wf(),
                s == self.ev(),
                pair_views(items@) == cycle_items(app, s.take(k as int)),
            decreases self.events.len() - k,
        {
            let e = &self.events[k];
            let listed = self.is_visible(&e.calendar_id) && (self.view == View::Agenda
                || event_occurs_on(e, self.cursor_date));
            let ghost before = pair_views(items@);
            if listed {
                let start = match find_event(&self.events, &e.id) {
                    Some(j) => self.events[j].start,
                    None => {
                        proof {
                            let p = event_with_id(self.events@, e.id@);
                            lemma_first_where(self.events@.len() as int, p);
                            assert(p(k as int));
                        }
                        e.start
                    },
                };
                items.push((e.id.clone(), start));
                assert(pair_views(items@) =~= before.push((s[k as int].id, app.first_start(s[k as int].id))));
            }
            assert(s.take(k + 1).drop_last() =~= s.take(k as int));
            k = k + 1;
        }
        assert(s.take(k as int) =~= s);
        let sorted = sort_pairs(&items);
        let ghost ss = pair_views(sorted@);
        proof {
            lemma_sort_by_instant_len(pair_views(items@));
        }
        if sorted.len() == 0 {
            self.selected_event = None;
            return;
        }
        let cur: usize = match &self.selected_event {
            Some(id) => match find_pair(&sorted, id) {
                Some(j) => j,
                None => 0,
            },
            None => 0,
        };
        let next = wrap_index(cur, delta, sorted.len());
        self.selected_event = Some(sorted[next].0.clone());
        if self.view != View::Agenda {
            let target = match self.selected() {
                Some(event) => Some((event.start.day, event.all_day, event.start.minutes_into_day())),
                None => None,
            };
            if let Some((day, all_day, minutes)) = target {
                let (_, _, d) = day.ymd();
                self.cursor_date = day;
                self.preferred_month_day = d;
                if !all_day {
                    self.cursor_minutes = minutes as u16;
                }
            }
        }
    }
}

/// Whether the calendar at an index is writable.
pub open spec fn writable_at(cals: Seq<Calendar>) -> spec_fn(int) -> bool {
    |i: int| cals[i].writable
}

/// The ids of the writable calendars, in order.
pub open spec fn writable_ids(cals: Seq<Calendar>) -> Seq<Seq<char>>
    decreases cals.len(),
{
    if cals.len() == 0 {
        Seq::empty()
    } else {
        let prev = writable_ids(cals.drop_last());
        if cals.last().writable {
            prev.push(cals.last().id@)
        } else {
            prev
        }
    }
}

/// The longest default duration, in minutes, that a time span can hold.
pub const MAX_DURATION_MINUTES: i64 = 153722867280912930;

impl App {
    /// The calendar that a new event goes to: the last one used, else the first writable one.
    pub open spec fn new_event_calendar(&self) -> Option<Seq<char>> {
        match self.last_used_calendar {
            Some(c) => Some(c@),
            None => {
                let k = first_where(self.calendars@.len() as int, writable_at(self.calendars@));
                if k >= 0 {
                    Some(self.calendars@[k].id@)
                } else {
                    None
                }
            },
        }
    }

    /// Start of a new event in minutes since midnight: the cursor's time, or in the month view
    /// the configured default start when it reads as a time; 09:00 when the cursor is at
    /// 24:00.
    pub open spec fn new_event_start(&self) -> int {
        let cursor = if self.view == View::Month {
            match time_minutes(self.config.default_event_start@) {
                Some(v) => v,
                None => self.cursor_minutes as int,
            }
        } else {
            self.cursor_minutes as int
        };
        if cursor < 1440 {
            cursor
        } else {
            540
        }
    }

    /// End of a new event: its start plus the default duration (at least a minute), on the
    /// clock.
    pub open spec fn new_event_end(&self) -> int {
        let d = self.config.default_event_duration_minutes;
        (self.new_event_start() + if d >= 1 {
            d as int
        } else {
            1
        }) % 1440
    }
}

/// The first writable calendar.
fn first_writable(cals: &Vec<Calendar>) -> (r: Option<usize>)
    ensures
        ({
            let k = first_where(cals@.len() as int, writable_at(cals@));
            match r {
                Some(i) => i == k && 0 <= k < cals@.len(),
                None => k == -1,
            }
        }),
{
    let ghost p = writable_at(cals@);
    let mut k: usize = 0;
    while k < cals.len()
        invariant
            k <= cals.len(),
            p == writable_at(cals@),
            first_where(k as int, p) == -1,
        decreases cals.len() - k,
    {
        proof {
            lemma_first_where_step(k as int, p);
        }
        if cals[k].writable {
            proof {
                lemma_first_where(k as int, p);
                lemma_first_where(cals@.len() as int, p);
            }
            return Some(k);
        }
        k = k + 1;
    }
    None
}

impl EventEditor {
    /// The form is the empty one for a new event in `app`.
    pub open spec fn fresh_for(&self, app: App) -> bool {
        &&& self.editing is None
        &&& self.field == EditorField::Title
        &&& self.title@.len() == 0
        &&& Some(self.calendar_id@) == app.new_event_calendar()
        &&& self.date@ == iso_date_text(app.cursor_date.n as int)
        &&& self.start@ == clock_text(app.new_event_start())
        &&& self.end@ == clock_text(app.new_event_end())
        &&& !self.all_day
        &&& self.location@.len() == 0
        &&& self.notes@.len() == 0
        &&& self.all_day_duration_days == 1
    }

    /// The empty form for a new event at the cursor (see `fresh_for`); the error "No writable
    /// calendar is available." when there is no calendar to put it in.
    pub fn new(app: &App) -> (r: Result<EventEditor, String>)
        requires
            app.wf(),
            app.config.default_event_duration_minutes <= MAX_DURATION_MINUTES,
        ensures
            match app.new_event_calendar() {
                None => r matches Err(m) && m@ == "No writable calendar is available."@,
                Some(_) => r matches Ok(ed) && ed.fresh_for(*app),
            },
    {
        let calendar_id = match &app.last_used_calendar {
            Some(c) => c.clone(),
            None => match first_writable(&app.calendars) {
                Some(k) => app.calendars[k].id.clone(),
                None => return Err(String::from_str("No writable calendar is available.")),
            },
        };
        let cursor: u16 = if app.view == View::Month {
            match parse_time_minutes(app.config.default_event_start.as_str()) {
                Some(v) => v,
                None => app.cursor_minutes,
            }
        } else {
            app.cursor_minutes
        };
        let start: u16 = if cursor < 1440 {
            cursor
        } else {
            540
        };
        let d: i64 = if app.config.default_event_duration_minutes >= 1 {
            app.config.default_event_duration_minutes
        } else {
            1
        };
        let end: u16 = ((start as i64 + d) % 1440) as u16;
        Ok(
            EventEditor {
                editing: None,
                field: EditorField::Title,
                title: String::new(),
                calendar_id,
                date: format_iso_date(app.cursor_date),
                start: clock_string(start),
                end: clock_string(end),
                all_day: false,
                location: String::new(),
                notes: String::new(),
                all_day_duration_days: 1,
            },
        )
    }
}

impl App {
    /// What opening the selected event does (see `open_selected`).
    pub open spec fn selection_opened(before: App, after: App) -> bool {
        &&& App::selection_settled(before, App { mode: before.mode, ..after })
        &&& after.mode == if after.selected_event is Some {
            Mode::EventDetail
        } else {
            before.mode
        }
    }

    /// Selects an event if needed (see `ensure_selection`) and opens its details when there is
    /// one.
    pub fn open_selected(&mut self)
        ensures
            App::selection_opened(*old(self), *final(self)),
    {
        self.ensure_selection();
        if self.selected_event.is_some() {
            self.mode = Mode::EventDetail;
        }
    }

    /// What starting a new event does (see `start_new_event`).
    pub open spec fn new_event_started(before: App, after: App) -> bool {
        &&& match before.new_event_calendar() {
            None => after == (App { error: after.error, ..before })
                && (after.error matches Some(m) && m@ == "No writable calendar is available."@),
            Some(_) => after == (App {
                editor: after.editor,
                mode: Mode::EventEditor,
                ..before
            }) && (after.editor matches Some(ed) && ed.fresh_for(before)),
        }
    }

    /// Opens the editor on an empty form for a new event (see `EventEditor::fresh_for`), or
    /// shows the error when there is no writable calendar.
    pub fn start_new_event(&mut self)
        requires
            old(self).wf(),
            old(self).config.default_event_duration_minutes <= MAX_DURATION_MINUTES,
        ensures
            final(self).wf(),
            App::new_event_started(*old(self), *final(self)),
    {
        match EventEditor::new(self) {
            Ok(editor) => {
                self.editor = Some(editor);
                self.mode = Mode::EventEditor;
            },
            Err(message) => self.error = Some(message),
        }
    }

    /// The selected event's calendar is known and read-only.
    pub open spec fn selected_read_only(&self) -> bool {
        let e = self.ev()[self.selected_index()];
        let c = first_where(self.calendars@.len() as int, calendar_with_id(self.calendars@, e.calendar_id));
        c >= 0 && !self.calendars@[c].writable
    }

    /// What editing the selected event starts with (see `start_edit_event`).
    pub open spec fn edit_started(before: App, after: App) -> bool {
        &&& if before.selected_index() < 0 {
            after == before
        } else if before.selected_read_only() {
            after == (App { error: after.error, ..before })
                && (after.error matches Some(m) && m@ == "The selected calendar is read-only."@)
        } else {
            after == (App {
                editor: after.editor,
                mode: Mode::EventEditor,
                ..before
            }) && (after.editor matches Some(ed) && ed.filled_from(
                before.ev()[before.selected_index()],
            ))
        }
    }

    /// Opens the editor on the selected event; the error "The selected calendar is read-only."
    /// when its calendar is; nothing when no loaded event is selected.
    pub fn start_edit_event(&mut self)
        requires
            old(self).wf(),
        ensures
            final(self).wf(),
            App::edit_started(*old(self), *final(self)),
    {
        let event = match self.selected() {
            Some(e) => e.clone(),
            None => return,
        };
        let read_only = match self.calendar(&event.calendar_id) {
            Some(c) => !c.writable,
            None => false,
        };
        if read_only {
            self.error = Some(String::from_str("The selected calendar is read-only."));
            return;
        }
        self.editor = Some(EventEditor::from_event(&event));
        self.mode = Mode::EventEditor;
    }

    /// What opening the delete confirmation does: nothing without a loaded selected event; the
    /// read-only error for an event of a read-only calendar; else the confirmation, remembering
    /// the mode to return to.
    pub open spec fn delete_confirmation_started(before: App, after: App) -> bool {
        if before.selected_index() < 0 {
            after == before
        } else if before.selected_read_only() {
            after == (App { error: after.error, ..before })
                && (after.error matches Some(m) && m@ == "The selected calendar is read-only."@)
        } else {
            after == (App { confirm_return_mode: before.mode, mode: Mode::ConfirmDelete, ..before })
        }
    }

    /// Asks for confirmation before deleting the selected event (see
    /// `delete_confirmation_started`).
    pub fn start_delete_confirmation(&mut self)
        ensures
            App::delete_confirmation_started(*old(self), *final(self)),
    {
        let read_only = match self.selected() {
            None => return,
            Some(event) => match self.calendar(&event.calendar_id) {
                Some(c) => !c.writable,
                None => false,
            },
        };
        if read_only {
            self.error = Some(String::from_str("The selected calendar is read-only."));
            return;
        }
        self.confirm_return_mode = self.mode;
        self.mode = Mode::ConfirmDelete;
    }

    /// Returns to the mode the delete confirmation was opened from.
    pub fn cancel_delete_confirmation(&mut self)
        ensures
            *final(self) == (App { mode: old(self).confirm_return_mode, ..*old(self) }),
    {
        self.mode = self.confirm_return_mode;
    }

    /// What cycling the edited new event's calendar by `direction` does (see
    /// `cycle_editor_calendar`).
    pub open spec fn editor_calendar_cycled(before: App, after: App, direction: i32) -> bool {
        match before.editor {
            None => after == before,
            Some(ed) => {
                let w = writable_ids(before.calendars@);
                if ed.editing is Some || w.len() == 0 {
                    after == before
                } else {
                    let f = first_where(w.len() as int, |i: int| w[i] == ed.calendar_id@);
                    let cur = if f >= 0 {
                        f
                    } else {
                        0
                    };
                    &&& after == (App { editor: after.editor, ..before })
                    &&& after.editor matches Some(ne) && ne == (EventEditor {
                        calendar_id: ne.calendar_id,
                        ..ed
                    }) && ne.calendar_id@ == w[(cur + direction) % (w.len() as int)]
                }
            },
        }
    }

    /// While a new event is edited, moves its calendar `direction` places through the writable
    /// calendars, wrapping around; starts from the first when its calendar is not among them.
    pub fn cycle_editor_calendar(&mut self, direction: i32)
        ensures
            App::editor_calendar_cycled(*old(self), *final(self), direction),
    {
        let current_id = match &self.editor {
            None => return,
            Some(ed) => {
                if ed.editing.is_some() {
                    return;
                }
                ed.calendar_id.clone()
            },
        };
        let ghost cals = self.calendars@;
        let mut writable: Vec<CalendarId> = Vec::new();
        let mut k: usize = 0;
        assert(cals.take(0) =~= Seq::<Calendar>::empty());
        while k < self.calendars.len()
            invariant
                k <= self.calendars.len(),
                cals == self.calendars@,
                id_views(writable@) == writable_ids(cals.take(k as int)),
            decreases self.calendars.len() - k,
        {
            let ghost before = id_views(writable@);
            if self.calendars[k].writable {
                writable.push(self.calendars[k].id.clone());
                assert(id_views(writable@) =~= before.push(cals[k as int].id@));
            }
            assert(cals.take(k + 1).drop_last() =~= cals.take(k as int));
            k = k + 1;
        }
        assert(cals.take(k as int) =~= cals);
        if writable.len() == 0 {
            return;
        }
        let ghost w = id_views(writable@);
        let ghost p = |i: int| w[i] == current_id@;
        let mut cur: usize = 0;
        let mut j: usize = 0;
        while j < writable.len()
            invariant_except_break
                first_where(j as int, p) == -1,
                cur == 0,
            invariant
                0 < writable.len(),
                j <= writable.len(),
                w == id_views(writable@),
                p == (|i: int| w[i] == current_id@),
            ensures
                cur == (if first_where(w.len() as int, p) >= 0 {
                    first_where(w.len() as int, p)
                } else {
                    0
                }),
                cur < writable.len(),
            decreases writable.len() - j,
        {
            proof {
                lemma_first_where_step(j as int, p);
            }
            if writable[j].same(&current_id) {
                assert(p(j as int));
                proof {
                    lemma_first_where(j as int, p);
                    lemma_first_where(w.len() as int, p);
                }
                cur = j;
                break;
            }
            j = j + 1;
        }
        proof {
            if j == writable.len() {
                lemma_first_where(w.len() as int, p);
            }
        }
        let next = wrap_index(cur, direction, writable.len());
        let chosen = writable[next].clone();
        match self.editor.take() {
            Some(mut ed) => {
                ed.calendar_id = chosen;
                self.editor = Some(ed);
            },
            None => {},
        }
    }

    /// The edited event is a loaded event that repeats.
    pub open spec fn editing_recurring(&self) -> bool {
        self.editor matches Some(ed) && ed.editing matches Some(id) && ({
            let k = first_where(self.events@.len() as int, event_with_id(self.events@, id@));
            k >= 0 && self.ev()[k].recurrence is Some
        })
    }

    /// Whether the edited event is a loaded event that repeats.
    pub fn editor_is_recurring(&self) -> (r: bool)
        ensures
            r == self.editing_recurring(),
    {
        match &self.editor {
            Some(ed) => match &ed.editing {
                Some(id) => match find_event(&self.events, id) {
                    Some(k) => self.events[k].recurrence.is_some(),
                    None => false,
                },
                None => false,
            },
            None => false,
        }
    }
}

/// Opening the delete confirmation and cancelling it returns to the mode one started from,
/// and changes nothing else but the remembered mode.
pub proof fn law_delete_confirmation_returns(a: App, b: App, c: App)
    requires
        App::delete_confirmation_started(a, b),
        b.mode == Mode::ConfirmDelete,
        a.mode != Mode::ConfirmDelete,
        c == (App { mode: b.confirm_return_mode, ..b }),
    ensures
        c == (App { confirm_return_mode: b.confirm_return_mode, ..a }),
        c.mode == a.mode,
{
}

/// A text without surrounding whitespace, or `None` when nothing is left.
pub open spec fn blank_to_none(s: Seq<char>) -> Option<Seq<char>> {
    if trim(s).len() == 0 {
        None
    } else {
        Some(trim(s))
    }
}

/// The text trimmed, or `None` when it is blank.
fn trimmed_or_none(s: &String) -> (r: Option<String>)
    ensures
        opt_view(r) == blank_to_none(s@),
{
    let t = trimmed(s.as_str());
    if t.as_str().unicode_len() == 0 {
        None
    } else {
        Some(t)
    }
}

/// What saving the editor asks the backend to do.
#[derive(Debug)]
pub enum SaveRequest {
    /// Update the event with the id by the patch.
    Update(EventId, EventPatch),
    /// Create the event.
    Create(NewEvent),
}

/// A doubly optional text as plain values.
pub open spec fn opt_opt_view(o: Option<Option<String>>) -> Option<Option<Seq<char>>> {
    match o {
        Some(x) => Some(opt_view(x)),
        None => None,
    }
}

impl SaveRequest {
    /// The request saves the form `ed` with the times `start` and `end`: an update of every
    /// field of the edited event, or a new event in the form's calendar; titles, locations and
    /// notes trimmed, blank locations and notes left out.
    pub open spec fn saves(&self, ed: EventEditor, start: Moment, end: Moment) -> bool {
        match self {
            SaveRequest::Update(id, patch) => {
                &&& ed.editing_view() == Some(id@)
                &&& patch.title matches Some(t) && t@ == trim(ed.title@)
                &&& patch.start == Some(start)
                &&& patch.end == Some(end)
                &&& patch.all_day == Some(ed.all_day)
                &&& opt_opt_view(patch.location) == Some(blank_to_none(ed.location@))
                &&& opt_opt_view(patch.notes) == Some(blank_to_none(ed.notes@))
            },
            SaveRequest::Create(ne) => {
                &&& ed.editing is None
                &&& ne.calendar_id@ == ed.calendar_id@
                &&& ne.title@ == trim(ed.title@)
                &&& ne.start == start
                &&& ne.end == end
                &&& ne.all_day == ed.all_day
                &&& opt_view(ne.location) == blank_to_none(ed.location@)
                &&& opt_view(ne.notes) == blank_to_none(ed.notes@)
            },
        }
    }
}

/// The hidden-calendar setting for the visible ids: the ids of the calendars not visible, in
/// order.
pub open spec fn hidden_ids(cals: Seq<Calendar>, vis: Seq<Seq<char>>) -> Seq<Seq<char>>
    decreases cals.len(),
{
    if cals.len() == 0 {
        Seq::empty()
    } else {
        let prev = hidden_ids(cals.drop_last(), vis);
        if vis.contains(cals.last().id@) {
            prev
        } else {
            prev.push(cals.last().id@)
        }
    }
}

/// The calendar is hidden by the setting: an entry names it or its id.
pub open spec fn hidden_by(c: Calendar, hidden: Seq<Seq<char>>) -> bool {
    exists|i: int| 0 <= i < hidden.len() && (#[trigger] hidden[i] == c.name@ || hidden[i] == c.id@)
}

/// The ids of the calendars the setting does not hide, in order, each once.
pub open spec fn shown_ids(cals: Seq<Calendar>, hidden: Seq<Seq<char>>) -> Seq<Seq<char>>
    decreases cals.len(),
{
    if cals.len() == 0 {
        Seq::empty()
    } else {
        let prev = shown_ids(cals.drop_last(), hidden);
        let c = cals.last();
        if hidden_by(c, hidden) || prev.contains(c.id@) {
            prev
        } else {
            prev.push(c.id@)
        }
    }
}

/// The texts of a list of strings.
pub open spec fn string_views(v: Seq<String>) -> Seq<Seq<char>> {
    v.map_values(|s: String| s@)
}

impl App {
    /// The request that saves the editor's form (see `SaveRequest::saves`): the error "No event
    /// is being edited." without an editor, the form's message when it is invalid (see
    /// `EventEditor::check`).
    pub fn prepare_save(&self) -> (r: Result<SaveRequest, String>)
        ensures
            match self.editor {
                None => r matches Err(m) && m@ == "No event is being edited."@,
                Some(ed) => match ed.check() {
                    EditorCheck::Invalid(msg) => r matches Err(m) && m@ == msg,
                    EditorCheck::Times(sd, sh, sm, ed_day, eh, em) => match r {
                        Err(m) => m@ == "Local time does not exist."@,
                        Ok(req) => exists|start: Moment, end: Moment|
                            #[trigger] req.saves(ed, start, end) && local_at_result(
                                start,
                                Day { n: sd as i32 },
                                sh,
                                sm,
                            ) && local_at_result(end, Day { n: ed_day as i32 }, eh, em),
                    },
                },
            },
    {
        let editor = match &self.editor {
            Some(e) => e,
            None => return Err(String::from_str("No event is being edited.")),
        };
        let (start, end) = match editor.values() {
            Ok(t) => t,
            Err(m) => return Err(m),
        };
        let location = trimmed_or_none(&editor.location);
        let notes = trimmed_or_none(&editor.notes);
        let title = trimmed(editor.title.as_str());
        let req = match &editor.editing {
            Some(id) => SaveRequest::Update(
                id.clone(),
                EventPatch {
                    title: Some(title),
                    start: Some(start),
                    end: Some(end),
                    all_day: Some(editor.all_day),
                    location: Some(location),
                    notes: Some(notes),
                },
            ),
            None => SaveRequest::Create(
                NewEvent {
                    calendar_id: editor.calendar_id.clone(),
                    title,
                    start,
                    end,
                    all_day: editor.all_day,
                    location,
                    notes,
                },
            ),
        };
        assert(req.saves(*editor, start, end));
        Ok(req)
    }

    /// After the backend saved `event`: its calendar becomes the last used one, the cursor
    /// moves to its day and it is selected; the editor closes, the cache empties and the view
    /// reloads from the backend (see `plan_refresh`).
    pub fn finish_save(&mut self, event: Event) -> (r: Result<Option<DateRange>, String>)
        requires
            old(self).wf(),
            event.wf(),
        ensures
            final(self).wf(),
            final(self).last_used_calendar matches Some(c) && c@ == event.calendar_id@,
            final(self).selected_id() == Some(event.id@),
            final(self).cache@.len() == 0,
            App::refreshed(
                App {
                    last_used_calendar: final(self).last_used_calendar,
                    cursor_date: event.start.day,
                    preferred_month_day: ymd_of(event.start.day.n as int).2 as u32,
                    selected_event: final(self).selected_event,
                    editor: None,
                    mode: Mode::Normal,
                    cache: final(self).cache,
                    ..*old(self)
                },
                *final(self),
                true,
                r,
            ),
    {
        let (_, _, d) = event.start.day.ymd();
        self.last_used_calendar = Some(event.calendar_id.clone());
        self.cursor_date = event.start.day;
        self.preferred_month_day = d;
        self.selected_event = Some(event.id);
        self.editor = None;
        self.mode = Mode::Normal;
        self.cache = Vec::new();
        assert(cache_keys(self.cache@) =~= Seq::<(i64, i64)>::empty());
        self.plan_refresh(true)
    }

    /// Reports a saved event: "Event updated" for an edit, "Event created" for a new one.
    pub fn report_saved(&mut self, updated: bool)
        ensures
            *final(self) == (App { status: final(self).status, ..*old(self) }),
            final(self).status matches Some(m) && m@ == (if updated {
                "Event updated"@
            } else {
                "Event created"@
            }),
    {
        self.status = Some(
            if updated {
                String::from_str("Event updated")
            } else {
                String::from_str("Event created")
            },
        );
    }

    /// The id of the event to delete: the selected one; the error "No event is selected."
    /// without one.
    pub fn prepare_delete(&self) -> (r: Result<EventId, String>)
        ensures
            match self.selected_id() {
                Some(id) => r matches Ok(x) && x@ == id,
                None => r matches Err(m) && m@ == "No event is selected."@,
            },
    {
        match &self.selected_event {
            Some(id) => Ok(id.clone()),
            None => Err(String::from_str("No event is selected.")),
        }
    }

    /// After the backend deleted the selected event: no selection, the normal mode, an empty
    /// cache and a reload from the backend (see `plan_refresh`).
    pub fn finish_delete(&mut self) -> (r: Result<Option<DateRange>, String>)
        requires
            old(self).wf(),
        ensures
            final(self).wf(),
            final(self).cache@.len() == 0,
            App::refreshed(
                App { selected_event: None, mode: Mode::Normal, cache: final(self).cache, ..*old(self) },
                *final(self),
                true,
                r,
            ),
    {
        self.selected_event = None;
        self.mode = Mode::Normal;
        self.cache = Vec::new();
        assert(cache_keys(self.cache@) =~= Seq::<(i64, i64)>::empty());
        self.plan_refresh(true)
    }

    /// Reports a deleted event.
    pub fn report_deleted(&mut self)
        ensures
            *final(self) == (App { status: final(self).status, ..*old(self) }),
            final(self).status matches Some(m) && m@ == "Event deleted"@,
    {
        self.status = Some(String::from_str("Event deleted"));
    }

    /// What opening the calendar picker does: the highlighted calendar kept in range, the
    /// visible calendars remembered and the picker shown.
    pub open spec fn picker_opened(before: App, after: App) -> bool {
        &&& after == (App {
            calendar_picker_index: if before.calendar_picker_index < before.calendars@.len() {
                before.calendar_picker_index
            } else if before.calendars@.len() == 0 {
                0
            } else {
                (before.calendars@.len() - 1) as usize
            },
            picker_original: after.picker_original,
            mode: Mode::CalendarPicker,
            ..before
        })
        &&& after.picker_original matches Some(v) && id_views(v@) == before.vis()
    }

    /// Opens the calendar picker (see `picker_opened`).
    pub fn open_calendar_picker(&mut self)
        requires
            old(self).wf(),
        ensures
            final(self).wf(),
            App::picker_opened(*old(self), *final(self)),
    {
        let last = if self.calendars.len() == 0 {
            0
        } else {
            self.calendars.len() - 1
        };
        if self.calendar_picker_index > last {
            self.calendar_picker_index = last;
        }
        let mut copy: Vec<CalendarId> = Vec::new();
        let mut k: usize = 0;
        while k < self.visible_calendars.len()
            invariant
                k <= self.visible_calendars.len(),
                id_views(copy@) == self.vis().take(k as int),
            decreases self.visible_calendars.len() - k,
        {
            let ghost before = id_views(copy@);
            copy.push(self.visible_calendars[k].clone());
            assert(id_views(copy@) =~= before.push(self.vis()[k as int]));
            assert(self.vis().take(k + 1) =~= before.push(self.vis()[k as int]));
            k = k + 1;
        }
        assert(self.vis().take(k as int) =~= self.vis());
        self.picker_original = Some(copy);
        self.mode = Mode::CalendarPicker;
    }

    /// What cancelling the calendar picker does: the remembered visible calendars come back,
    /// the normal mode returns and the selection settles (see `ensure_selection`).
    pub open spec fn picker_cancelled(before: App, after: App) -> bool {
        let restored = match before.picker_original {
            Some(v) => App {
                visible_calendars: v,
                picker_original: None,
                mode: Mode::Normal,
                ..before
            },
            None => App { mode: Mode::Normal, ..before },
        };
        App::selection_settled(restored, after)
    }

    /// Cancels the calendar picker (see `picker_cancelled`).
    pub fn cancel_calendar_picker(&mut self)
        requires
            old(self).wf(),
        ensures
            final(self).wf(),
            App::picker_cancelled(*old(self), *final(self)),
    {
        match self.picker_original.take() {
            Some(original) => self.visible_calendars = original,
            None => {},
        }
        self.mode = Mode::Normal;
        self.ensure_selection();
    }

    /// What toggling in the calendar picker does: the highlighted calendar is made hidden when
    /// visible (its id removed) and visible when hidden (its id added at the end).
    pub open spec fn calendar_toggled(before: App, after: App) -> bool {
        if before.calendar_picker_index >= before.calendars@.len() {
            after == before
        } else {
            let id = before.calendars@[before.calendar_picker_index as int].id@;
            &&& after == (App { visible_calendars: after.visible_calendars, ..before })
            &&& if before.vis().contains(id) {
                after.vis() == before.vis().remove(before.vis().index_of(id))
            } else {
                after.vis() == before.vis().push(id)
            }
        }
    }

    /// Toggles the highlighted calendar's visibility (see `calendar_toggled`).
    pub fn toggle_calendar(&mut self)
        requires
            old(self).wf(),
        ensures
            final(self).wf(),
            App::calendar_toggled(*old(self), *final(self)),
    {
        if self.calendar_picker_index >= self.calendars.len() {
            return;
        }
        let id = self.calendars[self.calendar_picker_index].id.clone();
        let ghost vis = self.vis();
        let mut k: usize = 0;
        while k < self.visible_calendars.len()
            invariant
                k <= self.visible_calendars.len(),
                vis == self.vis(),
                *self == *old(self),
                self.wf(),
                self.calendar_picker_index < self.calendars.len(),
                id@ == self.calendars@[self.calendar_picker_index as int].id@,
                forall|j: int| 0 <= j < k ==> vis[j] != id@,
            decreases self.visible_calendars.len() - k,
        {
            if self.visible_calendars[k].same(&id) {
                proof {
                    assert(vis[k as int] == id@);
                    assert(vis.contains(id@));
                    let i = vis.index_of(id@);
                    assert(0 <= i < vis.len() && vis[i] == id@);
                    assert(i == k);
                }
                self.visible_calendars.remove(k);
                assert(self.vis() =~= vis.remove(k as int));
                proof {
                    assert(self.vis().no_duplicates()) by {
                        assert forall|a: int, b: int|
                            0 <= a < self.vis().len() && 0 <= b < self.vis().len() && a != b implies self.vis()[a]
                            != self.vis()[b] by {
                            let a2 = if a < k { a } else { a + 1 };
                            let b2 = if b < k { b } else { b + 1 };
                            assert(self.vis()[a] == vis[a2]);
                            assert(self.vis()[b] == vis[b2]);
                        }
                    }
                }
                return;
            }
            k = k + 1;
        }
        self.visible_calendars.push(id);
        assert(self.vis() =~= vis.push(id@));
        proof {
            assert(!vis.contains(id@));
        }
    }

    /// The hidden-calendar setting becomes the ids of the calendars not visible (see
    /// `hidden_ids`); nothing else changes.
    pub open spec fn visibility_applied(before: App, after: App) -> bool {
        &&& string_views(after.config.hidden_calendars@) == hidden_ids(before.calendars@, before.vis())
        &&& after == (App {
            config: Config { hidden_calendars: after.config.hidden_calendars, ..before.config },
            ..before
        })
    }

    /// Stores the hidden-calendar setting that matches the visible calendars (see
    /// `visibility_applied`); the configuration is then saved.
    pub fn apply_calendar_visibility(&mut self)
        requires
            old(self).wf(),
        ensures
            final(self).wf(),
            App::visibility_applied(*old(self), *final(self)),
    {
        let ghost cals = self.calendars@;
        let mut hidden: Vec<String> = Vec::new();
        let mut k: usize = 0;
        assert(cals.take(0) =~= Seq::<Calendar>::empty());
        while k < self.calendars.len()
            invariant
                k <= self.calendars.len(),
                cals == self.calendars@,
                string_views(hidden@) == hidden_ids(cals.take(k as int), self.vis()),
            decreases self.calendars.len() - k,
        {
            let ghost before = string_views(hidden@);
            if !self.is_visible(&self.calendars[k].id) {
                hidden.push(self.calendars[k].id.0.clone());
                assert(string_views(hidden@) =~= before.push(cals[k as int].id@));
            }
            assert(cals.take(k + 1).drop_last() =~= cals.take(k as int));
            k = k + 1;
        }
        assert(cals.take(k as int) =~= cals);
        self.config.hidden_calendars = hidden;
    }

    /// After the setting was saved: the picker closes, the selection settles and the status
    /// reads "Calendar visibility saved".
    pub fn finish_calendar_visibility(&mut self)
        ensures
            App::selection_settled(
                App { picker_original: None, mode: Mode::Normal, status: final(self).status, ..*old(self) },
                *final(self),
            ),
            final(self).status matches Some(m) && m@ == "Calendar visibility saved"@,
    {
        self.picker_original = None;
        self.mode = Mode::Normal;
        self.status = Some(String::from_str("Calendar visibility saved"));
        self.ensure_selection();
    }

    /// The trimmed query to search for; a blank query instead clears the results (and the
    /// highlighted result) and gives `None`.
    pub fn search_request(&mut self) -> (r: Option<String>)
        requires
            old(self).wf(),
        ensures
            final(self).wf(),
            trim(old(self).search.query@).len() == 0 ==> r is None && *final(self) == (App {
                search: SearchState { results: final(self).search.results, selected: 0, ..old(self).search },
                ..*old(self)
            }) && final(self).search.results@.len() == 0,
            trim(old(self).search.query@).len() != 0 ==> *final(self) == *old(self) && (r matches Some(q)
                && q@ == trim(old(self).search.query@)),
    {
        let q = trimmed(self.search.query.as_str());
        if q.as_str().unicode_len() == 0 {
            self.search.results = Vec::new();
            self.search.selected = 0;
            return None;
        }
        Some(q)
    }

    /// Takes the backend's search results: those in visible calendars, in order; the
    /// highlighted result kept in range.
    pub fn finish_search(&mut self, results: Vec<Event>)
        requires
            old(self).wf(),
            events_wf(results@),
        ensures
            final(self).wf(),
            event_views(final(self).search.results@) == shown(event_views(results@), old(self).vis()),
            final(self).search.selected == if old(self).search.selected < final(self).search.results@.len() {
                old(self).search.selected as int
            } else if final(self).search.results@.len() == 0 {
                0
            } else {
                final(self).search.results@.len() - 1
            },
            *final(self) == (App {
                search: SearchState {
                    results: final(self).search.results,
                    selected: final(self).search.selected,
                    ..old(self).search
                },
                ..*old(self)
            }),
    {
        let ghost s = event_views(results@);
        let mut kept: Vec<Event> = Vec::new();
        let mut k: usize = 0;
        assert(s.take(0) =~= Seq::<EventView>::empty());
        while k < results.len()
            invariant
                k <= results.len(),
                s == event_views(results@),
                event_views(kept@) == shown(s.take(k as int), self.vis()),
                events_wf(results@),
                events_wf(kept@),
            decreases results.len() - k,
        {
            let ghost before = event_views(kept@);
            if self.is_visible(&results[k].calendar_id) {
                kept.push(results[k].clone());
                assert(event_views(kept@) =~= before.push(s[k as int]));
            }
            assert(s.take(k + 1).drop_last() =~= s.take(k as int));
            k = k + 1;
        }
        assert(s.take(k as int) =~= s);
        let len = kept.len();
        self.search.results = kept;
        if self.search.selected >= len {
            self.search.selected = if len == 0 {
                0
            } else {
                len - 1
            };
        }
    }

    /// The state that accepting the highlighted search result aims for: the cursor at the
    /// result's start, the week view and the normal mode.
    pub open spec fn search_target(self) -> App {
        let e = self.search.results@[self.search.selected as int];
        App {
            cursor_date: e.start.day,
            preferred_month_day: ymd_of(e.start.day.n as int).2 as u32,
            cursor_minutes: e.start.minutes() as u16,
            view: View::Week,
            mode: Mode::Normal,
            ..self
        }
    }

    /// Goes to the highlighted search result, selects it and reloads; nothing without one.
    /// When the reload needs the backend (`Ok(Some(range))`), `finish_accept_search` selects
    /// the result again once its events are in.
    pub fn accept_search(&mut self) -> (r: Result<Option<DateRange>, String>)
        requires
            old(self).wf(),
        ensures
            final(self).wf(),
            old(self).search.selected >= old(self).search.results@.len() ==> (r matches Ok(None)
                && *final(self) == *old(self)),
            old(self).search.selected < old(self).search.results@.len() ==> ({
                let t = old(self).search_target();
                let id = old(self).search.results@[old(self).search.selected as int].id@;
                &&& final(self).selected_id() == Some(id)
                &&& t.requested_days() is None ==> r is Err
                &&& match r {
                    Err(m) => m@ == "Date is out of range."@ && *final(self) == (App {
                        selected_event: final(self).selected_event,
                        ..t
                    }),
                    Ok(Some(range)) => *final(self) == (App {
                        selected_event: final(self).selected_event,
                        ..t
                    }) && midnights_of(t.requested_days(), range),
                    Ok(None) => exists|range: DateRange, visible: DateRange|
                        {
                            &&& #[trigger] cache_lookup(cache_view(t.cache@), range, visible) == Some(
                                final(self).ev(),
                            )
                            &&& midnights_of(t.requested_days(), range)
                            &&& midnights_of(t.visible_days(), visible)
                            &&& *final(self) == (App {
                                events: final(self).events,
                                selected_event: final(self).selected_event,
                                ..t
                            })
                        },
                }
            }),
    {
        if self.search.selected >= self.search.results.len() {
            return Ok(None);
        }
        let e = &self.search.results[self.search.selected];
        let day = e.start.day;
        let minutes = e.start.minutes_into_day();
        let id = e.id.clone();
        let (_, _, d) = day.ymd();
        self.cursor_date = day;
        self.preferred_month_day = d;
        self.cursor_minutes = minutes as u16;
        self.selected_event = Some(id.clone());
        self.view = View::Week;
        self.mode = Mode::Normal;
        let r = self.plan_refresh(false);
        if let Ok(None) = r {
            self.selected_event = Some(id);
        }
        r
    }

    /// Selects the highlighted search result again, after the reload that `accept_search`
    /// asked for.
    pub fn finish_accept_search(&mut self)
        ensures
            old(self).search.selected < old(self).search.results@.len() ==> *final(self) == (App {
                selected_event: final(self).selected_event,
                ..*old(self)
            }) && final(self).selected_id() == Some(
                old(self).search.results@[old(self).search.selected as int].id@,
            ),
            old(self).search.selected >= old(self).search.results@.len() ==> *final(self) == *old(self),
    {
        if self.search.selected < self.search.results.len() {
            self.selected_event = Some(self.search.results[self.search.selected].id.clone());
        }
    }

    /// Takes the backend's calendars: the visible ones are those the hidden-calendar setting
    /// does not name (by name or id), and the first writable one becomes the last used.
    pub fn load_calendars(&mut self, calendars: Vec<Calendar>)
        requires
            old(self).wf(),
        ensures
            final(self).wf(),
            final(self).calendars@ == calendars@,
            final(self).vis() == shown_ids(calendars@, string_views(old(self).config.hidden_calendars@)),
            ({
                let k = first_where(calendars@.len() as int, writable_at(calendars@));
                match final(self).last_used_calendar {
                    Some(c) => k >= 0 && c@ == calendars@[k].id@,
                    None => k == -1,
                }
            }),
            *final(self) == (App {
                calendars: final(self).calendars,
                visible_calendars: final(self).visible_calendars,
                last_used_calendar: final(self).last_used_calendar,
                ..*old(self)
            }),
    {
        let ghost hidden = string_views(self.config.hidden_calendars@);
        let ghost cals = calendars@;
        let mut visible: Vec<CalendarId> = Vec::new();
        let mut k: usize = 0;
        assert(cals.take(0) =~= Seq::<Calendar>::empty());
        while k < calendars.len()
            invariant
                k <= calendars.len(),
                cals == calendars@,
                hidden == string_views(self.config.hidden_calendars@),
                id_views(visible@) == shown_ids(cals.take(k as int), hidden),
                id_views(visible@).no_duplicates(),
            decreases calendars.len() - k,
        {
            let c = &calendars[k];
            let ghost before = id_views(visible@);
            let mut hidden_here = false;
            let mut h: usize = 0;
            while h < self.config.hidden_calendars.len()
                invariant
                    h <= self.config.hidden_calendars.len(),
                    hidden == string_views(self.config.hidden_calendars@),
                    hidden_here == exists|i: int| 0 <= i < h && (#[trigger] hidden[i] == c.name@ || hidden[i] == c.id@),
                decreases self.config.hidden_calendars.len() - h,
            {
                if self.config.hidden_calendars[h] == c.name || self.config.hidden_calendars[h] == c.id.0 {
                    hidden_here = true;
                }
                proof {
                    if hidden_here {
                        assert(hidden[h as int] == c.name@ || hidden[h as int] == c.id@ || exists|i: int|
                            0 <= i < h && (#[trigger] hidden[i] == c.name@ || hidden[i] == c.id@));
                    }
                }
                h = h + 1;
            }
            let mut present = false;
            let mut j: usize = 0;
            while j < visible.len()
                invariant
                    j <= visible.len(),
                    present == exists|i: int| 0 <= i < j && #[trigger] id_views(visible@)[i] == c.id@,
                decreases visible.len() - j,
            {
                assert(id_views(visible@)[j as int] == visible@[j as int]@);
                if visible[j].same(&c.id) {
                    present = true;
                }
                j = j + 1;
            }
            if !hidden_here && !present {
                visible.push(c.id.clone());
                assert(id_views(visible@) =~= before.push(cals[k as int].id@));
            }
            assert(cals.take(k + 1).drop_last() =~= cals.take(k as int));
            assert(cals.take(k + 1).last() == cals[k as int]);
            k = k + 1;
        }
        assert(cals.take(k as int) =~= cals);
        let last_used = match first_writable(&calendars) {
            Some(i) => Some(calendars[i].id.clone()),
            None => None,
        };
        self.calendars = calendars;
        self.visible_calendars = visible;
        self.last_used_calendar = last_used;
    }
}

/// Whether loading may go on after asking for the permission status: `Ok(false)` when access
/// is granted, `Ok(true)` when it must be requested first, and an error when it was denied.
pub fn check_permission(status: PermissionStatus) -> (r: Result<bool, String>)
    ensures
        status == PermissionStatus::Granted ==> r == Ok::<bool, String>(false),
        status == PermissionStatus::NotDetermined ==> r == Ok::<bool, String>(true),
        status == PermissionStatus::Denied ==> (r matches Err(m)
            && m@ == "Calendar permission denied. Open System Settings → Privacy & Security → Calendars."@),
{
    match status {
        PermissionStatus::Granted => Ok(false),
        PermissionStatus::NotDetermined => Ok(true),
        PermissionStatus::Denied => Err(
            String::from_str(
                "Calendar permission denied. Open System Settings → Privacy & Security → Calendars.",
            ),
        ),
    }
}

/// Whether loading may go on after requesting access: an error when it was not granted.
pub fn check_request(granted: bool) -> (r: Result<(), String>)
    ensures
        granted ==> r is Ok,
        !granted ==> (r matches Err(m)
            && m@ == "Calendar access was not granted. Open System Settings → Privacy & Security → Calendars."@),
{
    if granted {
        Ok(())
    } else {
        Err(
            String::from_str(
                "Calendar access was not granted. Open System Settings → Privacy & Security → Calendars.",
            ),
        )
    }
}

/// Cancelling the calendar picker brings back the calendars that were visible when it was
/// opened, whatever was toggled in between.
pub proof fn law_picker_cancel_restores(a: App, b: App, c: App, d: App)
    requires
        App::picker_opened(a, b),
        c.picker_original == b.picker_original,
        App::picker_cancelled(c, d),
    ensures
        d.vis() == a.vis(),
{
}

/// A backspace undoes typing a character: every field's text is back to what it was.
pub proof fn law_backspace_undoes_insert(a: EventEditor, b: EventEditor, c: EventEditor, ch: char)
    requires
        EventEditor::inserted(&a, &b, ch),
        EventEditor::backspaced(&b, &c),
    ensures
        EventEditor::same_but_texts(&a, &c),
        forall|g: EditorField| #[trigger] c.text_of(g) == a.text_of(g),
{
    assert forall|g: EditorField| #[trigger] c.text_of(g) == a.text_of(g) by {
        if g == a.field {
            if let Some(t) = a.text_of(a.field) {
                assert(t.push(ch).drop_last() =~= t);
            }
        }
    }
}

/// The listed events of `s` are read from the calendars shown, the view, the cursor's day and
/// the loaded events alone, so changing the selection leaves them as they were.
proof fn lemma_cycle_items_ignore_selection(a: App, x: Option<EventId>, s: Seq<EventView>)
    ensures
        cycle_items(App { selected_event: x, ..a }, s) == cycle_items(a, s),
    decreases s.len(),
{
    if s.len() > 0 {
        lemma_cycle_items_ignore_selection(a, x, s.drop_last());
    }
}

/// Stepping back by `delta` from `(cur + delta) % n` reaches `cur`.
proof fn lemma_step_back(cur: int, delta: int, n: int)
    requires
        0 <= cur < n,
    ensures
        ((cur + delta) % n + (-delta)) % n == cur,
{
    let q = (cur + delta) / n;
    let j = (cur + delta) % n;
    vstd::arithmetic::div_mod::lemma_fundamental_div_mod(cur + delta, n);
    assert(j + (-delta) == n * (-q) + cur) by (nonlinear_arith)
        requires
            cur + delta == n * q + j,
    ;
    vstd::arithmetic::div_mod::lemma_mod_multiples_vanish(-q, cur, n);
    vstd::arithmetic::div_mod::lemma_small_mod(cur as nat, n as nat);
}

/// In the agenda, cycling the selection by `delta` and then by `-delta` selects the event one
/// started from again and changes nothing else, when that event is among the listed ones and
/// no two listed events share an id.
pub proof fn law_cycle_back(a: App, b: App, c: App, delta: i32)
    requires
        a.view == View::Agenda,
        delta != i32::MIN,
        App::event_cycled(a, b, delta),
        App::event_cycled(b, c, (-delta) as i32),
        sort_by_instant(cycle_items(a, a.ev())).map_values(|p: (Seq<char>, Moment)| p.0).no_duplicates(),
        a.selected_id() matches Some(id) && exists|k: int|
            0 <= k < sort_by_instant(cycle_items(a, a.ev())).len()
                && #[trigger] sort_by_instant(cycle_items(a, a.ev()))[k].0 == id,
    ensures
        c.selected_id() == a.selected_id(),
        c == (App { selected_event: c.selected_event, ..a }),
{
    let sorted = sort_by_instant(cycle_items(a, a.ev()));
    let names = sorted.map_values(|p: (Seq<char>, Moment)| p.0);
    let n = sorted.len() as int;
    let id = a.selected_id()->Some_0;
    let k = choose|k: int| 0 <= k < sorted.len() && #[trigger] sorted[k].0 == id;
    lemma_first_where(n, pair_with_id(sorted, id));
    assert(pair_with_id(sorted, id)(k));
    let cur = first_where(n, pair_with_id(sorted, id));
    assert(0 <= cur < n);
    let j = (cur + delta) % n;
    assert(0 <= j < n);
    let other = sorted[j].0;
    assert(b.selected_id() == Some(other));
    assert(b == (App { selected_event: b.selected_event, ..a }));
    lemma_cycle_items_ignore_selection(a, b.selected_event, a.ev());
    assert(b.ev() == a.ev());
    assert(sort_by_instant(cycle_items(b, b.ev())) == sorted);
    lemma_first_where(n, pair_with_id(sorted, other));
    assert(pair_with_id(sorted, other)(j));
    let back = first_where(n, pair_with_id(sorted, other));
    assert(0 <= back < n && sorted[back].0 == other);
    assert(names[back] == names[j]);
    assert(back == j);
    lemma_step_back(cur, delta as int, n);
    assert((j + (-delta) as i32) % n == cur);
    assert(sorted[cur].0 == id);
}

/// Settling the selection twice is settling it once: a second `ensure_selection` keeps the
/// selection that the first one left, and changes nothing else.
pub proof fn law_ensure_selection_idempotent(a: App, b: App, c: App)
    requires
        App::selection_settled(a, b),
        App::selection_settled(b, c),
    ensures
        c.selected_id() == b.selected_id(),
        c == (App { selected_event: c.selected_event, ..b }),
{
    assert(b.ev() == a.ev() && b.vis() == a.vis() && b.cursor_date == a.cursor_date);
    if a.selection_shown() {
        let id = a.selected_id()->Some_0;
        let i = choose|i: int|
            0 <= i < a.ev().len() && (#[trigger] a.ev()[i]).id == id
                && a.vis().contains(a.ev()[i].calendar_id);
        assert(b.ev()[i].id == id);
        assert(b.selection_shown());
    } else {
        match b.selected_id() {
            Some(id) => {
                let k = choose|k: int| a.best_candidate(k) && id == a.ev()[k].id;
                assert(b.ev()[k].id == id && b.vis().contains(b.ev()[k].calendar_id));
                assert(b.selection_shown());
            },
            None => {
                assert(!b.selection_shown());
                if c.selected_id() is Some {
                    let id = c.selected_id()->Some_0;
                    let k = choose|k: int| b.best_candidate(k) && id == b.ev()[k].id;
                    assert(a.candidate(a.ev()[k]));
                }
            },
        }
    }
}

/// A timed form describes an event shorter than a day: the start and end are the typed times
/// on the typed date, and the end falls on the next day exactly when its time of day is
/// earlier than the start's; so the event lasts `(end - start) mod 1440` minutes of wall-clock
/// time, at least one. (The hour and minute that chrono reads are below 24 and 60.)
pub proof fn law_timed_form_times(ed: EventEditor)
    requires
        !ed.all_day,
        parse_hh_mm(ed.start@) matches Some(t) ==> t.0 < 24 && t.1 < 60,
        parse_hh_mm(ed.end@) matches Some(t) ==> t.0 < 24 && t.1 < 60,
    ensures
        ed.check() matches EditorCheck::Times(sd, sh, sm, edd, eh, em) ==> {
            let start = sh * 60 + sm;
            let end = eh * 60 + em;
            &&& parse_iso_date_text(ed.date@) == Some(sd)
            &&& parse_hh_mm(ed.start@) == Some((sh, sm))
            &&& parse_hh_mm(ed.end@) == Some((eh, em))
            &&& (edd == sd + 1 <==> end < start)
            &&& (edd == sd || edd == sd + 1)
            &&& 0 < (edd - sd) * 1440 + end - start < 1440
            &&& (edd - sd) * 1440 + end - start == (end - start) % 1440
        },
{
}

/// A timed form with a title, a readable date and two different readable times is accepted,
/// unless an end earlier than the start would fall past the last supported day.
pub proof fn law_timed_form_accepted(ed: EventEditor)
    requires
        !ed.all_day,
        trim(ed.title@).len() > 0,
        parse_iso_date_text(ed.date@) matches Some(d) && parse_hh_mm(ed.start@) matches Some(s)
            && parse_hh_mm(ed.end@) matches Some(e) && s != e
            && (e.0 * 60 + e.1 < s.0 * 60 + s.1 ==> d + 1 <= MAX_DAY),
    ensures
        ed.check() is Times,
{
}

/// An all-day form with a title and a readable date describes the whole days from that date:
/// from its midnight to the midnight after its number of days (at least one), unless that
/// runs past the last supported day.
pub proof fn law_all_day_form(ed: EventEditor)
    requires
        ed.all_day,
        trim(ed.title@).len() > 0,
        parse_iso_date_text(ed.date@) is Some,
    ensures
        ({
            let d = parse_iso_date_text(ed.date@)->Some_0;
            let days: int = if ed.all_day_duration_days == 0 {
                1
            } else {
                ed.all_day_duration_days as int
            };
            if d + days <= MAX_DAY {
                ed.check() == EditorCheck::Times(d, 0, 0, d + days, 0, 0)
            } else {
                ed.check() is Invalid
            }
        }),
{
}

/// Toggling the same calendar twice leaves the set of visible calendars as it was.
pub proof fn law_toggle_twice(a: App, b: App, c: App)
    requires
        a.vis().no_duplicates(),
        App::calendar_toggled(a, b),
        App::calendar_toggled(b, c),
    ensures
        c.vis().to_set() == a.vis().to_set(),
{
    if a.calendar_picker_index < a.calendars@.len() {
        let id = a.calendars@[a.calendar_picker_index as int].id@;
        let v = a.vis();
        if v.contains(id) {
            let i = v.index_of(id);
            assert(0 <= i < v.len() && v[i] == id);
            let w = v.remove(i);
            assert(b.vis() == w);
            assert(!w.contains(id)) by {
                if w.contains(id) {
                    let j = choose|j: int| 0 <= j < w.len() && w[j] == id;
                    let j2 = if j < i { j } else { j + 1 };
                    assert(v[j2] == id);
                }
            }
            assert(c.vis() == w.push(id));
            assert(c.vis().to_set() =~= v.to_set()) by {
                assert forall|x: Seq<char>| c.vis().to_set().contains(x) == v.to_set().contains(x) by {
                    if v.contains(x) {
                        let j = choose|j: int| 0 <= j < v.len() && v[j] == x;
                        if j < i {
                            assert(w[j] == x);
                            assert(c.vis()[j] == x);
                        } else if j > i {
                            assert(w[j - 1] == x);
                            assert(c.vis()[j - 1] == x);
                        } else {
                            assert(c.vis()[w.len() as int] == x);
                        }
                    }
                    if c.vis().contains(x) {
                        let j = choose|j: int| 0 <= j < c.vis().len() && c.vis()[j] == x;
                        if j < w.len() {
                            let j2 = if j < i { j } else { j + 1 };
                            assert(v[j2] == x);
                        } else {
                            assert(v[i] == x);
                        }
                    }
                }
            }
        } else {
            let w = v.push(id);
            assert(b.vis() == w);
            assert(w.contains(id)) by {
                assert(w[v.len() as int] == id);
            }
            let i = w.index_of(id);
            assert(0 <= i < w.len() && w[i] == id);
            assert(i == v.len()) by {
                if i < v.len() {
                    assert(v[i] == id);
                }
            }
            assert(c.vis() =~= v);
        }
    }
}

} // verus!
