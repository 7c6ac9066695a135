use crate::time::Moment;
use vstd::prelude::*;

verus! {

/// The plain-value form of an optional text.
pub open spec fn opt_view(o: Option<String>) -> Option<Seq<char>> {
    match o {
        Some(s) => Some(s@),
        None => None,
    }
}

/// A copy of an optional text.
pub fn clone_opt_string(o: &Option<String>) -> (r: Option<String>)
    ensures
        opt_view(r) == opt_view(*o),
{
    match o {
        Some(s) => Some(s.clone()),
        None => None,
    }
}

/// Identifier of a calendar.
#[derive(Debug, Default, PartialEq, Eq, Hash)]
pub struct CalendarId(pub String);

impl View for CalendarId {
    type V = Seq<char>;

    open spec fn view(&self) -> Seq<char> {
        self.0@
    }
}

impl Clone for CalendarId {
    fn clone(&self) -> (r: Self)
        ensures
            r@ == self@,
    {
        CalendarId(self.0.clone())
    }
}

impl CalendarId {
    /// Whether two identifiers are equal.
    pub fn same(&self, other: &CalendarId) -> (r: bool)
        ensures
            r == (self@ == other@),
    {
        self.0 == other.0
    }
}

/// Identifier of an event.
#[derive(Debug, Default, PartialEq, Eq, Hash)]
pub struct EventId(pub String);

impl View for EventId {
    type V = Seq<char>;

    open spec fn view(&self) -> Seq<char> {
        self.0@
    }
}

impl Clone for EventId {
    fn clone(&self) -> (r: Self)
        ensures
            r@ == self@,
    {
        EventId(self.0.clone())
    }
}

impl EventId {
    /// Whether two identifiers are equal.
    pub fn same(&self, other: &EventId) -> (r: bool)
        ensures
            r == (self@ == other@),
    {
        self.0 == other.0
    }
}

/// A calendar colour.
#[derive(Clone, Copy, Debug, PartialEq, Eq, Structural)]
pub struct RgbColor {
    pub red: u8,
    pub green: u8,
    pub blue: u8,
}

/// Where a calendar comes from.
#[derive(Debug)]
pub enum CalendarSource {
    Local,
    ICloud,
    CalDav,
    Exchange,
    Birthdays,
    Other(String),
}

/// The plain-value form of a calendar source.
pub enum CalendarSourceView {
    Local,
    ICloud,
    CalDav,
    Exchange,
    Birthdays,
    Other(Seq<char>),
}

impl View for CalendarSource {
    type V = CalendarSourceView;

    open spec fn view(&self) -> CalendarSourceView {
        match self {
            CalendarSource::Local => CalendarSourceView::Local,
            CalendarSource::ICloud => CalendarSourceView::ICloud,
            CalendarSource::CalDav => CalendarSourceView::CalDav,
            CalendarSource::Exchange => CalendarSourceView::Exchange,
            CalendarSource::Birthdays => CalendarSourceView::Birthdays,
            CalendarSource::Other(name) => CalendarSourceView::Other(name@),
        }
    }
}

impl Clone for CalendarSource {
    fn clone(&self) -> (r: Self)
        ensures
            r@ == self@,
    {
        match self {
            CalendarSource::Local => CalendarSource::Local,
            CalendarSource::ICloud => CalendarSource::ICloud,
            CalendarSource::CalDav => CalendarSource::CalDav,
            CalendarSource::Exchange => CalendarSource::Exchange,
            CalendarSource::Birthdays => CalendarSource::Birthdays,
            CalendarSource::Other(name) => CalendarSource::Other(name.clone()),
        }
    }
}

/// A calendar of the user's account.
#[derive(Debug)]
pub struct Calendar {
    pub id: CalendarId,
    pub name: String,
    pub color: Option<RgbColor>,
    pub writable: bool,
    pub source: CalendarSource,
}

/// The plain-value form of a calendar.
pub struct CalendarView {
    pub id: Seq<char>,
    pub name: Seq<char>,
    pub color: Option<RgbColor>,
    pub writable: bool,
    pub source: CalendarSourceView,
}

impl View for Calendar {
    type V = CalendarView;

    open spec fn view(&self) -> CalendarView {
        CalendarView {
            id: self.id@,
            name: self.name@,
            color: self.color,
            writable: self.writable,
            source: self.source@,
        }
    }
}

impl Clone for Calendar {
    fn clone(&self) -> (r: Self)
        ensures
            r@ == self@,
    {
        Calendar {
            id: self.id.clone(),
            name: self.name.clone(),
            color: self.color,
            writable: self.writable,
            source: self.source.clone(),
        }
    }
}

/// How an event shows the user's availability.
#[derive(Clone, Copy, Debug, PartialEq, Eq, Structural)]
pub enum Availability {
    Busy,
    Free,
    Tentative,
    Unavailable,
}

impl Default for Availability {
    fn default() -> (r: Self)
        ensures
            r == Availability::Busy,
    {
        Availability::Busy
    }
}

/// How a recurring event repeats.
#[derive(Debug)]
pub struct Recurrence {
    pub description: String,
}

impl View for Recurrence {
    type V = Seq<char>;

    open spec fn view(&self) -> Seq<char> {
        self.description@
    }
}

impl Clone for Recurrence {
    fn clone(&self) -> (r: Self)
        ensures
            r@ == self@,
    {
        Recurrence { description: self.description.clone() }
    }
}

/// A calendar event.
#[derive(Debug)]
pub struct Event {
    pub id: EventId,
    pub calendar_id: CalendarId,
    pub title: String,
    pub start: Moment,
    pub end: Moment,
    pub all_day: bool,
    pub location: Option<String>,
    pub notes: Option<String>,
    pub url: Option<String>,
    pub recurrence: Option<Recurrence>,
    pub availability: Availability,
}

/// The plain-value form of an event.
pub struct EventView {
    pub id: Seq<char>,
    pub calendar_id: Seq<char>,
    pub title: Seq<char>,
    pub start: Moment,
    pub end: Moment,
    pub all_day: bool,
    pub location: Option<Seq<char>>,
    pub notes: Option<Seq<char>>,
    pub url: Option<Seq<char>>,
    pub recurrence: Option<Seq<char>>,
    pub availability: Availability,
}

impl View for Event {
    type V = EventView;

    open spec fn view(&self) -> EventView {
        EventView {
            id: self.id@,
            calendar_id: self.calendar_id@,
            title: self.title@,
            start: self.start,
            end: self.end,
            all_day: self.all_day,
            location: opt_view(self.location),
            notes: opt_view(self.notes),
            url: opt_view(self.url),
            recurrence: match self.recurrence {
                Some(r) => Some(r@),
                None => None,
            },
            availability: self.availability,
        }
    }
}

impl Clone for Event {
    fn clone(&self) -> (r: Self)
        ensures
            r@ == self@,
    {
        Event {
            id: self.id.clone(),
            calendar_id: self.calendar_id.clone(),
            title: self.title.clone(),
            start: self.start,
            end: self.end,
            all_day: self.all_day,
            location: clone_opt_string(&self.location),
            notes: clone_opt_string(&self.notes),
            url: clone_opt_string(&self.url),
            recurrence: match &self.recurrence {
                Some(r) => Some(r.clone()),
                None => None,
            },
            availability: self.availability,
        }
    }
}

impl Event {
    /// Both instants are representable and carry a local wall-clock time.
    pub open spec fn wf(self) -> bool {
        self.start.wf() && self.end.wf()
    }

    /// Whether both instants are representable (see `wf`).
    pub fn is_wf(&self) -> (r: bool)
        ensures
            r == self.wf(),
    {
        self.start.is_wf() && self.end.is_wf()
    }
}

/// What a new event is made of.
#[derive(Debug)]
pub struct NewEvent {
    pub calendar_id: CalendarId,
    pub title: String,
    pub start: Moment,
    pub end: Moment,
    pub all_day: bool,
    pub location: Option<String>,
    pub notes: Option<String>,
}

/// Changes to an existing event; `None` leaves a field as it is.
#[derive(Debug, Default)]
pub struct EventPatch {
    pub title: Option<String>,
    pub start: Option<Moment>,
    pub end: Option<Moment>,
    pub all_day: Option<bool>,
    pub location: Option<Option<String>>,
    pub notes: Option<Option<String>>,
}

/// Which occurrences of a recurring event a deletion affects.
#[derive(Clone, Copy, Debug, PartialEq, Eq, Structural)]
pub enum DeleteScope {
    ThisEvent,
    ThisAndFuture,
    AllEvents,
}

/// Which occurrences of a recurring event an update affects.
#[derive(Clone, Copy, Debug, PartialEq, Eq, Structural)]
pub enum RecurrenceScope {
    ThisEvent,
    ThisAndFuture,
    AllEvents,
}

/// Whether the user granted access to the calendars.
#[derive(Clone, Copy, Debug, PartialEq, Eq, Structural)]
pub enum PermissionStatus {
    Granted,
    NotDetermined,
    Denied,
}

impl PermissionStatus {
    /// How the status reads in a report.
    pub fn label(self) -> (r: &'static str)
        ensures
            r@ == match self {
                PermissionStatus::Granted => "granted"@,
                PermissionStatus::NotDetermined => "not determined"@,
                PermissionStatus::Denied => "denied"@,
            },
    {
        match self {
            PermissionStatus::Granted => "granted",
            PermissionStatus::NotDetermined => "not determined",
            PermissionStatus::Denied => "denied",
        }
    }
}

/// A half-open span of time `[from, to)`.
#[derive(Clone, Copy, Debug, PartialEq, Eq, Structural)]
pub struct DateRange {
    pub from: Moment,
    pub to: Moment,
}

impl DateRange {
    /// The span from `from` (included) to `to` (excluded).
    pub fn new(from: Moment, to: Moment) -> (r: Self)
        ensures
            r.from == from,
            r.to == to,
    {
        DateRange { from, to }
    }

    /// The instant lies in the span: not before `from`, and before `to`.
    pub open spec fn holds(self, moment: Moment) -> bool {
        !moment.before(self.from) && moment.before(self.to)
    }

    /// Whether `moment` lies in the span.
    pub fn contains(&self, moment: Moment) -> (r: bool)
        ensures
            r == self.holds(moment),
    {
        !moment.is_before(&self.from) && moment.is_before(&self.to)
    }

    /// The event overlaps the span: it ends after `from` and starts before `to`.
    pub open spec fn overlaps(self, e: EventView) -> bool {
        self.from.before(e.end) && e.start.before(self.to)
    }
}

/// The first index below `n` at which `p` holds, or -1 when it holds at none.
pub open spec fn first_where(n: int, p: spec_fn(int) -> bool) -> int
    decreases n,
{
    if n <= 0 {
        -1
    } else {
        let f = first_where(n - 1, p);
        if f >= 0 {
            f
        } else if p(n - 1) {
            n - 1
        } else {
            -1
        }
    }
}

/// `first_where` is the least index at which `p` holds, or -1 when there is none.
pub proof fn lemma_first_where(n: int, p: spec_fn(int) -> bool)
    ensures
        -1 <= first_where(n, p) < (if n > 0 { n } else { 0 }),
        first_where(n, p) >= 0 ==> p(first_where(n, p)),
        forall|i: int| 0 <= i < n && i < first_where(n, p) ==> !#[trigger] p(i),
        first_where(n, p) == -1 ==> forall|i: int| 0 <= i < n ==> !#[trigger] p(i),
    decreases n,
{
    if n > 0 {
        lemma_first_where(n - 1, p);
    }
}

/// Extending the range by an index at which `p` fails keeps the answer; by one at which it
/// holds gives that index when none was found before.
pub proof fn lemma_first_where_step(n: int, p: spec_fn(int) -> bool)
    requires
        n >= 0,
    ensures
        first_where(n + 1, p) == (if first_where(n, p) >= 0 {
            first_where(n, p)
        } else if p(n) {
            n
        } else {
            -1
        }),
{
}

} // verus!
