use crate::date::{week_start, Day, MAX_DAY, MIN_DAY};
use crate::model::{
    clone_opt_string, opt_view, Availability, Calendar, CalendarId, CalendarSource,
    CalendarSourceView, CalendarView, DateRange, DeleteScope, Event, EventId, EventPatch,
    EventView, NewEvent, Recurrence, RecurrenceScope, RgbColor,
};
use crate::text::{chars_of, contains, contains_exec};
use crate::time::{add_minutes, local_at, local_at_result, now, Moment, SAFE_MAX_SECS, SAFE_MIN_SECS};
use vstd::prelude::*;

verus! {

/// Where a stable insertion by start puts `x` into `t`: after every event that does not start
/// later.
pub open spec fn start_insert_pos(t: Seq<EventView>, x: EventView) -> int
    decreases t.len(),
{
    if t.len() == 0 {
        0
    } else if x.start.before(t[0].start) {
        0
    } else {
        1 + start_insert_pos(t.drop_first(), x)
    }
}

/// The place where an event goes into a list sorted by start lies within the list.
pub proof fn lemma_start_insert_pos_bounds(t: Seq<EventView>, x: EventView)
    ensures
        0 <= start_insert_pos(t, x) <= t.len(),
    decreases t.len(),
{
    if t.len() > 0 && !x.start.before(t[0].start) {
        lemma_start_insert_pos_bounds(t.drop_first(), x);
    }
}

/// Events stably sorted by start (what `sort_by_key(|e| e.start)` yields).
pub open spec fn sort_by_start(s: Seq<EventView>) -> Seq<EventView>
    decreases s.len(),
{
    if s.len() == 0 {
        Seq::empty()
    } else {
        let t = sort_by_start(s.drop_last());
        t.insert(start_insert_pos(t, s.last()), s.last())
    }
}

/// Sorting by start keeps the number of events.
pub proof fn lemma_sort_by_start_len(s: Seq<EventView>)
    ensures
        sort_by_start(s).len() == s.len(),
    decreases s.len(),
{
    if s.len() > 0 {
        lemma_sort_by_start_len(s.drop_last());
        lemma_start_insert_pos_bounds(sort_by_start(s.drop_last()), s.last());
    }
}

/// The plain-value forms of a list of events.
pub open spec fn event_views(v: Seq<Event>) -> Seq<EventView> {
    v.map_values(|e: Event| e@)
}

/// Copies of the events, sorted stably by start.
pub fn sort_events_by_start(v: &Vec<Event>) -> (r: Vec<Event>)
    ensures
        event_views(r@) == sort_by_start(event_views(v@)),
{
    let ghost vv = event_views(v@);
    let mut sorted: Vec<Event> = Vec::new();
    let mut i: usize = 0;
    assert(vv.take(0) =~= Seq::<EventView>::empty());
    while i < v.len()
        invariant
            i <= v.len(),
            vv == event_views(v@),
            event_views(sorted@) == sort_by_start(vv.take(i as int)),
        decreases v.len() - i,
    {
        let x = v[i].clone();
        assert(x@ == vv[i as int]);
        let mut p: usize = 0;
        proof {
            lemma_sort_by_start_len(vv.take(i as int));
            assert(event_views(sorted@).skip(0) =~= event_views(sorted@));
        }
        while p < sorted.len() && !x.start.is_before(&sorted[p].start)
            invariant
                p <= sorted.len(),
                start_insert_pos(event_views(sorted@), x@) == p + start_insert_pos(
                    event_views(sorted@).skip(p as int),
                    x@,
                ),
            decreases sorted.len() - p,
        {
            assert(event_views(sorted@).skip(p as int).drop_first() =~= event_views(sorted@).skip(
                p + 1,
            ));
            p = p + 1;
        }
        assert(start_insert_pos(event_views(sorted@), x@) == p) by {
            if p < sorted.len() {
                assert(event_views(sorted@).skip(p as int)[0] == sorted@[p as int]@);
            }
        }
        let ghost before = event_views(sorted@);
        sorted.insert(p, x);
        proof {
            assert(event_views(sorted@) =~= before.insert(p as int, vv[i as int]));
            let t = vv.take(i + 1);
            assert(t.drop_last() =~= vv.take(i as int));
            assert(t.last() == vv[i as int]);
        }
        i = i + 1;
    }
    assert(vv.take(i as int) =~= vv);
    sorted
}

/// The events that overlap `[from, to)`, in order.
pub open spec fn overlapping(s: Seq<EventView>, from: Moment, to: Moment) -> Seq<EventView>
    decreases s.len(),
{
    if s.len() == 0 {
        Seq::empty()
    } else {
        let prev = overlapping(s.drop_last(), from, to);
        let e = s.last();
        if from.before(e.end) && e.start.before(to) {
            prev.push(e)
        } else {
            prev
        }
    }
}

/// Position of the first event with the given id, or -1.
pub open spec fn index_of_id(s: Seq<EventView>, id: Seq<char>) -> int
    decreases s.len(),
{
    if s.len() == 0 {
        -1
    } else if s[0].id == id {
        0
    } else {
        let r = index_of_id(s.drop_first(), id);
        if r < 0 {
            -1
        } else {
            r + 1
        }
    }
}

/// `index_of_id` is the first position of an event with the id, or -1 when there is none.
pub proof fn lemma_index_of_id(s: Seq<EventView>, id: Seq<char>)
    ensures
        -1 <= index_of_id(s, id) < s.len(),
        index_of_id(s, id) >= 0 ==> s[index_of_id(s, id)].id == id,
        forall|j: int| 0 <= j < index_of_id(s, id) ==> s[j].id != id,
        index_of_id(s, id) == -1 ==> forall|j: int| 0 <= j < s.len() ==> s[j].id != id,
    decreases s.len(),
{
    if s.len() > 0 && s[0].id != id {
        lemma_index_of_id(s.drop_first(), id);
        assert forall|j: int| 0 <= j < index_of_id(s, id) implies s[j].id != id by {
            if j > 0 {
                assert(s[j] == s.drop_first()[j - 1]);
            }
        }
        if index_of_id(s.drop_first(), id) == -1 {
            assert forall|j: int| 0 <= j < s.len() implies s[j].id != id by {
                if j > 0 {
                    assert(s[j] == s.drop_first()[j - 1]);
                }
            }
        }
    }
}

/// The position of the first event with the given id.
pub fn find_event_index(events: &Vec<Event>, id: &EventId) -> (r: Option<usize>)
    ensures
        r is None ==> index_of_id(event_views(events@), id@) == -1,
        r matches Some(k) ==> index_of_id(event_views(events@), id@) == k && k < events.len(),
{
    let ghost s = event_views(events@);
    proof {
        lemma_index_of_id(s, id@);
    }
    let mut k: usize = 0;
    while k < events.len()
        invariant
            k <= events.len(),
            s == event_views(events@),
            forall|j: int| 0 <= j < k ==> s[j].id != id@,
            -1 <= index_of_id(s, id@) < s.len(),
            index_of_id(s, id@) >= 0 ==> s[index_of_id(s, id@)].id == id@,
            forall|j: int| 0 <= j < index_of_id(s, id@) ==> s[j].id != id@,
            index_of_id(s, id@) == -1 ==> forall|j: int| 0 <= j < s.len() ==> s[j].id != id@,
        decreases events.len() - k,
    {
        if events[k].id.same(id) {
            assert(s[k as int].id == id@);
            return Some(k);
        }
        k = k + 1;
    }
    None
}

/// The plain-value form of a patch's changes.
pub open spec fn patched(e: EventView, p: &EventPatch) -> EventView {
    EventView {
        title: match p.title {
            Some(t) => t@,
            None => e.title,
        },
        start: match p.start {
            Some(t) => t,
            None => e.start,
        },
        end: match p.end {
            Some(t) => t,
            None => e.end,
        },
        all_day: match p.all_day {
            Some(t) => t,
            None => e.all_day,
        },
        location: match p.location {
            Some(t) => opt_view(t),
            None => e.location,
        },
        notes: match p.notes {
            Some(t) => opt_view(t),
            None => e.notes,
        },
        ..e
    }
}

/// The events without those that carry the given id.
pub open spec fn without_id(s: Seq<EventView>, id: Seq<char>) -> Seq<EventView>
    decreases s.len(),
{
    if s.len() == 0 {
        Seq::empty()
    } else {
        let prev = without_id(s.drop_last(), id);
        if s.last().id != id {
            prev.push(s.last())
        } else {
            prev
        }
    }
}

/// The name for `str::to_lowercase`: the Unicode lower-case form of a text.
pub uninterp spec fn unicode_lower(s: Seq<char>) -> Seq<char>;

/// `str::to_lowercase`: the Unicode lower-case form of a text, a function of the text.
#[verifier::external_body]
fn to_lowercase(s: &str) -> (r: String)
    ensures
        r@ == unicode_lower(s@),
{
    s.to_lowercase()
}

/// Whether `c` may stand at position `i` of a UUID's text: a hyphen at 8, 13, 18 and 23, a
/// lower-case hexadecimal digit elsewhere.
pub open spec fn uuid_char_ok(i: int, c: char) -> bool {
    if i == 8 || i == 13 || i == 18 || i == 23 {
        c == '-'
    } else {
        ('0' <= c && c <= '9') || ('a' <= c && c <= 'f')
    }
}

/// The hyphenated lower-case text of a UUID: 36 characters (see `uuid_char_ok`).
pub open spec fn is_uuid_text(s: Seq<char>) -> bool {
    s.len() == 36 && forall|i: int| 0 <= i < 36 ==> uuid_char_ok(i, #[trigger] s[i])
}

/// `Uuid::new_v4().to_string()`: a random identifier. Which one is chance; uuid's `Display`
/// always writes the hyphenated lower-case form of 36 characters.
#[verifier::external_body]
fn random_id() -> (r: String)
    ensures
        is_uuid_text(r@),
{
    uuid::Uuid::new_v4().to_string()
}

/// An event matches a lower-cased query when its title, location or notes, lower-cased,
/// contain it.
pub open spec fn matches_query(e: EventView, q: Seq<char>) -> bool {
    ||| contains(unicode_lower(e.title), q)
    ||| contains(
        unicode_lower(
            match e.location {
                Some(l) => l,
                None => Seq::empty(),
            },
        ),
        q,
    )
    ||| contains(
        unicode_lower(
            match e.notes {
                Some(n) => n,
                None => Seq::empty(),
            },
        ),
        q,
    )
}

/// The events in the optional range that match the lower-cased query, in order.
pub open spec fn search_hits(s: Seq<EventView>, q: Seq<char>, range: Option<DateRange>) -> Seq<
    EventView,
>
    decreases s.len(),
{
    if s.len() == 0 {
        Seq::empty()
    } else {
        let prev = search_hits(s.drop_last(), q, range);
        let e = s.last();
        let in_range = match range {
            Some(r) => r.from.before(e.end) && e.start.before(r.to),
            None => true,
        };
        if in_range && matches_query(e, q) {
            prev.push(e)
        } else {
            prev
        }
    }
}

/// Every event of the list has representable instants.
pub open spec fn events_wf(v: Seq<Event>) -> bool {
    forall|i: int| 0 <= i < v.len() ==> (#[trigger] v[i]).wf()
}

/// Copies of the events.
pub fn clone_events(v: &Vec<Event>) -> (r: Vec<Event>)
    ensures
        event_views(r@) == event_views(v@),
        events_wf(v@) ==> events_wf(r@),
{
    let mut r: Vec<Event> = Vec::new();
    let mut k: usize = 0;
    while k < v.len()
        invariant
            k <= v.len(),
            event_views(r@) == event_views(v@).take(k as int),
            events_wf(v@) ==> events_wf(r@),
        decreases v.len() - k,
    {
        let ghost before = event_views(r@);
        r.push(v[k].clone());
        assert(event_views(r@) =~= before.push(v@[k as int]@));
        assert(event_views(v@).take(k + 1) =~= before.push(v@[k as int]@));
        k = k + 1;
    }
    assert(event_views(v@).take(k as int) =~= event_views(v@));
    r
}

/// Copies of the events that overlap `[from, to)`, in order.
pub fn overlapping_events(v: &Vec<Event>, from: Moment, to: Moment) -> (r: Vec<Event>)
    ensures
        event_views(r@) == overlapping(event_views(v@), from, to),
        events_wf(v@) ==> events_wf(r@),
{
    let ghost s = event_views(v@);
    let mut hits: Vec<Event> = Vec::new();
    let mut k: usize = 0;
    assert(s.take(0) =~= Seq::<EventView>::empty());
    while k < v.len()
        invariant
            k <= v.len(),
            s == event_views(v@),
            event_views(hits@) == overlapping(s.take(k as int), from, to),
            events_wf(v@) ==> events_wf(hits@),
        decreases v.len() - k,
    {
        let e = &v[k];
        let ghost before = event_views(hits@);
        if from.is_before(&e.end) && e.start.is_before(&to) {
            hits.push(e.clone());
            assert(event_views(hits@) =~= before.push(s[k as int]));
        }
        assert(s.take(k + 1).drop_last() =~= s.take(k as int));
        k = k + 1;
    }
    assert(s.take(k as int) =~= s);
    hits
}

/// A deterministic in-memory calendar store used for the demo and for tests.
pub struct MockBackend {
    pub calendars: Vec<Calendar>,
    pub events: Vec<Event>,
}

impl MockBackend {
    /// The calendars.
    pub fn calendars(&self) -> (r: Vec<Calendar>)
        ensures
            r@.map_values(|c: Calendar| c@) == self.calendars@.map_values(|c: Calendar| c@),
    {
        let mut r: Vec<Calendar> = Vec::new();
        let mut k: usize = 0;
        while k < self.calendars.len()
            invariant
                k <= self.calendars.len(),
                r@.map_values(|c: Calendar| c@) == self.calendars@.map_values(|c: Calendar| c@).take(
                    k as int,
                ),
            decreases self.calendars.len() - k,
        {
            let ghost before = r@.map_values(|c: Calendar| c@);
            r.push(self.calendars[k].clone());
            assert(r@.map_values(|c: Calendar| c@) =~= before.push(self.calendars@[k as int]@));
            assert(self.calendars@.map_values(|c: Calendar| c@).take(k + 1) =~= before.push(
                self.calendars@[k as int]@,
            ));
            k = k + 1;
        }
        assert(self.calendars@.map_values(|c: Calendar| c@).take(k as int) =~= self.calendars@.map_values(
            |c: Calendar| c@,
        ));
        r
    }

    /// The events that overlap the half-open range, sorted by start.
    pub fn events(&self, range: DateRange) -> (r: Vec<Event>)
        ensures
            event_views(r@) == sort_by_start(
                overlapping(event_views(self.events@), range.from, range.to),
            ),
    {
        let hits = overlapping_events(&self.events, range.from, range.to);
        sort_events_by_start(&hits)
    }

    /// The first event with the given id.
    pub fn event(&self, id: &EventId) -> (r: Option<Event>)
        ensures
            match r {
                None => index_of_id(event_views(self.events@), id@) == -1,
                Some(e) => {
                    let k = index_of_id(event_views(self.events@), id@);
                    0 <= k < self.events.len() && e@ == self.events@[k]@
                },
            },
    {
        match find_event_index(&self.events, id) {
            Some(k) => Some(self.events[k].clone()),
            None => None,
        }
    }

    /// Adds an event with a random id in the text form of a UUID; returns it.
    pub fn create_event(&mut self, event: NewEvent) -> (r: Event)
        ensures
            is_uuid_text(r@.id),
            r@.calendar_id == event.calendar_id@,
            r@.title == event.title@,
            r.start == event.start,
            r.end == event.end,
            r.all_day == event.all_day,
            r@.location == opt_view(event.location),
            r@.notes == opt_view(event.notes),
            r@.url is None,
            r@.recurrence is None,
            r.availability == Availability::Busy,
            event_views(final(self).events@) == event_views(old(self).events@).push(r@),
            final(self).calendars@ == old(self).calendars@,
    {
        let created = Event {
            id: EventId(random_id()),
            calendar_id: event.calendar_id,
            title: event.title,
            start: event.start,
            end: event.end,
            all_day: event.all_day,
            location: event.location,
            notes: event.notes,
            url: None,
            recurrence: None,
            availability: Availability::Busy,
        };
        let ghost before = event_views(self.events@);
        self.events.push(created.clone());
        assert(event_views(self.events@) =~= before.push(created@));
        created
    }

    /// Applies the patch to the first event with the given id and returns the result;
    /// `Err` ("event not found") when no event has the id.
    pub fn update_event(&mut self, id: &EventId, patch: EventPatch) -> (r: Result<Event, String>)
        ensures
            final(self).calendars@ == old(self).calendars@,
            ({
                let k = index_of_id(event_views(old(self).events@), id@);
                if k < 0 {
                    &&& r is Err
                    &&& r->Err_0@ == "event not found"@
                    &&& final(self).events@ == old(self).events@
                } else {
                    &&& r is Ok
                    &&& r->Ok_0@ == patched(old(self).events@[k]@, &patch)
                    &&& event_views(final(self).events@) == event_views(old(self).events@).update(
                        k,
                        patched(old(self).events@[k]@, &patch),
                    )
                }
            }),
    {
        let k = match find_event_index(&self.events, id) {
            Some(k) => k,
            None => return Err(String::from_str("event not found")),
        };
        let ghost before = event_views(self.events@);
        let ghost target = patched(self.events@[k as int]@, &patch);
        let mut event = self.events[k].clone();
        let EventPatch { title, start, end, all_day, location, notes } = patch;
        if let Some(value) = title {
            event.title = value;
        }
        if let Some(value) = start {
            event.start = value;
        }
        if let Some(value) = end {
            event.end = value;
        }
        if let Some(value) = all_day {
            event.all_day = value;
        }
        if let Some(value) = location {
            event.location = value;
        }
        if let Some(value) = notes {
            event.notes = value;
        }
        assert(event@ == target);
        let result = event.clone();
        self.events.set(k, event);
        assert(event_views(self.events@) =~= before.update(k as int, target));
        Ok(result)
    }

    /// Updates an event; this store applies every scope to the one occurrence it holds.
    pub fn update_event_scoped(&mut self, id: &EventId, patch: EventPatch, scope: RecurrenceScope) -> (r:
        Result<Event, String>)
        ensures
            final(self).calendars@ == old(self).calendars@,
            ({
                let k = index_of_id(event_views(old(self).events@), id@);
                if k < 0 {
                    &&& r is Err
                    &&& r->Err_0@ == "event not found"@
                    &&& final(self).events@ == old(self).events@
                } else {
                    &&& r is Ok
                    &&& r->Ok_0@ == patched(old(self).events@[k]@, &patch)
                    &&& event_views(final(self).events@) == event_views(old(self).events@).update(
                        k,
                        patched(old(self).events@[k]@, &patch),
                    )
                }
            }),
    {
        self.update_event(id, patch)
    }

    /// Removes every event with the given id; `Err` ("event not found") when there is none.
    pub fn delete_event(&mut self, id: &EventId, scope: DeleteScope) -> (r: Result<(), String>)
        ensures
            final(self).calendars@ == old(self).calendars@,
            event_views(final(self).events@) == without_id(event_views(old(self).events@), id@),
            r is Err <==> index_of_id(event_views(old(self).events@), id@) == -1,
            r matches Err(m) ==> m@ == "event not found"@,
    {
        let ghost s = event_views(self.events@);
        proof {
            lemma_index_of_id(s, id@);
        }
        let mut kept: Vec<Event> = Vec::new();
        let mut removed = false;
        let mut k: usize = 0;
        assert(s.take(0) =~= Seq::<EventView>::empty());
        while k < self.events.len()
            invariant
                k <= self.events.len(),
                s == event_views(self.events@),
                event_views(kept@) == without_id(s.take(k as int), id@),
                removed <==> exists|j: int| 0 <= j < k && s[j].id == id@,
            decreases self.events.len() - k,
        {
            let ghost before = event_views(kept@);
            if self.events[k].id.same(id) {
                removed = true;
            } else {
                kept.push(self.events[k].clone());
                assert(event_views(kept@) =~= before.push(s[k as int]));
            }
            assert(s.take(k + 1).drop_last() =~= s.take(k as int));
            k = k + 1;
        }
        assert(s.take(k as int) =~= s);
        self.events = kept;
        if !removed {
            assert(index_of_id(s, id@) == -1) by {
                if index_of_id(s, id@) >= 0 {
                    assert(s[index_of_id(s, id@)].id == id@);
                }
            }
            return Err(String::from_str("event not found"));
        }
        Ok(())
    }

    /// The events that match the query, ignoring case, in their title, location or notes, and
    /// that overlap the range when one is given; sorted by start.
    pub fn search(&self, query: &str, range: Option<DateRange>) -> (r: Vec<Event>)
        ensures
            event_views(r@) == sort_by_start(
                search_hits(event_views(self.events@), unicode_lower(query@), range),
            ),
    {
        let q = chars_of(to_lowercase(query).as_str());
        let ghost s = event_views(self.events@);
        let mut hits: Vec<Event> = Vec::new();
        let mut k: usize = 0;
        assert(s.take(0) =~= Seq::<EventView>::empty());
        while k < self.events.len()
            invariant
                k <= self.events.len(),
                s == event_views(self.events@),
                q@ == unicode_lower(query@),
                event_views(hits@) == search_hits(s.take(k as int), q@, range),
            decreases self.events.len() - k,
        {
            let e = &self.events[k];
            let in_range = match range {
                Some(r) => r.from.is_before(&e.end) && e.start.is_before(&r.to),
                None => true,
            };
            let ghost before = event_views(hits@);
            if in_range && self.matches(e, &q) {
                hits.push(e.clone());
                assert(event_views(hits@) =~= before.push(s[k as int]));
            }
            assert(s.take(k + 1).drop_last() =~= s.take(k as int));
            k = k + 1;
        }
        assert(s.take(k as int) =~= s);
        sort_events_by_start(&hits)
    }

    /// Whether the event matches the lower-cased query.
    fn matches(&self, e: &Event, q: &Vec<char>) -> (r: bool)
        ensures
            r == matches_query(e@, q@),
    {
        let title = chars_of(to_lowercase(e.title.as_str()).as_str());
        if contains_exec(&title, q) {
            return true;
        }
        let location = match &e.location {
            Some(l) => chars_of(to_lowercase(l.as_str()).as_str()),
            None => chars_of(to_lowercase("").as_str()),
        };
        proof {
            reveal_strlit("");
            assert(""@ =~= Seq::<char>::empty());
        }
        if contains_exec(&location, q) {
            return true;
        }
        let notes = match &e.notes {
            Some(n) => chars_of(to_lowercase(n.as_str()).as_str()),
            None => chars_of(to_lowercase("").as_str()),
        };
        contains_exec(&notes, q)
    }
}

/// One event of the demo data: calendar and text fields, and its place in the anchor week
/// (day offset from Monday, start time, and duration in minutes; all-day events span one day).
pub struct DemoEvent {
    pub id: Seq<char>,
    pub calendar_id: Seq<char>,
    pub title: Seq<char>,
    pub day: int,
    pub hour: u32,
    pub minute: u32,
    pub duration: int,
    pub all_day: bool,
    pub location: Option<Seq<char>>,
    pub notes: Option<Seq<char>>,
    pub url: Option<Seq<char>>,
    pub recurrence: Option<Seq<char>>,
    pub availability: Availability,
}

/// A plain timed demo event.
pub open spec fn demo_timed(
    id: Seq<char>,
    calendar_id: Seq<char>,
    title: Seq<char>,
    day: int,
    hour: u32,
    minute: u32,
    duration: int,
) -> DemoEvent {
    DemoEvent {
        id,
        calendar_id,
        title,
        day,
        hour,
        minute,
        duration,
        all_day: false,
        location: None,
        notes: None,
        url: None,
        recurrence: None,
        availability: Availability::Busy,
    }
}

/// The demo data, in the order the store holds it.
pub open spec fn demo_events() -> Seq<DemoEvent> {
    seq![
        DemoEvent {
            recurrence: Some("Every weekday"@),
            ..demo_timed("daily-1"@, "demo-work"@, "Daily stand-up"@, 0, 9, 0, 30)
        },
        demo_timed("daily-2"@, "demo-work"@, "Daily stand-up"@, 2, 9, 0, 30),
        demo_timed("daily-3"@, "demo-work"@, "Daily stand-up"@, 4, 9, 0, 30),
        DemoEvent {
            location: Some("Studio 2"@),
            notes: Some("Review the new calendar interaction prototypes."@),
            url: Some("https://example.com/design-review"@),
            ..demo_timed("design"@, "demo-work"@, "Design review"@, 1, 10, 0, 90)
        },
        demo_timed("one-to-one"@, "demo-work"@, "1:1"@, 3, 10, 0, 60),
        demo_timed("overlap-a"@, "demo-work"@, "Planning workshop"@, 3, 10, 30, 120),
        demo_timed("overlap-b"@, "demo-work"@, "Customer call"@, 3, 11, 0, 60),
        demo_timed("lunch"@, "demo-personal"@, "Lunch with Sam"@, 2, 13, 0, 60),
        demo_timed(
            "demo"@,
            "demo-work"@,
            "Release demo with a deliberately long title"@,
            4,
            14,
            0,
            90,
        ),
        demo_timed("early"@, "demo-personal"@, "Morning run"@, 1, 6, 30, 45),
        demo_timed("late"@, "demo-personal"@, "Cinema"@, 5, 20, 30, 150),
        DemoEvent {
            all_day: true,
            notes: Some("v0.1 launch"@),
            ..demo_timed("all-day-release"@, "demo-work"@, "Release day"@, 4, 0, 0, 0)
        },
        DemoEvent {
            all_day: true,
            recurrence: Some("Every year"@),
            availability: Availability::Free,
            ..demo_timed("birthday"@, "demo-birthdays"@, "Ada's birthday"@, 6, 0, 0, 0)
        },
        demo_timed("future-7"@, "demo-personal"@, "Dentist"@, 7, 11, 30, 60),
        demo_timed("future-9"@, "demo-personal"@, "Coffee"@, 9, 11, 30, 60),
        demo_timed("future-12"@, "demo-personal"@, "Coffee"@, 12, 11, 30, 60),
    ]
}

/// A stored event realises a demo entry in the week that starts on day `monday`: its fields
/// are the entry's, it starts at the entry's local time of that day, and it lasts the entry's
/// duration (an all-day event runs to the next local midnight).
pub open spec fn demo_event_ok(e: EventView, d: DemoEvent, monday: int) -> bool {
    &&& e.id == d.id
    &&& e.calendar_id == d.calendar_id
    &&& e.title == d.title
    &&& e.all_day == d.all_day
    &&& e.location == d.location
    &&& e.notes == d.notes
    &&& e.url == d.url
    &&& e.recurrence == d.recurrence
    &&& e.availability == d.availability
    &&& local_at_result(e.start, Day { n: (monday + d.day) as i32 }, d.hour, d.minute)
    &&& e.start.nanos == 0
    &&& if d.all_day {
        local_at_result(e.end, Day { n: (monday + d.day + 1) as i32 }, 0, 0)
    } else {
        e.end.wf() && e.end.secs == e.start.secs + 60 * d.duration && e.end.nanos == 0
    }
}

/// A demo calendar.
pub open spec fn demo_calendar(id: Seq<char>, name: Seq<char>, color: RgbColor, writable: bool, source: CalendarSourceView) -> CalendarView {
    CalendarView { id, name, color: Some(color), writable, source }
}

/// The demo calendars: writable Work and Personal, and read-only Birthdays.
pub open spec fn demo_calendars() -> Seq<CalendarView> {
    seq![
        demo_calendar("demo-work"@, "Work"@, RgbColor { red: 74, green: 144, blue: 226 }, true, CalendarSourceView::Local),
        demo_calendar("demo-personal"@, "Personal"@, RgbColor { red: 80, green: 200, blue: 120 }, true, CalendarSourceView::Local),
        demo_calendar("demo-birthdays"@, "Birthdays"@, RgbColor { red: 236, green: 100, blue: 140 }, false, CalendarSourceView::Birthdays),
    ]
}

/// A demo event at a local time of the anchor week.
fn demo_event(
    id: &str,
    calendar_id: &str,
    title: &str,
    monday: Day,
    day: i64,
    hour: u32,
    minute: u32,
    duration: i64,
) -> (r: Option<Event>)
    requires
        monday.wf(),
        0 <= day <= 12,
        hour < 24,
        minute < 60,
        0 < duration <= 150,
    ensures
        r matches Some(e) ==> demo_event_ok(
            e@,
            demo_timed(id@, calendar_id@, title@, day as int, hour, minute, duration as int),
            monday.n as int,
        ) && e.wf(),
{
    let date = monday.add_days(day)?;
    let start = local_at(date, hour, minute)?;
    if start.secs < SAFE_MIN_SECS || start.secs > SAFE_MAX_SECS {
        return None;
    }
    let end = add_minutes(start, duration)?;
    Some(Event {
        id: EventId(String::from_str(id)),
        calendar_id: CalendarId(String::from_str(calendar_id)),
        title: String::from_str(title),
        start,
        end,
        all_day: false,
        location: None,
        notes: None,
        url: None,
        recurrence: None,
        availability: Availability::Busy,
    })
}

/// An all-day demo event on a day of the anchor week.
fn demo_all_day(
    id: &str,
    calendar_id: &str,
    title: &str,
    monday: Day,
    day: i64,
) -> (r: Option<Event>)
    requires
        monday.wf(),
        0 <= day <= 12,
    ensures
        r matches Some(e) ==> demo_event_ok(
            e@,
            DemoEvent { all_day: true, ..demo_timed(id@, calendar_id@, title@, day as int, 0, 0, 0) },
            monday.n as int,
        ) && e.wf(),
{
    let date = monday.add_days(day)?;
    let next = monday.add_days(day + 1)?;
    let start = local_at(date, 0, 0)?;
    let end = local_at(next, 0, 0)?;
    Some(Event {
        id: EventId(String::from_str(id)),
        calendar_id: CalendarId(String::from_str(calendar_id)),
        title: String::from_str(title),
        start,
        end,
        all_day: true,
        location: None,
        notes: None,
        url: None,
        recurrence: None,
        availability: Availability::Busy,
    })
}

impl MockBackend {
    /// The store holds the demo data for the week of day `anchor`: the demo calendars, and
    /// the demo events placed relative to that week's Monday.
    pub open spec fn is_demo(&self, anchor: int) -> bool {
        let monday = anchor - crate::date::weekday_from_monday(anchor);
        &&& self.calendars@.map_values(|c: Calendar| c@) == demo_calendars()
        &&& self.events.len() == demo_events().len()
        &&& forall|k: int|
            0 <= k < self.events.len() ==> demo_event_ok(
                #[trigger] self.events@[k]@,
                demo_events()[k],
                monday,
            ) && self.events@[k].wf()
    }

    /// The demo store for the current local week (see `demo`).
    pub fn today() -> (r: Option<MockBackend>)
        ensures
            r matches Some(b) ==> exists|anchor: int| MIN_DAY + 6 <= anchor <= MAX_DAY && b.is_demo(anchor),
    {
        let day = now().day;
        if day.n < MIN_DAY + 6 {
            return None;
        }
        MockBackend::demo(day)
    }

    /// The demo store for the week of `anchor`: three calendars and a fixed set of events in
    /// that week and the next two. `None` where a demo time does not exist in the local time
    /// zone (or lies outside the supported range).
    pub fn demo(anchor: Day) -> (r: Option<MockBackend>)
        requires
            anchor.wf(),
            anchor.n >= MIN_DAY + 6,
        ensures
            r matches Some(b) ==> b.is_demo(anchor.n as int),
    {
        let monday = week_start(anchor);
        let work = Calendar {
            id: CalendarId(String::from_str("demo-work")),
            name: String::from_str("Work"),
            color: Some(RgbColor { red: 74, green: 144, blue: 226 }),
            writable: true,
            source: CalendarSource::Local,
        };
        let personal = Calendar {
            id: CalendarId(String::from_str("demo-personal")),
            name: String::from_str("Personal"),
            color: Some(RgbColor { red: 80, green: 200, blue: 120 }),
            writable: true,
            source: CalendarSource::Local,
        };
        let birthdays = Calendar {
            id: CalendarId(String::from_str("demo-birthdays")),
            name: String::from_str("Birthdays"),
            color: Some(RgbColor { red: 236, green: 100, blue: 140 }),
            writable: false,
            source: CalendarSource::Birthdays,
        };
        let mut daily_1 = demo_event("daily-1", "demo-work", "Daily stand-up", monday, 0, 9, 0, 30)?;
        daily_1.recurrence = Some(Recurrence { description: String::from_str("Every weekday") });
        let daily_2 = demo_event("daily-2", "demo-work", "Daily stand-up", monday, 2, 9, 0, 30)?;
        let daily_3 = demo_event("daily-3", "demo-work", "Daily stand-up", monday, 4, 9, 0, 30)?;
        let mut design = demo_event("design", "demo-work", "Design review", monday, 1, 10, 0, 90)?;
        design.location = Some(String::from_str("Studio 2"));
        design.notes = Some(String::from_str("Review the new calendar interaction prototypes."));
        design.url = Some(String::from_str("https://example.com/design-review"));
        let one_to_one = demo_event("one-to-one", "demo-work", "1:1", monday, 3, 10, 0, 60)?;
        let overlap_a = demo_event("overlap-a", "demo-work", "Planning workshop", monday, 3, 10, 30, 120)?;
        let overlap_b = demo_event("overlap-b", "demo-work", "Customer call", monday, 3, 11, 0, 60)?;
        let lunch = demo_event("lunch", "demo-personal", "Lunch with Sam", monday, 2, 13, 0, 60)?;
        let demo = demo_event(
            "demo",
            "demo-work",
            "Release demo with a deliberately long title",
            monday,
            4,
            14,
            0,
            90,
        )?;
        let early = demo_event("early", "demo-personal", "Morning run", monday, 1, 6, 30, 45)?;
        let late = demo_event("late", "demo-personal", "Cinema", monday, 5, 20, 30, 150)?;
        let mut release = demo_all_day("all-day-release", "demo-work", "Release day", monday, 4)?;
        release.notes = Some(String::from_str("v0.1 launch"));
        let mut birthday = demo_all_day("birthday", "demo-birthdays", "Ada's birthday", monday, 6)?;
        birthday.recurrence = Some(Recurrence { description: String::from_str("Every year") });
        birthday.availability = Availability::Free;
        let future_7 = demo_event("future-7", "demo-personal", "Dentist", monday, 7, 11, 30, 60)?;
        let future_9 = demo_event("future-9", "demo-personal", "Coffee", monday, 9, 11, 30, 60)?;
        let future_12 = demo_event("future-12", "demo-personal", "Coffee", monday, 12, 11, 30, 60)?;
        let events = vec![
            daily_1, daily_2, daily_3, design, one_to_one, overlap_a, overlap_b, lunch, demo,
            early, late, release, birthday, future_7, future_9, future_12,
        ];
        let calendars = vec![work, personal, birthdays];
        assert(calendars@.map_values(|c: Calendar| c@) =~= demo_calendars());
        assert forall|k: int|
            0 <= k < events.len() implies demo_event_ok(
                #[trigger] events@[k]@,
                demo_events()[k],
                monday.n as int,
            ) && events@[k].wf() by {}
        Some(MockBackend { calendars, events })
    }
}

/// The demo store depends on its anchor day only through the Monday of that day's week: a
/// store is the demo of a day exactly when it is the demo of that week's Monday.
pub proof fn law_demo_depends_on_week(b: MockBackend, anchor: int)
    ensures
        b.is_demo(anchor) == b.is_demo(anchor - crate::date::weekday_from_monday(anchor)),
{
    let w = crate::date::weekday_from_monday(anchor);
    let q = (anchor - 1) / 7;
    vstd::arithmetic::div_mod::lemma_fundamental_div_mod(anchor - 1, 7);
    assert(anchor - w - 1 == 7 * q + 0);
    vstd::arithmetic::div_mod::lemma_mod_multiples_vanish(q, 0, 7);
    assert(crate::date::weekday_from_monday(anchor - w) == 0);
}

/// Taking the events with an id out of a list that has none of them leaves the list as it was;
/// adding one such event at the end and taking them out gives the list back.
pub proof fn lemma_without_absent_id(s: Seq<EventView>, e: EventView)
    requires
        forall|j: int| 0 <= j < s.len() ==> (#[trigger] s[j]).id != e.id,
    ensures
        without_id(s, e.id) == s,
        without_id(s.push(e), e.id) == s,
    decreases s.len(),
{
    if s.len() > 0 {
        lemma_without_absent_id(s.drop_last(), e);
        assert(s.drop_last().push(s.last()) =~= s);
    }
    assert(s.push(e).drop_last() =~= s);
}

/// Deleting an event just created in the demo store gives the demo events back: a created
/// event's id is a UUID text, which no demo event's id is.
pub proof fn law_delete_created_demo(b: MockBackend, anchor: int, e: EventView)
    requires
        b.is_demo(anchor),
        is_uuid_text(e.id),
    ensures
        without_id(event_views(b.events@).push(e), e.id) == event_views(b.events@),
{
    let s = event_views(b.events@);
    let monday = anchor - crate::date::weekday_from_monday(anchor);
    reveal_strlit("daily-1");
    reveal_strlit("daily-2");
    reveal_strlit("daily-3");
    reveal_strlit("design");
    reveal_strlit("one-to-one");
    reveal_strlit("overlap-a");
    reveal_strlit("overlap-b");
    reveal_strlit("lunch");
    reveal_strlit("demo");
    reveal_strlit("early");
    reveal_strlit("late");
    reveal_strlit("all-day-release");
    reveal_strlit("birthday");
    reveal_strlit("future-7");
    reveal_strlit("future-9");
    reveal_strlit("future-12");
    assert forall|j: int| 0 <= j < s.len() implies (#[trigger] s[j]).id != e.id by {
        assert(demo_event_ok(b.events@[j]@, demo_events()[j], monday));
        assert(s[j].id.len() < 36);
    }
    lemma_without_absent_id(s, e);
}

/// Reading back a created event: when its id is new to the store, the event that `event`
/// finds under that id is the one `create_event` appended.
pub proof fn law_read_after_create(s: Seq<EventView>, e: EventView)
    requires
        index_of_id(s, e.id) == -1,
    ensures
        index_of_id(s.push(e), e.id) == s.len(),
        s.push(e)[s.len() as int] == e,
    decreases s.len(),
{
    if s.len() > 0 {
        assert(s.push(e).drop_first() =~= s.drop_first().push(e));
        law_read_after_create(s.drop_first(), e);
    }
}

/// Reading back an updated event: after `update_event` patched the first event with the id,
/// `event` finds the patched event at the same place.
pub proof fn law_read_after_update(s: Seq<EventView>, id: Seq<char>, p: &EventPatch)
    requires
        index_of_id(s, id) >= 0,
    ensures
        ({
            let k = index_of_id(s, id);
            let t = s.update(k, patched(s[k], p));
            index_of_id(t, id) == k && t[k] == patched(s[k], p)
        }),
{
    lemma_index_of_id(s, id);
    let k = index_of_id(s, id);
    let t = s.update(k, patched(s[k], p));
    lemma_index_of_id(t, id);
    assert(t[k].id == id);
    assert forall|j: int| 0 <= j < k implies t[j].id != id by {
        assert(t[j] == s[j]);
    }
    if index_of_id(t, id) != k {
        if index_of_id(t, id) < k {
            assert(t[index_of_id(t, id)].id == id);
        }
    }
}

/// Reading back a deleted event: after `delete_event`, `event` finds no event with the id.
pub proof fn law_read_after_delete(s: Seq<EventView>, id: Seq<char>)
    ensures
        index_of_id(without_id(s, id), id) == -1,
    decreases s.len(),
{
    let t = without_id(s, id);
    lemma_without_id(s, id);
    lemma_index_of_id(t, id);
    if index_of_id(t, id) >= 0 {
        assert(t[index_of_id(t, id)].id == id);
    }
}

/// No event of `without_id(s, id)` carries the id.
pub proof fn lemma_without_id(s: Seq<EventView>, id: Seq<char>)
    ensures
        forall|j: int| 0 <= j < without_id(s, id).len() ==> (#[trigger] without_id(s, id)[j]).id != id,
    decreases s.len(),
{
    if s.len() > 0 {
        lemma_without_id(s.drop_last(), id);
    }
}

} // verus!
