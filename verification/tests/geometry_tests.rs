use kalendar::{layout_day, local_at, Availability, CalendarId, Day, Event, EventId, Moment};

fn day(y: i32, m: u32, d: u32) -> Day {
    Day::from_ymd(y, m, d).unwrap()
}

fn at(date: Day, minutes: i64) -> Moment {
    let days = minutes.div_euclid(1440);
    let rest = minutes.rem_euclid(1440);
    local_at(date.add_days(days).unwrap(), (rest / 60) as u32, (rest % 60) as u32).unwrap()
}

fn event(id: &str, date: Day, hour: u32, minute: u32, duration: i64) -> Event {
    let start_minutes = hour as i64 * 60 + minute as i64;
    Event {
        id: EventId(id.into()),
        calendar_id: CalendarId("calendar".into()),
        title: id.into(),
        start: at(date, start_minutes),
        end: at(date, start_minutes + duration),
        all_day: false,
        location: None,
        notes: None,
        url: None,
        recurrence: None,
        availability: Availability::Busy,
    }
}

#[test]
fn transitive_overlaps_share_group_width() {
    let date = day(2026, 9, 4);
    let events = [
        event("a", date, 9, 0, 60),
        event("b", date, 9, 30, 60),
        event("c", date, 10, 0, 60),
    ];
    let refs: Vec<_> = events.iter().collect();
    let layout = layout_day(&refs, date, 8 * 60, 20 * 60, 36);
    assert!(layout.iter().all(|item| item.slot_count == 2));
    assert_eq!(layout.iter().map(|item| item.x_slot).collect::<Vec<_>>(), vec![0, 1, 0]);
}

#[test]
fn short_event_occupies_at_least_one_row() {
    let date = day(2026, 9, 4);
    let event = event("short", date, 9, 1, 1);
    let layout = layout_day(&[&event], date, 8 * 60, 20 * 60, 12);
    assert_eq!(layout[0].height, 1);
}

#[test]
fn clips_events_to_visible_hours() {
    let date = day(2026, 9, 4);
    let early = event("early", date, 6, 0, 180);
    let late = event("late", date, 19, 0, 180);
    let layout = layout_day(&[&early, &late], date, 8 * 60, 20 * 60, 24);
    assert_eq!(layout[0].top, 0);
    assert_eq!(layout[1].top, 22);
    assert_eq!(layout[1].height, 2);
}

#[test]
fn renders_zero_duration_and_midnight_spanning_events() {
    let date = day(2026, 9, 4);
    let zero = event("zero", date, 9, 0, 0);
    let mut spanning = event("spanning", date, 23, 0, 180);
    spanning.start = local_at(date.add_days(-1).unwrap(), 23, 0).unwrap();
    spanning.end = local_at(date, 9, 0).unwrap();
    let layout = layout_day(&[&zero, &spanning], date, 8 * 60, 20 * 60, 24);
    assert_eq!(layout.len(), 2);
    assert!(layout.iter().all(|item| item.height >= 1));
    assert!(layout.iter().any(|item| item.event_id.0 == "spanning" && item.top == 0));
}

#[test]
fn events_outside_the_visible_hours_are_left_out() {
    let date = day(2026, 9, 4);
    let night = event("night", date, 2, 0, 60);
    let other_day = event("other", day(2026, 9, 5), 10, 0, 60);
    let layout = layout_day(&[&night, &other_day], date, 8 * 60, 20 * 60, 24);
    assert!(layout.is_empty());
}

#[test]
fn separate_events_keep_full_width() {
    let date = day(2026, 9, 4);
    let a = event("a", date, 9, 0, 60);
    let b = event("b", date, 11, 0, 60);
    let layout = layout_day(&[&a, &b], date, 8 * 60, 20 * 60, 24);
    assert_eq!(layout.len(), 2);
    assert!(layout.iter().all(|item| item.slot_count == 1 && item.x_slot == 0));
    assert_eq!((layout[0].top, layout[0].height), (2, 2));
    assert_eq!((layout[1].top, layout[1].height), (6, 2));
}
