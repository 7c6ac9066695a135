use kalendar::{
    local_at, range_for_week, DateRange, Day, DeleteScope, EventId, EventPatch, MockBackend, NewEvent,
    RecurrenceScope,
};

fn day(y: i32, m: u32, d: u32) -> Day {
    Day::from_ymd(y, m, d).unwrap()
}

#[test]
fn backend_contract_create_update_search_delete() {
    let anchor = day(2026, 9, 4);
    let mut backend = MockBackend::demo(anchor).unwrap();
    let calendar = backend.calendars().remove(0);
    let created = backend.create_event(NewEvent {
        calendar_id: calendar.id,
        title: "Contract test".into(),
        start: local_at(anchor, 16, 0).unwrap(),
        end: local_at(anchor, 17, 0).unwrap(),
        all_day: false,
        location: None,
        notes: None,
    });
    let updated = backend
        .update_event(
            &created.id,
            EventPatch {
                title: Some("Updated contract".into()),
                ..EventPatch::default()
            },
        )
        .unwrap();
    assert_eq!(updated.title, "Updated contract");
    assert!(backend
        .search("updated", Some(range_for_week(anchor).unwrap()))
        .iter()
        .any(|event| event.id == created.id));
    backend.delete_event(&created.id, DeleteScope::ThisEvent).unwrap();
    assert!(backend.event(&created.id).is_none());
}

#[test]
fn demo_data_covers_the_anchor_week() {
    let anchor = day(2026, 9, 4);
    let backend = MockBackend::demo(anchor).unwrap();
    assert_eq!(backend.calendars().len(), 3);
    assert_eq!(backend.events.len(), 16);
    let design = backend.event(&EventId("design".into())).unwrap();
    assert_eq!(design.start.day, day(2026, 9, 1));
    assert_eq!((design.start.hour, design.start.minute), (10, 0));
    assert_eq!(design.end.secs - design.start.secs, 90 * 60);
    assert_eq!(design.location.as_deref(), Some("Studio 2"));
}

#[test]
fn events_come_sorted_by_start_within_the_range() {
    let anchor = day(2026, 9, 4);
    let backend = MockBackend::demo(anchor).unwrap();
    let events = backend.events(range_for_week(anchor).unwrap());
    assert!(events.windows(2).all(|w| w[0].start.secs <= w[1].start.secs));
    assert!(events.iter().all(|e| !e.id.0.starts_with("future")));
    assert_eq!(events.first().unwrap().id.0, "daily-1");
}

#[test]
fn missing_events_are_reported() {
    let anchor = day(2026, 9, 4);
    let mut backend = MockBackend::demo(anchor).unwrap();
    let missing = EventId("nope".into());
    assert_eq!(backend.update_event(&missing, EventPatch::default()).unwrap_err(), "event not found");
    assert_eq!(
        backend
            .update_event_scoped(&missing, EventPatch::default(), RecurrenceScope::AllEvents)
            .unwrap_err(),
        "event not found"
    );
    assert_eq!(backend.delete_event(&missing, DeleteScope::ThisEvent).unwrap_err(), "event not found");
}

#[test]
fn search_ignores_case_and_looks_at_location_and_notes() {
    let anchor = day(2026, 9, 4);
    let backend = MockBackend::demo(anchor).unwrap();
    let by_title = backend.search("DESIGN", None);
    assert_eq!(by_title.len(), 1);
    assert_eq!(by_title[0].id.0, "design");
    let by_location = backend.search("studio", None);
    assert_eq!(by_location.len(), 1);
    let by_notes = backend.search("LAUNCH", None);
    assert_eq!(by_notes[0].id.0, "all-day-release");
}

#[test]
fn created_events_get_distinct_ids() {
    let anchor = day(2026, 9, 4);
    let mut backend = MockBackend::demo(anchor).unwrap();
    let make = |title: &str| NewEvent {
        calendar_id: kalendar::CalendarId("demo-work".into()),
        title: title.into(),
        start: local_at(anchor, 16, 0).unwrap(),
        end: local_at(anchor, 17, 0).unwrap(),
        all_day: false,
        location: Some("Room".into()),
        notes: None,
    };
    let a = backend.create_event(make("a"));
    let b = backend.create_event(make("b"));
    assert_ne!(a.id, b.id);
    assert_eq!(a.location.as_deref(), Some("Room"));
    assert_eq!(backend.events.len(), 18);
}

#[test]
fn created_events_get_uuid_ids_and_deleting_one_keeps_the_rest() {
    let anchor = day(2026, 9, 4);
    let mut backend = MockBackend::demo(anchor).unwrap();
    let everything = DateRange::new(
        local_at(anchor.add_days(-30).unwrap(), 0, 0).unwrap(),
        local_at(anchor.add_days(30).unwrap(), 0, 0).unwrap(),
    );
    let before: Vec<EventId> = backend.events(everything).into_iter().map(|event| event.id).collect();
    let calendar = backend.calendars().remove(0);
    let created = backend.create_event(NewEvent {
        calendar_id: calendar.id,
        title: "Contract test".into(),
        start: local_at(anchor, 16, 0).unwrap(),
        end: local_at(anchor, 17, 0).unwrap(),
        all_day: false,
        location: None,
        notes: None,
    });
    let id = created.id.0.clone();
    assert_eq!(id.len(), 36);
    for (index, c) in id.chars().enumerate() {
        if [8, 13, 18, 23].contains(&index) {
            assert_eq!(c, '-');
        } else {
            assert!(c.is_ascii_digit() || ('a'..='f').contains(&c));
        }
    }
    assert_eq!(backend.delete_event(&created.id, DeleteScope::ThisEvent), Ok(()));
    assert!(backend.event(&created.id).is_none());
    let after: Vec<EventId> = backend.events(everything).into_iter().map(|event| event.id).collect();
    assert_eq!(after, before);
}
