use kalendar::screen::{all_day_overflow, day_header, hour_ticks, tick_row};
use kalendar::event_details::description;
use kalendar::format::{format_event_when, Rect};
use kalendar::screen::{
    agenda_scroll, all_day_rows, detail_height, detail_label_text, detail_rows, editor_label_text,
    editor_rows, event_box, footer_hint, grid_row, list_window, month_cell, picker_height,
    search_title, view_label, week_columns, week_day_offsets, weekday_labels, agenda_rows,
    AgendaRow, Column, DetailLabel,
};
use kalendar::{
    layout_day, local_at, App, Availability, Calendar, CalendarId, CalendarSource, Config, Day,
    EditorField, Event, EventEditor, EventId, EventLayout, MockBackend, Mode, Recurrence, View,
};

fn day(y: i32, m: u32, d: u32) -> Day {
    Day::from_ymd(y, m, d).unwrap()
}

fn all_day_event(id: &str, date: Day) -> Event {
    Event {
        id: EventId(id.into()),
        calendar_id: CalendarId("calendar".into()),
        title: id.into(),
        start: local_at(date, 0, 0).unwrap(),
        end: local_at(date.add_days(1).unwrap(), 0, 0).unwrap(),
        all_day: true,
        location: None,
        notes: None,
        url: None,
        recurrence: None,
        availability: Availability::Busy,
    }
}

fn timed_event(id: &str, date: Day) -> Event {
    let mut event = all_day_event(id, date);
    event.start = local_at(date, 9, 0).unwrap();
    event.end = local_at(date, 10, 0).unwrap();
    event.all_day = false;
    event
}

#[test]
fn week_offsets_follow_weekends_and_week_start() {
    let date = day(2026, 9, 4);
    let app = App::new(Config::default(), date, Some(View::Week));
    assert_eq!(week_day_offsets(&app), vec![0, 1, 2, 3, 4, 5, 6]);

    let mut config = Config::default();
    config.show_weekends = false;
    let app = App::new(config, date, Some(View::Week));
    assert_eq!(week_day_offsets(&app), vec![0, 1, 2, 3, 4]);

    let mut config = Config::default();
    config.show_weekends = false;
    config.week_starts_on = "sunday".into();
    let app = App::new(config, date, Some(View::Week));
    assert_eq!(week_day_offsets(&app), vec![1, 2, 3, 4, 5]);
}

#[test]
fn week_columns_share_width_and_last_takes_the_rest() {
    let app = App::new(Config::default(), day(2026, 9, 4), Some(View::Week));
    let columns = week_columns(&app, Rect { x: 0, y: 2, width: 85, height: 30 });
    assert_eq!(columns.len(), 7);
    assert_eq!(columns[0], Column { day: day(2026, 8, 31), x: 7, width: 11 });
    assert_eq!(columns[1], Column { day: day(2026, 9, 1), x: 18, width: 11 });
    assert_eq!(columns[6], Column { day: day(2026, 9, 6), x: 73, width: 12 });
}

#[test]
fn grid_rows_are_proportional_to_minutes() {
    assert_eq!(grid_row(9 * 60, 8 * 60, 3, 36, 12 * 60), 6);
    assert_eq!(grid_row(8 * 60, 8 * 60, 3, 36, 12 * 60), 3);
    assert_eq!(grid_row(20 * 60, 8 * 60, 3, 36, 12 * 60), 39);
}

#[test]
fn event_boxes_split_the_column_into_slots() {
    let column = Column { day: day(2026, 9, 4), x: 10, width: 21 };
    let second = EventLayout { event_id: EventId("b".into()), x_slot: 1, slot_count: 2, top: 4, height: 0 };
    assert_eq!(event_box(&column, &second, 3), Rect { x: 21, y: 7, width: 10, height: 1 });
    let first = EventLayout { event_id: EventId("a".into()), x_slot: 0, slot_count: 2, top: 4, height: 3 };
    assert_eq!(event_box(&column, &first, 3), Rect { x: 11, y: 7, width: 10, height: 3 });
}

#[test]
fn selected_all_day_event_takes_the_second_row() {
    let date = day(2026, 9, 4);
    let events = vec![
        all_day_event("a", date),
        timed_event("t", date),
        all_day_event("b", date),
        all_day_event("c", date),
        all_day_event("other-day", date.add_days(2).unwrap()),
    ];
    assert_eq!(all_day_rows(&events, date, &None), (vec![0, 2], 3));
    assert_eq!(all_day_rows(&events, date, &Some(EventId("c".into()))), (vec![0, 3], 3));
    assert_eq!(all_day_rows(&events, date, &Some(EventId("a".into()))), (vec![0, 2], 3));
    assert_eq!(all_day_rows(&events, date, &Some(EventId("t".into()))), (vec![0, 2], 3));
}

#[test]
fn month_cells_end_with_a_count_of_the_rest() {
    assert_eq!(month_cell(5, 6), (3, Some(2)));
    assert_eq!(month_cell(4, 6), (4, None));
    assert_eq!(month_cell(2, 6), (2, None));
    assert_eq!(month_cell(3, 1), (0, None));
}

#[test]
fn agenda_keeps_selection_above_the_bottom() {
    assert_eq!(agenda_scroll(10, 10), 5);
    assert_eq!(agenda_scroll(2, 10), 0);
    assert_eq!(agenda_scroll(4, 0), 4);
}

#[test]
fn footer_and_header_texts_follow_mode_and_view() {
    let mut app = App::new(Config::default(), day(2026, 9, 4), Some(View::Week));
    assert_eq!(
        footer_hint(&app),
        "1 agenda  2 week  3 month   n new   / search   c calendars   ? help   q quit"
    );
    app.mode = Mode::Help;
    assert_eq!(footer_hint(&app), "Esc close");
    app.mode = Mode::ConfirmDelete;
    assert_eq!(footer_hint(&app), "y confirm   Esc cancel");
    assert_eq!(view_label(View::Month), "MONTH");
    assert_eq!(view_label(app.view), "WEEK");
}

#[test]
fn details_label_the_meeting_link() {
    let date = day(2026, 9, 4);
    let mut app = App::new(Config::default(), date, Some(View::Week));
    app.calendars = vec![Calendar {
        id: CalendarId("calendar".into()),
        name: "Work".into(),
        color: None,
        writable: true,
        source: CalendarSource::Local,
    }];
    let mut event = timed_event("a", date);
    event.location = Some("Room 4".into());
    event.recurrence = Some(Recurrence { description: "Weekly".into() });
    event.url = Some("https://meet.google.com/abc-defg-hij".into());
    assert_eq!(
        detail_rows(&app, &event),
        vec![
            (DetailLabel::Calendar, "Work".to_string()),
            (DetailLabel::Location, "Room 4".to_string()),
            (DetailLabel::Repeats, "Weekly".to_string()),
            (DetailLabel::Meeting, "https://meet.google.com/abc-defg-hij".to_string()),
        ]
    );

    event.location = None;
    event.recurrence = None;
    event.calendar_id = CalendarId("elsewhere".into());
    event.url = Some("https://example.com/agenda".into());
    event.notes = Some("Join at https://meet.google.com/abc-defg-hij".into());
    assert_eq!(
        detail_rows(&app, &event),
        vec![
            (DetailLabel::Calendar, "Unknown".to_string()),
            (DetailLabel::Url, "https://example.com/agenda".to_string()),
            (DetailLabel::Meeting, "https://meet.google.com/abc-defg-hij".to_string()),
        ]
    );
    assert_eq!(detail_label_text(DetailLabel::Url), "URL        ");
    assert_eq!(detail_label_text(DetailLabel::Meeting), "Meeting    ");
}

#[test]
fn box_heights_and_list_windows() {
    assert_eq!(detail_height(5), 18);
    assert_eq!(detail_height(20), 22);
    assert_eq!(picker_height(3), 5);
    assert_eq!(picker_height(14), 16);
    assert_eq!(picker_height(40), 18);
    assert_eq!(list_window(0, 3), (0, 3));
    assert_eq!(list_window(20, 40), (8, 22));
    assert_eq!(list_window(15, 10), (3, 10));
    assert_eq!(list_window(30, 10), (18, 18));
}

#[test]
fn search_titles_count_results() {
    assert_eq!(search_title(0), " Search · 0 results ");
    assert_eq!(search_title(1), " Search · 1 result ");
    assert_eq!(search_title(12), " Search · 12 results ");
}

#[test]
fn editor_rows_show_the_fields_in_tab_order() {
    let date = day(2026, 9, 4);
    let mut app = App::new(Config::default(), date, Some(View::Week));
    assert_eq!(editor_rows(&app), None);
    app.editor = Some(EventEditor {
        editing: None,
        field: EditorField::Title,
        title: "Lunch".into(),
        calendar_id: CalendarId("missing".into()),
        date: "2026-09-04".into(),
        start: "12:00".into(),
        end: "13:00".into(),
        all_day: false,
        location: String::new(),
        notes: String::new(),
        all_day_duration_days: 1,
    });
    let (rows, editing) = editor_rows(&app).unwrap();
    assert!(!editing);
    assert_eq!(rows[0], (EditorField::Title, "Lunch█".to_string()));
    assert_eq!(rows[1], (EditorField::Calendar, "Unknown".to_string()));
    assert_eq!(rows[5], (EditorField::AllDay, "[ ]".to_string()));
    assert_eq!(rows.len(), 8);
    app.editor.as_mut().unwrap().field = EditorField::AllDay;
    app.editor.as_mut().unwrap().all_day = true;
    let (rows, _) = editor_rows(&app).unwrap();
    assert_eq!(rows[0], (EditorField::Title, "Lunch".to_string()));
    assert_eq!(rows[5], (EditorField::AllDay, "[x]".to_string()));
    assert_eq!(editor_label_text(EditorField::AllDay), "All day   ");
}

#[test]
fn weekday_labels_follow_the_grid() {
    let date = day(2026, 9, 4);
    let app = App::new(Config::default(), date, Some(View::Month));
    assert_eq!(weekday_labels(&app), vec!["MON", "TUE", "WED", "THU", "FRI", "SAT", "SUN"]);
    let mut config = Config::default();
    config.week_starts_on = "sunday".into();
    let app = App::new(config, date, Some(View::Month));
    assert_eq!(weekday_labels(&app), vec!["SUN", "MON", "TUE", "WED", "THU", "FRI", "SAT"]);
    let mut config = Config::default();
    config.show_weekends = false;
    let app = App::new(config, date, Some(View::Month));
    assert_eq!(weekday_labels(&app), vec!["MON", "TUE", "WED", "THU", "FRI"]);
}

#[test]
fn agenda_lists_fifteen_days_and_finds_the_selection() {
    let first = day(2026, 9, 4);
    let events = vec![
        timed_event("a", first),
        timed_event("b", first.add_days(1).unwrap()),
        all_day_event("c", first),
        timed_event("late", first.add_days(20).unwrap()),
    ];
    let (rows, selected) = agenda_rows(&events, first, &Some(EventId("b".into())));
    assert_eq!(
        &rows[..8],
        &[
            AgendaRow::Heading(first),
            AgendaRow::Event(0),
            AgendaRow::Event(2),
            AgendaRow::Blank,
            AgendaRow::Heading(first.add_days(1).unwrap()),
            AgendaRow::Event(1),
            AgendaRow::Blank,
            AgendaRow::Heading(first.add_days(2).unwrap()),
        ]
    );
    assert_eq!(rows[8], AgendaRow::NoEvents);
    assert_eq!(rows.len(), 4 + 3 + 13 * 3);
    assert_eq!(selected, 5);
    let (_, none) = agenda_rows(&events, first, &None);
    assert_eq!(none, 0);
}

fn demo_app(date: Day, view: View) -> App {
    let backend = MockBackend::demo(date).unwrap();
    let mut app = App::new(Config::default(), date, Some(view));
    app.load_calendars(backend.calendars());
    if let Some(range) = app.plan_refresh(false).unwrap() {
        let events = backend.events(range);
        app.finish_refresh(range, events);
    }
    app
}

#[test]
fn demo_week_offers_join_details_and_weekday_columns() {
    let date = day(2026, 9, 4);
    let mut app = demo_app(date, View::Week);
    app.selected_event = Some(EventId("design".into()));
    assert!(footer_hint(&app).contains("o join"));
    let design = app.visible_events().into_iter().find(|event| event.id.0 == "design").unwrap();
    let rows = detail_rows(&app, &design);
    assert_eq!(rows[0], (DetailLabel::Calendar, "Work".to_string()));
    assert!(rows.contains(&(DetailLabel::Location, "Studio 2".to_string())));
    assert_eq!(description(&design).as_deref(), Some("Review the new calendar interaction prototypes."));

    app.config.show_weekends = false;
    let columns = week_columns(&app, Rect { x: 0, y: 2, width: 100, height: 26 });
    assert_eq!(columns.len(), 5);
    assert!(columns.iter().all(|column| column.day != day(2026, 9, 5) && column.day != day(2026, 9, 6)));
}

#[test]
fn crowded_day_and_multi_day_event_fit_the_smallest_week() {
    let date = day(2026, 9, 4);
    let app = demo_app(date, View::Week);
    let mut events = app.visible_events();
    let design = events.iter().find(|event| event.id.0 == "design").unwrap().clone();
    for index in 0..20 {
        let mut event = design.clone();
        event.id = EventId(format!("crowded-{index}"));
        event.title = format!("Overlap {index}");
        events.push(event);
    }
    let mut conference = all_day_event("conference", day(2026, 9, 2));
    conference.end = local_at(day(2026, 9, 5), 0, 0).unwrap();
    events.push(conference.clone());

    let when = format_event_when(&app, &conference);
    assert!(when.contains("Wednesday, 2 September 2026"));
    assert!(when.contains("Friday, 4 September 2026"));

    let index = events.len() - 1;
    let days_showing =
        (2..=4).filter(|d| all_day_rows(&events, day(2026, 9, *d), &None).0.contains(&index)).count();
    assert_eq!(days_showing, 3);

    let timed: Vec<&Event> = events.iter().filter(|event| !event.all_day).collect();
    let layouts = layout_day(&timed, design.start.day, 8 * 60, 20 * 60, 18);
    let crowded: Vec<&EventLayout> = layouts
        .iter()
        .filter(|layout| layout.event_id.0 == "design" || layout.event_id.0.starts_with("crowded-"))
        .collect();
    assert_eq!(crowded.len(), 21);
    assert!(crowded.iter().all(|layout| layout.slot_count == 21 && layout.top + layout.height <= 18));
}

#[test]
fn week_column_headers_and_hour_marks() {
    assert_eq!(day_header(day(2026, 9, 4)), " FRI 04 ");
    assert_eq!(day_header(day(2026, 8, 31)), " MON 31 ");
    assert_eq!(all_day_overflow(1, 5), " +3");
    assert_eq!(all_day_overflow(0, 5), "");
    assert_eq!(all_day_overflow(1, 2), "");
    assert_eq!(hour_ticks(8 * 60, 20 * 60), vec![480, 600, 720, 840, 960, 1080, 1200]);
    assert_eq!(hour_ticks(8 * 60 + 30, 13 * 60), vec![600, 720]);
    assert_eq!(tick_row(20 * 60, 8 * 60, 3, 36, 12 * 60), 38);
    assert_eq!(tick_row(9 * 60, 8 * 60, 3, 36, 12 * 60), 6);
}

#[test]
fn header_and_agenda_texts_come_from_the_date() {
    let date = day(2026, 9, 4);
    assert_eq!(kalendar::screen::agenda_heading(date), "FRIDAY 4 SEPTEMBER");
    let app = App::new(Config::default(), date, Some(View::Week));
    assert_eq!(kalendar::screen::header_period(&app).as_deref(), Some("September 2026  ·  W36"));
    let app = App::new(Config::default(), date, Some(View::Month));
    assert_eq!(kalendar::screen::header_period(&app).as_deref(), Some("September 2026"));
    let app = App::new(Config::default(), date, Some(View::Agenda));
    assert_eq!(kalendar::screen::header_period(&app).as_deref(), Some("04 Sep → 14 days"));
    let mut config = Config::default();
    config.date_format = "%H:%M".into();
    let app = App::new(config, date, Some(View::Agenda));
    assert_eq!(kalendar::screen::header_period(&app), None);
    let events = vec![all_day_event("a", date), timed_event("b", date.add_days(1).unwrap()), timed_event("c", date)];
    assert_eq!(kalendar::screen::day_events(&events, date), vec![0, 2]);
}
