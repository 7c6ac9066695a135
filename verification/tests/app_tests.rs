use kalendar::app::{check_permission, check_request};
use kalendar::{
    local_at, App, Calendar, CalendarId, CalendarSource, Config, DateRange, Day, DeleteScope,
    EditorField, EventEditor, EventId, MockBackend, Mode, PermissionStatus, RecurrenceScope,
    SaveRequest, View,
};

fn day(y: i32, m: u32, d: u32) -> Day {
    Day::from_ymd(y, m, d).unwrap()
}

fn fetch(app: &mut App, backend: &MockBackend, plan: Result<Option<DateRange>, String>) -> Result<(), String> {
    if let Some(range) = plan? {
        let events = backend.events(range);
        app.finish_refresh(range, events);
    }
    Ok(())
}

fn initialize(app: &mut App, backend: &MockBackend) -> Result<(), String> {
    check_permission(PermissionStatus::Granted)?;
    app.load_calendars(backend.calendars());
    let plan = app.plan_refresh(false);
    fetch(app, backend, plan)
}

fn save_editor(app: &mut App, backend: &mut MockBackend, scope: RecurrenceScope) -> Result<(), String> {
    let updated = app.editor.as_ref().map(|e| e.editing.is_some()).unwrap_or(false);
    let event = match app.prepare_save()? {
        SaveRequest::Update(id, patch) => backend.update_event_scoped(&id, patch, scope)?,
        SaveRequest::Create(new_event) => backend.create_event(new_event),
    };
    let plan = app.finish_save(event);
    fetch(app, backend, plan)?;
    app.report_saved(updated);
    Ok(())
}

fn delete_selected(app: &mut App, backend: &mut MockBackend, scope: DeleteScope) -> Result<(), String> {
    let id = app.prepare_delete()?;
    backend.delete_event(&id, scope)?;
    let plan = app.finish_delete();
    fetch(app, backend, plan)?;
    app.report_deleted();
    Ok(())
}

fn update_search(app: &mut App, backend: &MockBackend) {
    if let Some(query) = app.search_request() {
        let results = backend.search(&query, None);
        app.finish_search(results);
    }
}

fn demo_app(date: Day, config: Config, view: View) -> (App, MockBackend) {
    let backend = MockBackend::demo(date).unwrap();
    let mut app = App::new(config, date, Some(view));
    initialize(&mut app, &backend).unwrap();
    (app, backend)
}

#[test]
fn app_create_edit_search_and_delete_flow() {
    let date = day(2026, 9, 4);
    let (mut app, mut backend) = demo_app(date, Config::default(), View::Week);

    app.start_new_event();
    app.editor.as_mut().unwrap().title = "A brand new event".into();
    save_editor(&mut app, &mut backend, RecurrenceScope::ThisEvent).unwrap();
    let created = app.selected_event.clone().unwrap();
    assert_eq!(backend.event(&created).unwrap().title, "A brand new event");

    app.start_edit_event();
    app.editor.as_mut().unwrap().title = "A renamed event".into();
    save_editor(&mut app, &mut backend, RecurrenceScope::ThisEvent).unwrap();
    assert_eq!(backend.event(&created).unwrap().title, "A renamed event");

    app.search.query = "renamed".into();
    update_search(&mut app, &backend);
    assert_eq!(app.search.results.len(), 1);

    delete_selected(&mut app, &mut backend, DeleteScope::ThisEvent).unwrap();
    assert!(backend.event(&created).is_none());
}

#[test]
fn calendar_picker_cancel_restores_visibility() {
    let date = day(2026, 9, 4);
    let (mut app, _backend) = demo_app(date, Config::default(), View::Week);
    let before = app.visible_calendars.clone();
    app.open_calendar_picker();
    app.toggle_calendar();
    assert_ne!(app.visible_calendars, before);
    app.cancel_calendar_picker();
    assert_eq!(app.visible_calendars, before);
}

#[test]
fn recurring_edit_accepts_future_scope() {
    let date = day(2026, 9, 4);
    let (mut app, mut backend) = demo_app(date, Config::default(), View::Week);
    app.selected_event = Some(EventId("daily-1".into()));
    app.start_edit_event();
    assert!(app.editor_is_recurring());
    app.editor.as_mut().unwrap().title = "Updated recurring event".into();
    save_editor(&mut app, &mut backend, RecurrenceScope::ThisAndFuture).unwrap();
    assert_eq!(
        backend.event(&EventId("daily-1".into())).unwrap().title,
        "Updated recurring event"
    );
}

#[test]
fn delete_confirmation_returns_to_its_origin_and_blocks_read_only_events() {
    let date = day(2026, 9, 4);
    let (mut app, _backend) = demo_app(date, Config::default(), View::Week);

    app.selected_event = Some(EventId("design".into()));
    app.mode = Mode::Normal;
    app.start_delete_confirmation();
    assert_eq!(app.mode, Mode::ConfirmDelete);
    app.cancel_delete_confirmation();
    assert_eq!(app.mode, Mode::Normal);

    app.mode = Mode::EventDetail;
    app.start_delete_confirmation();
    app.cancel_delete_confirmation();
    assert_eq!(app.mode, Mode::EventDetail);

    app.selected_event = Some(EventId("birthday".into()));
    app.start_delete_confirmation();
    assert_eq!(app.mode, Mode::EventDetail);
    assert_eq!(app.error.as_deref(), Some("The selected calendar is read-only."));
}

#[test]
fn sunday_week_start_is_honored() {
    let date = day(2026, 9, 4);
    let config = Config {
        week_starts_on: "sunday".into(),
        ..Config::default()
    };
    let app = App::new(config, date, Some(View::Week));
    assert_eq!(app.week_start(), day(2026, 8, 30));
}

#[test]
fn editor_interprets_an_earlier_end_time_as_next_day() {
    let date = day(2026, 9, 4);
    let mut app = App::new(Config::default(), date, Some(View::Week));
    app.calendars = vec![Calendar {
        id: CalendarId("write".into()),
        name: "Writable".into(),
        color: None,
        writable: true,
        source: CalendarSource::Local,
    }];
    app.start_new_event();
    let editor = app.editor.as_mut().unwrap();
    editor.title = "Overnight".into();
    editor.start = "23:30".into();
    editor.end = "00:30".into();
    let (start, end) = editor.values().unwrap();
    assert_eq!((end.secs - start.secs) / 60, 60);
    assert_ne!(start.day, end.day);
}

#[test]
fn editor_preserves_multi_day_all_day_duration() {
    let date = day(2026, 9, 4);
    let mut event = MockBackend::demo(date)
        .unwrap()
        .events(DateRange::new(
            local_at(date.add_days(-14).unwrap(), 0, 0).unwrap(),
            local_at(date.add_days(14).unwrap(), 0, 0).unwrap(),
        ))
        .into_iter()
        .find(|event| event.all_day)
        .unwrap();
    event.start = local_at(date, 0, 0).unwrap();
    event.end = local_at(date.add_days(3).unwrap(), 0, 0).unwrap();
    let editor = EventEditor::from_event(&event);
    let (start, end) = editor.values().unwrap();
    assert_eq!(end.day.n - start.day.n, 3);
}

#[test]
fn cached_superset_serves_a_smaller_view_range() {
    let date = day(2026, 9, 4);
    let (mut app, backend) = demo_app(date, Config::default(), View::Month);
    assert_eq!(app.cache.len(), 1);
    let plan = app.set_view(View::Agenda);
    fetch(&mut app, &backend, plan).unwrap();
    assert_eq!(app.cache.len(), 1);
    assert!(app.events.iter().all(|event| event.start.day.n >= date.n));
}

#[test]
fn padded_week_cache_serves_the_adjacent_week() {
    let date = day(2026, 9, 4);
    let (mut app, backend) = demo_app(date, Config::default(), View::Week);
    assert_eq!(app.cache.len(), 1);
    let plan = app.move_cursor_days(7);
    fetch(&mut app, &backend, plan).unwrap();
    assert_eq!(app.cache.len(), 1);
}

#[test]
fn month_navigation_clamps_at_short_month_boundary() {
    let date = day(2026, 1, 31);
    let (mut app, backend) = demo_app(date, Config::default(), View::Month);
    let plan = app.move_month(1);
    fetch(&mut app, &backend, plan).unwrap();
    assert_eq!(app.cursor_date, day(2026, 2, 28));
    let plan = app.move_month(-1);
    fetch(&mut app, &backend, plan).unwrap();
    assert_eq!(app.cursor_date, day(2026, 1, 31));
}

#[test]
fn hidden_weekends_are_skipped_during_grid_navigation() {
    let friday = day(2026, 9, 4);
    let config = Config {
        show_weekends: false,
        ..Config::default()
    };
    let (mut app, backend) = demo_app(friday, config, View::Week);
    let plan = app.move_cursor_days(1);
    fetch(&mut app, &backend, plan).unwrap();
    assert_eq!(app.cursor_date, day(2026, 9, 7));
    let plan = app.move_cursor_days(-1);
    fetch(&mut app, &backend, plan).unwrap();
    assert_eq!(app.cursor_date, friday);
}

#[test]
fn visible_hours_can_scroll_to_midnight() {
    let date = day(2026, 9, 4);
    let mut app = App::new(Config::default(), date, Some(View::Week));
    app.scroll_hours(4);
    assert_eq!(app.config.day_minutes(), (12 * 60, 24 * 60));
}

#[test]
fn scrolling_keeps_the_span_of_visible_hours() {
    let date = day(2026, 9, 4);
    let mut app = App::new(Config::default(), date, Some(View::Week));
    app.scroll_hours(-3);
    assert_eq!(app.config.day_minutes(), (5 * 60, 17 * 60));
    assert_eq!(app.config.day_start, "05:00");
    app.scroll_hours(-20);
    assert_eq!(app.config.day_minutes(), (0, 12 * 60));
    assert_eq!(app.cursor_minutes, 9 * 60);
}

#[test]
fn a_weekend_start_moves_to_friday_when_weekends_are_hidden() {
    let config = Config {
        show_weekends: false,
        ..Config::default()
    };
    let app = App::new(config, day(2026, 9, 6), Some(View::Week));
    assert_eq!(app.cursor_date, day(2026, 9, 4));
    assert_eq!(app.preferred_month_day, 4);
    assert_eq!(app.cursor_minutes, 9 * 60);
    let agenda = App::new(
        Config {
            show_weekends: false,
            default_view: "agenda".into(),
            ..Config::default()
        },
        day(2026, 9, 6),
        None,
    );
    assert_eq!(agenda.view, View::Agenda);
    assert_eq!(agenda.cursor_date, day(2026, 9, 6));
}

#[test]
fn month_grid_start_honours_sunday_weeks() {
    let config = Config {
        week_starts_on: "SUNDAY".into(),
        ..Config::default()
    };
    let app = App::new(config, day(2026, 9, 17), Some(View::Month));
    assert_eq!(app.month_grid_start(), day(2026, 8, 30));
    assert_eq!(App::new(Config::default(), day(2026, 9, 17), Some(View::Month)).month_grid_start(), day(2026, 8, 31));
}

#[test]
fn requested_ranges_follow_the_view() {
    let date = day(2026, 9, 4);
    let week = App::new(Config::default(), date, Some(View::Week));
    let range = week.requested_range().unwrap();
    assert_eq!(range.from.day, day(2026, 8, 24));
    assert_eq!(range.to.day, day(2026, 9, 14));
    let month = App::new(Config::default(), date, Some(View::Month));
    let range = month.requested_range().unwrap();
    assert_eq!(range.from.day, day(2026, 8, 31));
    assert_eq!(range.to.day, day(2026, 10, 12));
    let agenda = App::new(Config::default(), date, Some(View::Agenda));
    let range = agenda.requested_range().unwrap();
    assert_eq!(range.from.day, date);
    assert_eq!(range.to.day, day(2026, 9, 19));
    assert_eq!(week.visible_range().unwrap().from.day, day(2026, 8, 31));
}

#[test]
fn moving_past_the_last_supported_day_is_an_error() {
    let last = Day { n: kalendar::date::MAX_DAY };
    let mut app = App::new(Config::default(), last, Some(View::Agenda));
    assert_eq!(app.move_cursor_days(1), Err("Date is out of range.".to_string()));
    assert_eq!(app.cursor_date, last);
    assert_eq!(app.plan_refresh(false), Err("Date is out of range.".to_string()));
}

#[test]
fn selection_goes_to_the_event_nearest_the_cursor() {
    let date = day(2026, 9, 4);
    let (mut app, _backend) = demo_app(date, Config::default(), View::Week);
    app.cursor_minutes = 14 * 60;
    app.selected_event = None;
    app.ensure_selection();
    assert_eq!(app.selected_event, Some(EventId("demo".into())));
    app.move_time(-5 * 60);
    assert_eq!(app.cursor_minutes, 9 * 60);
    assert_eq!(app.selected_event, Some(EventId("daily-3".into())));
}

#[test]
fn cycling_follows_start_order_and_wraps() {
    let date = day(2026, 9, 4);
    let (mut app, _backend) = demo_app(date, Config::default(), View::Week);
    app.selected_event = Some(EventId("daily-3".into()));
    app.cycle_event(1);
    assert_eq!(app.selected_event, Some(EventId("demo".into())));
    assert_eq!(app.cursor_minutes, 14 * 60);
    app.cycle_event(1);
    assert_eq!(app.selected_event, Some(EventId("all-day-release".into())));
    app.cycle_event(1);
    assert_eq!(app.selected_event, Some(EventId("daily-3".into())));
    app.cycle_event(-1);
    assert_eq!(app.selected_event, Some(EventId("all-day-release".into())));
}

#[test]
fn editor_calendar_cycles_through_writable_calendars() {
    let date = day(2026, 9, 4);
    let (mut app, _backend) = demo_app(date, Config::default(), View::Week);
    app.start_new_event();
    let first = app.editor.as_ref().unwrap().calendar_id.clone();
    app.cycle_editor_calendar(1);
    let second = app.editor.as_ref().unwrap().calendar_id.clone();
    assert_ne!(first, second);
    app.cycle_editor_calendar(-1);
    assert_eq!(app.editor.as_ref().unwrap().calendar_id, first);
    app.cycle_editor_calendar(2);
    assert_eq!(app.editor.as_ref().unwrap().calendar_id, first);
}

#[test]
fn new_events_need_a_writable_calendar() {
    let date = day(2026, 9, 4);
    let mut app = App::new(Config::default(), date, Some(View::Week));
    app.start_new_event();
    assert_eq!(app.error.as_deref(), Some("No writable calendar is available."));
    assert!(app.editor.is_none());
}

#[test]
fn new_event_form_starts_at_the_cursor() {
    let date = day(2026, 9, 4);
    let (mut app, _backend) = demo_app(date, Config::default(), View::Week);
    app.cursor_minutes = 23 * 60 + 30;
    app.start_new_event();
    let editor = app.editor.as_ref().unwrap();
    assert_eq!(editor.date, "2026-09-04");
    assert_eq!(editor.start, "23:30");
    assert_eq!(editor.end, "00:30");
    assert_eq!(editor.field, EditorField::Title);
    assert_eq!(app.mode, Mode::EventEditor);
}

#[test]
fn month_view_forms_use_the_default_start() {
    let date = day(2026, 9, 4);
    let (mut app, _backend) = demo_app(
        date,
        Config {
            default_event_start: "14:15".into(),
            default_event_duration_minutes: 30,
            ..Config::default()
        },
        View::Month,
    );
    app.start_new_event();
    let editor = app.editor.as_ref().unwrap();
    assert_eq!(editor.start, "14:15");
    assert_eq!(editor.end, "14:45");
}

#[test]
fn editor_form_errors_name_the_field() {
    let date = day(2026, 9, 4);
    let (mut app, _backend) = demo_app(date, Config::default(), View::Week);
    app.start_new_event();
    let editor = app.editor.as_mut().unwrap();
    assert_eq!(editor.values(), Err("Title cannot be empty.".to_string()));
    editor.title = "  x ".into();
    editor.date = "04/09/2026".into();
    assert_eq!(editor.values(), Err("Date must use YYYY-MM-DD.".to_string()));
    editor.date = "2026-09-04".into();
    editor.start = "nine".into();
    assert_eq!(editor.values(), Err("Start must use HH:MM.".to_string()));
    editor.start = "09:00".into();
    editor.end = "25:00".into();
    assert_eq!(editor.values(), Err("End must use HH:MM.".to_string()));
    editor.end = "09:00".into();
    assert_eq!(editor.values(), Err("End must differ from start.".to_string()));
    editor.end = "10:15".into();
    let (start, end) = editor.values().unwrap();
    assert_eq!((end.secs - start.secs) / 60, 75);
}

#[test]
fn typing_and_backspace_edit_the_focused_field() {
    let date = day(2026, 9, 4);
    let (mut app, _backend) = demo_app(date, Config::default(), View::Week);
    app.start_new_event();
    let editor = app.editor.as_mut().unwrap();
    editor.insert('H');
    editor.insert('i');
    assert_eq!(editor.title, "Hi");
    editor.backspace();
    assert_eq!(editor.title, "H");
    editor.field = EditorField::Calendar;
    editor.insert('x');
    editor.backspace();
    assert_eq!(editor.title, "H");
    editor.field = EditorField::Notes;
    editor.insert('n');
    editor.backspace();
    editor.backspace();
    assert_eq!(editor.notes, "");
}

#[test]
fn toggling_a_calendar_twice_restores_its_visibility() {
    let date = day(2026, 9, 4);
    let (mut app, _backend) = demo_app(date, Config::default(), View::Week);
    let mut before: Vec<String> = app.visible_calendars.iter().map(|c| c.0.clone()).collect();
    app.calendar_picker_index = 0;
    app.toggle_calendar();
    assert!(!app.visible_calendars.contains(&app.calendars[0].id));
    app.toggle_calendar();
    let mut after: Vec<String> = app.visible_calendars.iter().map(|c| c.0.clone()).collect();
    before.sort();
    after.sort();
    assert_eq!(before, after);
}

#[test]
fn hidden_calendars_follow_the_picker() {
    let date = day(2026, 9, 4);
    let (mut app, _backend) = demo_app(date, Config::default(), View::Week);
    app.open_calendar_picker();
    app.calendar_picker_index = 1;
    app.toggle_calendar();
    app.apply_calendar_visibility();
    assert_eq!(app.config.hidden_calendars, vec![app.calendars[1].id.0.clone()]);
    app.finish_calendar_visibility();
    assert_eq!(app.mode, Mode::Normal);
    assert_eq!(app.status.as_deref(), Some("Calendar visibility saved"));
    assert!(app.picker_original.is_none());
}

#[test]
fn hidden_calendars_by_name_are_not_loaded_as_visible() {
    let date = day(2026, 9, 4);
    let backend = MockBackend::demo(date).unwrap();
    let calendars = backend.calendars();
    let hidden_name = calendars[0].name.clone();
    let mut app = App::new(
        Config {
            hidden_calendars: vec![hidden_name],
            ..Config::default()
        },
        date,
        Some(View::Week),
    );
    app.load_calendars(calendars);
    assert!(!app.visible_calendars.contains(&app.calendars[0].id));
    assert_eq!(app.visible_calendars.len(), app.calendars.len() - 1);
    assert!(app.last_used_calendar.is_some());
}

#[test]
fn accepting_a_search_result_goes_to_it() {
    let date = day(2026, 9, 4);
    let (mut app, backend) = demo_app(date, Config::default(), View::Month);
    app.search.query = "  cinema ".into();
    update_search(&mut app, &backend);
    assert_eq!(app.search.results.len(), 1);
    let plan = app.accept_search();
    fetch(&mut app, &backend, plan).unwrap();
    app.finish_accept_search();
    assert_eq!(app.view, View::Week);
    assert_eq!(app.cursor_date, day(2026, 9, 5));
    assert_eq!(app.cursor_minutes, 20 * 60 + 30);
    assert_eq!(app.selected_event, Some(EventId("late".into())));
    app.search.query = "   ".into();
    update_search(&mut app, &backend);
    assert!(app.search.results.is_empty());
    assert_eq!(app.search.selected, 0);
}

#[test]
fn permissions_gate_loading() {
    assert_eq!(check_permission(PermissionStatus::Granted), Ok(false));
    assert_eq!(check_permission(PermissionStatus::NotDetermined), Ok(true));
    assert!(check_permission(PermissionStatus::Denied).unwrap_err().starts_with("Calendar permission denied."));
    assert_eq!(check_request(true), Ok(()));
    assert!(check_request(false).unwrap_err().starts_with("Calendar access was not granted."));
}

#[test]
fn deleting_without_a_selection_is_an_error() {
    let date = day(2026, 9, 4);
    let app = App::new(Config::default(), date, Some(View::Week));
    assert_eq!(app.prepare_delete().unwrap_err(), "No event is selected.");
    assert_eq!(app.prepare_save().unwrap_err(), "No event is being edited.");
}

#[test]
fn opening_in_the_month_view_selects_the_days_event() {
    let date = day(2026, 9, 4);
    let (mut app, _backend) = demo_app(date, Config::default(), View::Week);
    app.selected_event = None;
    app.open_selected();
    assert_eq!(app.mode, Mode::EventDetail);
    assert!(app.selected().is_some());
}

#[test]
fn permission_statuses_read_as_words() {
    assert_eq!(PermissionStatus::Granted.label(), "granted");
    assert_eq!(PermissionStatus::NotDetermined.label(), "not determined");
    assert_eq!(PermissionStatus::Denied.label(), "denied");
}

#[test]
fn weekend_search_result_opens_in_week_view_when_weekends_are_hidden() {
    let date = day(2026, 9, 4);
    let config = Config { show_weekends: false, ..Config::default() };
    let (mut app, backend) = demo_app(date, config, View::Month);
    app.search.query = "cinema".into();
    update_search(&mut app, &backend);
    assert_eq!(app.search.results.len(), 1);
    let plan = app.accept_search();
    fetch(&mut app, &backend, plan).unwrap();
    app.finish_accept_search();
    assert_eq!(app.view, View::Week);
    assert_eq!(app.cursor_date, day(2026, 9, 5));
    assert_eq!(app.selected_event, Some(EventId("late".into())));
}

#[test]
fn explicit_refresh_empties_the_cache() {
    let date = day(2026, 9, 4);
    let (mut app, backend) = demo_app(date, Config::default(), View::Week);
    let plan = app.move_cursor_days(21);
    fetch(&mut app, &backend, plan).unwrap();
    assert_eq!(app.cache.len(), 2);
    let plan = app.plan_refresh(true);
    assert!(app.cache.is_empty());
    fetch(&mut app, &backend, plan).unwrap();
    assert_eq!(app.cache.len(), 1);
}

#[test]
fn a_cached_view_is_served_without_a_fetch() {
    let date = day(2026, 9, 4);
    let (mut app, _backend) = demo_app(date, Config::default(), View::Week);
    let events = app.events.len();
    assert_eq!(app.plan_refresh(false), Ok(None));
    assert_eq!(app.events.len(), events);
    assert_eq!(app.cache.len(), 1);
}

#[test]
fn settling_the_selection_twice_changes_nothing() {
    let date = day(2026, 9, 4);
    let (mut app, _backend) = demo_app(date, Config::default(), View::Week);
    app.selected_event = None;
    app.ensure_selection();
    let first = app.selected_event.clone();
    assert!(first.is_some());
    app.ensure_selection();
    assert_eq!(app.selected_event, first);
}
