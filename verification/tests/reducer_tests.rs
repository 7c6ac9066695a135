use kalendar::keys::{action_for_key, handle_key, Key, KeyEffect, Modifiers};
use kalendar::reducer::{reduce, Action, Command};
use kalendar::{App, Config, DateRange, Day, EditorField, EventId, MockBackend, Mode, View};

fn day(y: i32, m: u32, d: u32) -> Day {
    Day::from_ymd(y, m, d).unwrap()
}

fn fetch(app: &mut App, backend: &MockBackend, plan: Result<Option<DateRange>, String>) -> Result<(), String> {
    if let Some(range) = plan? {
        let events = backend.events(range);
        app.finish_refresh(range, events);
    }
    Ok(())
}

fn execute(app: &mut App, backend: &MockBackend, command: Command) -> Result<(), String> {
    let plan = match command {
        Command::Nothing => return Ok(()),
        Command::LoadView(view) => app.set_view(view),
        Command::MoveDays(days) => app.move_cursor_days(days),
        Command::MoveMonth(months) => app.move_month(months),
        Command::Today => app.today(),
        Command::Refresh => app.plan_refresh(true),
    };
    fetch(app, backend, plan)
}

fn dispatch(app: &mut App, backend: &MockBackend, action: Action) -> Result<(), String> {
    let command = reduce(app, action);
    execute(app, backend, command)
}

fn demo_app(date: Day) -> (App, MockBackend) {
    let backend = MockBackend::demo(date).unwrap();
    let mut app = App::new(Config::default(), date, Some(View::Week));
    app.load_calendars(backend.calendars());
    let plan = app.plan_refresh(false);
    fetch(&mut app, &backend, plan).unwrap();
    (app, backend)
}

const PLAIN: Modifiers = Modifiers { control: false, shift: false, other: false };
const CONTROL: Modifiers = Modifiers { control: true, shift: false, other: false };

#[test]
fn action_reducer_drives_navigation_and_commands() {
    let date = day(2026, 9, 4);
    let (mut app, backend) = demo_app(date);
    dispatch(&mut app, &backend, Action::MoveDays(7)).unwrap();
    assert_eq!(app.cursor_date, day(2026, 9, 11));
    dispatch(&mut app, &backend, Action::SetView(View::Month)).unwrap();
    assert_eq!(app.view, View::Month);
    app.selected_event = None;
    dispatch(&mut app, &backend, Action::OpenSelected).unwrap();
    assert_eq!(app.view, View::Agenda);
    dispatch(&mut app, &backend, Action::Quit).unwrap();
    assert!(app.should_quit);
}

#[test]
fn control_c_quits_from_a_modal_mode() {
    let date = day(2026, 9, 4);
    let (mut app, _backend) = demo_app(date);
    app.mode = Mode::Help;
    handle_key(&mut app, Key::Char('c'), CONTROL);
    assert!(app.should_quit);
}

#[test]
fn reduce_leaves_backend_work_as_commands() {
    let date = day(2026, 9, 4);
    let mut app = App::new(Config::default(), date, Some(View::Week));
    assert_eq!(reduce(&mut app, Action::Today), Command::Today);
    assert_eq!(reduce(&mut app, Action::Refresh), Command::Refresh);
    assert_eq!(reduce(&mut app, Action::MoveMonth(-1)), Command::MoveMonth(-1));
    assert_eq!(reduce(&mut app, Action::OpenHelp), Command::Nothing);
    assert_eq!(app.mode, Mode::Help);
    app.search.query = "left over".into();
    assert_eq!(reduce(&mut app, Action::OpenSearch), Command::Nothing);
    assert_eq!(app.mode, Mode::Search);
    assert_eq!(app.search.query, "");
}

#[test]
fn normal_keys_map_to_actions() {
    assert_eq!(action_for_key(View::Week, Key::Char('j'), PLAIN), Some(Action::MoveTime(30)));
    assert_eq!(action_for_key(View::Month, Key::Down, PLAIN), Some(Action::MoveDays(7)));
    assert_eq!(action_for_key(View::Agenda, Key::Up, PLAIN), Some(Action::CycleEvent(-1)));
    assert_eq!(action_for_key(View::Week, Key::Char('j'), CONTROL), Some(Action::ScrollHours(1)));
    assert_eq!(action_for_key(View::Week, Key::Char('L'), PLAIN), Some(Action::MoveDays(7)));
    assert_eq!(action_for_key(View::Week, Key::Char('x'), PLAIN), None);
    assert_eq!(action_for_key(View::Week, Key::Char('q'), CONTROL), None);
}

#[test]
fn errors_are_dismissed_or_retried_first() {
    let date = day(2026, 9, 4);
    let (mut app, _backend) = demo_app(date);
    app.error = Some("boom".into());
    assert!(matches!(handle_key(&mut app, Key::Char('q'), PLAIN), KeyEffect::Done));
    assert!(!app.should_quit);
    assert!(matches!(handle_key(&mut app, Key::Char('r'), PLAIN), KeyEffect::Reload(false)));
    assert!(app.error.is_none());
}

#[test]
fn the_editor_takes_typing_and_saves_with_control_s() {
    let date = day(2026, 9, 4);
    let (mut app, _backend) = demo_app(date);
    assert!(matches!(handle_key(&mut app, Key::Char('n'), PLAIN), KeyEffect::Run(Command::Nothing)));
    assert_eq!(app.mode, Mode::EventEditor);
    handle_key(&mut app, Key::Char('H'), Modifiers { control: false, shift: true, other: false });
    handle_key(&mut app, Key::Char('i'), PLAIN);
    assert_eq!(app.editor.as_ref().unwrap().title, "Hi");
    handle_key(&mut app, Key::Backspace, PLAIN);
    assert_eq!(app.editor.as_ref().unwrap().title, "H");
    handle_key(&mut app, Key::Tab, PLAIN);
    assert_eq!(app.editor.as_ref().unwrap().field, EditorField::Calendar);
    handle_key(&mut app, Key::BackTab, PLAIN);
    handle_key(&mut app, Key::BackTab, PLAIN);
    assert_eq!(app.editor.as_ref().unwrap().field, EditorField::Notes);
    handle_key(&mut app, Key::BackTab, PLAIN);
    handle_key(&mut app, Key::BackTab, PLAIN);
    assert_eq!(app.editor.as_ref().unwrap().field, EditorField::AllDay);
    handle_key(&mut app, Key::Char(' '), PLAIN);
    assert!(app.editor.as_ref().unwrap().all_day);
    assert!(matches!(
        handle_key(&mut app, Key::Char('s'), CONTROL),
        KeyEffect::Save(kalendar::RecurrenceScope::ThisEvent)
    ));
    handle_key(&mut app, Key::Esc, PLAIN);
    assert!(app.editor.is_none());
    assert_eq!(app.mode, Mode::Normal);
}

#[test]
fn recurring_events_ask_for_the_update_scope() {
    let date = day(2026, 9, 4);
    let (mut app, _backend) = demo_app(date);
    app.selected_event = Some(EventId("daily-1".into()));
    app.start_edit_event();
    assert!(matches!(handle_key(&mut app, Key::Char('s'), CONTROL), KeyEffect::Done));
    assert_eq!(app.mode, Mode::ConfirmUpdate);
    assert!(matches!(
        handle_key(&mut app, Key::Char('2'), PLAIN),
        KeyEffect::Save(kalendar::RecurrenceScope::ThisAndFuture)
    ));
    handle_key(&mut app, Key::Esc, PLAIN);
    assert_eq!(app.mode, Mode::EventEditor);
}

#[test]
fn delete_keys_offer_scopes_for_recurring_events() {
    let date = day(2026, 9, 4);
    let (mut app, _backend) = demo_app(date);
    app.selected_event = Some(EventId("design".into()));
    handle_key(&mut app, Key::Char('d'), PLAIN);
    assert_eq!(app.mode, Mode::ConfirmDelete);
    assert!(matches!(handle_key(&mut app, Key::Char('2'), PLAIN), KeyEffect::Done));
    assert!(matches!(
        handle_key(&mut app, Key::Char('y'), PLAIN),
        KeyEffect::Delete(kalendar::DeleteScope::ThisEvent)
    ));
    handle_key(&mut app, Key::Char('n'), PLAIN);
    assert_eq!(app.mode, Mode::Normal);
}

#[test]
fn the_o_key_opens_the_selected_meeting() {
    let date = day(2026, 9, 4);
    let (mut app, _backend) = demo_app(date);
    app.selected_event = Some(EventId("design".into()));
    match handle_key(&mut app, Key::Char('o'), PLAIN) {
        KeyEffect::OpenMeeting(url) => assert_eq!(url, "https://example.com/design-review"),
        other => panic!("unexpected {other:?}"),
    }
    app.selected_event = None;
    assert!(matches!(handle_key(&mut app, Key::Char('o'), PLAIN), KeyEffect::Done));
}

#[test]
fn search_keys_edit_the_query() {
    let date = day(2026, 9, 4);
    let (mut app, _backend) = demo_app(date);
    handle_key(&mut app, Key::Char('/'), PLAIN);
    assert_eq!(app.mode, Mode::Search);
    assert!(matches!(handle_key(&mut app, Key::Char('a'), PLAIN), KeyEffect::UpdateSearch));
    assert!(matches!(handle_key(&mut app, Key::Char('b'), CONTROL), KeyEffect::Done));
    assert_eq!(app.search.query, "a");
    assert!(matches!(handle_key(&mut app, Key::Backspace, PLAIN), KeyEffect::UpdateSearch));
    assert_eq!(app.search.query, "");
    assert!(matches!(handle_key(&mut app, Key::Enter, PLAIN), KeyEffect::AcceptSearch));
    handle_key(&mut app, Key::Esc, PLAIN);
    assert_eq!(app.mode, Mode::Normal);
}

#[test]
fn picker_keys_move_toggle_and_save() {
    let date = day(2026, 9, 4);
    let (mut app, _backend) = demo_app(date);
    handle_key(&mut app, Key::Char('c'), PLAIN);
    assert_eq!(app.mode, Mode::CalendarPicker);
    handle_key(&mut app, Key::Down, PLAIN);
    handle_key(&mut app, Key::Down, PLAIN);
    handle_key(&mut app, Key::Down, PLAIN);
    assert_eq!(app.calendar_picker_index, 2);
    handle_key(&mut app, Key::Char('k'), PLAIN);
    assert_eq!(app.calendar_picker_index, 1);
    handle_key(&mut app, Key::Char(' '), PLAIN);
    assert!(matches!(handle_key(&mut app, Key::Enter, PLAIN), KeyEffect::SaveVisibility));
    assert_eq!(app.config.hidden_calendars.len(), 1);
}
