use kalendar::format::{centered, config_color, format_event_when, format_minutes, format_time, truncate, NamedColor, Rect};
use kalendar::{local_at, App, Config, Day, MockBackend, View};

fn day(y: i32, m: u32, d: u32) -> Day {
    Day::from_ymd(y, m, d).unwrap()
}

fn app_with(time_format: &str) -> App {
    let date = day(2026, 9, 4);
    let config = Config {
        time_format: time_format.into(),
        ..Config::default()
    };
    let _ = MockBackend::demo(date);
    App::new(config, date, Some(View::Week))
}

#[test]
fn formats_end_of_day_as_midnight_in_twelve_hour_mode() {
    let app = app_with("12h");
    assert_eq!(format_minutes(&app, 24 * 60), "12:00a");
}

#[test]
fn formats_grid_times_in_both_clocks() {
    let twelve = app_with("12h");
    assert_eq!(format_minutes(&twelve, 0), "12:00a");
    assert_eq!(format_minutes(&twelve, 13 * 60 + 5), "1:05p");
    assert_eq!(format_minutes(&twelve, 12 * 60), "12:00p");
    let day_clock = app_with("24h");
    assert_eq!(format_minutes(&day_clock, 9 * 60 + 5), "09:05");
    assert_eq!(format_minutes(&day_clock, 24 * 60), "24:00");
}

#[test]
fn formats_instants_in_both_clocks() {
    let date = day(2026, 9, 4);
    let evening = local_at(date, 21, 7).unwrap();
    assert_eq!(format_time(&app_with("12h"), evening), "9:07 PM");
    assert_eq!(format_time(&app_with("24h"), evening), "21:07");
    let midnight = local_at(date, 0, 30).unwrap();
    assert_eq!(format_time(&app_with("12h"), midnight), "12:30 AM");
}

#[test]
fn event_times_name_their_days() {
    let date = day(2026, 9, 4);
    let backend = MockBackend::demo(date).unwrap();
    let mut conference = backend.events[11].clone();
    assert!(conference.all_day);
    conference.start = local_at(day(2026, 9, 2), 0, 0).unwrap();
    conference.end = local_at(day(2026, 9, 5), 0, 0).unwrap();
    let app = app_with("24h");
    let when = format_event_when(&app, &conference);
    assert!(when.contains("Wednesday, 2 September 2026"));
    assert!(when.contains("Friday, 4 September 2026"));
    assert_eq!(when, "Wednesday, 2 September 2026 → Friday, 4 September 2026\nall day");

    let design = backend.events[3].clone();
    assert_eq!(format_event_when(&app, &design), "Tuesday, 1 September 2026\n10:00 → 11:30");
    let mut single = conference.clone();
    single.end = local_at(day(2026, 9, 3), 0, 0).unwrap();
    assert_eq!(format_event_when(&app, &single), "Wednesday, 2 September 2026 · all day");
}

#[test]
fn theme_colours_are_read_by_name() {
    assert_eq!(config_color("Cyan", NamedColor::Blue), NamedColor::Cyan);
    assert_eq!(config_color("dark_grey", NamedColor::Blue), NamedColor::DarkGray);
    assert_eq!(config_color("grey", NamedColor::Blue), NamedColor::Gray);
    assert_eq!(config_color("mauve", NamedColor::Blue), NamedColor::Blue);
}

#[test]
fn boxes_are_centred_and_kept_inside() {
    let area = Rect { x: 0, y: 0, width: 100, height: 30 };
    assert_eq!(centered(area, 60, 10), Rect { x: 20, y: 10, width: 60, height: 10 });
    let small = Rect { x: 5, y: 2, width: 20, height: 6 };
    assert_eq!(centered(small, 60, 10), Rect { x: 6, y: 3, width: 18, height: 4 });
}

#[test]
fn long_text_is_cut_with_an_ellipsis() {
    assert_eq!(truncate("Design review", 20), "Design review");
    assert_eq!(truncate("Design review", 7), "Design…");
    assert_eq!(truncate("Design review", 1), "…");
    assert_eq!(truncate("日本語テキスト", 6), "日本…");
}
