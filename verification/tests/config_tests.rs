use kalendar::config::{clock_string, Config};

#[test]
fn invalid_working_hours_fall_back() {
    let config = Config {
        day_start: "25:70".into(),
        day_end: "oops".into(),
        ..Config::default()
    };
    assert_eq!(config.day_minutes(), (480, 1200));
}

#[test]
fn midnight_is_a_valid_end_of_day_boundary() {
    let config = Config {
        day_start: "12:00".into(),
        day_end: "24:00".into(),
        ..Config::default()
    };
    assert_eq!(config.day_minutes(), (12 * 60, 24 * 60));
}

#[test]
fn visible_hours_shorter_than_an_hour_fall_back() {
    let config = Config {
        day_start: "10:00".into(),
        day_end: "10:30".into(),
        ..Config::default()
    };
    assert_eq!(config.day_minutes(), (480, 1200));
}

#[test]
fn extra_time_fields_are_ignored_in_visible_hours() {
    let config = Config {
        day_start: "7:5:99".into(),
        day_end: "+21:00".into(),
        ..Config::default()
    };
    assert_eq!(config.day_minutes(), (7 * 60 + 5, 21 * 60));
}

#[test]
fn invalid_display_configuration_is_normalized() {
    let config = Config {
        default_view: "sideways".into(),
        week_starts_on: "friday".into(),
        time_format: "decimal".into(),
        date_format: "%Q".into(),
        default_event_start: "noonish".into(),
        default_event_duration_minutes: -3,
        ..Config::default()
    }
    .normalized();
    assert_eq!(config.default_view, "week");
    assert_eq!(config.week_starts_on, "monday");
    assert_eq!(config.time_format, "24h");
    assert_eq!(config.date_format, "%d %b");
    assert_eq!(config.default_event_start, "09:00");
    assert_eq!(config.default_event_duration_minutes, 1);
}

#[test]
fn valid_display_settings_are_kept() {
    let config = Config {
        default_view: "month".into(),
        week_starts_on: "sunday".into(),
        time_format: "12h".into(),
        date_format: "%A %e".into(),
        default_event_start: "13:45".into(),
        default_event_duration_minutes: 5000,
        ..Config::default()
    }
    .normalized();
    assert_eq!(config.default_view, "month");
    assert_eq!(config.week_starts_on, "sunday");
    assert_eq!(config.time_format, "12h");
    assert_eq!(config.date_format, "%A %e");
    assert_eq!(config.default_event_start, "13:45");
    assert_eq!(config.default_event_duration_minutes, 1440);
}

#[test]
fn clock_strings_are_zero_padded() {
    assert_eq!(clock_string(0), "00:00");
    assert_eq!(clock_string(9 * 60 + 5), "09:05");
    assert_eq!(clock_string(24 * 60), "24:00");
}
