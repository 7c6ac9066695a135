use kalendar::cli::{parse_options_at, Invocation};
use kalendar::{Day, View};

fn args(list: &[&str]) -> Vec<String> {
    list.iter().map(|a| a.to_string()).collect()
}

fn today() -> Day {
    Day::from_ymd(2026, 9, 4).unwrap()
}

#[test]
fn options_default_to_today() {
    match parse_options_at(&args(&[]), today()).unwrap() {
        Invocation::Run(o) => {
            assert!(!o.demo && !o.debug && !o.doctor);
            assert_eq!(o.date, today());
            assert_eq!(o.view, None);
            assert_eq!(o.config, None);
        }
        other => panic!("unexpected {other:?}"),
    }
}

#[test]
fn options_are_read_in_order() {
    let parsed = parse_options_at(
        &args(&["--demo", "--view", "month", "--date", "2024-02-29", "--config", "/tmp/k.toml", "doctor", "--debug"]),
        today(),
    )
    .unwrap();
    match parsed {
        Invocation::Run(o) => {
            assert!(o.demo && o.debug && o.doctor);
            assert_eq!(o.view, Some(View::Month));
            assert_eq!(o.date, Day::from_ymd(2024, 2, 29).unwrap());
            assert_eq!(o.config.as_deref(), Some("/tmp/k.toml"));
        }
        other => panic!("unexpected {other:?}"),
    }
}

#[test]
fn help_and_version_stop_reading() {
    assert!(matches!(parse_options_at(&args(&["-h", "--bogus"]), today()), Ok(Invocation::Help)));
    assert!(matches!(parse_options_at(&args(&["--version"]), today()), Ok(Invocation::Version)));
}

#[test]
fn bad_options_are_errors() {
    assert_eq!(parse_options_at(&args(&["--date"]), today()).unwrap_err(), "--date requires YYYY-MM-DD");
    assert_eq!(
        parse_options_at(&args(&["--date", "2026-13-01"]), today()).unwrap_err(),
        "invalid date `2026-13-01`; expected YYYY-MM-DD"
    );
    assert_eq!(
        parse_options_at(&args(&["--view"]), today()).unwrap_err(),
        "--view requires agenda, week, or month"
    );
    assert_eq!(
        parse_options_at(&args(&["--view", "year"]), today()).unwrap_err(),
        "invalid view `year`; expected agenda, week, or month"
    );
    assert_eq!(parse_options_at(&args(&["--config"]), today()).unwrap_err(), "--config requires a path");
    assert_eq!(
        parse_options_at(&args(&["--colour"]), today()).unwrap_err(),
        "unknown argument `--colour`; use --help"
    );
}
