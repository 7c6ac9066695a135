use kalendar::time::after_gap;
use chrono::TimeZone;
use chrono_tz::Europe::Lisbon;
use kalendar::date::last_day_of_month;
use kalendar::{month_grid_start, range_for_month, range_for_week, week_start, Day};

fn day(y: i32, m: u32, d: u32) -> Day {
    Day::from_ymd(y, m, d).unwrap()
}

#[test]
fn week_begins_on_monday_across_month_boundary() {
    let date = day(2026, 9, 4);
    assert_eq!(week_start(date), day(2026, 8, 31));
}

#[test]
fn month_grid_covers_six_weeks() {
    let date = day(2026, 9, 4);
    let range = range_for_month(date).unwrap();
    assert_eq!((range.to.secs - range.from.secs) / 86_400, 42);
}

#[test]
fn leap_day_has_correct_week_start() {
    let date = day(2024, 2, 29);
    assert_eq!(week_start(date), day(2024, 2, 26));
}

#[test]
fn calendar_days_remain_dates_across_dst_transitions() {
    let spring_start = Lisbon.with_ymd_and_hms(2026, 3, 29, 0, 0, 0).single().unwrap();
    let spring_end = Lisbon.with_ymd_and_hms(2026, 3, 30, 0, 0, 0).single().unwrap();
    assert_eq!((spring_end - spring_start).num_hours(), 23);
    assert_eq!(
        spring_end.date_naive() - spring_start.date_naive(),
        chrono::Duration::days(1)
    );

    let autumn_start = Lisbon.with_ymd_and_hms(2026, 10, 25, 0, 0, 0).single().unwrap();
    let autumn_end = Lisbon.with_ymd_and_hms(2026, 10, 26, 0, 0, 0).single().unwrap();
    assert_eq!((autumn_end - autumn_start).num_hours(), 25);
    assert_eq!(
        autumn_end.date_naive() - autumn_start.date_naive(),
        chrono::Duration::days(1)
    );
}

#[test]
fn month_grid_starts_on_the_monday_before_the_first() {
    assert_eq!(month_grid_start(day(2026, 9, 4)), day(2026, 8, 31));
    assert_eq!(month_grid_start(day(2026, 6, 30)), day(2026, 6, 1));
}

#[test]
fn week_range_spans_seven_midnights() {
    let range = range_for_week(day(2026, 9, 4)).unwrap();
    assert_eq!(range.from.day, day(2026, 8, 31));
    assert_eq!(range.to.day, day(2026, 9, 7));
    assert_eq!((range.from.hour, range.from.minute), (0, 0));
}

#[test]
fn dates_round_trip_through_day_numbers() {
    let d = day(2026, 9, 4);
    assert_eq!(d.ymd(), (2026, 9, 4));
    assert_eq!(day(1, 1, 1).n, 1);
    assert_eq!(d.weekday_from_monday(), 4);
    assert_eq!(d.weekday_from_sunday(), 5);
    assert!(Day::from_ymd(2026, 2, 29).is_none());
    assert!(Day::from_ymd(2024, 2, 29).is_some());
    assert!(day(2026, 9, 5).is_weekend());
    assert!(!d.is_weekend());
}

#[test]
fn last_day_of_month_follows_leap_years() {
    assert_eq!(last_day_of_month(2026, 2), 28);
    assert_eq!(last_day_of_month(2024, 2), 29);
    assert_eq!(last_day_of_month(1900, 2), 28);
    assert_eq!(last_day_of_month(2000, 2), 29);
    assert_eq!(last_day_of_month(2026, 4), 30);
    assert_eq!(last_day_of_month(2026, 12), 31);
}

#[test]
fn a_daylight_saving_gap_moves_to_the_next_hour() {
    let date = Day::from_ymd(2026, 3, 29).unwrap();
    assert_eq!(after_gap(date, 1), Some((date, 2)));
    assert_eq!(after_gap(date, 23), Some((date.add_days(1).unwrap(), 0)));
}
