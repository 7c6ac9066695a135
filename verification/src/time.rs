use crate::date::{Day, MAX_DAY, MIN_DAY};
use chrono::{DateTime, Datelike, Local, NaiveDate, TimeDelta, TimeZone, Timelike};
use vstd::prelude::*;

verus! {

/// Day number of 1970-01-01, the Unix epoch.
pub const EPOCH_DAY: i64 = 719163;

/// First Unix second that the date library represents.
pub open spec fn min_secs() -> int {
    (MIN_DAY - EPOCH_DAY) * 86400
}

/// Last Unix second that the date library represents.
pub open spec fn max_secs() -> int {
    (MAX_DAY - EPOCH_DAY) * 86400 + 86399
}

/// First Unix second that `add_minutes` takes, three days inside the supported range.
pub const SAFE_MIN_SECS: i64 = -8334600969600;

/// Last Unix second that `add_minutes` takes, three days inside the supported range.
pub const SAFE_MAX_SECS: i64 = 8210266617599;

/// A Unix second and sub-second nanoseconds that name an instant: the nanoseconds reach into a
/// second second only during a leap second.
pub open spec fn valid_instant(secs: int, nanos: int) -> bool {
    &&& min_secs() <= secs <= max_secs()
    &&& 0 <= nanos < 2_000_000_000
    &&& nanos >= 1_000_000_000 ==> secs % 60 == 59
}

/// An instant together with the local wall-clock date and time at which it falls.
#[derive(Clone, Copy, Debug, PartialEq, Eq, Structural)]
pub struct Moment {
    /// Seconds since 1970-01-01T00:00:00Z.
    pub secs: i64,
    /// Nanoseconds into the second (past 10^9 only in a leap second).
    pub nanos: u32,
    /// The local calendar date.
    pub day: Day,
    /// The local hour.
    pub hour: u32,
    /// The local minute.
    pub minute: u32,
}

impl Moment {
    pub open spec fn wf(self) -> bool {
        &&& valid_instant(self.secs as int, self.nanos as int)
        &&& self.day.wf()
        &&& self.hour < 24
        &&& self.minute < 60
    }

    /// Local minutes since midnight.
    pub open spec fn minutes(self) -> int {
        self.hour * 60 + self.minute
    }

    /// The instant of `self` comes before that of `other`.
    pub open spec fn before(self, other: Moment) -> bool {
        self.secs < other.secs || (self.secs == other.secs && self.nanos < other.nanos)
    }

    /// Whether the instant is representable and its wall-clock fields are in range.
    pub fn is_wf(&self) -> (r: bool)
        ensures
            r == self.wf(),
    {
        let min: i64 = (MIN_DAY as i64 - EPOCH_DAY) * 86400;
        let max: i64 = (MAX_DAY as i64 - EPOCH_DAY) * 86400 + 86399;
        let leap_ok = self.nanos < 1_000_000_000 || (self.secs % 60 == 59 || self.secs % 60 == -1);
        min <= self.secs && self.secs <= max && self.nanos < 2_000_000_000 && leap_ok
            && MIN_DAY <= self.day.n && self.day.n <= MAX_DAY && self.hour < 24 && self.minute < 60
    }

    /// Whether `self` comes before `other`.
    pub fn is_before(&self, other: &Moment) -> (r: bool)
        ensures
            r == self.before(*other),
    {
        self.secs < other.secs || (self.secs == other.secs && self.nanos < other.nanos)
    }

    /// Local minutes since midnight.
    pub fn minutes_into_day(&self) -> (r: u32)
        requires
            self.wf(),
        ensures
            r == self.minutes(),
            r < 1440,
    {
        self.hour * 60 + self.minute
    }
}

/// `before` is a strict order on instants.
pub proof fn lemma_before_order(a: Moment, b: Moment, c: Moment)
    ensures
        !a.before(a),
        a.before(b) ==> !b.before(a),
        a.before(b) && b.before(c) ==> a.before(c),
        !a.before(b) && !b.before(a) ==> a.secs == b.secs && a.nanos == b.nanos,
{
}

/// Every instant that a wall-clock lookup returns falls at that wall-clock time.
pub open spec fn at_wall_clock(m: Moment, day: Day, hour: u32, minute: u32) -> bool {
    m.wf() && m.day == day && m.hour == hour && m.minute == minute
}

/// `TimeZone::from_local_datetime` of `Local` for `day` at `hour`:`minute`:00, then
/// `earliest`: the instant at that wall-clock time, the earlier one where the time occurs twice,
/// `None` where it does not occur. Which of these holds depends on the machine's time zone, so
/// only this is stated: an instant returned falls at that local wall-clock time.
#[verifier::external_body]
fn local_earliest(day: Day, hour: u32, minute: u32) -> (r: Option<Moment>)
    requires
        day.wf(),
        hour < 24,
        minute < 60,
    ensures
        r matches Some(m) ==> at_wall_clock(m, day, hour, minute) && m.nanos == 0,
{
    let naive = NaiveDate::from_num_days_from_ce_opt(day.n).unwrap().and_hms_opt(hour, minute, 0).unwrap();
    match Local.from_local_datetime(&naive).earliest() {
        Some(dt) => Some(Moment {
            secs: dt.timestamp(),
            nanos: dt.timestamp_subsec_nanos(),
            day: Day { n: dt.date_naive().num_days_from_ce() },
            hour: dt.hour(),
            minute: dt.minute(),
        }),
        None => None,
    }
}

/// `Local::now()`: the current instant with its local wall-clock time. Nothing more can be said
/// of a reading of the clock.
#[verifier::external_body]
pub(crate) fn now() -> (r: Moment)
    ensures
        r.wf(),
{
    let dt = Local::now();
    Moment {
        secs: dt.timestamp(),
        nanos: dt.timestamp_subsec_nanos(),
        day: Day { n: dt.date_naive().num_days_from_ce() },
        hour: dt.hour(),
        minute: dt.minute(),
    }
}

/// `DateTime::checked_add_signed` of `k` minutes on the local date-time of `m`. The local
/// wall-clock time of the result depends on the time zone and is not stated; for an instant
/// outside a leap second, the result is exactly `60 * k` seconds later.
#[verifier::external_body]
pub(crate) fn add_minutes(m: Moment, k: i64) -> (r: Option<Moment>)
    requires
        m.wf(),
        SAFE_MIN_SECS <= m.secs <= SAFE_MAX_SECS,
        -1440 <= k <= 1440,
    ensures
        r matches Some(x) ==> x.wf() && (m.nanos < 1_000_000_000 ==> x.secs == m.secs + 60 * k
            && x.nanos == m.nanos),
{
    let dt = DateTime::from_timestamp(m.secs, m.nanos).unwrap().with_timezone(&Local);
    match dt.checked_add_signed(TimeDelta::minutes(k)) {
        Some(x) => Some(Moment {
            secs: x.timestamp(),
            nanos: x.timestamp_subsec_nanos(),
            day: Day { n: x.date_naive().num_days_from_ce() },
            hour: x.hour(),
            minute: x.minute(),
        }),
        None => None,
    }
}

/// The day and hour tried when `hour` of `date` falls in a daylight-saving gap: the next hour
/// of the same day, or hour 0 of the next day after 23:00; `None` after 23:00 on the last
/// supported day.
pub open spec fn after_gap_of(date: Day, hour: u32) -> Option<(Day, u32)> {
    if hour < 23 {
        Some((date, (hour + 1) as u32))
    } else if date.n < MAX_DAY {
        Some((Day { n: (date.n + 1) as i32 }, 0u32))
    } else {
        None
    }
}

/// The day and hour tried when `hour` of `date` falls in a daylight-saving gap (see
/// `after_gap_of`).
pub fn after_gap(date: Day, hour: u32) -> (r: Option<(Day, u32)>)
    requires
        date.wf(),
        hour < 24,
    ensures
        r == after_gap_of(date, hour),
{
    if hour < 23 {
        Some((date, hour + 1))
    } else if date.n < MAX_DAY {
        Some((Day { n: date.n + 1 }, 0))
    } else {
        None
    }
}

/// What `local_at` may give for `date` at `hour`:`minute`: an instant at that wall-clock time
/// or, past a daylight-saving gap, at the same minute of the hour `after_gap_of` names.
pub open spec fn local_at_result(m: Moment, date: Day, hour: u32, minute: u32) -> bool {
    ||| at_wall_clock(m, date, hour, minute)
    ||| after_gap_of(date, hour) matches Some((d, h)) && at_wall_clock(m, d, h, minute)
}

/// The local date-time of `date` at `hour`:`minute`. Where that wall-clock time falls twice,
/// the earlier instant; where a daylight-saving jump skips it, the same minute of the hour
/// that `after_gap` names. `None` when that time is skipped too (or lies past the supported
/// range). Which lookup succeeds depends on the local time zone.
pub fn local_at(date: Day, hour: u32, minute: u32) -> (r: Option<Moment>)
    requires
        date.wf(),
        hour < 24,
        minute < 60,
    ensures
        r matches Some(m) ==> local_at_result(m, date, hour, minute) && m.nanos == 0,
{
    match local_earliest(date, hour, minute) {
        Some(m) => Some(m),
        None => match after_gap(date, hour) {
            Some((later_date, later_hour)) => local_earliest(later_date, later_hour, minute),
            None => None,
        },
    }
}

} // verus!
