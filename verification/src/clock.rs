//! Wall-clock and local-calendar access. Everything here that reads the
//! system clock or the machine's time zone is a thin trusted wrapper whose
//! result is constrained only as far as std's documentation and chrono's
//! source show it for every clock and time zone; the calendar arithmetic on
//! day numbers, and what is done with each reading, is verified.
use vstd::prelude::*;

use chrono::Datelike;
use chrono::TimeZone;
use std::time::Duration;
use std::time::SystemTime;

use crate::config::Weekday;

verus! {

#[verifier::external_type_specification]
#[verifier::external_body]
pub struct ExSystemTime(SystemTime);

/// Calls `SystemTime::now`; the clock reading is not constrained.
#[verifier::external_body]
fn system_now() -> SystemTime {
    SystemTime::now()
}

/// What `SystemTime::duration_since(UNIX_EPOCH).ok()` gives for `st`: the
/// time elapsed since the epoch, `None` for an instant before it.
pub uninterp spec fn since_unix_epoch(st: SystemTime) -> Option<Duration>;

/// Calls `SystemTime::duration_since(UNIX_EPOCH)`; `None` for instants
/// before the epoch. The outcome is `since_unix_epoch` of the instant.
#[verifier::external_body]
fn duration_since_unix_epoch(st: &SystemTime) -> (r: Option<Duration>)
    ensures
        r == since_unix_epoch(*st),
{
    st.duration_since(std::time::UNIX_EPOCH).ok()
}

/// What `Duration::as_secs` gives for `d`: its whole seconds.
pub uninterp spec fn whole_secs_of(d: Duration) -> u64;

/// Calls `Duration::as_secs`: the whole seconds of a duration, which is
/// `whole_secs_of` of it.
#[verifier::external_body]
fn whole_secs(d: &Duration) -> (r: u64)
    ensures
        r == whole_secs_of(*d),
{
    d.as_secs()
}

/// The whole seconds since the epoch of `st`, `None` before the epoch.
pub open spec fn unix_secs(st: SystemTime) -> Option<u64> {
    match since_unix_epoch(st) {
        Some(d) => Some(whole_secs_of(d)),
        None => None,
    }
}

/// Seconds since the epoch as a signed count: the whole seconds taken as
/// `i64` (`as` conversion), and 0 for an instant before the epoch.
pub open spec fn epoch_from(secs: Option<u64>) -> i64 {
    match secs {
        Some(s) => s as i64,
        None => 0,
    }
}

/// Converts the outcome of reading an instant into epoch seconds.
pub fn epoch_of_secs(secs: Option<u64>) -> (r: i64)
    ensures
        r == epoch_from(secs),
{
    match secs {
        Some(s) => s as i64,
        None => 0,
    }
}

/// Epoch seconds of a `SystemTime` (0 before the epoch).
pub fn epoch(st: SystemTime) -> (r: i64)
    ensures
        r == epoch_from(unix_secs(st)),
{
    let secs = match duration_since_unix_epoch(&st) {
        Some(d) => Some(whole_secs(&d)),
        None => None,
    };
    epoch_of_secs(secs)
}

/// The current time in epoch seconds (0 if the clock reads before 1970):
/// the epoch seconds of some reading of the system clock. Which reading,
/// the clock decides.
pub fn now_epoch() -> (r: i64)
    ensures
        exists|st: SystemTime| r == epoch_from(unix_secs(st)),
{
    let st = system_now();
    let r = epoch(st);
    assert(r == epoch_from(unix_secs(st)));
    r
}

// ---------------------------------------------------------------------------
// Local calendar
// ---------------------------------------------------------------------------

/// Widest distance from the epoch, in seconds, at which the local date is
/// promised to be found (about 31,000 years, well inside chrono's range).
pub const LOCAL_SPAN: i64 = 1_000_000_000_000;

/// Day number (day 1 being 0001-01-01) of the UTC date at epoch second `t`.
pub open spec fn utc_day(t: int) -> int {
    t / 86400 + 719163
}

/// Calls `Local::timestamp_opt(t, 0).single()`, `date_naive` and
/// `num_days_from_ce`: the day number (0001-01-01 being day 1) of the
/// local date at epoch second `t`. Stated: for `t` within `LOCAL_SPAN` of
/// the epoch the date is found (`DateTime::from_timestamp` accepts every
/// such second, and `timestamp_opt` then gives a single value), and a local
/// date differs from the UTC date by at most one day (the local offset is a
/// `FixedOffset`, under 86400 seconds). Which of those days the machine's
/// time zone gives is left unsaid, and so is chrono's panic when the zone
/// data it reads yields no usable offset: that depends on the machine, not
/// on `t`.
#[verifier::external_body]
fn local_day_of(t: i64) -> (r: Option<i32>)
    ensures
        -LOCAL_SPAN <= t <= LOCAL_SPAN ==> r is Some,
        r matches Some(d) ==> utc_day(t as int) - 1 <= d <= utc_day(t as int) + 1,
{
    chrono::Local.timestamp_opt(t, 0).single().map(|dt| dt.date_naive().num_days_from_ce())
}

/// Calls `Local::now`, `date_naive` and `num_days_from_ce`: the day number
/// of today's local date. Nothing is stated of it (clock and time-zone
/// dependent); chrono panics when the clock reads before 1970 or the zone
/// data yields no usable offset, which depends on the machine alone.
#[verifier::external_body]
fn local_day_now() -> i32 {
    chrono::Local::now().date_naive().num_days_from_ce()
}

/// Epoch second that the wall-clock reading `hour:minute:00` on day number
/// `day` denotes in UTC, day 719163 being 1970-01-01.
pub open spec fn utc_reading(day: int, hour: int, minute: int) -> int {
    (day - 719163) * 86400 + hour * 3600 + minute * 60
}

/// Calls `NaiveDate::from_num_days_from_ce_opt(day)`, `and_hms_opt(hour,
/// minute, 0)`, `Local::from_local_datetime(..).single()` and `timestamp`:
/// the epoch second of the local wall-clock time `hour:minute:00` on day
/// number `day`. Stated: `None` when the hour is 24 or more or the minute 60
/// or more (`NaiveTime::from_hms_opt` refuses them), and a result differs
/// from the UTC reading of the same wall-clock time by less than a day (the
/// local offset is a `FixedOffset`, whose size is under 86400 seconds).
/// Which instant the machine's time zone gives, and whether the local time
/// exists once, is left unsaid.
#[verifier::external_body]
fn local_instant(day: i32, hour: u32, minute: u32) -> (r: Option<i64>)
    ensures
        hour >= 24 || minute >= 60 ==> r is None,
        r matches Some(t) ==> utc_reading(day as int, hour as int, minute as int) - 86400 < t
            < utc_reading(day as int, hour as int, minute as int) + 86400,
{
    chrono::NaiveDate::from_num_days_from_ce_opt(day)
        .and_then(|d| d.and_hms_opt(hour, minute, 0))
        .and_then(|ndt| chrono::Local.from_local_datetime(&ndt).single())
        .map(|dt| dt.timestamp())
}

/// The local date at `now` as a day number, or today's when `now` is out
/// of the calendar's range. Near the epoch (within `LOCAL_SPAN`) it is the
/// UTC date of `now` or a day next to it.
pub fn local_day(now: i64) -> (r: i32)
    ensures
        -LOCAL_SPAN <= now <= LOCAL_SPAN ==> utc_day(now as int) - 1 <= r <= utc_day(now as int)
            + 1,
{
    match local_day_of(now) {
        Some(d) => d,
        None => local_day_now(),
    }
}

/// Epoch second at which local day `day` reaches `hour:minute`, if that
/// local time exists once: never for a day outside `i32` or a time past
/// 23:59, and otherwise within a day of the UTC reading of that time.
pub fn local_time_on(day: i64, hour: u32, minute: u32) -> (r: Option<i64>)
    ensures
        day < i32::MIN || day > i32::MAX || hour >= 24 || minute >= 60 ==> r is None,
        r matches Some(t) ==> utc_reading(day as int, hour as int, minute as int) - 86400 < t
            < utc_reading(day as int, hour as int, minute as int) + 86400,
{
    if day < -2147483648 || day > 2147483647 {
        None
    } else {
        local_instant(day as i32, hour, minute)
    }
}

/// Epoch second of the most recent local midnight as the clock and the
/// time zone give it; `None` when that local time does not exist once.
/// Both readings are the machine's, so nothing is stated of the value.
pub fn local_midnight() -> Option<i64> {
    local_time_on(local_day_now() as i64, 0, 0)
}

/// The start of today's window: local midnight as found, or a day before
/// `now` when it could not be found.
pub open spec fn midnight_value(found: Option<i64>, now: i64) -> i64 {
    match found {
        Some(t) => t,
        None => (now - 86400) as i64,
    }
}

/// Start of today's window from the local midnight that was looked up:
/// that midnight, or a day before `now` without one.
pub fn midnight_or(found: Option<i64>, now: i64) -> (r: i64)
    requires
        now >= i64::MIN + 86400,
    ensures
        r == midnight_value(found, now),
{
    match found {
        Some(t) => t,
        None => now - 86400,
    }
}

/// Index of the weekday of day number `n`, Monday being 0 (day 1,
/// 0001-01-01, was a Monday).
pub open spec fn weekday_index(n: int) -> int {
    (n - 1) % 7
}

/// The weekday with index `i` (Monday 0 ... Sunday 6).
pub open spec fn weekday_at(i: int) -> Weekday {
    if i == 0 {
        Weekday::Mon
    } else if i == 1 {
        Weekday::Tue
    } else if i == 2 {
        Weekday::Wed
    } else if i == 3 {
        Weekday::Thu
    } else if i == 4 {
        Weekday::Fri
    } else if i == 5 {
        Weekday::Sat
    } else {
        Weekday::Sun
    }
}

/// The weekday of day number `n`.
pub fn weekday_of_day(n: i64) -> (r: Weekday)
    requires
        -0x100_0000_0000 < n < 0x100_0000_0000,
    ensures
        r == weekday_at(weekday_index(n as int)),
{
    let p = n - 1;
    let i: i64 = if p >= 0 {
        p % 7
    } else {
        let k = -p - 1;
        let q = k % 7;
        assert((p as int) % 7 == 6 - q) by (nonlinear_arith)
            requires
                k == -p - 1,
                k >= 0,
                q == k % 7,
        {
            assert(k == 7 * (k / 7) + q);
            assert(p == 7 * (-(k / 7) - 1) + (6 - q));
        }
        6 - q
    };
    if i == 0 {
        Weekday::Mon
    } else if i == 1 {
        Weekday::Tue
    } else if i == 2 {
        Weekday::Wed
    } else if i == 3 {
        Weekday::Thu
    } else if i == 4 {
        Weekday::Fri
    } else if i == 5 {
        Weekday::Sat
    } else {
        Weekday::Sun
    }
}

} // verus!
