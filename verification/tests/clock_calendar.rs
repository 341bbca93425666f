use std::time::{Duration, UNIX_EPOCH};
use tokentank::clock::{
    epoch, epoch_of_secs, local_day, local_midnight, local_time_on, midnight_or, now_epoch,
    weekday_of_day,
};
use tokentank::config::Weekday;

#[test]
fn epoch_seconds() {
    assert_eq!(epoch(UNIX_EPOCH + Duration::from_millis(10_900)), 10);
    assert_eq!(epoch(UNIX_EPOCH - Duration::from_secs(5)), 0);
    assert_eq!(epoch_of_secs(None), 0);
    assert_eq!(epoch_of_secs(Some(42)), 42);
    assert!(now_epoch() > 1_700_000_000);
}

#[test]
fn weekdays_of_day_numbers() {
    assert_eq!(weekday_of_day(1), Weekday::Mon);
    assert_eq!(weekday_of_day(719163), Weekday::Thu);
    assert_eq!(weekday_of_day(0), Weekday::Sun);
    assert_eq!(weekday_of_day(-6), Weekday::Mon);
    assert_eq!(weekday_of_day(-7), Weekday::Sun);
}

#[test]
fn local_midnight_of_the_epoch_day_is_near_zero() {
    match local_time_on(719163, 0, 0) {
        Some(t) => assert!(t.abs() <= 15 * 3600),
        None => {}
    }
    assert_eq!(local_time_on(719163, 24, 0), None);
    assert_eq!(local_time_on(i64::MAX, 0, 0), None);
}

#[test]
fn local_wall_clock_times_stay_within_a_day_of_utc() {
    assert_eq!(local_time_on(719163, 0, 60), None);
    assert_eq!(local_time_on(i64::from(i32::MIN) - 1, 12, 0), None);
    let day: i64 = 739000;
    if let Some(t) = local_time_on(day, 12, 30) {
        let utc = (day - 719163) * 86400 + 12 * 3600 + 30 * 60;
        assert!(t > utc - 86400 && t < utc + 86400);
    }
}

#[test]
fn local_day_is_next_to_the_utc_day() {
    let d = local_day(0);
    assert!((719162..=719164).contains(&d));
    let d = local_day(1_748_779_200);
    let utc = 1_748_779_200 / 86400 + 719163;
    assert!((utc - 1..=utc + 1).contains(&(d as i64)));
}

#[test]
fn todays_window_starts_at_local_midnight_or_a_day_back() {
    assert_eq!(midnight_or(Some(1_000), 50_000), 1_000);
    assert_eq!(midnight_or(None, 100_000), 13_600);
    let now = now_epoch();
    if let Some(m) = local_midnight() {
        assert!(m <= now && now - m <= 2 * 86400);
    }
}
