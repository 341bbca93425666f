use tokentank::config::{Weekday, WeeklyReset};
use tokentank::timeline::{
    anchor_days_from, choose_window, retention_in_range, session_in_range, snapshot_in_range,
    week_in_range, weekly_window, Event, Timeline, FIVE_H, MONTH, RETENTION, WEEK,
};

fn ev(ts: i64, cost: u32) -> Event<u32> {
    Event { ts, limit: false, cost }
}

fn timeline(events: &[(i64, u32)]) -> Timeline<u32> {
    let mut t = Timeline::new();
    t.absorb(&events.iter().map(|&(ts, c)| ev(ts, c)).collect());
    t
}

fn contents(t: &Timeline<u32>) -> Vec<(i64, u32)> {
    (0..t.len()).map(|i| {
        let e = t.get(i);
        (e.ts, e.cost)
    }).collect()
}

#[test]
fn absorb_sorts_stably_by_time() {
    let mut t = timeline(&[(30, 1), (10, 2), (30, 3), (20, 4)]);
    assert_eq!(contents(&t), vec![(10, 2), (20, 4), (30, 1), (30, 3)]);
    t.absorb(&vec![ev(30, 5), ev(5, 6), ev(20, 7)]);
    assert_eq!(contents(&t), vec![(5, 6), (10, 2), (20, 4), (20, 7), (30, 1), (30, 3), (30, 5)]);
}

#[test]
fn absorbing_nothing_changes_nothing() {
    let mut t = timeline(&[(3, 1), (1, 2), (3, 3)]);
    let before = contents(&t);
    t.absorb(&Vec::new());
    assert_eq!(contents(&t), before);
}

#[test]
fn large_batches_sort_like_std() {
    let mut raw: Vec<(i64, u32)> = Vec::new();
    let mut x: u64 = 12345;
    for i in 0..2000u32 {
        x = x.wrapping_mul(6364136223846793005).wrapping_add(1442695040888963407);
        raw.push(((x >> 40) as i64 % 500, i));
    }
    let t = timeline(&raw);
    let mut want = raw.clone();
    want.sort_by_key(|e| e.0);
    assert_eq!(contents(&t), want);
}

#[test]
fn prune_drops_events_older_than_retention() {
    let now = 10_000_000;
    let mut t = timeline(&[(now - RETENTION - 1, 1), (now - RETENTION, 2), (now, 3), (now + 5, 4)]);
    t.prune(now);
    assert_eq!(contents(&t), vec![(now - RETENTION, 2), (now, 3), (now + 5, 4)]);
}

#[test]
fn costs_between_is_half_open() {
    let t = timeline(&[(10, 1), (20, 2), (30, 3), (40, 4)]);
    assert_eq!(t.costs_between(10, 30), vec![2, 3]);
    assert_eq!(t.costs_between(0, 100), vec![1, 2, 3, 4]);
    assert_eq!(t.costs_between(40, 100), Vec::<u32>::new());
    // Splitting a window at any point gives the same events.
    let mut split = t.costs_between(5, 25);
    split.extend(t.costs_between(25, 45));
    assert_eq!(split, t.costs_between(5, 45));
}

#[test]
fn session_block_opens_with_first_event_after_expiry() {
    let t = timeline(&[(1000, 1), (2000, 1), (1000 + FIVE_H, 1), (1000 + FIVE_H + 100, 1)]);
    assert_eq!(t.session_block(1500), Some((1000, 1000 + FIVE_H)));
    assert_eq!(t.session_block(1000 + FIVE_H - 1), Some((1000, 1000 + FIVE_H)));
    // The event at exactly start + 5h opens the next block.
    assert_eq!(t.session_block(1000 + FIVE_H), Some((1000 + FIVE_H, 1000 + 2 * FIVE_H)));
    assert_eq!(t.session_block(1000 + 2 * FIVE_H), None);
    assert_eq!(t.session_block(999), None);
    assert_eq!(Timeline::<u32>::new().session_block(5), None);
}

#[test]
fn session_block_ignores_future_events() {
    let t = timeline(&[(100, 1), (100 + FIVE_H + 10, 1)]);
    assert_eq!(t.session_block(100 + FIVE_H + 5), None);
    assert_eq!(t.session_block(100 + 50), Some((100, 100 + FIVE_H)));
}

#[test]
fn rolling_week_without_an_anchor() {
    assert_eq!(weekly_window(5_000_000, None), (5_000_000 - WEEK, None));
}

#[test]
fn anchored_week_starts_at_the_latest_anchor() {
    let now = 1_748_779_200; // a Sunday
    let w = WeeklyReset { day: Weekday::Wed, hour: 5, minute: 59 };
    let (start, reset) = weekly_window(now, Some(w));
    match reset {
        Some(end) => {
            assert_eq!(end, start + WEEK);
            assert!(start <= now && now - start < WEEK + 2 * 3600);
        }
        None => assert_eq!(start, now - WEEK),
    }
}

#[test]
fn window_choice_takes_the_first_candidate_not_in_the_future() {
    assert_eq!(choose_window(1000, &vec![Some(2000), None, Some(900)]), (900, Some(900 + WEEK)));
    assert_eq!(choose_window(1000, &vec![Some(1000)]), (1000, Some(1000 + WEEK)));
    assert_eq!(choose_window(1000, &vec![None, Some(1001)]), (1000 - WEEK, None));
    assert_eq!(choose_window(1000, &vec![]), (1000 - WEEK, None));
}

#[test]
fn anchor_days_have_the_anchor_weekday() {
    // Day 719163 is 1970-01-01, a Thursday.
    let thu = WeeklyReset { day: Weekday::Thu, hour: 0, minute: 0 };
    assert_eq!(anchor_days_from(719163, thu), vec![719163, 719156]);
    let wed = WeeklyReset { day: Weekday::Wed, hour: 0, minute: 0 };
    assert_eq!(anchor_days_from(719163, wed), vec![719162]);
    let fri = WeeklyReset { day: Weekday::Fri, hour: 0, minute: 0 };
    assert_eq!(anchor_days_from(719163, fri), vec![719157]);
}

#[test]
fn snapshot_windows_cover_the_reported_ranges() {
    let now = 100_000_000;
    let t = timeline(&[(now - 100, 1)]);
    let w = t.snapshot_windows(now, None, Some(now - 500));
    assert_eq!(w.session, Some((now - 100, now - 100 + FIVE_H)));
    let five = w.five_h.unwrap();
    assert_eq!((five.from, five.to), (now - 101, now));
    assert_eq!((w.weekly.from, w.weekly.to, w.weekly_reset), (now - WEEK, now, None));
    assert_eq!((w.burn.from, w.burn.to), (now - 3600, now));
    assert_eq!((w.month.from, w.month.to), (now - MONTH, now));
    assert_eq!((w.today.from, w.today.to), (now - 500, now));
    let empty = Timeline::<u32>::new().snapshot_windows(now, None, None);
    assert!(empty.session.is_none() && empty.five_h.is_none());
    assert_eq!((empty.today.from, empty.today.to), (now - 86400, now));
}

#[test]
fn clock_ranges_for_window_arithmetic() {
    assert!(week_in_range(0));
    assert!(week_in_range(i64::MAX - WEEK));
    assert!(!week_in_range(i64::MAX - WEEK + 1));
    assert!(!week_in_range(i64::MIN + 10));
    assert!(snapshot_in_range(1_748_779_200));
    assert!(snapshot_in_range(i64::MAX - 10 * 86400));
    assert!(!snapshot_in_range(i64::MIN + MONTH - 1));
    assert!(retention_in_range(i64::MIN + RETENTION));
    assert!(!retention_in_range(i64::MIN + RETENTION - 1));
    assert!(retention_in_range(i64::MAX));
    assert!(session_in_range(i64::MIN));
    assert!(!session_in_range(i64::MAX - FIVE_H + 1));
}

#[test]
fn windows_near_the_ends_of_the_clock() {
    let t = timeline(&[(i64::MIN + 5, 1), (i64::MIN + 10, 2)]);
    assert_eq!(t.session_block(i64::MIN + 20), Some((i64::MIN + 5, i64::MIN + 5 + FIVE_H)));
    let now = i64::MAX - 10 * 86400;
    let late = timeline(&[(now - 50, 3)]);
    let w = late.snapshot_windows(now, None, None);
    assert_eq!(w.session, Some((now - 50, now - 50 + FIVE_H)));
    assert_eq!((w.weekly.from, w.weekly_reset), (now - WEEK, None));
    let mut old = timeline(&[(i64::MIN + 1, 1), (i64::MIN + RETENTION + 1, 2)]);
    old.prune(i64::MIN + RETENTION + 2);
    assert_eq!(contents(&old), vec![(i64::MIN + RETENTION + 1, 2)]);
}
