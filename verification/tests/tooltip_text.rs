use tokentank::clock::now_epoch;
use tokentank::display::{fmt_dur, tooltip, tooltip_at, TooltipFigures};

#[test]
fn durations() {
    assert_eq!(fmt_dur(-5), "0h 00m");
    assert_eq!(fmt_dur(0), "0h 00m");
    assert_eq!(fmt_dur(3725), "1h 02m");
    assert_eq!(fmt_dur(86399), "23h 59m");
    assert_eq!(fmt_dur(86400), "1d 0h");
    assert_eq!(fmt_dur(90061), "1d 1h");
    assert_eq!(fmt_dur(6 * 86400 + 23 * 3600 + 59 * 60), "6d 23h");
}

#[test]
fn tooltip_with_both_resets() {
    let f = TooltipFigures {
        session: Some(("83".to_string(), 1000 + 3725)),
        week_left: "71".to_string(),
        weekly_reset: Some(1000 + 2 * 86400 + 5 * 3600),
        burn: "4.25".to_string(),
    };
    assert_eq!(
        tooltip_at(&f, 1000),
        "TokenTank \u{2014} session: 83% left, resets in 1h 02m \u{b7} week: 71% left, resets in 2d 5h \u{b7} $4.25/h"
    );
}

#[test]
fn tooltip_without_session_or_anchor() {
    let f = TooltipFigures { session: None, week_left: "100".to_string(), weekly_reset: None, burn: "0.00".to_string() };
    assert_eq!(tooltip_at(&f, 0), "TokenTank \u{2014} session: full tank \u{b7} week: 100% left \u{b7} $0.00/h");
    assert_eq!(tooltip(&f), tooltip_at(&f, 0));
}

#[test]
fn tooltip_counts_down_from_the_clock() {
    let reset = now_epoch() + 3 * 86400 + 600;
    let f = TooltipFigures {
        session: Some(("50".to_string(), reset)),
        week_left: "20".to_string(),
        weekly_reset: None,
        burn: "1.00".to_string(),
    };
    assert_eq!(
        tooltip(&f),
        "TokenTank \u{2014} session: 50% left, resets in 3d 0h \u{b7} week: 20% left \u{b7} $1.00/h"
    );
}
