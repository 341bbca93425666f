//! The tray tooltip: session and weekly gauges with their reset countdowns
//! and the burn rate.
use vstd::prelude::*;

use crate::clock::{epoch_from, now_epoch, unix_secs};
use std::time::SystemTime;
use crate::text::{chars_of, decimal, extend_chars, push_decimal, push_two_digits, string_of, two_digits};

verus! {

/// A duration as the tooltip shows it: negative counts as zero; with whole
/// days "{d}d {h}h", otherwise "{h}h {mm}m" with minutes in two digits.
pub open spec fn dur_text(secs: i64) -> Seq<char> {
    let s: int = if secs < 0 {
        0
    } else {
        secs as int
    };
    let d = s / 86400;
    let h = (s % 86400) / 3600;
    let m = (s % 3600) / 60;
    if d > 0 {
        decimal(d as nat) + seq!['d', ' '] + decimal(h as nat) + seq!['h']
    } else {
        decimal(h as nat) + seq!['h', ' '] + two_digits(m as nat) + seq!['m']
    }
}

fn push_dur(out: &mut Vec<char>, secs: i64)
    ensures
        final(out)@ == old(out)@ + dur_text(secs),
{
    let s: i64 = if secs < 0 {
        0
    } else {
        secs
    };
    let d = s / 86400;
    let h = (s % 86400) / 3600;
    let m = (s % 3600) / 60;
    if d > 0 {
        push_decimal(out, d as u64);
        out.push('d');
        out.push(' ');
        push_decimal(out, h as u64);
        out.push('h');
    } else {
        push_decimal(out, h as u64);
        out.push('h');
        out.push(' ');
        push_two_digits(out, m as u64);
        out.push('m');
    }
    assert(final(out)@ =~= old(out)@ + dur_text(secs));
}

/// Formats a duration in seconds.
pub fn fmt_dur(secs: i64) -> (r: String)
    ensures
        r@ == dur_text(secs),
{
    let mut out: Vec<char> = Vec::new();
    push_dur(&mut out, secs);
    assert(out@ =~= dur_text(secs));
    string_of(&out)
}

/// What the tooltip shows, with its floating-point figures already
/// formatted: the session gauge's percentage left and the end of the
/// session block (when a session is active), the weekly gauge's percentage
/// left and reset instant (when known), and the burn rate in dollars per
/// hour.
pub struct TooltipFigures {
    pub session: Option<(String, i64)>,
    pub week_left: String,
    pub weekly_reset: Option<i64>,
    pub burn: String,
}

/// The session part of the tooltip.
pub open spec fn session_text(f: TooltipFigures, now: i64) -> Seq<char> {
    match f.session {
        Some((pct, reset)) => "session: "@ + pct@ + "% left, resets in "@ + dur_text(
            reset.wrapping_sub(now),
        ),
        None => "session: full tank"@,
    }
}

/// The weekly part of the tooltip.
pub open spec fn week_text(f: TooltipFigures, now: i64) -> Seq<char> {
    match f.weekly_reset {
        Some(reset) => "week: "@ + f.week_left@ + "% left, resets in "@ + dur_text(
            reset.wrapping_sub(now),
        ),
        None => "week: "@ + f.week_left@ + "% left"@,
    }
}

/// The tooltip at time `now`. Countdowns are `reset - now` with `i64`
/// wrap-around, as the arithmetic of release builds has it.
pub open spec fn tooltip_text(f: TooltipFigures, now: i64) -> Seq<char> {
    "TokenTank \u{2014} "@ + session_text(f, now) + " \u{b7} "@ + week_text(f, now) + " \u{b7} $"@
        + f.burn@ + "/h"@
}

/// The tooltip text at time `now`.
pub fn tooltip_at(f: &TooltipFigures, now: i64) -> (r: String)
    ensures
        r@ == tooltip_text(*f, now),
{
    let mut out: Vec<char> = Vec::new();
    extend_chars(&mut out, &chars_of("TokenTank \u{2014} "));
    match &f.session {
        Some((pct, reset)) => {
            extend_chars(&mut out, &chars_of("session: "));
            extend_chars(&mut out, &chars_of(pct.as_str()));
            extend_chars(&mut out, &chars_of("% left, resets in "));
            push_dur(&mut out, reset.wrapping_sub(now));
        },
        None => {
            extend_chars(&mut out, &chars_of("session: full tank"));
        },
    }
    extend_chars(&mut out, &chars_of(" \u{b7} "));
    match f.weekly_reset {
        Some(reset) => {
            extend_chars(&mut out, &chars_of("week: "));
            extend_chars(&mut out, &chars_of(f.week_left.as_str()));
            extend_chars(&mut out, &chars_of("% left, resets in "));
            push_dur(&mut out, reset.wrapping_sub(now));
        },
        None => {
            extend_chars(&mut out, &chars_of("week: "));
            extend_chars(&mut out, &chars_of(f.week_left.as_str()));
            extend_chars(&mut out, &chars_of("% left"));
        },
    }
    extend_chars(&mut out, &chars_of(" \u{b7} $"));
    extend_chars(&mut out, &chars_of(f.burn.as_str()));
    extend_chars(&mut out, &chars_of("/h"));
    assert(out@ =~= tooltip_text(*f, now));
    string_of(&out)
}

/// The tooltip text now: countdowns are measured from the epoch seconds
/// of a reading of the system clock.
pub fn tooltip(f: &TooltipFigures) -> (r: String)
    ensures
        exists|st: SystemTime| r@ == tooltip_text(*f, epoch_from(unix_secs(st))),
{
    let now = now_epoch();
    tooltip_at(f, now)
}

} // verus!
