//! The time-ordered record of usage events, and the windows the gauge
//! reads from it: the current 5-hour session block, the weekly quota
//! window, and the events inside any half-open time range.
use vstd::prelude::*;

use crate::clock::{
    local_day, local_time_on, midnight_or, midnight_value, utc_day, utc_reading, weekday_at,
    weekday_index, weekday_of_day, LOCAL_SPAN,
};
use crate::config::WeeklyReset;

verus! {

/// Length of a session block, in seconds.
pub const FIVE_H: i64 = 18000;

/// Length of the weekly quota window, in seconds.
pub const WEEK: i64 = 604800;

/// Seconds in the 30-day spending window.
pub const MONTH: i64 = 2592000;

/// How far back events are kept (and transcripts are read), in seconds.
pub const RETENTION: i64 = 2678400;

/// `now` is far enough from the ends of `i64` for a week on either side of
/// it to be representable (the weekly window and its reset).
pub open spec fn week_ok(now: i64) -> bool {
    i64::MIN + WEEK <= now <= i64::MAX - WEEK
}

/// Whether a week on either side of `now` is representable.
pub fn week_in_range(now: i64) -> (r: bool)
    ensures
        r == week_ok(now),
{
    i64::MIN + WEEK <= now && now <= i64::MAX - WEEK
}

/// `now` leaves room for every window of a snapshot: thirty days before it
/// (the spending month) and a week after it (the next weekly reset).
pub open spec fn snapshot_ok(now: i64) -> bool {
    i64::MIN + MONTH <= now <= i64::MAX - WEEK
}

/// Whether every window of a snapshot at `now` is representable.
pub fn snapshot_in_range(now: i64) -> (r: bool)
    ensures
        r == snapshot_ok(now),
{
    i64::MIN + MONTH <= now && now <= i64::MAX - WEEK
}

/// Whether the retention period before `now` is representable.
pub fn retention_in_range(now: i64) -> (r: bool)
    ensures
        r == (now >= i64::MIN + RETENTION),
{
    now >= i64::MIN + RETENTION
}

/// Whether a session block that starts at or before `now` can end after it
/// without leaving `i64`.
pub fn session_in_range(now: i64) -> (r: bool)
    ensures
        r == (now <= i64::MAX - FIVE_H),
{
    now <= i64::MAX - FIVE_H
}

/// One usage event: when it happened, whether it was a usage-limit notice,
/// and its cost (kept opaque here: only its position in time matters).
#[derive(Debug, Clone, Copy)]
pub struct Event<C> {
    pub ts: i64,
    pub limit: bool,
    pub cost: C,
}

/// The events of `s` stamped with time `t`, in order.
pub open spec fn at_ts<C>(s: Seq<Event<C>>, t: i64) -> Seq<Event<C>>
    decreases s.len(),
{
    if s.len() == 0 {
        seq![]
    } else {
        let r = at_ts(s.drop_last(), t);
        if s.last().ts == t {
            r.push(s.last())
        } else {
            r
        }
    }
}

/// Timestamps never decrease along `s`.
pub open spec fn sorted_ts<C>(s: Seq<Event<C>>) -> bool {
    forall|i: int, j: int| 0 <= i <= j < s.len() ==> s[i].ts <= s[j].ts
}

/// `out` is `input` stably sorted by time: sorted, and for every timestamp
/// the events carrying it appear in the same order as in `input`.
pub open spec fn stable_sort_of<C>(out: Seq<Event<C>>, input: Seq<Event<C>>) -> bool {
    &&& sorted_ts(out)
    &&& out.len() == input.len()
    &&& forall|t: i64| #[trigger] at_ts(out, t) == at_ts(input, t)
}

/// The events of `s` with `ts >= cutoff`, in order.
pub open spec fn since<C>(s: Seq<Event<C>>, cutoff: i64) -> Seq<Event<C>>
    decreases s.len(),
{
    if s.len() == 0 {
        seq![]
    } else {
        let r = since(s.drop_last(), cutoff);
        if s.last().ts >= cutoff {
            r.push(s.last())
        } else {
            r
        }
    }
}

/// The costs of the events of `s` with `from < ts <= to`, in order.
pub open spec fn costs_in<C>(s: Seq<Event<C>>, from: i64, to: i64) -> Seq<C>
    decreases s.len(),
{
    if s.len() == 0 {
        seq![]
    } else {
        let r = costs_in(s.drop_last(), from, to);
        if from < s.last().ts && s.last().ts <= to {
            r.push(s.last().cost)
        } else {
            r
        }
    }
}

proof fn lemma_push_drop_last<A>(s: Seq<A>, x: A)
    ensures
        s.push(x).drop_last() == s,
        s.push(x).last() == x,
{
    assert(s.push(x).drop_last() =~= s);
}

/// `at_ts` distributes over concatenation.
proof fn lemma_at_ts_add<C>(a: Seq<Event<C>>, b: Seq<Event<C>>, t: i64)
    ensures
        at_ts(a + b, t) == at_ts(a, t) + at_ts(b, t),
    decreases b.len(),
{
    if b.len() == 0 {
        assert(a + b =~= a);
        assert(at_ts(a, t) + at_ts(b, t) =~= at_ts(a, t));
    } else {
        lemma_at_ts_add(a, b.drop_last(), t);
        assert((a + b).drop_last() =~= a + b.drop_last());
        assert((a + b).last() == b.last());
        if b.last().ts == t {
            assert(at_ts(a, t) + at_ts(b.drop_last(), t).push(b.last()) =~= (at_ts(a, t)
                + at_ts(b.drop_last(), t)).push(b.last()));
        }
    }
}

proof fn lemma_at_ts_none<C>(s: Seq<Event<C>>, t: i64)
    requires
        forall|k: int| 0 <= k < s.len() ==> s[k].ts != t,
    ensures
        at_ts(s, t) == Seq::<Event<C>>::empty(),
    decreases s.len(),
{
    if s.len() > 0 {
        lemma_at_ts_none(s.drop_last(), t);
    }
}

proof fn lemma_at_ts_push<C>(s: Seq<Event<C>>, x: Event<C>, t: i64)
    ensures
        at_ts(s.push(x), t) == if x.ts == t {
            at_ts(s, t).push(x)
        } else {
            at_ts(s, t)
        },
{
    lemma_push_drop_last(s, x);
}

/// Merges two time-sorted runs; on equal timestamps `a`'s events come
/// first.
fn merge<C: Copy>(a: &Vec<Event<C>>, b: &Vec<Event<C>>) -> (r: Vec<Event<C>>)
    requires
        sorted_ts(a@),
        sorted_ts(b@),
    ensures
        sorted_ts(r@),
        r@.len() == a@.len() + b@.len(),
        forall|t: i64| #[trigger] at_ts(r@, t) == at_ts(a@, t) + at_ts(b@, t),
{
    let mut out: Vec<Event<C>> = Vec::new();
    let mut i: usize = 0;
    let mut j: usize = 0;
    while i < a.len() || j < b.len()
        invariant
            sorted_ts(a@),
            sorted_ts(b@),
            i <= a.len(),
            j <= b.len(),
            out@.len() == i + j,
            sorted_ts(out@),
            out@.len() > 0 && i < a.len() ==> out@.last().ts <= a@[i as int].ts,
            out@.len() > 0 && j < b.len() ==> out@.last().ts <= b@[j as int].ts,
            j > 0 && i < a.len() ==> b@[j - 1].ts < a@[i as int].ts,
            forall|t: i64| #[trigger]
                at_ts(out@, t) == at_ts(a@.take(i as int), t) + at_ts(b@.take(j as int), t),
        decreases a.len() + b.len() - i - j,
    {
        let ghost old_out = out@;
        if j == b.len() || (i < a.len() && a[i].ts <= b[j].ts) {
            let x = a[i];
            out.push(x);
            proof {
                assert(a@.take(i + 1) =~= a@.take(i as int).push(x));
                assert forall|t: i64| #[trigger]
                    at_ts(out@, t) == at_ts(a@.take(i + 1), t) + at_ts(b@.take(j as int), t) by {
                    lemma_at_ts_push(old_out, x, t);
                    lemma_at_ts_push(a@.take(i as int), x, t);
                    if x.ts == t {
                        assert forall|k: int| 0 <= k < b@.take(j as int).len() implies b@.take(
                            j as int,
                        )[k].ts != t by {
                            assert(b@[k].ts <= b@[j - 1].ts);
                        }
                        lemma_at_ts_none(b@.take(j as int), t);
                        assert(at_ts(a@.take(i as int), t).push(x) + at_ts(b@.take(j as int), t)
                            =~= (at_ts(a@.take(i as int), t) + at_ts(b@.take(j as int), t)).push(
                            x,
                        ));
                    }
                }
                assert(sorted_ts(out@)) by {
                    assert forall|p: int, q: int| 0 <= p <= q < out@.len() implies out@[p].ts
                        <= out@[q].ts by {
                        if q == out@.len() - 1 && p < q {
                            assert(old_out[p].ts <= old_out.last().ts);
                        }
                    }
                }
            }
            i += 1;
        } else {
            let y = b[j];
            out.push(y);
            proof {
                assert(b@.take(j + 1) =~= b@.take(j as int).push(y));
                assert forall|t: i64| #[trigger]
                    at_ts(out@, t) == at_ts(a@.take(i as int), t) + at_ts(b@.take(j + 1), t) by {
                    lemma_at_ts_push(old_out, y, t);
                    lemma_at_ts_push(b@.take(j as int), y, t);
                    if y.ts == t {
                        assert(at_ts(a@.take(i as int), t) + at_ts(b@.take(j as int), t).push(y)
                            =~= (at_ts(a@.take(i as int), t) + at_ts(b@.take(j as int), t)).push(
                            y,
                        ));
                    }
                }
                assert(sorted_ts(out@)) by {
                    assert forall|p: int, q: int| 0 <= p <= q < out@.len() implies out@[p].ts
                        <= out@[q].ts by {
                        if q == out@.len() - 1 && p < q {
                            assert(old_out[p].ts <= old_out.last().ts);
                        }
                    }
                }
            }
            j += 1;
        }
    }
    assert(a@.take(a.len() as int) =~= a@);
    assert(b@.take(b.len() as int) =~= b@);
    out
}

/// Copies the events of `v` from `lo` up to `hi`.
fn copy_range<C: Copy>(v: &Vec<Event<C>>, lo: usize, hi: usize) -> (r: Vec<Event<C>>)
    requires
        lo <= hi <= v.len(),
    ensures
        r@ == v@.subrange(lo as int, hi as int),
{
    let mut out: Vec<Event<C>> = Vec::new();
    let mut k = lo;
    while k < hi
        invariant
            lo <= k <= hi <= v.len(),
            out@ == v@.subrange(lo as int, k as int),
        decreases hi - k,
    {
        out.push(v[k]);
        k += 1;
        assert(out@ =~= v@.subrange(lo as int, k as int));
    }
    out
}

/// Sorts events by time, keeping the order of events with equal times.
fn sort_events<C: Copy>(v: &Vec<Event<C>>) -> (r: Vec<Event<C>>)
    ensures
        stable_sort_of(r@, v@),
    decreases v.len(),
{
    if v.len() <= 1 {
        let r = copy_range(v, 0, v.len());
        assert(r@ =~= v@);
        return r;
    }
    let mid = v.len() / 2;
    let left = copy_range(v, 0, mid);
    let right = copy_range(v, mid, v.len());
    let sl = sort_events(&left);
    let sr = sort_events(&right);
    let r = merge(&sl, &sr);
    proof {
        assert(v@ =~= left@ + right@);
        assert forall|t: i64| #[trigger] at_ts(r@, t) == at_ts(v@, t) by {
            lemma_at_ts_add(left@, right@, t);
        }
    }
    r
}

/// Events kept in time order.
pub struct Timeline<C> {
    events: Vec<Event<C>>,
}

impl<C> Timeline<C> {
    #[verifier::type_invariant]
    spec fn inv(self) -> bool {
        sorted_ts(self.events@)
    }
}

impl<C> View for Timeline<C> {
    type V = Seq<Event<C>>;

    /// The events, oldest first.
    closed spec fn view(&self) -> Seq<Event<C>> {
        self.events@
    }
}

impl<C: Copy> Timeline<C> {
    /// An empty timeline.
    pub fn new() -> (r: Self)
        ensures
            r.view() == Seq::<Event<C>>::empty(),
            sorted_ts(r.view()),
    {
        Timeline { events: Vec::new() }
    }

    /// Number of events held.
    pub fn len(&self) -> (r: usize)
        ensures
            r == self.view().len(),
    {
        self.events.len()
    }

    /// The event at position `i` (oldest first).
    pub fn get(&self, i: usize) -> (r: Event<C>)
        requires
            i < self.view().len(),
        ensures
            r == self.view()[i as int],
    {
        self.events[i]
    }

    /// Adds new events: the result is the old events followed by the new
    /// ones, stably sorted by time.
    pub fn absorb(&mut self, new_events: &Vec<Event<C>>)
        ensures
            stable_sort_of(final(self).view(), old(self).view() + new_events@),
    {
        proof {
            use_type_invariant(&*self);
        }
        let sorted_new = sort_events(new_events);
        let merged = merge(&self.events, &sorted_new);
        proof {
            assert forall|t: i64| #[trigger]
                at_ts(merged@, t) == at_ts(self.events@ + new_events@, t) by {
                lemma_at_ts_add(self.events@, new_events@, t);
            }
        }
        self.events = merged;
    }

    /// Drops the events older than the retention period before `now`
    /// (those with `ts < now - RETENTION`), keeping the rest in order.
    pub fn prune(&mut self, now: i64)
        requires
            now >= i64::MIN + RETENTION,
        ensures
            final(self).view() == since(old(self).view(), (now - RETENTION) as i64),
            sorted_ts(final(self).view()),
    {
        proof {
            use_type_invariant(&*self);
        }
        let cutoff = now - RETENTION;
        let mut kept: Vec<Event<C>> = Vec::new();
        let mut k: usize = 0;
        let ghost all = self.events@;
        while k < self.events.len()
            invariant
                all == self.events@,
                sorted_ts(all),
                k <= all.len(),
                kept@ == since(all.take(k as int), cutoff),
                sorted_ts(kept@),
                kept@.len() > 0 ==> kept@.last().ts <= all[k as int - 1].ts,
                kept@.len() > 0 ==> k > 0,
            decreases all.len() - k,
        {
            let e = self.events[k];
            let ghost before = kept@;
            proof {
                lemma_push_drop_last(all.take(k as int), e);
                assert(all.take(k + 1) =~= all.take(k as int).push(e));
            }
            if e.ts >= cutoff {
                kept.push(e);
                proof {
                    assert forall|p: int, q: int| 0 <= p <= q < kept@.len() implies kept@[p].ts
                        <= kept@[q].ts by {
                        if q == kept@.len() - 1 && p < q {
                            assert(before[p].ts <= before.last().ts);
                        }
                    }
                }
            }
            k += 1;
        }
        assert(all.take(all.len() as int) =~= all);
        self.events = kept;
    }

    /// The costs of the events with `from < ts <= to`, in time order.
    pub fn costs_between(&self, from: i64, to: i64) -> (r: Vec<C>)
        ensures
            r@ == costs_in(self.view(), from, to),
            sorted_ts(self.view()),
    {
        proof {
            use_type_invariant(self);
        }
        let mut out: Vec<C> = Vec::new();
        let mut k: usize = 0;
        while k < self.events.len()
            invariant
                k <= self.events@.len(),
                out@ == costs_in(self.events@.take(k as int), from, to),
            decreases self.events@.len() - k,
        {
            let e = self.events[k];
            proof {
                lemma_push_drop_last(self.events@.take(k as int), e);
                assert(self.events@.take(k + 1) =~= self.events@.take(k as int).push(e));
            }
            if from < e.ts && e.ts <= to {
                out.push(e.cost);
            }
            k += 1;
        }
        assert(self.events@.take(self.events@.len() as int) =~= self.events@);
        out
    }
}


// ---------------------------------------------------------------------------
// Session blocks
// ---------------------------------------------------------------------------

/// One step of the block scan: the first event opens a block, and an event
/// at or after the end of the current block opens a new one.
pub open spec fn next_block(acc: Option<i64>, ts: i64) -> Option<i64> {
    match acc {
        None => Some(ts),
        Some(bs) => if ts >= bs + FIVE_H {
            Some(ts)
        } else {
            Some(bs)
        },
    }
}

/// Start of the last block opened by the events of `s` from position `i`
/// on, stopping at the first event after `now`.
pub open spec fn block_scan<C>(s: Seq<Event<C>>, now: i64, i: int, acc: Option<i64>) -> Option<i64>
    decreases s.len() - i,
{
    if i < 0 || i >= s.len() || s[i].ts > now {
        acc
    } else {
        block_scan(s, now, i + 1, next_block(acc, s[i].ts))
    }
}

/// The 5-hour session block active at `now`, as (start, end): blocks open
/// with the first event after the previous block expired and last five
/// hours; `None` when no block is active.
pub open spec fn session_block_of<C>(s: Seq<Event<C>>, now: i64) -> Option<(i64, i64)> {
    match block_scan(s, now, 0, None) {
        Some(bs) => if now < bs + FIVE_H {
            Some((bs, (bs + FIVE_H) as i64))
        } else {
            None
        },
        None => None,
    }
}

proof fn lemma_block_scan_origin<C>(s: Seq<Event<C>>, now: i64, i: int, acc: Option<i64>)
    requires
        0 <= i,
        acc matches Some(b) ==> exists|k: int| 0 <= k < i && k < s.len() && s[k].ts == b && b
            <= now,
        acc is None ==> forall|k: int| 0 <= k < i && k < s.len() ==> s[k].ts > now,
    ensures
        block_scan(s, now, i, acc) matches Some(b) ==> exists|k: int|
            0 <= k < s.len() && s[k].ts == b && b <= now,
        block_scan(s, now, i, acc) is None ==> forall|k: int|
            0 <= k < s.len() && (forall|m: int| 0 <= m < k ==> s[m].ts <= now) ==> s[k].ts > now,
    decreases s.len() - i,
{
    if i >= s.len() || s[i].ts > now {
        if acc is None {
            assert forall|k: int|
                0 <= k < s.len() && (forall|m: int| 0 <= m < k ==> s[m].ts <= now) implies s[k].ts
                > now by {
                if k >= i && i < s.len() {
                    if k > i {
                        assert(s[i].ts <= now);
                    }
                }
            }
        }
    } else {
        let nacc = next_block(acc, s[i].ts);
        assert(nacc is Some);
        if nacc == Some(s[i].ts) {
            assert(s[i].ts <= now);
        }
        lemma_block_scan_origin(s, now, i + 1, nacc);
    }
}

impl<C: Copy> Timeline<C> {
    /// The current 5-hour session block, mirroring how the provider's session
    /// windows behave: a block opens with the first message after the
    /// previous block expires and lasts five hours. Returns (start, end)
    /// when a block is active at `now`; the start is then the time of an
    /// event at or before `now`.
    pub fn session_block(&self, now: i64) -> (r: Option<(i64, i64)>)
        requires
            now <= i64::MAX - FIVE_H,
        ensures
            r == session_block_of(self.view(), now),
            r matches Some((start, end)) ==> {
                &&& end == start + FIVE_H
                &&& start <= now < end
                &&& exists|k: int| 0 <= k < self.view().len() && self.view()[k].ts == start
            },
    {
        let mut block_start: Option<i64> = None;
        let mut k: usize = 0;
        while k < self.events.len()
            invariant
                now <= i64::MAX - FIVE_H,
                k <= self.events@.len(),
                block_scan(self.events@, now, 0, None) == block_scan(
                    self.events@,
                    now,
                    k as int,
                    block_start,
                ),
                block_start matches Some(b) ==> b <= now,
            ensures
                block_scan(self.events@, now, 0, None) == block_start,
                block_start matches Some(b) ==> b <= now,
            decreases self.events@.len() - k,
        {
            let e = self.events[k];
            if e.ts > now {
                break;
            }
            match block_start {
                None => {
                    block_start = Some(e.ts);
                },
                Some(bs) => {
                    if e.ts >= bs + FIVE_H {
                        block_start = Some(e.ts);
                    }
                },
            }
            k += 1;
        }
        proof {
            lemma_block_scan_origin(self.events@, now, 0, None);
        }
        match block_start {
            Some(bs) => {
                if now < bs + FIVE_H {
                    Some((bs, bs + FIVE_H))
                } else {
                    None
                }
            },
            None => None,
        }
    }
}

// ---------------------------------------------------------------------------
// The weekly quota window
// ---------------------------------------------------------------------------

/// The days, among `today` and the seven before it (newest first), whose
/// weekday is the anchor's.
pub open spec fn anchor_days(today: int, w: WeeklyReset) -> Seq<int> {
    Seq::new(8, |k: int| today - k).filter(
        |d: int| weekday_at(weekday_index(d)) == w.day,
    )
}

/// The window chosen from candidate anchor instants (in the order of
/// `anchor_days`): the first one at or before `now` starts a week that
/// ends at the next reset; without one, a rolling 7 days with no known
/// reset.
pub open spec fn window_from(now: i64, candidates: Seq<Option<i64>>) -> (i64, Option<i64>)
    decreases candidates.len(),
{
    if candidates.len() == 0 {
        ((now - WEEK) as i64, None)
    } else {
        match candidates[0] {
            Some(ts) => if ts <= now {
                (ts, Some((ts + WEEK) as i64))
            } else {
                window_from(now, candidates.drop_first())
            },
            None => window_from(now, candidates.drop_first()),
        }
    }
}

/// Picks the weekly window from the candidate anchor instants.
pub fn choose_window(now: i64, candidates: &Vec<Option<i64>>) -> (r: (i64, Option<i64>))
    requires
        week_ok(now),
    ensures
        r == window_from(now, candidates@),
        r.1 matches Some(end) ==> end == r.0 + WEEK && r.0 <= now,
        r.1 is None ==> r.0 == now - WEEK,
{
    let mut k: usize = 0;
    assert(candidates@.skip(0) =~= candidates@);
    while k < candidates.len()
        invariant
            week_ok(now),
            k <= candidates@.len(),
            window_from(now, candidates@) == window_from(now, candidates@.skip(k as int)),
        decreases candidates@.len() - k,
    {
        assert(candidates@.skip(k as int).drop_first() =~= candidates@.skip(k + 1));
        assert(candidates@.skip(k as int)[0] == candidates@[k as int]);
        if let Some(ts) = candidates[k] {
            if ts <= now {
                return (ts, Some(ts + WEEK));
            }
        }
        k += 1;
    }
    assert(candidates@.skip(k as int).len() == 0);
    (now - WEEK, None)
}

/// The candidate anchor days: `today` and the seven days before it whose
/// weekday is the anchor's, newest first.
pub fn anchor_days_from(today: i64, w: WeeklyReset) -> (r: Vec<i64>)
    requires
        -0x100_0000_0000 + 8 < today < 0x100_0000_0000,
    ensures
        r@.map_values(|d: i64| d as int) == anchor_days(today as int, w),
{
    let mut out: Vec<i64> = Vec::new();
    let mut k: i64 = 0;
    let ghost all = Seq::new(8, |k: int| today - k);
    let ghost pred = |d: int| weekday_at(weekday_index(d)) == w.day;
    while k < 8
        invariant
            0 <= k <= 8,
            -0x100_0000_0000 + 8 < today < 0x100_0000_0000,
            all == Seq::new(8, |k: int| today - k),
            pred == (|d: int| weekday_at(weekday_index(d)) == w.day),
            out@.map_values(|d: i64| d as int) == all.take(k as int).filter(pred),
        decreases 8 - k,
    {
        let day = today - k;
        proof {
            assert(all.take(k + 1).drop_last() =~= all.take(k as int));
            reveal(Seq::filter);
        }
        if weekday_of_day(day) == w.day {
            out.push(day);
            assert(out@.map_values(|d: i64| d as int) =~= all.take(k as int).filter(pred).push(
                day as int,
            ));
        }
        k += 1;
    }
    assert(all.take(8) =~= all);
    out
}


/// A candidate anchor instant for local day `day` at the anchor's time of
/// day: when there is one, it lies within a day of the UTC reading of that
/// wall-clock time.
pub open spec fn near_anchor(c: Option<i64>, day: int, w: WeeklyReset) -> bool {
    c matches Some(t) ==> utc_reading(day, w.hour as int, w.minute as int) - 86400 < t
        < utc_reading(day, w.hour as int, w.minute as int) + 86400
}

/// `r` is a weekly window at `now`: without an anchor the rolling 7 days;
/// with one, the window chosen (`window_from`) from one candidate instant
/// per anchor day before the local date `today`, each near its day's
/// anchor time, `today` being the UTC date of `now` or a day next to it
/// (for a `now` within `LOCAL_SPAN` of the epoch). The time zone decides
/// the rest.
pub open spec fn weekly_window_of(now: i64, reset: Option<WeeklyReset>, r: (i64, Option<i64>)) -> bool {
    &&& reset is None ==> r == ((now - WEEK) as i64, None::<i64>)
    &&& reset matches Some(w) ==> exists|today: int, candidates: Seq<Option<i64>>|
        {
            &&& -LOCAL_SPAN <= now <= LOCAL_SPAN ==> utc_day(now as int) - 1 <= today <= utc_day(
                now as int,
            ) + 1
            &&& candidates.len() == anchor_days(today, w).len()
            &&& forall|k: int|
                0 <= k < candidates.len() ==> near_anchor(
                    #[trigger] candidates[k],
                    anchor_days(today, w)[k],
                    w,
                )
            &&& r == window_from(now, candidates)
        }
    &&& r.1 matches Some(end) ==> end == r.0 + WEEK && r.0 <= now
    &&& r.1 is None ==> r.0 == now - WEEK
}

/// The active weekly quota window as (start, reset). With a configured
/// anchor ("wed 05:59") it is the fixed window that began at the latest
/// local anchor instant at or before `now` (looking back over the last
/// eight local days) and ends a week later; otherwise, or when no such
/// instant exists, a rolling 7 days with no known reset instant.
pub fn weekly_window(now: i64, reset: Option<WeeklyReset>) -> (r: (i64, Option<i64>))
    requires
        week_ok(now),
    ensures
        weekly_window_of(now, reset, r),
{
    match reset {
        None => (now - WEEK, None),
        Some(w) => {
            let today = local_day(now) as i64;
            let days = anchor_days_from(today, w);
            let mut candidates: Vec<Option<i64>> = Vec::new();
            let mut k: usize = 0;
            while k < days.len()
                invariant
                    k <= days.len(),
                    candidates@.len() == k,
                    forall|j: int|
                        0 <= j < k ==> near_anchor(#[trigger] candidates@[j], days@[j] as int, w),
                decreases days.len() - k,
            {
                candidates.push(local_time_on(days[k], w.hour, w.minute));
                k += 1;
            }
            let r = choose_window(now, &candidates);
            proof {
                let ad = anchor_days(today as int, w);
                assert(days@.map_values(|d: i64| d as int) == ad);
                assert(candidates@.len() == ad.len());
                assert forall|j: int| 0 <= j < candidates@.len() implies near_anchor(
                    #[trigger] candidates@[j],
                    ad[j],
                    w,
                ) by {
                    assert(ad[j] == days@[j] as int);
                }
                assert(-LOCAL_SPAN <= now <= LOCAL_SPAN ==> utc_day(now as int) - 1 <= today
                    <= utc_day(now as int) + 1);
            }
            r
        },
    }
}

/// A half-open time range `(from, to]`.
#[derive(Debug, Clone, Copy, PartialEq, Eq, Structural)]
pub struct Window {
    pub from: i64,
    pub to: i64,
}

/// The time ranges the gauge reports on at one instant.
pub struct SnapshotWindows {
    /// The active session block (start, end), if any.
    pub session: Option<(i64, i64)>,
    /// Spending in the active session block (none without one).
    pub five_h: Option<Window>,
    /// Spending in the weekly quota window.
    pub weekly: Window,
    /// When the weekly quota resets, if an anchor is configured.
    pub weekly_reset: Option<i64>,
    /// The last hour (the burn rate).
    pub burn: Window,
    /// Since local midnight.
    pub today: Window,
    /// The last 30 days.
    pub month: Window,
}

impl<C: Copy> Timeline<C> {
    /// The windows a snapshot is computed over at `now`; `midnight` is the
    /// local midnight that was looked up for today, if one was found.
    pub fn snapshot_windows(
        &self,
        now: i64,
        reset: Option<WeeklyReset>,
        midnight: Option<i64>,
    ) -> (r: SnapshotWindows)
        requires
            snapshot_ok(now),
        ensures
            r.session == session_block_of(self.view(), now),
            r.five_h == (match r.session {
                Some((start, _)) => Some((Window { from: (start - 1) as i64, to: now })),
                None => None::<Window>,
            }),
            r.weekly.to == now,
            weekly_window_of(now, reset, (r.weekly.from, r.weekly_reset)),
            r.burn == (Window { from: (now - 3600) as i64, to: now }),
            r.today == (Window { from: midnight_value(midnight, now), to: now }),
            r.month == (Window { from: (now - MONTH) as i64, to: now }),
    {
        let session = self.session_block(now);
        let five_h = match session {
            Some((start, _)) => Some(Window { from: start - 1, to: now }),
            None => None,
        };
        let (week_start, weekly_reset) = weekly_window(now, reset);
        SnapshotWindows {
            session,
            five_h,
            weekly: Window { from: week_start, to: now },
            weekly_reset,
            burn: Window { from: now - 3600, to: now },
            today: Window { from: midnight_or(midnight, now), to: now },
            month: Window { from: now - MONTH, to: now },
        }
    }
}


// ---------------------------------------------------------------------------
// Laws of the timeline
// ---------------------------------------------------------------------------

proof fn lemma_at_ts_last<C>(s: Seq<Event<C>>)
    requires
        s.len() > 0,
    ensures
        at_ts(s, s.last().ts).len() > 0,
        at_ts(s, s.last().ts).last() == s.last(),
        at_ts(s.drop_last(), s.last().ts) == at_ts(s, s.last().ts).drop_last(),
{
    let r = at_ts(s.drop_last(), s.last().ts);
    assert(r.push(s.last()).drop_last() =~= r);
}

proof fn lemma_at_ts_len<C>(s: Seq<Event<C>>, t: i64)
    ensures
        at_ts(s, t).len() <= s.len(),
        at_ts(s, t).len() == 0 <==> forall|k: int| 0 <= k < s.len() ==> s[k].ts != t,
    decreases s.len(),
{
    if s.len() > 0 {
        lemma_at_ts_len(s.drop_last(), t);
        if s.last().ts != t {
            assert forall|k: int| 0 <= k < s.len() - 1 implies s[k] == s.drop_last()[k] by {}
            if at_ts(s, t).len() == 0 {
                assert forall|k: int| 0 <= k < s.len() implies s[k].ts != t by {
                    if k < s.len() - 1 {
                        assert(s[k] == s.drop_last()[k]);
                    }
                }
            }
        }
    }
}

/// Stable sorting by time has one outcome: two sequences that are both the
/// stable sort of the same input are equal.
pub proof fn law_stable_sort_unique<C>(a: Seq<Event<C>>, b: Seq<Event<C>>, input: Seq<Event<C>>)
    requires
        stable_sort_of(a, input),
        stable_sort_of(b, input),
    ensures
        a == b,
    decreases a.len(),
{
    lemma_sorted_same_groups(a, b);
}

proof fn lemma_sorted_same_groups<C>(a: Seq<Event<C>>, b: Seq<Event<C>>)
    requires
        sorted_ts(a),
        sorted_ts(b),
        a.len() == b.len(),
        forall|t: i64| #[trigger] at_ts(a, t) == at_ts(b, t),
    ensures
        a == b,
    decreases a.len(),
{
    if a.len() == 0 {
        assert(a =~= b);
    } else {
        let ta = a.last().ts;
        let tb = b.last().ts;
        lemma_at_ts_last(a);
        lemma_at_ts_last(b);
        // The largest timestamps agree: each sequence holds the other's.
        assert(ta == tb) by {
            lemma_at_ts_len(b, ta);
            lemma_at_ts_len(a, tb);
            let kb = choose|k: int| 0 <= k < b.len() && b[k].ts == ta;
            let ka = choose|k: int| 0 <= k < a.len() && a[k].ts == tb;
            assert(b[kb].ts <= tb);
            assert(a[ka].ts <= ta);
        }
        assert(a.last() == b.last()) by {
            assert(at_ts(a, ta).last() == at_ts(b, ta).last());
        }
        assert forall|t: i64| #[trigger] at_ts(a.drop_last(), t) == at_ts(b.drop_last(), t) by {
            if t != ta {
                assert(at_ts(a, t) == at_ts(a.drop_last(), t));
                assert(at_ts(b, t) == at_ts(b.drop_last(), t));
            }
        }
        lemma_sorted_same_groups(a.drop_last(), b.drop_last());
        assert(a =~= a.drop_last().push(a.last()));
        assert(b =~= b.drop_last().push(b.last()));
    }
}

/// Absorbing an empty batch leaves a timeline as it was.
pub proof fn law_absorb_nothing<C>(before: Seq<Event<C>>, after: Seq<Event<C>>)
    requires
        sorted_ts(before),
        stable_sort_of(after, before + Seq::<Event<C>>::empty()),
    ensures
        after == before,
{
    assert(before + Seq::<Event<C>>::empty() =~= before);
    law_stable_sort_unique(after, before, before);
}

/// Spending over `(a, c]` splits at any `b` between them: the events in
/// `(a, b]` followed by those in `(b, c]`.
pub proof fn law_window_split<C>(s: Seq<Event<C>>, a: i64, b: i64, c: i64)
    requires
        sorted_ts(s),
        a <= b <= c,
    ensures
        costs_in(s, a, c) == costs_in(s, a, b) + costs_in(s, b, c),
    decreases s.len(),
{
    if s.len() == 0 {
        assert(costs_in(s, a, b) + costs_in(s, b, c) =~= Seq::<C>::empty());
    } else {
        let d = s.drop_last();
        assert(sorted_ts(d));
        law_window_split(d, a, b, c);
        let e = s.last();
        if b < e.ts && e.ts <= c {
            assert(costs_in(s, a, b) == costs_in(d, a, b));
            assert((costs_in(d, a, b) + costs_in(d, b, c)).push(e.cost) =~= costs_in(d, a, b)
                + costs_in(d, b, c).push(e.cost));
        } else if a < e.ts && e.ts <= b {
            // Every earlier event is at or before `e`, hence not after `b`.
            assert(costs_in(d, b, c) == Seq::<C>::empty()) by {
                lemma_costs_none(d, b, c, e.ts);
            }
            assert(costs_in(s, b, c) == Seq::<C>::empty());
            assert(costs_in(d, a, b).push(e.cost) + Seq::<C>::empty() =~= costs_in(d, a, b).push(
                e.cost,
            ));
            assert(costs_in(d, a, b) + Seq::<C>::empty() =~= costs_in(d, a, b));
        }
    }
}

proof fn lemma_costs_none<C>(s: Seq<Event<C>>, from: i64, to: i64, top: i64)
    requires
        top <= from,
        forall|k: int| 0 <= k < s.len() ==> s[k].ts <= top,
    ensures
        costs_in(s, from, to) == Seq::<C>::empty(),
    decreases s.len(),
{
    if s.len() > 0 {
        lemma_costs_none(s.drop_last(), from, to, top);
    }
}

/// After pruning, only events at or after the cutoff remain, and every
/// such event is kept.
pub proof fn law_prune_keeps_recent<C>(s: Seq<Event<C>>, cutoff: i64)
    ensures
        forall|k: int| 0 <= k < since(s, cutoff).len() ==> #[trigger] since(s, cutoff)[k].ts
            >= cutoff,
        forall|t: i64| t >= cutoff ==> #[trigger] at_ts(since(s, cutoff), t) == at_ts(s, t),
    decreases s.len(),
{
    if s.len() > 0 {
        let d = s.drop_last();
        law_prune_keeps_recent(d, cutoff);
        let e = s.last();
        if e.ts >= cutoff {
            assert forall|t: i64| t >= cutoff implies #[trigger] at_ts(since(s, cutoff), t)
                == at_ts(s, t) by {
                lemma_at_ts_push(since(d, cutoff), e, t);
                assert(since(s, cutoff) == since(d, cutoff).push(e));
            }
            assert forall|k: int| 0 <= k < since(s, cutoff).len() implies #[trigger] since(
                s,
                cutoff,
            )[k].ts >= cutoff by {
                if k < since(d, cutoff).len() {
                    assert(since(s, cutoff)[k] == since(d, cutoff)[k]);
                }
            }
        }
    }
}


proof fn lemma_since_sorted<C>(s: Seq<Event<C>>, cutoff: i64)
    requires
        sorted_ts(s),
    ensures
        sorted_ts(since(s, cutoff)),
        since(s, cutoff).len() > 0 ==> since(s, cutoff).last().ts <= s.last().ts,
    decreases s.len(),
{
    if s.len() > 0 {
        let d = s.drop_last();
        assert(sorted_ts(d));
        lemma_since_sorted(d, cutoff);
        let r = since(d, cutoff);
        if s.last().ts >= cutoff {
            let r2 = r.push(s.last());
            assert forall|p: int, q: int| 0 <= p <= q < r2.len() implies r2[p].ts <= r2[q].ts by {
                if q == r2.len() - 1 && p < q {
                    assert(r[p].ts <= r.last().ts);
                    assert(d.last().ts <= s.last().ts);
                }
            }
        } else if r.len() > 0 {
            assert(d.last().ts <= s.last().ts);
        }
    }
}

/// A refresh keeps the event log sorted and recent: when the log after
/// `absorb` is the stable time sort of the old log followed by the new
/// events, and `prune` then keeps the events at or after the cutoff 31
/// days before `now`, the log is sorted by time, holds nothing older than
/// the cutoff, and holds, for every time at or after it, exactly the old
/// and new events of that time in their old-then-new order.
pub proof fn law_refresh_log<C>(
    old_log: Seq<Event<C>>,
    new_events: Seq<Event<C>>,
    absorbed: Seq<Event<C>>,
    pruned: Seq<Event<C>>,
    now: i64,
)
    requires
        now >= i64::MIN + RETENTION,
        stable_sort_of(absorbed, old_log + new_events),
        pruned == since(absorbed, (now - RETENTION) as i64),
    ensures
        sorted_ts(pruned),
        forall|k: int| 0 <= k < pruned.len() ==> #[trigger] pruned[k].ts >= now - RETENTION,
        forall|t: i64|
            t >= now - RETENTION ==> #[trigger] at_ts(pruned, t) == at_ts(old_log + new_events, t),
{
    let cutoff = (now - RETENTION) as i64;
    lemma_since_sorted(absorbed, cutoff);
    law_prune_keeps_recent(absorbed, cutoff);
    assert forall|t: i64| t >= now - RETENTION implies #[trigger] at_ts(pruned, t) == at_ts(
        old_log + new_events,
        t,
    ) by {
        assert(at_ts(since(absorbed, cutoff), t) == at_ts(absorbed, t));
        assert(at_ts(absorbed, t) == at_ts(old_log + new_events, t));
    }
}


/// The events of `s` inside the half-open window `(from, to]`, in order.
pub open spec fn in_window<C>(from: i64, to: i64) -> spec_fn(Event<C>) -> bool {
    |e: Event<C>| from < e.ts && e.ts <= to
}

/// Spending over a window counts every event in it exactly once: the costs
/// reported for `(from, to]` are the costs of all the events whose time
/// lies in it, in their order, repeated timestamps included.
pub proof fn law_costs_are_the_window_events<C>(s: Seq<Event<C>>, from: i64, to: i64)
    ensures
        costs_in(s, from, to) == s.filter(in_window::<C>(from, to)).map_values(
            |e: Event<C>| e.cost,
        ),
        costs_in(s, from, to).len() == s.filter(in_window::<C>(from, to)).len(),
    decreases s.len(),
{
    reveal(Seq::filter);
    let f = |e: Event<C>| e.cost;
    if s.len() == 0 {
        assert(s.filter(in_window::<C>(from, to)) =~= Seq::<Event<C>>::empty());
        assert(Seq::<Event<C>>::empty().map_values(f) =~= Seq::<C>::empty());
    } else {
        let d = s.drop_last();
        law_costs_are_the_window_events(d, from, to);
        let fd = d.filter(in_window::<C>(from, to));
        if from < s.last().ts && s.last().ts <= to {
            assert(s.filter(in_window::<C>(from, to)) == fd.push(s.last()));
            assert(fd.push(s.last()).map_values(f) =~= fd.map_values(f).push(s.last().cost));
        } else {
            assert(s.filter(in_window::<C>(from, to)) == fd);
        }
    }
}

proof fn lemma_block_holds<C>(s: Seq<Event<C>>, now: i64, i: int, b: i64)
    requires
        0 <= i,
        now < b + FIVE_H,
    ensures
        block_scan(s, now, i, Some(b)) == Some(b),
    decreases s.len() - i,
{
    if !(i >= s.len() || s[i].ts > now) {
        assert(next_block(Some(b), s[i].ts) == Some(b));
        lemma_block_holds(s, now, i + 1, b);
    }
}

proof fn lemma_block_scan_later<C>(s: Seq<Event<C>>, t1: i64, t2: i64, i: int, acc: Option<i64>, b: i64)
    requires
        0 <= i,
        block_scan(s, t1, i, acc) == Some(b),
        t1 <= t2,
        t2 < b + FIVE_H,
    ensures
        block_scan(s, t2, i, acc) == Some(b),
    decreases s.len() - i,
{
    if i >= s.len() {
    } else if s[i].ts > t1 {
        if s[i].ts <= t2 {
            assert(acc == Some(b));
            lemma_block_holds(s, t2, i, b);
        }
    } else {
        lemma_block_scan_later(s, t1, t2, i + 1, next_block(acc, s[i].ts), b);
    }
}

/// A running session block is stable: if the block active at `t1` is
/// `(start, end)`, then at every later time `t2` before `end` the active
/// block is the same one. No event earlier than five hours after a block's
/// start opens a new block.
pub proof fn law_block_stable<C>(s: Seq<Event<C>>, t1: i64, t2: i64, start: i64, end: i64)
    requires
        session_block_of(s, t1) == Some((start, end)),
        t1 <= t2 < end,
    ensures
        session_block_of(s, t2) == Some((start, end)),
{
    assert(t2 < start + FIVE_H) by {
        if start + FIVE_H <= i64::MAX {
            assert(end == start + FIVE_H);
        }
    }
    lemma_block_scan_later(s, t1, t2, 0, None, start);
}

proof fn lemma_next_block_covers(acc: Option<i64>, ts: i64)
    ensures
        next_block(acc, ts) matches Some(b) && ts < b + FIVE_H,
{
}

proof fn lemma_block_at_event<C>(s: Seq<Event<C>>, k: int, i: int, acc: Option<i64>)
    requires
        sorted_ts(s),
        0 <= k < s.len(),
        0 <= i,
        i > k ==> (acc matches Some(b) && s[k].ts < b + FIVE_H),
    ensures
        block_scan(s, s[k].ts, i, acc) matches Some(b) && s[k].ts < b + FIVE_H,
    decreases s.len() - i,
{
    let now = s[k].ts;
    if i >= s.len() {
    } else if s[i].ts > now {
        // Sorted: every event before this one, `s[k]` included, came earlier.
        assert(i > k) by {
            if i <= k {
                assert(s[i].ts <= s[k].ts);
            }
        }
    } else {
        lemma_next_block_covers(acc, s[i].ts);
        if i >= k {
            assert(s[k].ts <= s[i].ts);
        }
        lemma_block_at_event(s, k, i + 1, next_block(acc, s[i].ts));
    }
}

/// Every event starts or extends a block: on a time-ordered timeline, at
/// the moment of any event a session block is active, and it started at
/// or before that event.
pub proof fn law_block_active_at_event<C>(s: Seq<Event<C>>, k: int)
    requires
        sorted_ts(s),
        0 <= k < s.len(),
        s[k].ts <= i64::MAX - FIVE_H,
    ensures
        session_block_of(s, s[k].ts) matches Some((start, end)) && start <= s[k].ts < end,
{
    lemma_block_at_event(s, k, 0, None);
    lemma_block_scan_origin(s, s[k].ts, 0, None);
}

/// The weekly window is the first candidate anchor instant (in the order
/// of the anchor days, newest first) that is at or before `now`: it starts
/// there and resets a week later. Only when no candidate instant exists at
/// or before `now` is it the rolling week with no reset.
pub proof fn law_window_takes_first_anchor(now: i64, candidates: Seq<Option<i64>>)
    requires
        now >= i64::MIN + WEEK,
    ensures
        window_from(now, candidates).1 is None <==> forall|k: int|
            0 <= k < candidates.len() ==> !(#[trigger] candidates[k] matches Some(t) && t <= now),
        window_from(now, candidates).1 is None ==> window_from(now, candidates).0 == now - WEEK,
        window_from(now, candidates).1 is Some ==> exists|k: int|
            0 <= k < candidates.len() && candidates[k] == Some(window_from(now, candidates).0)
                && window_from(now, candidates).0 <= now && (forall|j: int|
                0 <= j < k ==> !(#[trigger] candidates[j] matches Some(t) && t <= now))
                && window_from(now, candidates).1 == Some((window_from(now, candidates).0 + WEEK) as i64),
    decreases candidates.len(),
{
    if candidates.len() > 0 {
        let rest = candidates.drop_first();
        law_window_takes_first_anchor(now, rest);
        assert forall|k: int| 0 < k < candidates.len() implies candidates[k] == rest[k - 1] by {}
        match candidates[0] {
            Some(ts) => {
                if ts <= now {
                    assert(candidates[0] == Some(ts));
                } else {
                    if window_from(now, rest).1 is Some {
                        let k = choose|k: int|
                            0 <= k < rest.len() && rest[k] == Some(window_from(now, rest).0)
                                && window_from(now, rest).0 <= now && (forall|j: int|
                                0 <= j < k ==> !(#[trigger] rest[j] matches Some(t) && t <= now))
                                && window_from(now, rest).1 == Some(
                                (window_from(now, rest).0 + WEEK) as i64,
                            );
                        assert(candidates[k + 1] == rest[k]);
                        assert forall|j: int| 0 <= j < k + 1 implies !(#[trigger] candidates[j] matches Some(
                            t,
                        ) && t <= now) by {
                            if j > 0 {
                                assert(candidates[j] == rest[j - 1]);
                            }
                        }
                    } else {
                        assert forall|k: int| 0 <= k < candidates.len() implies !(
                        #[trigger] candidates[k] matches Some(t) && t <= now) by {
                            if k > 0 {
                                assert(candidates[k] == rest[k - 1]);
                            }
                        }
                    }
                }
            },
            None => {
                if window_from(now, rest).1 is Some {
                    let k = choose|k: int|
                        0 <= k < rest.len() && rest[k] == Some(window_from(now, rest).0)
                            && window_from(now, rest).0 <= now && (forall|j: int|
                            0 <= j < k ==> !(#[trigger] rest[j] matches Some(t) && t <= now))
                            && window_from(now, rest).1 == Some(
                            (window_from(now, rest).0 + WEEK) as i64,
                        );
                    assert(candidates[k + 1] == rest[k]);
                    assert forall|j: int| 0 <= j < k + 1 implies !(#[trigger] candidates[j] matches Some(
                        t,
                    ) && t <= now) by {
                        if j > 0 {
                            assert(candidates[j] == rest[j - 1]);
                        }
                    }
                } else {
                    assert forall|k: int| 0 <= k < candidates.len() implies !(
                    #[trigger] candidates[k] matches Some(t) && t <= now) by {
                        if k > 0 {
                            assert(candidates[k] == rest[k - 1]);
                        }
                    }
                }
            },
        }
    }
}

} // verus!
