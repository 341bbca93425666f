//! Interpretation of transcript lines: per-event token usage priced by
//! model tier, and usage-limit detection via `<synthetic>` "limit reached"
//! messages; plus the per-file read offsets that let refreshes parse only
//! appended lines.
use vstd::prelude::*;

use crate::json::{json_of, member, parse_json, str_value, u64_value, JsonValue};
use crate::text::{
    chars_eq, chars_of, contains, contains_chars, extend_chars, lines, lines_of, lowercase_chars,
    lowercase_of,
};
use crate::timeline::RETENTION;

verus! {

// ---------------------------------------------------------------------------
// Message text
// ---------------------------------------------------------------------------

/// The `text` strings of content blocks, in order, skipping blocks without
/// one.
pub open spec fn block_texts(blocks: Seq<JsonValue>) -> Seq<Seq<char>>
    decreases blocks.len(),
{
    if blocks.len() == 0 {
        seq![]
    } else {
        let r = block_texts(blocks.drop_last());
        match str_value(member(blocks.last(), "text"@)) {
            Some(t) => r.push(t),
            None => r,
        }
    }
}

/// The parts joined with single spaces.
pub open spec fn join_space(parts: Seq<Seq<char>>) -> Seq<char>
    decreases parts.len(),
{
    if parts.len() == 0 {
        seq![]
    } else if parts.len() == 1 {
        parts[0]
    } else {
        join_space(parts.drop_last()) + seq![' '] + parts.last()
    }
}

/// The text of a message: its `content` string, or the `text` of its
/// content blocks joined with spaces; empty otherwise.
pub open spec fn message_text(msg: JsonValue) -> Seq<char> {
    match member(msg, "content"@) {
        Some(JsonValue::Str(s)) => s@,
        Some(JsonValue::Array(blocks)) => join_space(block_texts(blocks@)),
        _ => seq![],
    }
}

fn text_of(msg: &JsonValue) -> (r: Vec<char>)
    ensures
        r@ == message_text(*msg),
{
    match msg.get("content") {
        Some(JsonValue::Str(s)) => chars_of(s.as_str()),
        Some(JsonValue::Array(blocks)) => {
            let mut out: Vec<char> = Vec::new();
            let mut any = false;
            let mut i: usize = 0;
            while i < blocks.len()
                invariant
                    i <= blocks@.len(),
                    any == (block_texts(blocks@.take(i as int)).len() > 0),
                    out@ == join_space(block_texts(blocks@.take(i as int))),
                decreases blocks@.len() - i,
            {
                let ghost before = block_texts(blocks@.take(i as int));
                assert(blocks@.take(i + 1).drop_last() =~= blocks@.take(i as int));
                let b = &blocks[i];
                match b.get("text") {
                    Some(t) => match t.as_str() {
                        Some(s) => {
                            if any {
                                out.push(' ');
                            }
                            extend_chars(&mut out, &chars_of(s.as_str()));
                            any = true;
                            proof {
                                let after = before.push(s@);
                                assert(after.drop_last() =~= before);
                                if before.len() == 0 {
                                    assert(out@ =~= after[0]);
                                }
                            }
                        },
                        None => {},
                    },
                    None => {},
                }
                i += 1;
            }
            assert(blocks@.take(blocks@.len() as int) =~= blocks@);
            out
        },
        _ => Vec::new(),
    }
}

// ---------------------------------------------------------------------------
// Model tiers
// ---------------------------------------------------------------------------

/// Index of the first tier (from `i` on) whose name occurs in `model`.
pub open spec fn first_tier_in(model: Seq<char>, tiers: Seq<Seq<char>>, i: int) -> Option<int>
    decreases tiers.len() - i,
{
    if i < 0 || i >= tiers.len() {
        None
    } else if contains(model, tiers[i]) {
        Some(i)
    } else {
        first_tier_in(model, tiers, i + 1)
    }
}

/// Index of the first tier (from `i` on) named `name`.
pub open spec fn tier_named(tiers: Seq<Seq<char>>, name: Seq<char>, i: int) -> Option<int>
    decreases tiers.len() - i,
{
    if i < 0 || i >= tiers.len() {
        None
    } else if tiers[i] == name {
        Some(i)
    } else {
        tier_named(tiers, name, i + 1)
    }
}

/// The price tier of a model: the first tier, in the given order, whose
/// name occurs in the lower-cased model name; otherwise the default tier,
/// when it is priced.
pub open spec fn tier_of(tiers: Seq<Seq<char>>, default_tier: Seq<char>, model: Seq<char>) -> Option<int> {
    match first_tier_in(lowercase_of(model), tiers, 0) {
        Some(i) => Some(i),
        None => tier_named(tiers, default_tier, 0),
    }
}

/// The names of the priced tiers.
pub open spec fn names(tiers: Seq<String>) -> Seq<Seq<char>> {
    tiers.map_values(|t: String| t@)
}

/// Picks the price tier for `model` among `tiers` (listed in the order the
/// price table is walked).
pub fn tier_for(tiers: &Vec<String>, default_tier: &String, model: &Vec<char>) -> (r: Option<usize>)
    ensures
        match r {
            Some(i) => tier_of(names(tiers@), default_tier@, model@) == Some(i as int),
            None => tier_of(names(tiers@), default_tier@, model@) is None,
        },
{
    let m = lowercase_chars(model);
    let ghost ns = names(tiers@);
    let mut i: usize = 0;
    while i < tiers.len()
        invariant
            i <= tiers@.len(),
            ns == names(tiers@),
            m@ == lowercase_of(model@),
            first_tier_in(m@, ns, 0) == first_tier_in(m@, ns, i as int),
        decreases tiers@.len() - i,
    {
        let t = chars_of(tiers[i].as_str());
        assert(ns[i as int] == t@);
        if contains_chars(&m, &t) {
            return Some(i);
        }
        i += 1;
    }
    let d = chars_of(default_tier.as_str());
    let mut j: usize = 0;
    while j < tiers.len()
        invariant
            j <= tiers@.len(),
            ns == names(tiers@),
            d@ == default_tier@,
            first_tier_in(lowercase_of(model@), ns, 0) is None,
            tier_named(ns, d@, 0) == tier_named(ns, d@, j as int),
        decreases tiers@.len() - j,
    {
        let t = chars_of(tiers[j].as_str());
        assert(ns[j as int] == t@);
        if chars_eq(&t, &d) {
            return Some(j);
        }
        j += 1;
    }
    None
}

// ---------------------------------------------------------------------------
// Transcript lines
// ---------------------------------------------------------------------------

/// What `DateTime::parse_from_rfc3339(s)` followed by `.timestamp()` gives:
/// the epoch second of an RFC 3339 date-time, or `None` when `s` is not one.
pub uninterp spec fn rfc3339_epoch(s: Seq<char>) -> Option<i64>;

/// Calls chrono's `DateTime::parse_from_rfc3339` and takes the epoch
/// second of the result; the outcome is `rfc3339_epoch` of the text.
#[verifier::external_body]
fn parse_rfc3339(s: &str) -> (r: Option<i64>)
    ensures
        r == rfc3339_epoch(s@),
{
    chrono::DateTime::parse_from_rfc3339(s).ok().map(|d| d.timestamp())
}

/// Token counts of one usage record (a missing or non-integer count is 0).
#[derive(Debug, Clone, Copy, PartialEq, Eq, Structural)]
pub struct TokenCounts {
    pub input: u64,
    pub cache_creation: u64,
    pub cache_read: u64,
    pub output: u64,
}

/// Usage that has a price tier: the tier's index and the token counts.
#[derive(Debug, Clone, Copy, PartialEq, Eq, Structural)]
pub struct PricedUsage {
    pub tier: usize,
    pub tokens: TokenCounts,
}

/// What one transcript line contributes: its time, whether it is a
/// usage-limit notice, and its priced usage if it has any.
#[derive(Debug, Clone, Copy, PartialEq, Eq, Structural)]
pub struct LineRecord {
    pub ts: i64,
    pub limit: bool,
    pub priced: Option<PricedUsage>,
}

/// A count of the usage record, 0 when missing or not a `u64`.
pub open spec fn count(usage: JsonValue, key: Seq<char>) -> u64 {
    match u64_value(member(usage, key)) {
        Some(n) => n,
        None => 0,
    }
}

/// The model of a message, `unknown` when it has none.
pub open spec fn model_of(msg: JsonValue) -> Seq<char> {
    match str_value(member(msg, "model"@)) {
        Some(m) => m,
        None => "unknown"@,
    }
}

/// A message is a usage-limit notice: its model is `<synthetic>` and its
/// lower-cased text contains "limit reached".
pub open spec fn is_limit_notice(msg: JsonValue) -> bool {
    model_of(msg) == "<synthetic>"@ && contains(lowercase_of(message_text(msg)), "limit reached"@)
}

/// The priced usage of a message: its `usage` counts with the model's
/// tier; `None` without usage or without a tier.
pub open spec fn priced_usage_of(msg: JsonValue, tiers: Seq<Seq<char>>, default_tier: Seq<char>) -> Option<PricedUsage> {
    match member(msg, "usage"@) {
        Some(usage) => match tier_of(tiers, default_tier, model_of(msg)) {
            Some(i) => Some(
                PricedUsage {
                    tier: i as usize,
                    tokens: TokenCounts {
                        input: count(usage, "input_tokens"@),
                        cache_creation: count(usage, "cache_creation_input_tokens"@),
                        cache_read: count(usage, "cache_read_input_tokens"@),
                        output: count(usage, "output_tokens"@),
                    },
                },
            ),
            None => None,
        },
        None => None,
    }
}

/// What a parsed transcript line stamped `ts` contributes: whether its
/// message is a limit notice, and the message's priced usage (neither
/// without a message).
pub open spec fn record_with_ts(v: JsonValue, ts: i64, tiers: Seq<Seq<char>>, default_tier: Seq<char>) -> LineRecord {
    match member(v, "message"@) {
        None => LineRecord { ts, limit: false, priced: None },
        Some(msg) => LineRecord {
            ts,
            limit: is_limit_notice(msg),
            priced: priced_usage_of(msg, tiers, default_tier),
        },
    }
}

/// The record of a parsed transcript line: `None` without an RFC 3339
/// `timestamp`; otherwise its time, whether its message is a limit notice,
/// and the message's priced usage.
pub open spec fn record_of(v: JsonValue, tiers: Seq<Seq<char>>, default_tier: Seq<char>) -> Option<LineRecord> {
    match str_value(member(v, "timestamp"@)) {
        None => None,
        Some(t) => match rfc3339_epoch(t) {
            None => None,
            Some(ts) => Some(record_with_ts(v, ts, tiers, default_tier)),
        },
    }
}

fn count_of(usage: &JsonValue, key: &str) -> (r: u64)
    ensures
        r == count(*usage, key@),
{
    match usage.get(key) {
        Some(x) => match x.as_u64() {
            Some(n) => n,
            None => 0,
        },
        None => 0,
    }
}

/// Interprets a parsed transcript line.
pub fn parse_record(v: &JsonValue, tiers: &Vec<String>, default_tier: &String) -> (r: Option<
    LineRecord,
>)
    ensures
        r == record_of(*v, names(tiers@), default_tier@),
{
    let ts_text = match v.get("timestamp") {
        Some(t) => match t.as_str() {
            Some(s) => s,
            None => return None,
        },
        None => return None,
    };
    let ts = match parse_rfc3339(ts_text.as_str()) {
        Some(ts) => ts,
        None => return None,
    };
    Some(record_at(v, ts, tiers, default_tier))
}

/// Interprets a parsed transcript line whose timestamp reads as epoch
/// second `ts`.
pub fn record_at(v: &JsonValue, ts: i64, tiers: &Vec<String>, default_tier: &String) -> (r: LineRecord)
    ensures
        r == record_with_ts(*v, ts, names(tiers@), default_tier@),
{
    let msg = match v.get("message") {
        Some(m) => m,
        None => return LineRecord { ts, limit: false, priced: None },
    };
    let model: Vec<char> = match msg.get("model") {
        Some(m) => match m.as_str() {
            Some(s) => chars_of(s.as_str()),
            None => chars_of("unknown"),
        },
        None => chars_of("unknown"),
    };
    let limit = chars_eq(&model, &chars_of("<synthetic>")) && contains_chars(
        &lowercase_chars(&text_of(msg)),
        &chars_of("limit reached"),
    );
    let priced = match msg.get("usage") {
        Some(usage) => match tier_for(tiers, default_tier, &model) {
            Some(i) => Some(
                PricedUsage {
                    tier: i,
                    tokens: TokenCounts {
                        input: count_of(usage, "input_tokens"),
                        cache_creation: count_of(usage, "cache_creation_input_tokens"),
                        cache_read: count_of(usage, "cache_read_input_tokens"),
                        output: count_of(usage, "output_tokens"),
                    },
                },
            ),
            None => None,
        },
        None => None,
    };
    LineRecord { ts, limit, priced }
}

/// The record of one transcript line: `None` when the line is not a JSON
/// document, otherwise what `record_of` reads from the document.
pub open spec fn line_record_of(line: Seq<char>, tiers: Seq<Seq<char>>, default_tier: Seq<char>) -> Option<LineRecord> {
    match json_of(line) {
        Some(v) => record_of(v, tiers, default_tier),
        None => None,
    }
}

/// Parses one transcript line as JSON and interprets it.
pub fn parse_line_record(line: &str, tiers: &Vec<String>, default_tier: &String) -> (r: Option<
    LineRecord,
>)
    ensures
        r == line_record_of(line@, names(tiers@), default_tier@),
{
    match parse_json(line) {
        Some(v) => parse_record(&v, tiers, default_tier),
        None => None,
    }
}

/// The record of a transcript line when it falls in the retention period,
/// that is at or after `cutoff`; `None` for older lines and for lines
/// without a record.
pub open spec fn recent_record_of(
    line: Seq<char>,
    tiers: Seq<Seq<char>>,
    default_tier: Seq<char>,
    cutoff: i64,
) -> Option<LineRecord> {
    match line_record_of(line, tiers, default_tier) {
        Some(rec) => if rec.ts >= cutoff {
            Some(rec)
        } else {
            None
        },
        None => None,
    }
}

/// Parses one transcript line and keeps its record only when it is at or
/// after `cutoff`.
pub fn recent_record(line: &str, tiers: &Vec<String>, default_tier: &String, cutoff: i64) -> (r:
    Option<LineRecord>)
    ensures
        r == recent_record_of(line@, names(tiers@), default_tier@, cutoff),
{
    match parse_line_record(line, tiers, default_tier) {
        Some(rec) => if rec.ts >= cutoff {
            Some(rec)
        } else {
            None
        },
        None => None,
    }
}

/// Start of the period of transcripts that is read: the retention period
/// before `now`.
pub fn retention_cutoff(now: i64) -> (r: i64)
    requires
        now >= i64::MIN + RETENTION,
    ensures
        r == now - RETENTION,
{
    now - RETENTION
}

/// A transcript file is worth reading when it was modified at or after
/// `cutoff`, or when its modification time is unknown.
pub fn is_recent(modified: Option<i64>, cutoff: i64) -> (r: bool)
    ensures
        r == match modified {
            Some(t) => t >= cutoff,
            None => true,
        },
{
    match modified {
        Some(t) => t >= cutoff,
        None => true,
    }
}


// ---------------------------------------------------------------------------
// Read offsets
// ---------------------------------------------------------------------------

/// What `String::from_utf8_lossy` gives for the bytes `b`.
pub uninterp spec fn utf8_lossy_of(b: Seq<u8>) -> Seq<char>;

/// Calls `String::from_utf8_lossy`: the bytes decoded as UTF-8, invalid
/// sequences replaced by U+FFFD; the outcome is `utf8_lossy_of` of the bytes.
#[verifier::external_body]
fn utf8_lossy(b: &[u8]) -> (r: String)
    ensures
        r@ == utf8_lossy_of(b@),
{
    String::from_utf8_lossy(b).into_owned()
}

/// The offset recorded for `path` in `entries` (first entry for it).
pub open spec fn offset_in(entries: Seq<(Vec<u8>, u64)>, path: Seq<u8>) -> Option<u64>
    decreases entries.len(),
{
    if entries.len() == 0 {
        None
    } else if entries[0].0@ == path {
        Some(entries[0].1)
    } else {
        offset_in(entries.drop_first(), path)
    }
}

/// How far into each transcript file has been read, so that refreshes
/// only parse appended lines. Files are named by their path's bytes; each
/// path has at most one entry.
pub struct Offsets {
    entries: Vec<(Vec<u8>, u64)>,
}

/// No path occurs in two entries.
pub open spec fn paths_unique(entries: Seq<(Vec<u8>, u64)>) -> bool {
    forall|i: int, j: int|
        0 <= i < j < entries.len() ==> #[trigger] entries[i].0@ != #[trigger] entries[j].0@
}

/// Length of the whole lines at the start of `b`: up to and including its
/// last `\n`, 0 when it has none.
pub open spec fn whole_len(b: Seq<u8>) -> int {
    match last_newline(b) {
        None => 0,
        Some(i) => i + 1,
    }
}

fn bytes_eq(a: &Vec<u8>, b: &Vec<u8>) -> (r: bool)
    ensures
        r == (a@ == b@),
{
    if a.len() != b.len() {
        return false;
    }
    let mut i: usize = 0;
    while i < a.len()
        invariant
            a.len() == b.len(),
            i <= a.len(),
            forall|k: int| 0 <= k < i ==> a@[k] == b@[k],
        decreases a.len() - i,
    {
        if a[i] != b[i] {
            return false;
        }
        i += 1;
    }
    assert(a@ =~= b@);
    true
}

/// Position of the last `\n` byte of `b`.
pub open spec fn last_newline(b: Seq<u8>) -> Option<int>
    decreases b.len(),
{
    if b.len() == 0 {
        None
    } else if b.last() == 10 {
        Some(b.len() - 1)
    } else {
        last_newline(b.drop_last())
    }
}

/// Length of the longest prefix of `buf` that ends with `\n` (0 if none).
fn whole_lines_len(buf: &Vec<u8>) -> (n: usize)
    ensures
        n <= buf@.len(),
        n > 0 ==> buf@[n - 1] == 10,
        forall|k: int| n <= k < buf@.len() ==> buf@[k] != 10,
        n == 0 <==> last_newline(buf@) is None,
        match last_newline(buf@) {
            None => n == 0,
            Some(i) => n == i + 1,
        },
{
    let mut n = buf.len();
    assert(buf@.take(n as int) =~= buf@);
    while n > 0 && buf[n - 1] != 10
        invariant
            n <= buf@.len(),
            forall|k: int| n <= k < buf@.len() ==> buf@[k] != 10,
            last_newline(buf@) == last_newline(buf@.take(n as int)),
        decreases n,
    {
        assert(buf@.take(n as int).drop_last() =~= buf@.take(n - 1));
        n -= 1;
    }
    if n == 0 {
        assert(buf@.take(0) =~= Seq::<u8>::empty());
    } else {
        assert(buf@.take(n as int).last() == 10u8);
    }
    n
}

/// The first `n` bytes of `buf`.
fn copy_prefix(buf: &Vec<u8>, n: usize) -> (r: Vec<u8>)
    requires
        n <= buf@.len(),
    ensures
        r@ == buf@.take(n as int),
{
    let mut head: Vec<u8> = Vec::new();
    let mut k: usize = 0;
    while k < n
        invariant
            k <= n <= buf@.len(),
            head@ == buf@.take(k as int),
        decreases n - k,
    {
        head.push(buf[k]);
        k += 1;
        assert(head@ =~= buf@.take(k as int));
    }
    head
}

impl Default for Offsets {
    fn default() -> (r: Self)
        ensures
            forall|p: Seq<u8>| #[trigger] r.offset(p) is None,
    {
        Offsets::new()
    }
}

impl Offsets {
    #[verifier::type_invariant]
    spec fn inv(self) -> bool {
        paths_unique(self.entries@)
    }

    /// The offset recorded for the file at `path`.
    pub closed spec fn offset(&self, path: Seq<u8>) -> Option<u64> {
        offset_in(self.entries@, path)
    }

    /// Where reading `path` starts: its recorded offset, 0 without one.
    pub open spec fn start_of(&self, path: Seq<u8>) -> u64 {
        match self.offset(path) {
            Some(o) => o,
            None => 0,
        }
    }

    /// What `begin_read(path, len)` does, from `self` to `after`, returning
    /// `r`: the file has unread content when it has grown past its start,
    /// and then reading begins there; a file that shrank is reset to 0;
    /// every other offset stays.
    pub open spec fn read_started(&self, after: Self, path: Seq<u8>, len: u64, r: Option<u64>) -> bool {
        let start = self.start_of(path);
        &&& r == (if len > start {
            Some(start)
        } else {
            None::<u64>
        })
        &&& len >= start ==> forall|p: Seq<u8>| #[trigger] after.offset(p) == self.offset(p)
        &&& len < start ==> after.offset(path) == Some(0u64) && forall|p: Seq<u8>|
            p != path ==> #[trigger] after.offset(p) == self.offset(p)
    }

    /// What `finish_read(path, start, buf)` does, from `self` to `after`,
    /// returning `lines`: the whole lines of `buf` are consumed, the offset
    /// of `path` moves past them and their decoded text is split into
    /// lines; without a whole line nothing changes and nothing comes back.
    pub open spec fn read_finished(
        &self,
        after: Self,
        path: Seq<u8>,
        start: u64,
        buf: Seq<u8>,
        lines: Seq<Seq<char>>,
    ) -> bool {
        let n = whole_len(buf);
        &&& n == 0 ==> lines.len() == 0 && forall|p: Seq<u8>| #[trigger] after.offset(p)
            == self.offset(p)
        &&& n > 0 ==> {
            &&& after.offset(path) == Some((start + n) as u64)
            &&& forall|p: Seq<u8>| p != path ==> #[trigger] after.offset(p) == self.offset(p)
            &&& lines == lines_of(utf8_lossy_of(buf.take(n)))
        }
    }

    /// No offsets yet: every file is read from its start.
    pub fn new() -> (r: Self)
        ensures
            forall|p: Seq<u8>| #[trigger] r.offset(p) is None,
    {
        Offsets { entries: Vec::new() }
    }

    /// The offset recorded for `path`.
    pub fn get(&self, path: &Vec<u8>) -> (r: Option<u64>)
        ensures
            r == self.offset(path@),
    {
        let mut i: usize = 0;
        assert(self.entries@.skip(0) =~= self.entries@);
        while i < self.entries.len()
            invariant
                i <= self.entries@.len(),
                offset_in(self.entries@, path@) == offset_in(self.entries@.skip(i as int), path@),
            decreases self.entries@.len() - i,
        {
            assert(self.entries@.skip(i as int).drop_first() =~= self.entries@.skip(i + 1));
            assert(self.entries@.skip(i as int)[0] == self.entries@[i as int]);
            if bytes_eq(&self.entries[i].0, path) {
                return Some(self.entries[i].1);
            }
            i += 1;
        }
        None
    }

    /// Records `value` as the offset of `path`, leaving the others.
    pub fn set(&mut self, path: &Vec<u8>, value: u64)
        ensures
            final(self).offset(path@) == Some(value),
            forall|p: Seq<u8>| p != path@ ==> #[trigger] final(self).offset(p) == old(self).offset(p),
    {
        proof {
            use_type_invariant(&*self);
        }
        let mut entries: Vec<(Vec<u8>, u64)> = Vec::new();
        std::mem::swap(&mut entries, &mut self.entries);
        let ghost old_entries = entries@;
        let mut i: usize = 0;
        while i < entries.len()
            invariant
                i <= entries@.len(),
                entries@ == old_entries,
                old_entries == old(self).entries@,
                paths_unique(old_entries),
                forall|k: int| 0 <= k < i ==> entries@[k].0@ != path@,
            decreases entries@.len() - i,
        {
            if bytes_eq(&entries[i].0, path) {
                let key = entries[i].0.clone();
                entries.set(i, (key, value));
                proof {
                    assert forall|a: int, b: int| 0 <= a < b < entries@.len() implies #[trigger] entries@[a].0@
                        != #[trigger] entries@[b].0@ by {
                        assert(old_entries[a].0@ != old_entries[b].0@);
                    }
                    assert forall|p: Seq<u8>| #[trigger] offset_in(entries@, p) == (if p == path@ {
                        Some(value)
                    } else {
                        offset_in(old_entries, p)
                    }) by {
                        lemma_offset_update(old_entries, entries@, i as int, path@, value, p);
                    }
                }
                self.entries = entries;
                return;
            }
            i += 1;
        }
        let key = path.clone();
        entries.push((key, value));
        proof {
            assert forall|a: int, b: int| 0 <= a < b < entries@.len() implies #[trigger] entries@[a].0@
                != #[trigger] entries@[b].0@ by {
                if b < old_entries.len() {
                    assert(old_entries[a].0@ != old_entries[b].0@);
                } else {
                    assert(old_entries[a].0@ != path@);
                }
            }
            assert forall|p: Seq<u8>| #[trigger] offset_in(entries@, p) == (if p == path@ {
                Some(value)
            } else {
                offset_in(old_entries, p)
            }) by {
                lemma_offset_append(old_entries, (key, value), path@, p);
            }
        }
        self.entries = entries;
    }

    /// Decides whether `path`, now `len` bytes long, has unread content:
    /// returns the offset to read from when it has grown past the recorded
    /// offset. A file that shrank (was rotated) is reset to offset 0.
    pub fn begin_read(&mut self, path: &Vec<u8>, len: u64) -> (r: Option<u64>)
        ensures
            old(self).read_started(*final(self), path@, len, r),
    {
        let start = match self.get(path) {
            Some(o) => o,
            None => 0,
        };
        if len <= start {
            if len < start {
                self.set(path, 0);
            }
            return None;
        }
        Some(start)
    }

    /// Consumes the bytes read from offset `start` of `path`: only whole
    /// lines are taken (up to and including the last `\n`), the offset
    /// moves past them, and their text (decoded leniently as UTF-8) is
    /// split into lines. A trailing partial line stays unread.
    pub fn finish_read(&mut self, path: &Vec<u8>, start: u64, buf: &Vec<u8>) -> (r: Vec<String>)
        requires
            start + buf@.len() <= u64::MAX,
        ensures
            old(self).read_finished(*final(self), path@, start, buf@, r@.map_values(|l: String| l@)),
    {
        let n = whole_lines_len(buf);
        if n == 0 {
            return Vec::new();
        }
        let head = copy_prefix(buf, n);
        self.set(path, start + n as u64);
        let text = utf8_lossy(head.as_slice());
        let r = lines(&chars_of(text.as_str()));
        assert(r@.map_values(|l: String| l@) =~= lines_of(utf8_lossy_of(buf@.take(n as int))));
        r
    }
}

// ---------------------------------------------------------------------------
// Laws of incremental reading
// ---------------------------------------------------------------------------

/// `after` begins with all of `before`: the file has only been appended to.
pub open spec fn extends(before: Seq<u8>, after: Seq<u8>) -> bool {
    before.len() <= after.len() && before == after.take(before.len() as int)
}

proof fn lemma_last_newline(b: Seq<u8>)
    ensures
        match last_newline(b) {
            None => forall|k: int| 0 <= k < b.len() ==> b[k] != 10,
            Some(i) => 0 <= i < b.len() && b[i] == 10 && forall|k: int| i < k < b.len() ==> b[k]
                != 10,
        },
    decreases b.len(),
{
    if b.len() > 0 && b.last() != 10 {
        lemma_last_newline(b.drop_last());
        assert forall|k: int| 0 <= k < b.len() - 1 implies b[k] == b.drop_last()[k] by {}
    }
}

/// `whole_len` is the one length `w` at which `b`'s whole lines end: `w`
/// is 0 or follows a `\n`, and no `\n` comes after it.
proof fn lemma_whole_len_is(b: Seq<u8>, w: int)
    requires
        0 <= w <= b.len(),
        w == 0 || b[w - 1] == 10,
        forall|k: int| w <= k < b.len() ==> b[k] != 10,
    ensures
        whole_len(b) == w,
{
    lemma_last_newline(b);
    match last_newline(b) {
        None => {
            if w > 0 {
                assert(b[w - 1] != 10);
            }
        },
        Some(i) => {
            if i + 1 < w {
                assert(b[w - 1] != 10);
            }
            if i + 1 > w {
                assert(b[i] != 10);
            }
        },
    }
}

proof fn lemma_whole_len_bounds(b: Seq<u8>)
    ensures
        0 <= whole_len(b) <= b.len(),
        whole_len(b) == 0 || b[whole_len(b) - 1] == 10,
        forall|k: int| whole_len(b) <= k < b.len() ==> b[k] != 10,
{
    lemma_last_newline(b);
}

/// Where the whole lines of `c` end, measured past a point `s` that is the
/// start of `c` or follows a `\n`: `s` plus where the whole lines of the
/// rest end.
proof fn lemma_whole_len_split(c: Seq<u8>, s: int)
    requires
        0 <= s <= c.len(),
        s == 0 || c[s - 1] == 10,
    ensures
        whole_len(c) == s + whole_len(c.subrange(s, c.len() as int)),
{
    let t = c.subrange(s, c.len() as int);
    lemma_whole_len_bounds(t);
    let w = whole_len(t);
    if w > 0 {
        assert(c[s + w - 1] == t[w - 1]);
    }
    assert forall|k: int| s + w <= k < c.len() implies c[k] != 10 by {
        assert(c[k] == t[k - s]);
    }
    lemma_whole_len_is(c, s + w);
}

/// One read of a file that has only been appended to since the last read
/// (`prev` was its content then, `content` is its content now) returns
/// exactly the lines completed since: when the recorded offset of `path` is
/// where the whole lines of `prev` end, `begin_read` followed (when it
/// gives a start) by `finish_read` on the bytes from that start to the end
/// of the file moves the offset to where the whole lines of `content` end
/// and returns the lines of the bytes in between, nothing when there are
/// none; every other file's offset stays.
pub proof fn law_read_appended(
    o0: Offsets,
    o1: Offsets,
    o2: Offsets,
    path: Seq<u8>,
    prev: Seq<u8>,
    content: Seq<u8>,
    r: Option<u64>,
    lines: Seq<Seq<char>>,
)
    requires
        extends(prev, content),
        content.len() <= u64::MAX,
        o0.start_of(path) == whole_len(prev),
        o0.read_started(o1, path, content.len() as u64, r),
        r matches Some(start) ==> o1.read_finished(
            o2,
            path,
            start,
            content.subrange(start as int, content.len() as int),
            lines,
        ),
    ensures
        whole_len(prev) <= whole_len(content) <= content.len(),
        r is None ==> whole_len(content) == whole_len(prev) && forall|p: Seq<u8>| #[trigger]
            o1.offset(p) == o0.offset(p),
        r is Some ==> {
            &&& o2.start_of(path) == whole_len(content)
            &&& forall|p: Seq<u8>| p != path ==> #[trigger] o2.offset(p) == o0.offset(p)
            &&& whole_len(content) == whole_len(prev) ==> lines.len() == 0 && forall|p: Seq<u8>|
                #[trigger] o2.offset(p) == o0.offset(p)
            &&& whole_len(content) > whole_len(prev) ==> lines == lines_of(
                utf8_lossy_of(content.subrange(whole_len(prev), whole_len(content))),
            )
        },
{
    let s = whole_len(prev);
    lemma_whole_len_bounds(prev);
    lemma_whole_len_bounds(content);
    if s > 0 {
        assert(content[s - 1] == prev[s - 1]);
    }
    lemma_whole_len_split(content, s);
    let rest = content.subrange(s, content.len() as int);
    lemma_whole_len_bounds(rest);
    assert(o1.offset(path) == o0.offset(path));
    if let Some(start) = r {
        assert(start == s);
        let n = whole_len(rest);
        if n > 0 {
            assert(rest.take(n) =~= content.subrange(s, whole_len(content)));
        }
    } else {
        assert(rest.len() == 0);
    }
}

/// Reading a file again when nothing was appended returns no lines and
/// leaves every offset as it was: each line is returned only once.
pub proof fn law_reread_unchanged(
    o0: Offsets,
    o1: Offsets,
    o2: Offsets,
    path: Seq<u8>,
    content: Seq<u8>,
    r: Option<u64>,
    lines: Seq<Seq<char>>,
)
    requires
        content.len() <= u64::MAX,
        o0.start_of(path) == whole_len(content),
        o0.read_started(o1, path, content.len() as u64, r),
        r matches Some(start) ==> o1.read_finished(
            o2,
            path,
            start,
            content.subrange(start as int, content.len() as int),
            lines,
        ),
    ensures
        forall|p: Seq<u8>| #[trigger] o1.offset(p) == o0.offset(p),
        r is Some ==> lines.len() == 0 && forall|p: Seq<u8>| #[trigger] o2.offset(p) == o0.offset(p),
{
    assert(content.take(content.len() as int) =~= content);
    law_read_appended(o0, o1, o2, path, content, content, r, lines);
}

/// The bytes consumed by reading a file once at each of its successive
/// contents `snaps`, starting with no offset: at each read, those from the
/// end of the previous content's whole lines to the end of this one's.
pub open spec fn consumed_through(snaps: Seq<Seq<u8>>) -> Seq<u8>
    decreases snaps.len(),
{
    if snaps.len() == 0 {
        seq![]
    } else {
        let last = snaps.last();
        let before = if snaps.len() == 1 {
            Seq::<u8>::empty()
        } else {
            snaps[snaps.len() - 2]
        };
        consumed_through(snaps.drop_last()) + last.subrange(whole_len(before), whole_len(last))
    }
}

/// Over repeated reads of a file that only grows, every complete line
/// comes back exactly once: the bytes consumed read after read, joined,
/// are exactly the whole lines of the latest content.
pub proof fn law_reads_cover_whole_lines(snaps: Seq<Seq<u8>>)
    requires
        snaps.len() > 0,
        forall|k: int| 0 < k < snaps.len() ==> extends(snaps[k - 1], #[trigger] snaps[k]),
    ensures
        consumed_through(snaps) == snaps.last().take(whole_len(snaps.last())),
    decreases snaps.len(),
{
    let last = snaps.last();
    lemma_whole_len_bounds(last);
    if snaps.len() == 1 {
        assert(consumed_through(snaps.drop_last()) =~= Seq::<u8>::empty());
        assert(Seq::<u8>::empty() + last.subrange(0, whole_len(last)) =~= last.take(
            whole_len(last),
        ));
    } else {
        let init = snaps.drop_last();
        let before = snaps[snaps.len() - 2];
        assert forall|k: int| 0 < k < init.len() implies extends(init[k - 1], #[trigger] init[k]) by {
            assert(init[k] == snaps[k] && init[k - 1] == snaps[k - 1]);
        }
        law_reads_cover_whole_lines(init);
        assert(init.last() == before);
        assert(extends(before, last));
        let s = whole_len(before);
        lemma_whole_len_bounds(before);
        if s > 0 {
            assert(last[s - 1] == before[s - 1]);
        }
        lemma_whole_len_split(last, s);
        lemma_whole_len_bounds(last.subrange(s, last.len() as int));
        assert(before.take(s) =~= last.take(s));
        assert(last.take(s) + last.subrange(s, whole_len(last)) =~= last.take(whole_len(last)));
    }
}

proof fn lemma_offset_update(
    old_entries: Seq<(Vec<u8>, u64)>,
    new_entries: Seq<(Vec<u8>, u64)>,
    i: int,
    path: Seq<u8>,
    value: u64,
    p: Seq<u8>,
)
    requires
        0 <= i < old_entries.len(),
        new_entries.len() == old_entries.len(),
        old_entries[i].0@ == path,
        new_entries[i].0@ == path,
        new_entries[i].1 == value,
        forall|k: int| 0 <= k < i ==> old_entries[k].0@ != path,
        forall|k: int| 0 <= k < old_entries.len() && k != i ==> new_entries[k] == old_entries[k],
    ensures
        offset_in(new_entries, p) == (if p == path {
            Some(value)
        } else {
            offset_in(old_entries, p)
        }),
    decreases i,
{
    if i > 0 {
        lemma_offset_update(
            old_entries.drop_first(),
            new_entries.drop_first(),
            i - 1,
            path,
            value,
            p,
        );
        assert(new_entries[0] == old_entries[0]);
    } else {
        assert(new_entries.drop_first() =~= old_entries.drop_first());
    }
}

proof fn lemma_offset_append(
    entries: Seq<(Vec<u8>, u64)>,
    e: (Vec<u8>, u64),
    path: Seq<u8>,
    p: Seq<u8>,
)
    requires
        e.0@ == path,
        forall|k: int| 0 <= k < entries.len() ==> entries[k].0@ != path,
    ensures
        offset_in(entries.push(e), p) == (if p == path {
            Some(e.1)
        } else {
            offset_in(entries, p)
        }),
    decreases entries.len(),
{
    if entries.len() > 0 {
        assert(entries.push(e)[0] == entries[0]);
        assert(entries.push(e).drop_first() =~= entries.drop_first().push(e));
        lemma_offset_append(entries.drop_first(), e, path, p);
        assert(offset_in(entries.push(e), p) == if entries[0].0@ == p {
            Some(entries[0].1)
        } else {
            offset_in(entries.drop_first().push(e), p)
        });
    } else {
        assert(entries.push(e)[0] == e);
        assert(entries.push(e).drop_first() =~= Seq::<(Vec<u8>, u64)>::empty());
        assert(offset_in(Seq::<(Vec<u8>, u64)>::empty(), p) is None);
    }
}

} // verus!
