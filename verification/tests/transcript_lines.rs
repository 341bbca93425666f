use tokentank::json::JsonValue;
use tokentank::parser::{
    is_recent, parse_line_record, parse_record, record_at, recent_record, retention_cutoff, tier_for, LineRecord,
    Offsets, PricedUsage, TokenCounts,
};

fn s(v: &str) -> JsonValue {
    JsonValue::Str(v.to_string())
}

fn n(v: u64) -> JsonValue {
    JsonValue::Number(Some(v))
}

fn obj(members: Vec<(&str, JsonValue)>) -> JsonValue {
    JsonValue::Object(members.into_iter().map(|(k, v)| (k.to_string(), v)).collect())
}

fn tiers() -> Vec<String> {
    vec!["opus".to_string(), "sonnet".to_string(), "haiku".to_string()]
}

fn usage_line(ts: &str, model: &str) -> JsonValue {
    obj(vec![
        ("timestamp", s(ts)),
        (
            "message",
            obj(vec![
                ("model", s(model)),
                (
                    "usage",
                    obj(vec![
                        ("input_tokens", n(1000)),
                        ("cache_creation_input_tokens", n(200)),
                        ("cache_read_input_tokens", n(30000)),
                        ("output_tokens", n(400)),
                    ]),
                ),
            ]),
        ),
    ])
}

#[test]
fn json_get_returns_the_first_member() {
    let v = obj(vec![("a", n(1)), ("b", n(2)), ("a", n(3))]);
    assert_eq!(v.get("a").and_then(|x| x.as_u64()), Some(1));
    assert_eq!(v.get("b").and_then(|x| x.as_u64()), Some(2));
    assert!(v.get("c").is_none());
    assert!(n(5).get("a").is_none());
    assert_eq!(JsonValue::Number(None).as_u64(), None);
    assert!(n(5).as_str().is_none());
}

#[test]
fn usage_line_is_priced_by_model_tier() {
    let r = parse_record(&usage_line("2025-06-01T12:00:00Z", "acme-opus-4-1"), &tiers(), &"sonnet".to_string());
    assert_eq!(
        r,
        Some(LineRecord {
            ts: 1748779200,
            limit: false,
            priced: Some(PricedUsage {
                tier: 0,
                tokens: TokenCounts { input: 1000, cache_creation: 200, cache_read: 30000, output: 400 },
            }),
        })
    );
}

#[test]
fn timestamp_offsets_are_honoured() {
    let r = parse_record(&usage_line("2025-06-01T14:00:00+02:00", "Acme-Haiku"), &tiers(), &"sonnet".to_string()).unwrap();
    assert_eq!(r.ts, 1748779200);
    assert_eq!(r.priced.unwrap().tier, 2);
}

#[test]
fn unknown_model_falls_back_to_the_default_tier() {
    let r = parse_record(&usage_line("2025-06-01T12:00:00Z", "mystery"), &tiers(), &"sonnet".to_string()).unwrap();
    assert_eq!(r.priced.unwrap().tier, 1);
    let none = parse_record(&usage_line("2025-06-01T12:00:00Z", "mystery"), &tiers(), &"fable".to_string()).unwrap();
    assert_eq!(none.priced, None);
}

#[test]
fn tier_order_decides_between_matches() {
    let model: Vec<char> = "opus-sonnet".chars().collect();
    let t = vec!["sonnet".to_string(), "opus".to_string()];
    assert_eq!(tier_for(&t, &"haiku".to_string(), &model), Some(0));
    let t2 = vec!["haiku".to_string(), "opus".to_string()];
    assert_eq!(tier_for(&t2, &"haiku".to_string(), &model), Some(1));
    let plain: Vec<char> = "gpt".chars().collect();
    assert_eq!(tier_for(&t2, &"haiku".to_string(), &plain), Some(0));
    assert_eq!(tier_for(&t2, &"fable".to_string(), &plain), None);
}

#[test]
fn lines_without_a_valid_timestamp_are_dropped() {
    let no_ts = obj(vec![("message", obj(vec![]))]);
    assert_eq!(parse_record(&no_ts, &tiers(), &"sonnet".to_string()), None);
    let bad_ts = obj(vec![("timestamp", s("yesterday"))]);
    assert_eq!(parse_record(&bad_ts, &tiers(), &"sonnet".to_string()), None);
    let num_ts = obj(vec![("timestamp", n(5))]);
    assert_eq!(parse_record(&num_ts, &tiers(), &"sonnet".to_string()), None);
    assert_eq!(parse_record(&JsonValue::Null, &tiers(), &"sonnet".to_string()), None);
}

#[test]
fn lines_without_message_have_no_usage() {
    let v = obj(vec![("timestamp", s("1970-01-01T00:01:00Z"))]);
    assert_eq!(parse_record(&v, &tiers(), &"sonnet".to_string()), Some(LineRecord { ts: 60, limit: false, priced: None }));
}

#[test]
fn limit_notices_are_detected_from_synthetic_messages() {
    let text_line = |model: &str, content: JsonValue| {
        obj(vec![
            ("timestamp", s("2025-06-01T12:00:00Z")),
            ("message", obj(vec![("model", s(model)), ("content", content)])),
        ])
    };
    let blocks = JsonValue::Array(vec![
        obj(vec![("type", s("text")), ("text", s("5-hour"))]),
        obj(vec![("type", s("image"))]),
        obj(vec![("text", s("LIMIT REACHED · resets 3pm"))]),
    ]);
    let r = parse_record(&text_line("<synthetic>", blocks), &tiers(), &"sonnet".to_string()).unwrap();
    assert!(r.limit);
    assert_eq!(r.priced, None);
    let plain = parse_record(&text_line("<synthetic>", s("Usage Limit reached")), &tiers(), &"sonnet".to_string()).unwrap();
    assert!(plain.limit);
    let split = JsonValue::Array(vec![obj(vec![("text", s("limit"))]), obj(vec![("text", s("reached"))])]);
    assert!(parse_record(&text_line("<synthetic>", split), &tiers(), &"sonnet".to_string()).unwrap().limit);
    let other_model = parse_record(&text_line("acme-opus", s("limit reached")), &tiers(), &"sonnet".to_string()).unwrap();
    assert!(!other_model.limit);
    let other_text = parse_record(&text_line("<synthetic>", s("all good")), &tiers(), &"sonnet".to_string()).unwrap();
    assert!(!other_text.limit);
}

#[test]
fn missing_counts_are_zero() {
    let v = obj(vec![
        ("timestamp", s("2025-06-01T12:00:00Z")),
        ("message", obj(vec![("model", s("sonnet-4")), ("usage", obj(vec![("output_tokens", n(7)), ("input_tokens", JsonValue::Number(None))]))])),
    ]);
    let r = parse_record(&v, &tiers(), &"opus".to_string()).unwrap();
    assert_eq!(r.priced, Some(PricedUsage { tier: 1, tokens: TokenCounts { input: 0, cache_creation: 0, cache_read: 0, output: 7 } }));
}

#[test]
fn retention_and_recency() {
    assert_eq!(retention_cutoff(3_000_000), 3_000_000 - 31 * 24 * 3600);
    assert!(is_recent(Some(100), 100));
    assert!(!is_recent(Some(99), 100));
    assert!(is_recent(None, 100));
}

#[test]
fn offsets_advance_over_whole_lines_only() {
    let path = b"/home/u/projects/p/a.jsonl".to_vec();
    let mut o = Offsets::new();
    assert_eq!(o.get(&path), None);
    assert_eq!(o.begin_read(&path, 0), None);
    let start = o.begin_read(&path, 12).unwrap();
    assert_eq!(start, 0);
    let got = o.finish_read(&path, start, &b"one\r\ntwo\npar".to_vec());
    assert_eq!(got, vec!["one".to_string(), "two".to_string()]);
    assert_eq!(o.get(&path), Some(9));
    // The partial line is read again, completed, next time.
    let start = o.begin_read(&path, 16).unwrap();
    assert_eq!(start, 9);
    let got = o.finish_read(&path, start, &b"partial\n".to_vec());
    assert_eq!(got, vec!["partial".to_string()]);
    assert_eq!(o.get(&path), Some(17));
    assert_eq!(o.begin_read(&path, 17), None);
    assert_eq!(o.get(&path), Some(17));
}

#[test]
fn offsets_without_a_newline_stay_put() {
    let path = b"x.jsonl".to_vec();
    let mut o = Offsets::default();
    o.set(&path, 4);
    let got = o.finish_read(&path, 4, &b"no newline".to_vec());
    assert!(got.is_empty());
    assert_eq!(o.get(&path), Some(4));
}

#[test]
fn shrunk_files_are_reset() {
    let a = b"a".to_vec();
    let b = b"b".to_vec();
    let mut o = Offsets::new();
    o.set(&a, 100);
    o.set(&b, 50);
    assert_eq!(o.begin_read(&a, 40), None);
    assert_eq!(o.get(&a), Some(0));
    assert_eq!(o.get(&b), Some(50));
    assert_eq!(o.begin_read(&a, 40), Some(0));
}

#[test]
fn invalid_utf8_is_replaced() {
    let path = b"u".to_vec();
    let mut o = Offsets::new();
    let got = o.finish_read(&path, 0, &vec![b'a', 0xff, b'b', b'\n']);
    assert_eq!(got, vec!["a\u{fffd}b".to_string()]);
}

#[test]
fn raw_lines_are_parsed_as_json_first() {
    let line = r#"{"timestamp":"2025-06-01T12:00:00Z","message":{"model":"acme-opus-4-1","usage":{"input_tokens":1000,"cache_creation_input_tokens":200,"cache_read_input_tokens":30000,"output_tokens":400}}}"#;
    let expected = Some(LineRecord {
        ts: 1_748_779_200,
        limit: false,
        priced: Some(PricedUsage {
            tier: 0,
            tokens: TokenCounts { input: 1000, cache_creation: 200, cache_read: 30000, output: 400 },
        }),
    });
    assert_eq!(parse_line_record(line, &tiers(), &"sonnet".to_string()), expected);
    assert_eq!(parse_line_record("{not json", &tiers(), &"sonnet".to_string()), None);
    assert_eq!(parse_line_record("", &tiers(), &"sonnet".to_string()), None);
    let limit = r#"{"timestamp":"2025-06-01T12:00:00Z","message":{"model":"<synthetic>","content":[{"type":"text","text":"Usage Limit Reached"}]}}"#;
    assert_eq!(
        parse_line_record(limit, &tiers(), &"sonnet".to_string()),
        Some(LineRecord { ts: 1_748_779_200, limit: true, priced: None })
    );
}

#[test]
fn lines_before_the_cutoff_are_dropped() {
    let line = r#"{"timestamp":"2025-06-01T12:00:00Z"}"#;
    let rec = Some(LineRecord { ts: 1_748_779_200, limit: false, priced: None });
    assert_eq!(recent_record(line, &tiers(), &"sonnet".to_string(), 1_748_779_200), rec);
    assert_eq!(recent_record(line, &tiers(), &"sonnet".to_string(), 1_748_779_201), None);
    assert_eq!(recent_record("[]", &tiers(), &"sonnet".to_string(), 0), None);
}

fn read_once(o: &mut Offsets, path: &Vec<u8>, content: &[u8]) -> Vec<String> {
    match o.begin_read(path, content.len() as u64) {
        Some(start) => o.finish_read(path, start, &content[start as usize..].to_vec()),
        None => Vec::new(),
    }
}

#[test]
fn repeated_reads_return_each_line_once() {
    let path = b"grow.jsonl".to_vec();
    let other = b"other.jsonl".to_vec();
    let mut o = Offsets::new();
    o.set(&other, 7);
    let mut all: Vec<String> = Vec::new();
    all.extend(read_once(&mut o, &path, b"a\nb"));
    all.extend(read_once(&mut o, &path, b"a\nbc\nd"));
    let before = o.get(&path);
    let again = read_once(&mut o, &path, b"a\nbc\nd");
    assert!(again.is_empty());
    assert_eq!(o.get(&path), before);
    all.extend(read_once(&mut o, &path, b"a\nbc\nd\n"));
    assert!(read_once(&mut o, &path, b"a\nbc\nd\n").is_empty());
    assert_eq!(all, vec!["a".to_string(), "bc".to_string(), "d".to_string()]);
    assert_eq!(o.get(&path), Some(7));
    assert_eq!(o.get(&other), Some(7));
}

#[test]
fn records_at_a_given_time() {
    let v = usage_line("not a date", "acme-haiku-3");
    assert_eq!(parse_record(&v, &tiers(), &"sonnet".to_string()), None);
    let r = record_at(&v, 77, &tiers(), &"sonnet".to_string());
    assert_eq!(r.ts, 77);
    assert!(!r.limit);
    assert_eq!(r.priced.map(|p| p.tier), Some(2));
    let bare = obj(vec![("timestamp", s("x"))]);
    assert_eq!(record_at(&bare, -3, &tiers(), &"sonnet".to_string()), LineRecord { ts: -3, limit: false, priced: None });
}
