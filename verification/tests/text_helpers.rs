use tokentank::text::{
    chars_of, contains_chars, lines, lowercase_chars, parse_u32, split_colon, strip_bom_chars,
    trim_chars, next_word_at,
};

fn cs(s: &str) -> Vec<char> {
    s.chars().collect()
}

fn st(v: &[char]) -> String {
    v.iter().collect()
}

#[test]
fn chars_of_keeps_every_character() {
    assert_eq!(chars_of("aé\u{2014}z"), vec!['a', 'é', '\u{2014}', 'z']);
    assert_eq!(chars_of(""), Vec::<char>::new());
}

#[test]
fn trim_removes_unicode_whitespace_at_both_ends() {
    assert_eq!(st(&trim_chars(&cs("  max_5x\t\n"))), "max_5x");
    assert_eq!(st(&trim_chars(&cs("\u{3000}pro\u{a0}"))), "pro");
    assert_eq!(st(&trim_chars(&cs("   "))), "");
    assert_eq!(st(&trim_chars(&cs("a b"))), "a b");
}

#[test]
fn words_are_split_at_whitespace() {
    let s = cs("  wed \t 05:59  extra");
    let (w1, e1) = next_word_at(&s, 0).unwrap();
    assert_eq!(st(&w1), "wed");
    let (w2, e2) = next_word_at(&s, e1).unwrap();
    assert_eq!(st(&w2), "05:59");
    let (w3, e3) = next_word_at(&s, e2).unwrap();
    assert_eq!(st(&w3), "extra");
    assert!(next_word_at(&s, e3).is_none());
    assert!(next_word_at(&cs(" \t "), 0).is_none());
}

#[test]
fn colon_split_takes_the_first_two_pieces() {
    let (a, b) = split_colon(&cs("05:59:30")).unwrap();
    assert_eq!((st(&a), st(&b)), ("05".to_string(), "59".to_string()));
    let (a, b) = split_colon(&cs(":")).unwrap();
    assert_eq!((st(&a), st(&b)), (String::new(), String::new()));
    assert!(split_colon(&cs("0559")).is_none());
}

#[test]
fn u32_parsing_matches_std() {
    for s in ["0", "05", "+7", "4294967295", "4294967296", "", "+", "-0", "-5", "++1", "1a", " 1", "٣", "00000000000000000042"] {
        assert_eq!(parse_u32(&cs(s)), s.parse::<u32>().ok(), "input {:?}", s);
    }
}

#[test]
fn substring_search() {
    assert!(contains_chars(&cs("acme-opus-4"), &cs("opus")));
    assert!(!contains_chars(&cs("acme-sonnet"), &cs("opus")));
    assert!(contains_chars(&cs("anything"), &cs("")));
    assert!(!contains_chars(&cs("op"), &cs("opus")));
}

#[test]
fn lowercasing_uses_unicode_mapping() {
    assert_eq!(st(&lowercase_chars(&cs("WED"))), "wed");
    assert_eq!(st(&lowercase_chars(&cs("Limit Reached"))), "limit reached");
    assert_eq!(st(&lowercase_chars(&cs("ÉTÉ"))), "été");
}

#[test]
fn byte_order_marks_are_stripped_from_the_start_only() {
    assert_eq!(st(&strip_bom_chars(&cs("\u{feff}\u{feff}{\"a\":1}"))), "{\"a\":1}");
    assert_eq!(st(&strip_bom_chars(&cs("{}\u{feff}"))), "{}\u{feff}");
    assert_eq!(st(&strip_bom_chars(&cs(""))), "");
}

#[test]
fn lines_match_str_lines() {
    for s in ["a\r\nb\n\nc\r", "one\n", "\n", "", "x\ry\n", "tail"] {
        let want: Vec<String> = s.lines().map(|l| l.to_string()).collect();
        assert_eq!(lines(&cs(s)), want, "input {:?}", s);
    }
}
