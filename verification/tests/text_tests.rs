use yomitan::deinflect::transformer;
use yomitan::guard::StartupGuard;
use yomitan::jsonval::{i64_to_string, to_json_string, Jval};
use yomitan::repair::repair;
use yomitan::text::{normalize_name, split_whitespace, str_to_chars, tag_names};

#[test]
fn repair_fixes_bad_unicode_escape() {
    let out = repair(br#""broken \u and \x escape""#);
    assert_eq!(out, br#""broken \uFFFD and \\x escape""#.to_vec());
}

#[test]
fn repair_keeps_good_escapes() {
    let input = "\"a\u{e9}b\\nc\\\\d\\\"e\"".as_bytes().to_vec();
    assert_eq!(repair(&input), input);
}

#[test]
fn repair_is_idempotent_on_concrete_buffer() {
    let once = repair(br#"\u12 \q \ "#);
    let twice = repair(&once);
    assert_eq!(once, twice);
}

#[test]
fn repair_escapes_trailing_backslash() {
    assert_eq!(repair(br#"abc\"#), br#"abc\\"#.to_vec());
}

#[test]
fn tag_names_split_and_dedup() {
    let tags = tag_names("n common  n vulgar");
    assert_eq!(tags, vec!["n".to_string(), "common".to_string(), "vulgar".to_string()]);
    assert_eq!(tag_names("   "), Vec::<String>::new());
}

#[test]
fn split_whitespace_words() {
    let words = split_whitespace("\ta b\n cc ");
    assert_eq!(words, vec!["a".to_string(), "b".to_string(), "cc".to_string()]);
}

#[test]
fn normalize_name_trims_and_folds_case() {
    let chars = str_to_chars("  My Dictionary\t");
    let norm = normalize_name(&chars);
    let expected: Vec<char> = "my dictionary".chars().collect();
    assert_eq!(norm, expected);
}

#[test]
fn json_serializer_escapes_and_renders() {
    let j = Jval::Obj(vec![
        ("k\"ey".to_string(), Jval::Arr(vec![Jval::Int(-3), Jval::Bool(true), Jval::Null])),
        ("s".to_string(), Jval::Str("a\\b\ntail".to_string())),
    ]);
    let s = to_json_string(&j);
    assert_eq!(s, "{\"k\\\"ey\":[-3,true,null],\"s\":\"a\\\\b\\u000atail\"}");
}

#[test]
fn integer_rendering() {
    assert_eq!(i64_to_string(0), "0");
    assert_eq!(i64_to_string(-120), "-120");
    assert_eq!(i64_to_string(i64::MIN), "-9223372036854775808");
    assert_eq!(i64_to_string(i64::MAX), "9223372036854775807");
}

#[test]
fn french_rules_deinflect() {
    let d = transformer();
    let cands = d.deinflect("chats");
    assert!(cands.iter().any(|c| c == "chat"));
    let cands2 = d.deinflect("mang\u{e9}");
    assert!(cands2.iter().any(|c| c == "manger"));
}

#[test]
fn startup_guard_window() {
    let g = StartupGuard::new(1000, 30);
    assert!(g.active(1000));
    assert!(g.active(1029));
    assert!(!g.active(1030));
    assert_eq!(g.remaining_secs(1010), 20);
    assert_eq!(g.remaining_secs(2000), 0);
}
