use filter_analyzer::text::{chars_of, compare_optional_text, compare_text, contains};
use filter_analyzer::text::{decimal_string, starts_with, Comparison};

#[test]
fn decimal_string_renders_integers() {
    assert_eq!(decimal_string(0), "0");
    assert_eq!(decimal_string(7), "7");
    assert_eq!(decimal_string(10), "10");
    assert_eq!(decimal_string(12345), "12345");
    assert_eq!(decimal_string(-1), "-1");
    assert_eq!(decimal_string(-907), "-907");
    assert_eq!(decimal_string(i64::MAX), "9223372036854775807");
    assert_eq!(decimal_string(i64::MIN), "-9223372036854775808");
    assert_eq!(decimal_string(i32::MIN as i64), "-2147483648");
    for n in -1100i64..1100 {
        assert_eq!(decimal_string(n), n.to_string());
    }
}

#[test]
fn compare_text_orders_by_bytes() {
    assert_eq!(compare_text("", ""), Comparison::Equal);
    assert_eq!(compare_text("", "a"), Comparison::Less);
    assert_eq!(compare_text("a", ""), Comparison::Greater);
    assert_eq!(compare_text("abc", "abd"), Comparison::Less);
    assert_eq!(compare_text("abc", "abc"), Comparison::Equal);
    assert_eq!(compare_text("abc", "ab"), Comparison::Greater);
    assert_eq!(compare_text("Z", "a"), Comparison::Less);
    assert_eq!(compare_text("z", "\u{e9}"), Comparison::Less);
    assert_eq!(compare_text("\u{10000}", "\u{ffff}"), Comparison::Greater);
}

#[test]
fn compare_text_agrees_with_the_order_of_strings() {
    let words = ["", "1", "12", "1X", "GG", "X", "X2", "a", "ab", "b", "\u{e9}", "\u{4e2d}"];
    for a in words {
        for b in words {
            let expected = match a.cmp(b) {
                std::cmp::Ordering::Less => Comparison::Less,
                std::cmp::Ordering::Equal => Comparison::Equal,
                std::cmp::Ordering::Greater => Comparison::Greater,
            };
            assert_eq!(compare_text(a, b), expected);
        }
    }
}

#[test]
fn compare_optional_text_puts_absent_first() {
    let a = Some("a".to_string());
    let b = Some("b".to_string());
    assert_eq!(compare_optional_text(&None, &None), Comparison::Equal);
    assert_eq!(compare_optional_text(&None, &a), Comparison::Less);
    assert_eq!(compare_optional_text(&a, &None), Comparison::Greater);
    assert_eq!(compare_optional_text(&a, &b), Comparison::Less);
    assert_eq!(compare_optional_text(&b, &a), Comparison::Greater);
    assert_eq!(compare_optional_text(&a, &a), Comparison::Equal);
    assert_eq!(compare_optional_text(&None, &Some(String::new())), Comparison::Less);
}

#[test]
fn chars_of_lists_the_characters() {
    assert_eq!(chars_of(""), Vec::<char>::new());
    assert_eq!(chars_of("a\u{e9}z"), vec!['a', '\u{e9}', 'z']);
}

#[test]
fn starts_with_tests_the_prefix() {
    assert!(starts_with("CO85", "CO"));
    assert!(starts_with("CO", "CO"));
    assert!(!starts_with("C", "CO"));
    assert!(!starts_with("XCO", "CO"));
    assert!(starts_with("anything", ""));
    assert!(starts_with("", ""));
    assert!(!starts_with("", "a"));
    assert!(starts_with("\u{e9}t\u{e9}", "\u{e9}t"));
}

#[test]
fn contains_finds_the_word_anywhere() {
    assert!(contains("live.json", "live"));
    assert!(contains("existing_live.json", "live"));
    assert!(contains("data/olive", "live"));
    assert!(!contains("pre.json", "live"));
    assert!(!contains("liv", "live"));
    assert!(!contains("l-i-v-e", "live"));
    assert!(contains("abc", ""));
    assert!(contains("", ""));
    assert!(!contains("", "a"));
    assert!(contains("lilive", "live"));
    assert!(contains("Live live", "live"));
    assert!(!contains("LIVE", "live"));
}
