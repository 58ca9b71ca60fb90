use lan_inventory::case::{lowercase, lowercase_text, uppercase};
use lan_inventory::number::{format_decimal, parse_decimal, parse_unsigned};
use lan_inventory::search::{contains, find, has_prefix, has_suffix};
use lan_inventory::split::{split_chars, split_fields, split_lines};
use lan_inventory::tally::count_labels;
use lan_inventory::text::{chars_of, same_text, trimmed};

fn chars(s: &str) -> Vec<char> {
    s.chars().collect()
}

fn text(v: &[char]) -> String {
    v.iter().collect()
}

fn texts(v: Vec<Vec<char>>) -> Vec<String> {
    v.iter().map(|p| text(p)).collect()
}

#[test]
fn chars_are_the_characters() {
    assert_eq!(chars_of("a\u{e9}\u{1f600}z"), vec!['a', '\u{e9}', '\u{1f600}', 'z']);
    assert!(chars_of("").is_empty());
    assert!(same_text("abc", "abc"));
    assert!(!same_text("abc", "abd"));
    assert!(!same_text("abc", "ab"));
}

#[test]
fn trimming_follows_the_standard_library() {
    for s in ["", " ", "  a b  ", "\t\r\nx\u{a0}\u{2003}", "\u{3000}y\u{85}", "no-space", "\u{200b}z ", " \u{1680}\u{2028}\u{2029}\u{202f}\u{205f}w\u{b}\u{c}"] {
        assert_eq!(text(&trimmed(&chars(s))), s.trim());
    }
}

#[test]
fn lines_follow_the_standard_library() {
    for s in ["", "a", "a\n", "a\nb", "a\r\nb\r\n", "\n", "\n\n", "a\r", "a\r\n\r\n", "\r\n", "a\n\nb", "x\r\r\ny", "\rz\n"] {
        let expected: Vec<String> = s.lines().map(|l| l.to_string()).collect();
        assert_eq!(texts(split_lines(&chars(s))), expected);
    }
}

#[test]
fn fields_follow_the_standard_library() {
    for s in ["", "   ", "a", " a  b\tc\n", "x\u{a0}y", "\u{3000}one\u{2003}two ", "a,b c"] {
        let expected: Vec<String> = s.split_whitespace().map(|l| l.to_string()).collect();
        assert_eq!(texts(split_fields(&chars(s))), expected);
    }
}

#[test]
fn splitting_follows_the_standard_library() {
    for s in ["", ".", "a.b", "a..b", ".a.", "1.2.3.4", "no dots", "..."] {
        let expected: Vec<String> = s.split('.').map(|l| l.to_string()).collect();
        assert_eq!(texts(split_chars(&chars(s), '.')), expected);
    }
}

#[test]
fn searching_follows_the_standard_library() {
    let cases = [("hello world", "o w"), ("hello", ""), ("", ""), ("", "a"), ("aaa", "aa"), ("abcabc", "cab"), ("abc", "abcd"), ("xyz", "z"), ("xyz", "x")];
    for (s, p) in cases {
        assert_eq!(contains(&chars(s), &chars(p)), s.contains(p));
        assert_eq!(find(&chars(s), &chars(p)), s.find(p));
        assert_eq!(has_prefix(&chars(s), &chars(p)), s.starts_with(p));
        assert_eq!(has_suffix(&chars(s), &chars(p)), s.ends_with(p));
    }
}

#[test]
fn case_follows_the_standard_library() {
    for s in ["", "Hello World 123", "ALREADY", "mixed-CASE_09", "\u{c9}COLE", "Stra\u{df}e", "\u{130}stanbul", "\u{3a3}\u{3a3}", "a\u{e9}Z"] {
        assert_eq!(text(&lowercase(&chars(s))), s.to_lowercase());
        assert_eq!(text(&uppercase(&chars(s))), s.to_uppercase());
        assert_eq!(lowercase_text(s), s.to_lowercase());
    }
}

#[test]
fn decimal_numbers_are_read() {
    assert_eq!(parse_decimal(&chars("0"), 255), Some(0));
    assert_eq!(parse_decimal(&chars("255"), 255), Some(255));
    assert_eq!(parse_decimal(&chars("256"), 255), None);
    assert_eq!(parse_decimal(&chars("0255"), 255), Some(255));
    assert_eq!(parse_decimal(&chars(""), 255), None);
    assert_eq!(parse_decimal(&chars("2x"), 255), None);
    assert_eq!(parse_decimal(&chars("18446744073709551615"), u64::MAX), Some(u64::MAX));
    assert_eq!(parse_decimal(&chars("18446744073709551616"), u64::MAX), None);
    assert_eq!(parse_decimal(&chars("7"), 0), None);
    assert_eq!(parse_decimal(&chars("000"), 0), Some(0));
    assert_eq!(parse_unsigned(&chars("+42"), 100), Some(42));
    assert_eq!(parse_unsigned(&chars("++42"), 100), None);
    assert_eq!(parse_unsigned(&chars("+"), 100), None);
    assert_eq!(parse_unsigned(&chars("101"), 100), None);
}

#[test]
fn decimal_numbers_are_written() {
    for n in [0u64, 1, 9, 10, 11, 99, 100, 254, 65535, 1700000000, u64::MAX] {
        assert_eq!(text(&format_decimal(n)), n.to_string());
    }
}

#[test]
fn labels_are_counted_in_order_of_first_meeting() {
    let labels: Vec<String> = ["b", "a", "b", "c", "a", "b"].iter().map(|s| s.to_string()).collect();
    let counts: Vec<(String, usize)> = count_labels(&labels).iter().map(|c| (c.label.clone(), c.count)).collect();
    assert_eq!(counts, vec![("b".to_string(), 3), ("a".to_string(), 2), ("c".to_string(), 1)]);
    assert!(count_labels(&vec![]).is_empty());
}
