//! The string model: trimming, lines, words, search, numbers.

use pxi_core::text::{
    contains_str, decimal_string, find_str, parse_u64_str, split_lines, split_ws, str_eq,
    str_less, strip_prefix_str, strip_suffix_str, trim_char_str, trim_start_char_str,
    trim_start_str, trim_str,
};

#[test]
fn trim_removes_unicode_white_space() {
    assert_eq!(trim_str("  \t a b \n"), "a b");
    assert_eq!(trim_str("\u{3000}x\u{a0}"), "x");
    assert_eq!(trim_str("   "), "");
    assert_eq!(trim_start_str("  a "), "a ");
}

#[test]
fn trim_char_variants() {
    assert_eq!(trim_char_str("\"v\"\"", '"'), "v");
    assert_eq!(trim_start_char_str("##x#", '#'), "x#");
}

#[test]
fn lines_follow_str_lines() {
    assert_eq!(split_lines(""), Vec::<&str>::new());
    assert_eq!(split_lines("\n"), vec![""]);
    assert_eq!(split_lines("a\r\nb\n\nc"), vec!["a", "b", "", "c"]);
    assert_eq!(split_lines("a\r"), vec!["a\r"]);
    for s in ["x\ny\n", "x\r\n\r\ny", "\n\n", "tail"] {
        assert_eq!(split_lines(s), s.lines().collect::<Vec<_>>());
    }
}

#[test]
fn words_follow_split_whitespace() {
    assert_eq!(split_ws("  100 web\trunning  "), vec!["100", "web", "running"]);
    assert_eq!(split_ws("   "), Vec::<&str>::new());
}

#[test]
fn search_and_affixes() {
    assert_eq!(find_str("abcabc", "ca"), Some(2));
    assert_eq!(find_str("abc", "x"), None);
    assert_eq!(find_str("한글abc", "b"), Some(3));
    assert!(contains_str("status: running", "running"));
    assert_eq!(strip_prefix_str("status: x", "status: "), Some("x"));
    assert_eq!(strip_prefix_str("state: x", "status: "), None);
    assert_eq!(strip_suffix_str("40GB", "GB"), Some("40"));
    assert!(str_eq("a", "a"));
    assert!(!str_eq("a", "ab"));
}

#[test]
fn string_order() {
    assert!(str_less("a", "b"));
    assert!(str_less("ab", "abc"));
    assert!(!str_less("b", "a"));
    assert!(!str_less("a", "a"));
    assert!(str_less("Z", "a"));
}

#[test]
fn parse_u64_like_from_str() {
    assert_eq!(parse_u64_str("40"), Some(40));
    assert_eq!(parse_u64_str("+7"), Some(7));
    assert_eq!(parse_u64_str("+"), None);
    assert_eq!(parse_u64_str(""), None);
    assert_eq!(parse_u64_str("-1"), None);
    assert_eq!(parse_u64_str("18446744073709551615"), Some(u64::MAX));
    assert_eq!(parse_u64_str("18446744073709551616"), None);
    assert_eq!(parse_u64_str("4x"), None);
}

#[test]
fn decimal_rendering() {
    assert_eq!(decimal_string(0), "0");
    assert_eq!(decimal_string(50118), "50118");
    assert_eq!(decimal_string(u64::MAX), u64::MAX.to_string());
}
