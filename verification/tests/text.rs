use mnem_global::text::{bracket, chars_of, contains_text, decimal_text};

#[test]
fn decimal_text_values() {
    assert_eq!(decimal_text(0), "0");
    assert_eq!(decimal_text(7), "7");
    assert_eq!(decimal_text(10), "10");
    assert_eq!(decimal_text(1234567890), "1234567890");
    assert_eq!(decimal_text(u64::MAX), "18446744073709551615");
}

#[test]
fn bracket_wraps_label() {
    assert_eq!(bracket("notes"), "[notes]");
    assert_eq!(bracket(""), "[]");
}

#[test]
fn chars_of_keeps_unicode() {
    assert_eq!(chars_of("añb"), vec!['a', 'ñ', 'b']);
}

#[test]
fn contains_text_cases() {
    assert!(contains_text("abc", ""));
    assert!(contains_text("abc", "abc"));
    assert!(contains_text("xxabcxx", "bcx"));
    assert!(!contains_text("ab", "abc"));
    assert!(!contains_text("aabab", "abb"));
    assert!(contains_text("ééx", "éx"));
}

use mnem_global::text::{text_lines, trim_text};

#[test]
fn trim_matches_std() {
    for s in ["", "  ", " a ", "\t\na b\r\n", "\u{3000}x\u{2029}", "\u{200b}x", "x\u{feff}", "é é"] {
        assert_eq!(trim_text(s), s.trim(), "{s:?}");
    }
}

#[test]
fn lines_match_std() {
    for s in ["", "\n", "a", "a\n", "a\r\nb", "a\r", "a\rb\n\nc", "\r\n\r\n", "x\n\ny\r\r\n"] {
        let ours: Vec<&str> = text_lines(s);
        let std_lines: Vec<&str> = s.lines().collect();
        assert_eq!(ours, std_lines, "{s:?}");
    }
}
