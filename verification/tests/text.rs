use mattermost::text::{
    bool_to_string, contains, is_whitespace, starts_with, text_less, trim, trim_start_matches,
    u64_to_string,
};

#[test]
fn trim_removes_surrounding_white_space() {
    assert_eq!(trim("  hello world \t\n"), "hello world");
    assert_eq!(trim("\u{3000}x\u{a0}"), "x");
    assert_eq!(trim("   "), "");
    assert_eq!(trim(""), "");
    assert_eq!(trim("a b"), "a b");
}

#[test]
fn whitespace_agrees_with_std() {
    for u in 0u32..0x3100 {
        if let Some(c) = char::from_u32(u) {
            assert_eq!(is_whitespace(c), c.is_whitespace(), "code point {u:#x}");
        }
    }
}

#[test]
fn trim_agrees_with_std() {
    for s in ["", " ", " a ", "\u{85}b\u{2028}", "x\u{200b}", "\t\r\nab c\u{205f}"] {
        assert_eq!(trim(s), s.trim());
    }
}

#[test]
fn starts_with_prefix() {
    assert!(starts_with("MMCSRF=abc", "MMCSRF="));
    assert!(starts_with("abc", ""));
    assert!(!starts_with("MMCSR", "MMCSRF="));
    assert!(!starts_with("xMMCSRF=", "MMCSRF="));
}

#[test]
fn trim_start_matches_removes_every_repetition() {
    assert_eq!(trim_start_matches("MMCSRF=MMCSRF=x", "MMCSRF="), "x");
    assert_eq!(trim_start_matches("MMCSRF=", "MMCSRF="), "");
    assert_eq!(trim_start_matches("abc", "x"), "abc");
    assert_eq!(trim_start_matches("abc", ""), "abc");
    assert_eq!(trim_start_matches("ababx", "ab"), "ababx".trim_start_matches("ab"));
}

#[test]
fn contains_finds_substrings() {
    assert!(contains("town square", "square"));
    assert!(contains("abc", ""));
    assert!(contains("", ""));
    assert!(!contains("", "a"));
    assert!(!contains("abc", "abcd"));
    assert!(contains("aab", "ab"));
    assert!(!contains("abc", "ac"));
}

#[test]
fn decimal_numerals() {
    assert_eq!(u64_to_string(0), "0");
    assert_eq!(u64_to_string(7), "7");
    assert_eq!(u64_to_string(10), "10");
    assert_eq!(u64_to_string(30), "30");
    assert_eq!(u64_to_string(1234567890), "1234567890");
    assert_eq!(u64_to_string(u64::MAX), u64::MAX.to_string());
}

#[test]
fn bool_texts() {
    assert_eq!(bool_to_string(true), "true");
    assert_eq!(bool_to_string(false), "false");
}

#[test]
fn text_order_is_that_of_strings() {
    let words = ["", "a", "ab", "b", "B", "é", "z", "zz", "ä", "\u{1F600}", "u1", "u10", "u2"];
    for a in words {
        for b in words {
            assert_eq!(text_less(a, b), a < b, "{a:?} < {b:?}");
        }
    }
}
