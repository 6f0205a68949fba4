use log_normalizer::number::{parse_u16, push_digits, push_integer};
use log_normalizer::text::{
    blank, contains, find, is_whitespace, same, split_n, split_whitespace, to_chars, to_text, trim,
};

#[test]
fn whitespace_agrees_with_the_standard_library() {
    for code in 0..=0x10ffffu32 {
        if let Some(c) = char::from_u32(code) {
            assert_eq!(is_whitespace(c), c.is_whitespace(), "{:x}", code);
        }
    }
}

#[test]
fn trimming_agrees_with_the_standard_library() {
    for s in ["", " ", "a", " a ", "\u{2003}x y\u{85}\n", "\t\u{e9}\u{200b} "] {
        assert_eq!(trim(s), s.trim());
        assert_eq!(blank(s), s.trim().is_empty());
    }
}

#[test]
fn splitting_agrees_with_the_standard_library() {
    for s in ["", "  ", "a", " a  b\tc ", "x\u{3000}y", "one two  three"] {
        let expected: Vec<&str> = s.split_whitespace().collect();
        assert_eq!(split_whitespace(s), expected);
    }
    for s in ["", "|", "a|b", "a|b|c|d", "\u{e9}|x||"] {
        for limit in 0..6usize {
            let expected: Vec<&str> = s.splitn(limit, '|').collect();
            assert_eq!(split_n(s, '|', limit), expected);
        }
    }
}

#[test]
fn searching_agrees_with_the_standard_library() {
    for (text, needle) in [("abcabc", "ca"), ("abc", ""), ("", "a"), ("aab", "ab"), ("x", "xy")] {
        assert_eq!(contains(text, needle), text.contains(needle));
        assert_eq!(find(&to_chars(text), &to_chars(needle)), text.find(needle));
    }
    assert!(same("a\u{e9}", "a\u{e9}"));
    assert!(!same("a", "ab"));
    assert_eq!(to_text(&to_chars("a\u{e9}bc"), 1, 3), "\u{e9}b");
}

#[test]
fn numbers_agree_with_the_standard_library() {
    for s in ["0", "13", "+7", "65535", "65536", "0000000134", "", "+", "-1", " 1", "1 ", "9x", "99999999999"] {
        assert_eq!(parse_u16(s), s.parse::<u16>().ok(), "{}", s);
    }
    for v in [0u32, 7, 10, 134, 4294967295] {
        let mut text = String::from("x");
        push_digits(&mut text, 3, v);
        assert_eq!(text, format!("x{:03}", v));
    }
    for v in [0i32, -5, 2026, i32::MIN, i32::MAX] {
        let mut text = String::new();
        push_integer(&mut text, v);
        assert_eq!(text, v.to_string());
    }
}

#[test]
fn decimal_numbers_read_back() {
    for v in [0u16, 1, 9, 10, 99, 134, 65535] {
        let mut text = String::new();
        push_digits(&mut text, 1, v as u32);
        assert_eq!(parse_u16(&text), Some(v));
    }
}
