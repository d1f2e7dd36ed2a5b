use container_hotplug::number::{parse_number, to_decimal, to_padded, NumberError};
use container_hotplug::text::{
    ends_with, is_alphanumeric_str, is_digits, is_hex4, same, split_once, split_str, starts_with,
    strip_prefix, to_ascii_lowercase, to_lines, to_words, trim,
};
use container_hotplug::util::escape::{unescape_devnode, InvalidEscape};

#[test]
fn numbers_are_read() {
    assert_eq!(parse_number("42"), Ok(42));
    assert_eq!(parse_number("+42"), Ok(42));
    assert_eq!(parse_number("007"), Ok(7));
    assert_eq!(parse_number("4294967295"), Ok(4294967295));
}

#[test]
fn numbers_are_refused() {
    assert_eq!(parse_number(""), Err(NumberError::Empty));
    assert_eq!(parse_number("+"), Err(NumberError::InvalidDigit));
    assert_eq!(parse_number("-1"), Err(NumberError::InvalidDigit));
    assert_eq!(parse_number("12x"), Err(NumberError::InvalidDigit));
    assert_eq!(parse_number("4294967296"), Err(NumberError::TooLarge));
    assert_eq!(parse_number("4294967296x"), Err(NumberError::TooLarge));
    assert_eq!(parse_number("429496729x6"), Err(NumberError::InvalidDigit));
}

#[test]
fn numbers_agree_with_std() {
    for word in [
        "", "+", "-", "0", "00", "+0", "-0", "1 ", " 1", "99999999", "999999999", "9999999999",
        "99999999999", "4294967295", "4294967296", "+4294967295", "x", "1_0", "\u{661}",
    ] {
        assert_eq!(parse_number(word).ok(), word.parse::<u32>().ok(), "{word}");
    }
}

#[test]
fn decimals_read_back() {
    for n in [0u32, 1, 9, 10, 99, 100, 12345, 4294967295] {
        assert_eq!(to_decimal(n), n.to_string());
        assert_eq!(parse_number(&to_decimal(n)), Ok(n));
    }
}

#[test]
fn numbers_are_padded() {
    assert_eq!(to_padded("7", 3, '0'), "007");
    assert_eq!(to_padded("1234", 3, '0'), "1234");
    assert_eq!(to_padded("", 2, ' '), "  ");
}

#[test]
fn text_is_split() {
    assert_eq!(split_str("a,b,,c", ','), vec!["a", "b", "", "c"]);
    assert_eq!(split_str("", ','), vec![""]);
    assert_eq!(
        split_once("usb:1:2", ':'),
        Some(("usb".to_string(), "1:2".to_string()))
    );
    assert_eq!(split_once("usb", ':'), None);
    assert_eq!(strip_prefix("parent-of:x", "parent-of:"), Some("x".to_string()));
    assert_eq!(strip_prefix("parent", "parent-of:"), None);
}

#[test]
fn text_is_compared() {
    assert!(same("a\u{e4}", "a\u{e4}"));
    assert!(!same("a", "ab"));
    assert!(starts_with("populated 1", "populated "));
    assert!(!starts_with("populated", "populated "));
    assert!(ends_with("populated 1", '1'));
    assert!(!ends_with("", '1'));
}

#[test]
fn characters_are_classified() {
    assert!(is_hex4("2b3E"));
    assert!(!is_hex4("2b3"));
    assert!(!is_hex4("2b3g"));
    assert!(!is_hex4("2b3\u{e4}"));
    assert!(is_alphanumeric_str("aZ09"));
    assert!(!is_alphanumeric_str("a-b"));
    assert!(is_digits("0123456789"));
    assert!(!is_digits("12a"));
    assert_eq!(to_ascii_lowercase("2B3E\u{c4}"), "2b3e\u{c4}");
}

#[test]
fn white_space_is_trimmed() {
    for s in ["", " ", "  a b\t", "\u{a0}x\u{2003}", "x\u{85}", "\u{200b}x"] {
        assert_eq!(trim(s), s.trim(), "{s:?}");
    }
}

#[test]
fn lines_and_words_agree_with_std() {
    for s in ["", "\n", "a", "a\n", "a\r\nb", "a\r", "\n\na\n", "a\r\r\n"] {
        assert_eq!(to_lines(s), s.lines().collect::<Vec<_>>(), "{s:?}");
    }
    for s in ["", " ", "0 0 4294967295", "\t1\u{c}2\r3\n", "a\u{a0}b"] {
        assert_eq!(to_words(s), s.split_ascii_whitespace().collect::<Vec<_>>(), "{s:?}");
    }
}

#[test]
fn escapes_are_undone() {
    assert_eq!(unescape_devnode("plain"), Ok("plain".to_string()));
    assert_eq!(unescape_devnode("lowRISC\\x20C.I.C."), Ok("lowRISC C.I.C.".to_string()));
    assert_eq!(unescape_devnode("\\x5c\\xc3\\xa4"), Ok("\\\u{e4}".to_string()));
}

#[test]
fn invalid_escapes_are_refused() {
    assert_eq!(unescape_devnode("\\"), Err(InvalidEscape));
    assert_eq!(unescape_devnode("\\n"), Err(InvalidEscape));
    assert_eq!(unescape_devnode("\\x2"), Err(InvalidEscape));
    assert_eq!(unescape_devnode("\\xzz"), Err(InvalidEscape));
    assert_eq!(unescape_devnode("\\xff"), Err(InvalidEscape));
}
