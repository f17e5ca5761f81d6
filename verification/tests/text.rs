//! Texts, held against the standard library.
use codex_bridge::search::{
    has_char, has_prefix, has_suffix, has_text, replace, split_lines, split_text,
};
use codex_bridge::text::{
    byte_len, char_width, decimal_text, is_blank, is_control, is_less, is_white, join2, join3,
    parse_unsigned, same_ignoring_case, signed_text, take_bytes, take_bytes_lossy, to_chars,
    to_lowered, to_uppered, trim,
};

const SAMPLES: [&str; 9] = [
    "",
    "a",
    " \t x y \u{3000}\n",
    "aaa",
    "abcabc",
    "\u{1f642}\u{754c}e\u{301}",
    "MiXed-Case_09",
    "one\r\ntwo\n\nthree\r",
    "x::y::",
];

#[test]
fn characters_are_classed_as_in_std() {
    for code in 0u32..=0x10ffff {
        if let Some(c) = char::from_u32(code) {
            assert_eq!(is_white(c), c.is_whitespace(), "{code:x}");
            assert_eq!(is_control(c), c.is_control(), "{code:x}");
            assert_eq!(char_width(c), c.len_utf8(), "{code:x}");
        }
    }
}

#[test]
fn texts_are_searched_as_in_std() {
    for text in SAMPLES {
        for pattern in ["a", "aa", "bc", "::", "\u{754c}", "zz", "ab"] {
            assert_eq!(has_text(text, pattern), text.contains(pattern));
            assert_eq!(has_prefix(text, pattern), text.starts_with(pattern));
            assert_eq!(has_suffix(text, pattern), text.ends_with(pattern));
            assert_eq!(replace(text, pattern, "<>"), text.replace(pattern, "<>"));
        }
        assert_eq!(has_char(text, 'a'), text.contains('a'));
        assert_eq!(split_text(text, ':'), text.split(':').collect::<Vec<_>>());
        assert_eq!(split_lines(text), text.lines().collect::<Vec<_>>());
    }
}

#[test]
fn texts_are_changed_as_in_std() {
    for text in SAMPLES {
        assert_eq!(trim(text), text.trim());
        assert_eq!(is_blank(text), text.trim().is_empty());
        assert_eq!(byte_len(text), text.len());
        assert_eq!(to_chars(text), text.chars().collect::<Vec<_>>());
        assert_eq!(to_lowered(text), text.to_ascii_lowercase());
        assert_eq!(to_uppered(text), text.to_ascii_uppercase());
        assert_eq!(join2(text, "!"), format!("{text}!"));
        assert_eq!(join3("<", text, ">"), format!("<{text}>"));
        for other in SAMPLES {
            assert_eq!(is_less(text, other), text < other);
            assert_eq!(
                same_ignoring_case(text, other),
                text.eq_ignore_ascii_case(other)
            );
        }
    }
}

#[test]
fn prefixes_end_between_characters() {
    let text = "a\u{754c}b";
    assert_eq!(take_bytes(text, 0), (String::new(), 0));
    assert_eq!(take_bytes(text, 3), ("a".to_owned(), 1));
    assert_eq!(take_bytes(text, 4), ("a\u{754c}".to_owned(), 4));
    assert_eq!(take_bytes(text, 99), (text.to_owned(), 5));
    for text in SAMPLES {
        for limit in 0..=text.len() {
            let expected = String::from_utf8_lossy(&text.as_bytes()[..limit]).into_owned();
            assert_eq!(take_bytes_lossy(text, limit), expected, "{text:?} {limit}");
        }
    }
}

#[test]
fn numbers_are_written_and_read() {
    for n in [0u64, 9, 10, 1234, u64::MAX] {
        assert_eq!(decimal_text(n), n.to_string());
        assert_eq!(parse_unsigned(&n.to_string(), 10, u64::MAX), Some(n));
    }
    for n in [0i64, -1, 42, i64::MIN, i64::MAX] {
        assert_eq!(signed_text(n), n.to_string());
    }
    for text in ["", "+", "-1", "1 ", "0x1", "18446744073709551616", "\u{661}"] {
        assert_eq!(
            parse_unsigned(text, 10, u64::MAX),
            text.parse::<u64>().ok(),
            "{text}"
        );
    }
    assert_eq!(parse_unsigned("+7", 10, 100), "+7".parse::<u64>().ok());
    assert_eq!(parse_unsigned("777", 8, 1000), Some(0o777));
    assert_eq!(parse_unsigned("101", 10, 100), None);
}
