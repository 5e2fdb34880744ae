use etr::text::{
    decimal_text, is_whitespace, lines_of, parse_u16, parse_unsigned, split_once, split_text,
    strip_prefix, strip_suffix, to_lower, trim_both, trim_tail, words_of,
};

#[test]
fn white_space_is_what_unicode_says() {
    for n in 0..=0x10ffffu32 {
        if let Some(c) = char::from_u32(n) {
            assert_eq!(is_whitespace(c), c.is_whitespace(), "U+{n:04X}");
        }
    }
}

#[test]
fn lines_and_words_are_split_as_usual() {
    for s in ["", "\n", "a", "a\n", "a\r\nb\r", "\r\n\n x \ty\u{a0}z \n", "a\r\r\n"] {
        assert_eq!(lines_of(s), s.lines().collect::<Vec<_>>(), "{s:?}");
        assert_eq!(words_of(s), s.split_whitespace().collect::<Vec<_>>(), "{s:?}");
        assert_eq!(trim_both(s), s.trim(), "{s:?}");
        assert_eq!(trim_tail(s), s.trim_end(), "{s:?}");
        assert_eq!(split_text(s, 'x'), s.split('x').collect::<Vec<_>>(), "{s:?}");
        assert_eq!(split_once(s, 'x'), s.split_once('x'), "{s:?}");
        assert_eq!(to_lower(s), s.to_ascii_lowercase(), "{s:?}");
    }
    assert_eq!(to_lower("A\u{c4}z"), "a\u{c4}z");
}

#[test]
fn prefixes_and_suffixes_are_stripped() {
    assert_eq!(strip_prefix("\u{e9}ab", "\u{e9}"), Some("ab"));
    assert_eq!(strip_prefix("a", "ab"), None);
    assert_eq!(strip_suffix("x/udp", "/udp"), Some("x"));
    assert_eq!(strip_suffix("x/tcp", "/udp"), None);
}

#[test]
fn numbers_are_read_as_usual() {
    for s in ["0", "65535", "65536", "+7", "007", "", "+", "-1", "1 ", "1a", "99999999999999999999"] {
        assert_eq!(parse_u16(s), s.parse::<u16>().ok(), "{s:?}");
        assert_eq!(parse_unsigned(s, u64::MAX), s.parse::<u64>().ok(), "{s:?}");
    }
    assert_eq!(parse_unsigned("18446744073709551615", u64::MAX), Some(u64::MAX));
    assert_eq!(decimal_text(u64::MAX), "18446744073709551615");
    assert_eq!(decimal_text(0), "0");
}
