use uptime_api::text::{
    char_is_whitespace, chars_of, contains_chars, first_line_of, is_blank, nth_word, parse_decimal, str_equal,
    trim_chars,
};

fn v(s: &str) -> Vec<char> {
    s.chars().collect()
}

#[test]
fn unicode_whitespace_is_recognised() {
    for c in ['\t', '\n', '\u{0B}', '\u{0C}', '\r', ' ', '\u{85}', '\u{A0}', '\u{1680}', '\u{2000}', '\u{200A}', '\u{2028}', '\u{2029}', '\u{202F}', '\u{205F}', '\u{3000}'] {
        assert!(char_is_whitespace(c), "{c:?} is whitespace");
        assert!(c.is_whitespace());
    }
    for c in ['a', '0', '\u{200B}', '\u{FEFF}', '.', '\u{1F600}'] {
        assert!(!char_is_whitespace(c), "{c:?} is not whitespace");
        assert_eq!(char_is_whitespace(c), c.is_whitespace());
    }
}

#[test]
fn chars_of_keeps_every_character() {
    assert_eq!(chars_of("héllo, 世界"), v("héllo, 世界"));
    assert_eq!(chars_of(""), Vec::<char>::new());
}

#[test]
fn trim_matches_str_trim() {
    for s in ["  a b  ", "\u{3000}x\t", "", "   ", "no-space", "\u{A0} y \u{2029}"] {
        assert_eq!(trim_chars(&v(s)), v(s.trim()));
        assert_eq!(is_blank(s), s.trim().is_empty());
    }
}

#[test]
fn first_line_follows_str_lines() {
    for s in ["HTTP/1.1 200 OK\r\nHost: x", "one\ntwo", "\r\nrest", "only", "trailing\r", "\n"] {
        assert_eq!(first_line_of(&v(s)), s.lines().next().map(v));
    }
    assert_eq!(first_line_of(&v("")), None);
}

#[test]
fn nth_word_follows_split_whitespace() {
    for s in ["HTTP/1.1 200 OK", "  a   b\tc ", "", "single", "x\u{3000}y"] {
        for n in 0..4 {
            assert_eq!(nth_word(&v(s), n), s.split_whitespace().nth(n).map(v));
        }
    }
}

#[test]
fn parse_decimal_follows_from_str() {
    for s in ["0", "42", "+42", "007", "65535", "65536", "", "+", "-1", "1 ", " 1", "4x", "99999999999"] {
        assert_eq!(parse_decimal(&v(s), 65535), s.parse::<u16>().ok().map(u32::from), "input {s:?}");
        assert_eq!(parse_decimal(&v(s), u32::MAX), s.parse::<u32>().ok(), "input {s:?}");
    }
}

#[test]
fn contains_follows_str_contains() {
    for (h, n) in [("hello world", "world"), ("hello world", "goodbye"), ("abc", ""), ("", ""), ("", "a"), ("aaab", "aab"), ("ab", "abc")] {
        assert_eq!(contains_chars(&v(h), &v(n)), h.contains(n));
    }
}

#[test]
fn str_equal_compares_characters() {
    assert!(str_equal("check", "check"));
    assert!(!str_equal("check", "Check"));
    assert!(!str_equal("check", "checks"));
    assert!(str_equal("", ""));
}
