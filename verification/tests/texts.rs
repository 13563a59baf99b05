use disbot::number::{parse_signed, parse_unsigned, write_decimal, write_hex_pair, write_signed};
use disbot::text::{
    blank, byte_len, join_path, split_lines, split_words, strip_prefix, trim, white_space,
};

#[test]
fn trim_takes_white_space_off_both_sides() {
    assert_eq!(trim("  a b\t\n"), "a b");
    assert_eq!(trim("\u{3000}x\u{a0}"), "x");
    assert_eq!(trim(" \n "), "");
    assert_eq!(trim(""), "");
    assert_eq!(trim("plain"), "plain");
}

#[test]
fn white_space_is_that_of_unicode() {
    let mut u: u32 = 0;
    while u <= 0x10ffff {
        if let Some(c) = char::from_u32(u) {
            assert_eq!(white_space(c), c.is_whitespace());
        }
        u += 1;
    }
}

#[test]
fn blank_texts_hold_nothing_else() {
    assert!(blank(""));
    assert!(blank(" \t\r\n"));
    assert!(!blank(" x "));
}

#[test]
fn words_are_split_at_white_space() {
    assert_eq!(split_words("  one two\tthree\n"), vec!["one", "two", "three"]);
    assert_eq!(split_words(" ").len(), 0);
}

#[test]
fn lines_end_with_a_feed_or_with_the_text() {
    for s in ["", "a", "a\n", "a\nb", "a\r\nb\r\n", "\n\n", "a\r", "a\r\r\nb", "x\n\ny", "\r\n"] {
        let expected: Vec<&str> = s.lines().collect();
        assert_eq!(split_lines(s), expected);
    }
}

#[test]
fn prefixes_are_stripped_once() {
    assert_eq!(strip_prefix("disbot-a", "disbot-"), Some("a".to_string()));
    assert_eq!(strip_prefix("disbot-disbot-a", "disbot-"), Some("disbot-a".to_string()));
    assert_eq!(strip_prefix("disbot", "disbot-"), None);
    assert_eq!(strip_prefix("abc", ""), Some("abc".to_string()));
}

#[test]
fn lengths_are_in_bytes() {
    assert_eq!(byte_len("a"), 1);
    assert_eq!(byte_len("\u{e9}"), 2);
    assert_eq!(byte_len("\u{20ac}"), 3);
    assert_eq!(byte_len("\u{1f600}"), 4);
}

#[test]
fn paths_are_joined_by_one_slash() {
    assert_eq!(join_path("/home/u", ".disbot"), "/home/u/.disbot");
    assert_eq!(join_path("/", ".disbot"), "/.disbot");
    assert_eq!(join_path("", ".disbot"), ".disbot");
}

#[test]
fn unsigned_numbers_are_read() {
    assert_eq!(parse_unsigned("0", 10, u64::MAX), Some(0));
    assert_eq!(parse_unsigned("+42", 10, u64::MAX), Some(42));
    assert_eq!(parse_unsigned("18446744073709551615", 10, u64::MAX), Some(u64::MAX));
    assert_eq!(parse_unsigned("18446744073709551616", 10, u64::MAX), None);
    assert_eq!(parse_unsigned("", 10, u64::MAX), None);
    assert_eq!(parse_unsigned("+", 10, u64::MAX), None);
    assert_eq!(parse_unsigned("-1", 10, u64::MAX), None);
    assert_eq!(parse_unsigned("1 ", 10, u64::MAX), None);
    assert_eq!(parse_unsigned("fF", 16, 255), Some(255));
    assert_eq!(parse_unsigned("100", 16, 255), None);
    assert_eq!(parse_unsigned("g", 16, 255), None);
}

#[test]
fn signed_numbers_are_read() {
    assert_eq!(parse_signed("-9223372036854775808"), Some(i64::MIN));
    assert_eq!(parse_signed("-9223372036854775809"), None);
    assert_eq!(parse_signed("9223372036854775807"), Some(i64::MAX));
    assert_eq!(parse_signed("9223372036854775808"), None);
    assert_eq!(parse_signed("-0"), Some(0));
    assert_eq!(parse_signed("-"), None);
    assert_eq!(parse_signed("-+1"), None);
}

#[test]
fn numbers_that_were_written_are_read_back() {
    for n in [0u64, 9, 10, 99, 100, 1234567890, u64::MAX] {
        assert_eq!(write_decimal(n), n.to_string());
        assert_eq!(parse_unsigned(&write_decimal(n), 10, u64::MAX), Some(n));
    }
    for n in [0i64, -1, 42, i64::MIN, i64::MAX] {
        assert_eq!(write_signed(n), n.to_string());
        assert_eq!(parse_signed(&write_signed(n)), Some(n));
    }
    let mut b: u64 = 0;
    while b < 256 {
        assert_eq!(write_hex_pair(b as u8), format!("{:02x}", b));
        assert_eq!(parse_unsigned(&write_hex_pair(b as u8), 16, 255), Some(b));
        b += 1;
    }
}
