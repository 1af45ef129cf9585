use bored_browser::error::FetchError;
use bored_browser::text::{
    chars_of, find_byte, find_char, parse_number, push_decimal, rfind_char, same_ignoring_case,
    same_text, starts_with, string_of, text_of, to_hex_upper, trimmed, trimmed_end,
};

fn chars(text: &str) -> Vec<char> {
    text.chars().collect()
}

#[test]
fn strings_and_characters_are_converted() {
    assert_eq!(chars_of("a\u{e9}\u{1f600}z"), vec!['a', '\u{e9}', '\u{1f600}', 'z']);
    assert_eq!(chars_of(""), Vec::<char>::new());
    assert_eq!(string_of(&['a', '\u{e9}', '\u{1f600}', 'z']), "a\u{e9}\u{1f600}z");
    assert_eq!(string_of(&[]), "");
}

#[test]
fn characters_and_bytes_are_found() {
    assert_eq!(find_char(&chars("a:b:c"), ':'), 1);
    assert_eq!(find_char(&chars("abc"), ':'), 3);
    assert_eq!(find_char(&chars(""), ':'), 0);
    assert_eq!(find_byte(b"ab\ncd\n", b'\n'), 2);
    assert_eq!(find_byte(b"abcd", b'\n'), 4);
    assert_eq!(rfind_char(&chars("/a/b/c"), '/'), Some(4));
    assert_eq!(rfind_char(&chars("/"), '/'), Some(0));
    assert_eq!(rfind_char(&chars("abc"), '/'), None);
}

#[test]
fn prefixes_and_equalities_are_told() {
    assert!(starts_with(&chars("https://h"), "http"));
    assert!(starts_with(&chars("http"), "http"));
    assert!(starts_with(&chars("anything"), ""));
    assert!(!starts_with(&chars("htt"), "http"));
    assert!(!starts_with(&chars("xhttp"), "http"));
    assert!(same_text("abc", "abc"));
    assert!(same_text("", ""));
    assert!(!same_text("abc", "abd"));
    assert!(!same_text("abc", "ab"));
    assert!(!same_text("ab", "abc"));
    assert!(!same_text("abc", "ABC"));
    assert!(same_ignoring_case("Content-Encoding", "content-ENCODING"));
    assert!(same_ignoring_case("", ""));
    assert!(!same_ignoring_case("Host", "Hosts"));
    assert!(!same_ignoring_case("Hosts", "Host"));
    assert!(!same_ignoring_case("Host", "Hose"));
    assert!(!same_ignoring_case("\u{e9}", "\u{c9}"));
    assert!(!same_ignoring_case("[", "{"));
    assert!(!same_ignoring_case("@", "`"));
}

#[test]
fn white_space_is_trimmed() {
    assert_eq!(trimmed(&chars("  \t a b \r\n")), &chars("a b")[..]);
    assert_eq!(trimmed(&chars("\u{a0}\u{2003}x\u{3000}")), &chars("x")[..]);
    assert_eq!(trimmed(&chars(" \t ")), &chars("")[..]);
    assert_eq!(trimmed(&chars("")), &chars("")[..]);
    assert_eq!(trimmed(&chars("\u{200b}x")), &chars("\u{200b}x")[..]);
    assert_eq!(trimmed_end(&chars("  a b \r\n")), &chars("  a b")[..]);
    assert_eq!(trimmed_end(&chars("   ")), &chars("")[..]);
}

#[test]
fn numbers_are_read() {
    assert_eq!(parse_number(&chars("0"), 10, 10), Some(0));
    assert_eq!(parse_number(&chars("65535"), 10, 65535), Some(65535));
    assert_eq!(parse_number(&chars("65536"), 10, 65535), None);
    assert_eq!(parse_number(&chars("0000000000000000000000042"), 10, 100), Some(42));
    assert_eq!(parse_number(&chars("18446744073709551615"), 10, u64::MAX), Some(u64::MAX));
    assert_eq!(parse_number(&chars("18446744073709551616"), 10, u64::MAX), None);
    assert_eq!(parse_number(&chars("99999999999999999999999"), 10, u64::MAX), None);
    assert_eq!(parse_number(&chars(""), 10, 100), None);
    assert_eq!(parse_number(&chars("+1"), 10, 100), None);
    assert_eq!(parse_number(&chars("-1"), 10, 100), None);
    assert_eq!(parse_number(&chars("1 "), 10, 100), None);
    assert_eq!(parse_number(&chars("1a"), 10, 100), None);
    assert_eq!(parse_number(&chars("\u{661}"), 10, 100), None);
    assert_eq!(parse_number(&chars("1a"), 16, 100), Some(26));
    assert_eq!(parse_number(&chars("fF"), 16, 255), Some(255));
    assert_eq!(parse_number(&chars("FFFFFFFFFFFFFFFF"), 16, u64::MAX), Some(u64::MAX));
    assert_eq!(parse_number(&chars("10000000000000000"), 16, u64::MAX), None);
    assert_eq!(parse_number(&chars("g"), 16, 255), None);
    assert_eq!(parse_number(&chars("101"), 2, 255), Some(5));
    assert_eq!(parse_number(&chars("102"), 2, 255), None);
}

#[test]
fn numbers_are_written() {
    let mut out = String::from("n=");
    push_decimal(&mut out, 0);
    assert_eq!(out, "n=0");
    let mut out = String::new();
    push_decimal(&mut out, 9);
    push_decimal(&mut out, 10);
    push_decimal(&mut out, 443);
    assert_eq!(out, "910443");
    let mut out = String::new();
    push_decimal(&mut out, u64::MAX);
    assert_eq!(out, "18446744073709551615");
}

#[test]
fn bytes_are_written_in_hexadecimal() {
    assert_eq!(to_hex_upper(&[]), "");
    assert_eq!(to_hex_upper(&[0x00, 0x09, 0x0a, 0x9f, 0xa0, 0xff]), "00090A9FA0FF");
    assert_eq!(to_hex_upper(&[0xbe, 0xef]), "BEEF");
}

#[test]
fn bytes_are_decoded_as_text() {
    assert_eq!(text_of(b"plain"), Some(String::from("plain")));
    assert_eq!(text_of(&[]), Some(String::new()));
    assert_eq!(text_of(&[0xc3, 0xa9, 0xe2, 0x82, 0xac, 0xf0, 0x9f, 0x98, 0x80]), Some(String::from("\u{e9}\u{20ac}\u{1f600}")));
    assert_eq!(text_of(&[0xff]), None);
    assert_eq!(text_of(&[0xc3]), None);
    assert_eq!(text_of(&[0xc0, 0x80]), None);
    assert_eq!(text_of(&[0xed, 0xa0, 0x80]), None);
    assert_eq!(text_of(&[0xf4, 0x90, 0x80, 0x80]), None);
}

#[test]
fn failures_are_told_apart() {
    let fatal = [
        FetchError::MalformedIdentifier,
        FetchError::ConnectFailure,
        FetchError::WriteFailure,
        FetchError::ReadFailure,
        FetchError::ProtocolViolation,
        FetchError::TooManyRedirects,
        FetchError::MissingLocation,
        FetchError::EncodingError,
    ];
    for e in fatal {
        assert!(e.is_fatal());
        assert!(!e.is_recoverable());
    }
    for e in [FetchError::NotFound, FetchError::UnsupportedMethod] {
        assert!(e.is_recoverable());
        assert!(!e.is_fatal());
    }
    assert_eq!(FetchError::TooManyRedirects.describe(), "too many redirects");
    assert_eq!(FetchError::NotFound.describe(), "not in cache");
    assert_eq!(FetchError::ConnectFailure.describe(), "connection failed");
}
