use ruccs::hex::{hex_digit, parse_hex_i64, parse_hex_usize};
use ruccs::text::{text_contains, text_starts_with, trimmed, white_char};

#[test]
fn hex_numbers_like_from_str_radix() {
    assert_eq!(parse_hex_i64(b"ff"), Some(255));
    assert_eq!(parse_hex_i64(b"-80"), Some(-128));
    assert_eq!(parse_hex_i64(b"+7fffffffffffffff"), Some(i64::MAX));
    assert_eq!(parse_hex_i64(b"8000000000000000"), None);
    assert_eq!(parse_hex_i64(b""), None);
    assert_eq!(parse_hex_i64(b"-"), None);
    assert_eq!(parse_hex_usize(b"+1f"), Some(31));
    assert_eq!(parse_hex_usize(b"-1"), None);
    assert_eq!(parse_hex_usize(b" 1"), None);
    assert_eq!(hex_digit(b'a'), Some(10));
    assert_eq!(hex_digit(b'F'), Some(15));
    assert_eq!(hex_digit(b'g'), None);
}

#[test]
fn text_helpers() {
    assert!(text_contains("GET_STATUS CONTENTLESS", "CONTENTLESS"));
    assert!(!text_contains("abc", "abcd"));
    assert!(text_contains("abc", ""));
    assert_eq!(trimmed("  a b \n"), "a b");
    assert_eq!(trimmed("\u{3000}x\u{a0}"), "x");
    assert!(white_char('\u{2028}'));
    assert!(!white_char('x'));
    assert!(text_starts_with("/dev/cu.usb", "/dev/cu."));
    assert!(!text_starts_with("/dev/cu", "/dev/cu."));
}
