use rust_scratch::numparse::{
    parse_i32, parse_i64, parse_u16, parse_u32, parse_u64, parse_u8, IntErrorKind, ParseIntError,
};
use rust_scratch::text::{
    chars_eq, chars_lt, chars_of, decimal_chars, find_char, format_i64, format_u64,
    is_ascii_digit, is_whitespace, join_strings, split_words, str_ends_with, str_eq,
    str_starts_with, string_of,
};

#[test]
fn integer_parsing_matches_std() {
    assert_eq!(parse_u8("255"), Ok(255));
    assert_eq!(parse_u8("256").unwrap_err().kind(), IntErrorKind::PosOverflow);
    assert_eq!(parse_u8("").unwrap_err().kind(), IntErrorKind::Empty);
    assert_eq!(parse_u8("+7"), Ok(7));
    assert_eq!(parse_u8("-0").unwrap_err().kind(), IntErrorKind::InvalidDigit);
    assert_eq!(parse_u16("65535"), Ok(65535));
    assert_eq!(parse_u32("4294967295"), Ok(u32::MAX));
    assert_eq!(parse_u64("18446744073709551615"), Ok(u64::MAX));
    assert_eq!(parse_i32("-2147483648"), Ok(i32::MIN));
    assert_eq!(parse_i32("-2147483649").unwrap_err().kind(), IntErrorKind::NegOverflow);
    assert_eq!(parse_i32("2147483648").unwrap_err().kind(), IntErrorKind::PosOverflow);
    assert_eq!(parse_i64("-9223372036854775808"), Ok(i64::MIN));
    assert_eq!(parse_i32("-").unwrap_err().kind(), IntErrorKind::InvalidDigit);
    assert_eq!(parse_i32(" 1").unwrap_err().kind(), IntErrorKind::InvalidDigit);
    for s in ["0", "17", "-17", "+17", "", "-", "+", "x1", "99999999999"] {
        assert_eq!(parse_i32(s).ok(), s.parse::<i32>().ok(), "input {s:?}");
    }
}

#[test]
fn error_messages_match_std() {
    let cases = ["", "x", "300", "-1"];
    for s in cases {
        let ours = parse_u8(s).unwrap_err();
        let theirs = s.parse::<u8>().unwrap_err();
        assert_eq!(ours.message(), theirs.to_string(), "input {s:?}");
    }
    let e = ParseIntError { kind: IntErrorKind::NegOverflow };
    assert_eq!(e.message(), "number too small to fit in target type");
}

#[test]
fn char_classes() {
    assert!(is_whitespace(' '));
    assert!(is_whitespace('\t'));
    assert!(is_whitespace('\u{3000}'));
    assert!(!is_whitespace('a'));
    assert!(is_ascii_digit('7'));
    assert!(!is_ascii_digit('x'));
}

#[test]
fn character_helpers() {
    let cs = chars_of("héllo");
    assert_eq!(cs, vec!['h', 'é', 'l', 'l', 'o']);
    assert_eq!(string_of(&cs), "héllo");
    assert!(chars_eq(&['a', 'b'], &['a', 'b']));
    assert!(!chars_eq(&['a'], &['a', 'b']));
    assert!(str_eq("same", "same"));
    assert!(!str_eq("same", "diff"));
    assert_eq!(rust_scratch::text::concat("ab", "cd"), "abcd");
    assert_eq!(find_char(&['a', 'b', 'b'], 'b'), Some(1));
    assert_eq!(find_char(&['a'], 'z'), None);
    assert!(str_ends_with("file.rs", ".rs"));
    assert!(!str_ends_with("rs", "file.rs"));
    assert!(str_starts_with("https://x", "https://"));
    assert!(!str_starts_with("http", "https"));
    assert!(chars_lt(&['a', 'b'], &['a', 'c']));
    assert!(chars_lt(&['a'], &['a', 'a']));
    assert!(!chars_lt(&['b'], &['a', 'z']));
    assert_eq!(
        join_strings(&["a".to_string(), "b".to_string(), "c".to_string()], ", "),
        "a, b, c"
    );
    assert_eq!(
        split_words(&chars_of("  one  two ")),
        vec![vec!['o', 'n', 'e'], vec!['t', 'w', 'o']]
    );
}

#[test]
fn decimal_rendering() {
    assert_eq!(format_u64(0), "0");
    assert_eq!(format_u64(u64::MAX), u64::MAX.to_string());
    assert_eq!(format_i64(i64::MIN), i64::MIN.to_string());
    assert_eq!(format_i64(-42), "-42");
    assert_eq!(decimal_chars(907), vec!['9', '0', '7']);
}
