use nodem_esp32::text::{
    byte_len, parse_hex_digit, parse_i16, parse_number, piece_at, push_hex_byte, push_hex_byte_upper, push_number,
    push_signed, push_stars, same, split, split_once, split_trimmed, strip_first, trim,
};

#[test]
fn trimming() {
    assert_eq!(trim(" \t a b \r\n"), "a b");
    assert_eq!(trim("\u{a0}x\u{3000}"), "x");
    assert_eq!(trim("  "), "");
    assert_eq!(trim(""), "");
}

#[test]
fn splitting() {
    assert_eq!(split("a,,b", ','), vec!["a", "", "b"]);
    assert_eq!(split("", ','), vec![""]);
    assert_eq!(split(",", ','), vec!["", ""]);
    let v = split_trimmed(" a , b ", ',');
    assert_eq!(v, vec!["a", "b"]);
    assert_eq!(piece_at(&v, 1), "b");
    assert_eq!(piece_at(&v, 2), "");
    assert_eq!(split_once("a=b=c", '='), Some(("a", "b=c")));
    assert_eq!(split_once("abc", '='), None);
    assert_eq!(strip_first("#abc", '#'), Some("abc"));
    assert_eq!(strip_first("abc", '#'), None);
    assert_eq!(strip_first("", '#'), None);
}

#[test]
fn numbers() {
    assert_eq!(parse_number("255", 255), Some(255));
    assert_eq!(parse_number("256", 255), None);
    assert_eq!(parse_number("+7", 255), Some(7));
    assert_eq!(parse_number("007", 255), Some(7));
    assert_eq!(parse_number("+", 255), None);
    assert_eq!(parse_number("", 255), None);
    assert_eq!(parse_number("-0", 255), None);
    assert_eq!(parse_number(" 1", 255), None);
    assert_eq!(parse_number("18446744073709551615", u64::MAX), Some(u64::MAX));
    assert_eq!(parse_number("18446744073709551616", u64::MAX), None);
    assert_eq!(parse_i16("-32768"), Some(-32768));
    assert_eq!(parse_i16("-32769"), None);
    assert_eq!(parse_i16("32767"), Some(32767));
    assert_eq!(parse_i16("32768"), None);
    assert_eq!(parse_i16("-0"), Some(0));
    assert_eq!(parse_i16("+-1"), None);
    assert_eq!(parse_hex_digit('F'), Some(15));
    assert_eq!(parse_hex_digit('g'), None);
}

#[test]
fn writing() {
    let mut s = String::new();
    push_number(&mut s, 0);
    push_number(&mut s, 1250);
    push_signed(&mut s, -70);
    push_signed(&mut s, i64::MIN);
    assert_eq!(s, "01250-70-9223372036854775808");
    let mut s = String::from("x");
    push_hex_byte(&mut s, 0x0a);
    push_hex_byte_upper(&mut s, 0xbf);
    push_stars(&mut s, 3);
    assert_eq!(s, "x0aBF***");
    assert_eq!(byte_len("\u{e9}a"), 3);
    assert!(same("a", "a") && !same("a", "b") && !same("a", "ab"));
}
