use concurrentes::numeral::{
    chars_of, parse_i32, parse_u32, parse_u8, push_decimal, push_signed_decimal,
};

#[test]
fn unsigned_numerals() {
    assert_eq!(parse_u32("0"), Some(0));
    assert_eq!(parse_u32("10"), Some(10));
    assert_eq!(parse_u32("+7"), Some(7));
    assert_eq!(parse_u32("007"), Some(7));
    assert_eq!(parse_u32("4294967295"), Some(u32::MAX));
    assert_eq!(parse_u32("4294967296"), None);
    assert_eq!(parse_u32("00000000000000000000004294967295"), Some(u32::MAX));
    assert_eq!(parse_u32("99999999999999999999999999"), None);
    assert_eq!(parse_u32(""), None);
    assert_eq!(parse_u32("+"), None);
    assert_eq!(parse_u32("-"), None);
    assert_eq!(parse_u32("-0"), None);
    assert_eq!(parse_u32("-1"), None);
    assert_eq!(parse_u32("++1"), None);
    assert_eq!(parse_u32("1 "), None);
    assert_eq!(parse_u32(" 1"), None);
    assert_eq!(parse_u32("1a"), None);
    assert_eq!(parse_u32("١"), None);
    assert_eq!(parse_u8("255"), Some(255));
    assert_eq!(parse_u8("256"), None);
    assert_eq!(parse_u8("+0"), Some(0));
    assert_eq!(parse_u8("1.0"), None);
}

#[test]
fn unsigned_numerals_agree_with_std() {
    for text in ["0", "1", "+1", "-1", "", "+", "255", "256", "0255", "4294967295", "4294967296", "12x", "x12", "+-1"] {
        assert_eq!(parse_u8(text), text.parse::<u8>().ok(), "u8 {:?}", text);
        assert_eq!(parse_u32(text), text.parse::<u32>().ok(), "u32 {:?}", text);
    }
}

#[test]
fn signed_numerals() {
    assert_eq!(parse_i32("0"), Some(0));
    assert_eq!(parse_i32("-0"), Some(0));
    assert_eq!(parse_i32("+0"), Some(0));
    assert_eq!(parse_i32("-5"), Some(-5));
    assert_eq!(parse_i32("+5"), Some(5));
    assert_eq!(parse_i32("2147483647"), Some(i32::MAX));
    assert_eq!(parse_i32("2147483648"), None);
    assert_eq!(parse_i32("-2147483648"), Some(i32::MIN));
    assert_eq!(parse_i32("-2147483649"), None);
    assert_eq!(parse_i32("+2147483648"), None);
    assert_eq!(parse_i32(""), None);
    assert_eq!(parse_i32("-"), None);
    assert_eq!(parse_i32("+"), None);
    assert_eq!(parse_i32("--1"), None);
    assert_eq!(parse_i32("-+1"), None);
    assert_eq!(parse_i32("5-"), None);
}

#[test]
fn signed_numerals_agree_with_std() {
    for text in ["0", "-0", "+0", "-", "+", "", "-5", "+5", "2147483647", "2147483648", "-2147483648", "-2147483649", "--1", "1-", "0012", "-0012"] {
        assert_eq!(parse_i32(text), text.parse::<i32>().ok(), "i32 {:?}", text);
    }
}

#[test]
fn numerals_are_written_like_std_writes_them() {
    for n in [0u64, 1, 9, 10, 11, 99, 100, 255, 256, 4294967295, 4294967296, u64::MAX] {
        let mut out = String::from("n=");
        push_decimal(&mut out, n);
        assert_eq!(out, format!("n={}", n));
    }
    for z in [0i32, 1, -1, 9, -9, 10, -10, 12345, -12345, i32::MAX, i32::MIN] {
        let mut out = String::new();
        push_signed_decimal(&mut out, z);
        assert_eq!(out, format!("{}", z));
        assert_eq!(parse_i32(&out), Some(z));
    }
}

#[test]
fn written_numerals_read_back() {
    for n in [0u32, 1, 7, 10, 99, 100, 65535, 4294967295] {
        let mut out = String::new();
        push_decimal(&mut out, n as u64);
        assert_eq!(parse_u32(&out), Some(n));
    }
}

#[test]
fn characters_of_a_text() {
    assert_eq!(chars_of(""), Vec::<char>::new());
    assert_eq!(chars_of("a,b"), vec!['a', ',', 'b']);
    assert_eq!(chars_of("ñandú"), vec!['ñ', 'a', 'n', 'd', 'ú']);
}
