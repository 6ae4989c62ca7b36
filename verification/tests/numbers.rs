use vilmos_assembler::color::Color;
use vilmos_assembler::text::{hex_digit_of, parse_color, parse_i32, parse_u8, str_eq};

#[test]
fn signed_integers_are_read_in_decimal() {
    assert_eq!(Some(0), parse_i32("0"));
    assert_eq!(Some(0), parse_i32("-0"));
    assert_eq!(Some(7), parse_i32("007"));
    assert_eq!(Some(-42), parse_i32("-42"));
    assert_eq!(Some(i32::MAX), parse_i32("2147483647"));
    assert_eq!(Some(i32::MIN), parse_i32("-2147483648"));
    assert_eq!(Some(12), parse_i32("000000000000000000000000000012"));
}

#[test]
fn signed_integers_out_of_range_or_ill_written_are_refused() {
    assert_eq!(None, parse_i32("2147483648"));
    assert_eq!(None, parse_i32("-2147483649"));
    assert_eq!(None, parse_i32("99999999999999999999999999999999"));
    assert_eq!(None, parse_i32(""));
    assert_eq!(None, parse_i32("-"));
    assert_eq!(None, parse_i32("+"));
    assert_eq!(None, parse_i32("+5"));
    assert_eq!(None, parse_i32("+-1"));
    assert_eq!(None, parse_i32("1_000"));
    assert_eq!(None, parse_i32(" 1"));
    assert_eq!(None, parse_i32("1 "));
    assert_eq!(None, parse_i32("0x10"));
    assert_eq!(None, parse_i32("12a"));
    assert_eq!(None, parse_i32("١٢"));
}

#[test]
fn bytes_are_read_as_the_standard_library_reads_them() {
    for s in ["0", "-0", "+0", "17", "-17", "+17", "255", "+255", "256", "+256", "", "-", "+",
        "a", "1a", "00", "0000000001", "4294967296", "--1", "++1", "+-1", "1-", "1+"] {
        assert_eq!(s.parse::<u8>().ok(), parse_u8(s));
    }
}

#[test]
fn integers_without_plus_are_read_as_the_standard_library_reads_them() {
    for s in ["0", "-0", "17", "-17", "2147483647", "2147483648", "-2147483648",
        "-2147483649", "", "-", "a", "1a", "00", "0000000001", "4294967296", "--1", "1-"] {
        assert_eq!(s.parse::<i32>().ok(), parse_i32(s));
    }
}

#[test]
fn bytes_are_read_in_decimal() {
    assert_eq!(Some(0), parse_u8("0"));
    assert_eq!(Some(255), parse_u8("255"));
    assert_eq!(Some(7), parse_u8("+7"));
    assert_eq!(Some(255), parse_u8("+255"));
    assert_eq!(None, parse_u8("+256"));
    assert_eq!(None, parse_u8("+"));
    assert_eq!(None, parse_u8("++7"));
    assert_eq!(None, parse_u8("7+"));
    assert_eq!(Some(9), parse_u8("0009"));
    assert_eq!(None, parse_u8("256"));
    assert_eq!(None, parse_u8("-1"));
    assert_eq!(None, parse_u8("-0"));
    assert_eq!(None, parse_u8(""));
    assert_eq!(None, parse_u8("1.0"));
}

#[test]
fn long_colors_are_read_channel_by_channel() {
    assert_eq!(Some(Color::new(0x2d, 0x6a, 0x7d)), parse_color("2d6a7d"));
    assert_eq!(Some(Color::new(0x9b, 0x22, 0x42)), parse_color("9B2242"));
    assert_eq!(Some(Color::new(0, 0, 0)), parse_color("000000"));
    assert_eq!(Some(Color::new(255, 255, 255)), parse_color("FfFfFf"));
}

#[test]
fn short_color_stands_for_doubled_digits() {
    assert_eq!(parse_color("aabbcc"), parse_color("abc"));
    assert_eq!(Some(Color::new(0xaa, 0xbb, 0xcc)), parse_color("abc"));
    assert_eq!(Some(Color::new(0x11, 0x00, 0xff)), parse_color("10F"));
}

#[test]
fn other_colors_are_malformed() {
    for s in ["", "a", "ab", "abcd", "abcde", "abcdeff", "12345678", "+fffff", "#abc", "ggg",
        "12345g", "ab cde", "é00"] {
        assert_eq!(None, parse_color(s));
    }
}

#[test]
fn hex_digits_have_their_values() {
    assert_eq!(Some(0), hex_digit_of('0'));
    assert_eq!(Some(9), hex_digit_of('9'));
    assert_eq!(Some(10), hex_digit_of('a'));
    assert_eq!(Some(15), hex_digit_of('f'));
    assert_eq!(Some(10), hex_digit_of('A'));
    assert_eq!(Some(15), hex_digit_of('F'));
    assert_eq!(None, hex_digit_of('g'));
    assert_eq!(None, hex_digit_of('G'));
    assert_eq!(None, hex_digit_of('/'));
    assert_eq!(None, hex_digit_of(':'));
    assert_eq!(None, hex_digit_of('`'));
    assert_eq!(None, hex_digit_of('@'));
}

#[test]
fn texts_are_compared_by_their_characters() {
    assert!(str_eq("", ""));
    assert!(str_eq("SUM", "SUM"));
    assert!(!str_eq("SUM", "SUB"));
    assert!(!str_eq("SUM", "SUMM"));
    assert!(!str_eq("sum", "SUM"));
}
