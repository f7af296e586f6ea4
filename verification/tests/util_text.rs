use tuna::util::{
    chars_of, digits_of, format_decimal, format_signed_decimal, hex_digit_value_exec, modulo, parse_i16, parse_i32,
    parse_u32, parse_usize, push_escaped, push_hex_byte, split_chars, string_of_chars,
};

#[test]
fn modulo_takes_the_sign_of_the_divisor() {
    assert_eq!(modulo(7, 3), 1);
    assert_eq!(modulo(-7, 3), 2);
    assert_eq!(modulo(7, -3), -2);
    assert_eq!(modulo(-7, -3), -1);
    assert_eq!(modulo(6, 3), 0);
    assert_eq!(modulo(-6, 3), 0);
    assert_eq!(modulo(-1, 5), 4);
    assert_eq!(modulo(i32::MIN, 2), 0);
    assert_eq!(modulo(i32::MIN, i32::MAX), i32::MAX - 1);
}

#[test]
fn decimal_writing() {
    assert_eq!(format_decimal(0), "0");
    assert_eq!(format_decimal(1234), "1234");
    assert_eq!(format_decimal(u64::MAX), "18446744073709551615");
    assert_eq!(format_signed_decimal(-42), "-42");
    assert_eq!(format_signed_decimal(0), "0");
    assert_eq!(format_signed_decimal(i64::MIN), "-9223372036854775808");
}

#[test]
fn digits_in_other_radixes_are_lowercase() {
    assert_eq!(digits_of(255, 16), vec!['f', 'f']);
    assert_eq!(digits_of(0, 16), vec!['0']);
    assert_eq!(digits_of(5, 2), vec!['1', '0', '1']);
    assert_eq!(digits_of(0x1f600, 16), vec!['1', 'f', '6', '0', '0']);
}

#[test]
fn parsing_follows_str_parse() {
    assert_eq!(parse_usize("42"), Some(42));
    assert_eq!(parse_usize("+42"), Some(42));
    assert_eq!(parse_usize("-1"), None);
    assert_eq!(parse_usize(""), None);
    assert_eq!(parse_usize("+"), None);
    assert_eq!(parse_usize("4 2"), None);
    assert_eq!(parse_u32("4294967295"), Some(u32::MAX));
    assert_eq!(parse_u32("4294967296"), None);
    assert_eq!(parse_i32("-2147483648"), Some(i32::MIN));
    assert_eq!(parse_i32("2147483648"), None);
    assert_eq!(parse_i32("-"), None);
    assert_eq!(parse_i16("-32768"), Some(i16::MIN));
    assert_eq!(parse_i16("+32767"), Some(i16::MAX));
    assert_eq!(parse_i16("32768"), None);
    assert_eq!(parse_i16("-32769"), None);
    assert_eq!(parse_i16("0x10"), None);
}

#[test]
fn parsing_reads_back_what_was_written() {
    for n in [-32768i64, -1, 0, 7, 32767] {
        assert_eq!(parse_i16(&format_signed_decimal(n)), Some(n as i16));
    }
    for n in [0u64, 9, 10, 4294967295] {
        assert_eq!(parse_u32(&format_decimal(n)), Some(n as u32));
    }
}

#[test]
fn escaping_follows_char_escape_default() {
    let mut out = Vec::new();
    for c in ['a', '\t', '\r', '\n', '\'', '"', '\\', '~', '\u{7f}', '\u{e9}'] {
        push_escaped(&mut out, c);
    }
    let expected: String = ['a', '\t', '\r', '\n', '\'', '"', '\\', '~', '\u{7f}', '\u{e9}']
        .iter()
        .flat_map(|c| c.escape_default())
        .collect();
    assert_eq!(string_of_chars(&out), expected);
}

#[test]
fn hex_bytes_are_two_uppercase_digits() {
    let mut out = Vec::new();
    push_hex_byte(&mut out, 0x0a);
    push_hex_byte(&mut out, 0xff);
    push_hex_byte(&mut out, 0x00);
    assert_eq!(string_of_chars(&out), "0AFF00");
    assert_eq!(hex_digit_value_exec('0'), Some(0));
    assert_eq!(hex_digit_value_exec('9'), Some(9));
    assert_eq!(hex_digit_value_exec('a'), Some(10));
    assert_eq!(hex_digit_value_exec('F'), Some(15));
    assert_eq!(hex_digit_value_exec('g'), None);
    assert_eq!(hex_digit_value_exec('-'), None);
}

#[test]
fn splitting_keeps_empty_pieces() {
    let pieces = split_chars(&chars_of("1,,-2,"), ',');
    let texts: Vec<String> = pieces.iter().map(|p| string_of_chars(p)).collect();
    assert_eq!(texts, vec!["1", "", "-2", ""]);
    let whole = split_chars(&chars_of(""), ',');
    assert_eq!(whole.len(), 1);
    assert!(whole[0].is_empty());
}
