use service_binding::number::{digit_of, parse_i32, parse_u16, parse_usize};
use service_binding::NumberError;

#[test]
fn number_i32_agrees_with_std() {
    let inputs = [
        "", "+", "-", "0", "-0", "+0", "1", "+1", "-1", "007", "42", "2147483647", "2147483648",
        "-2147483648", "-2147483649", "99999999999", "3a", "a3", " 3", "3 ", "--3", "+-3", "１",
        "00000000000000000000001", "-00000000000000000000001", "99999999999x", "x99999999999",
    ];
    for input in inputs {
        assert_eq!(parse_i32(input).ok(), input.parse::<i32>().ok(), "{:?}", input);
    }
}

#[test]
fn number_usize_agrees_with_std() {
    let inputs = [
        "", "+", "-", "0", "-0", "+0", "1", "+1", "-1", "007", "18446744073709551615",
        "18446744073709551616", "4294967295", "4294967296", "3a", "1_000",
    ];
    for input in inputs {
        assert_eq!(parse_usize(input).ok(), input.parse::<usize>().ok(), "{:?}", input);
    }
}

#[test]
fn number_u16_agrees_with_std() {
    let inputs = ["", "+", "-", "0", "+80", "-80", "080", "65535", "65536", "8080", "80a"];
    for input in inputs {
        assert_eq!(parse_u16(input).ok(), input.parse::<u16>().ok(), "{:?}", input);
    }
}

#[test]
fn number_error_kinds() {
    assert_eq!(parse_i32(""), Err(NumberError::Empty));
    assert_eq!(parse_i32("-"), Err(NumberError::InvalidDigit));
    assert_eq!(parse_i32("+"), Err(NumberError::InvalidDigit));
    assert_eq!(parse_i32("3a"), Err(NumberError::InvalidDigit));
    assert_eq!(parse_i32("2147483648"), Err(NumberError::PosOverflow));
    assert_eq!(parse_i32("-2147483649"), Err(NumberError::NegOverflow));
    assert_eq!(parse_i32("99999999999x"), Err(NumberError::PosOverflow));
    assert_eq!(parse_i32("9x9999999999"), Err(NumberError::InvalidDigit));
    assert_eq!(parse_usize("-1"), Err(NumberError::InvalidDigit));
    assert_eq!(parse_u16("65536"), Err(NumberError::PosOverflow));
    assert_eq!(parse_i32("-2147483648"), Ok(i32::MIN));
    assert_eq!(parse_i32("2147483647"), Ok(i32::MAX));
}

#[test]
fn number_written_and_read_again() {
    for n in [0, 1, -1, 9, 10, 99, 100, -100, 12345, i32::MAX, i32::MIN, i32::MIN + 1] {
        let mut text = String::new();
        service_binding::number::write_signed(&mut text, n);
        assert_eq!(text, format!("{}", n));
        assert_eq!(parse_i32(&text), Ok(n));
    }
}

#[test]
fn number_numerals() {
    let cases = [
        (0u64, false, "0"),
        (7, false, "7"),
        (10, false, "10"),
        (255, false, "255"),
        (65535, false, "65535"),
        (u64::MAX, false, "18446744073709551615"),
        (0, true, "0"),
        (10, true, "a"),
        (16, true, "10"),
        (255, true, "ff"),
        (0xabcd, true, "abcd"),
        (u64::MAX, true, "ffffffffffffffff"),
    ];
    for (n, hex, expected) in cases {
        let mut text = String::from("x");
        service_binding::number::write_numeral(&mut text, n, hex);
        assert_eq!(text, format!("x{}", expected));
    }
}

#[test]
fn number_digits() {
    assert_eq!(digit_of('0', false), Some(0));
    assert_eq!(digit_of('9', false), Some(9));
    assert_eq!(digit_of('a', false), None);
    assert_eq!(digit_of('a', true), Some(10));
    assert_eq!(digit_of('f', true), Some(15));
    assert_eq!(digit_of('A', true), Some(10));
    assert_eq!(digit_of('F', true), Some(15));
    assert_eq!(digit_of('g', true), None);
    assert_eq!(digit_of('G', true), None);
    assert_eq!(digit_of('/', true), None);
    assert_eq!(digit_of(':', true), None);
    assert_eq!(digit_of('٣', false), None);
}
