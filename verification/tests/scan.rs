use service_binding::scan::{at, read_number};

fn chars(s: &str) -> Vec<char> {
    s.chars().collect()
}

#[test]
fn scan_numbers() {
    let text = chars("a12.007:fFg");
    // an octet: at most three digits, no needless zero, at most 255
    assert_eq!(read_number(&text, 1, false, Some(3), true, 255), Some((12, 3)));
    assert_eq!(read_number(&text, 4, false, Some(3), true, 255), None);
    assert_eq!(read_number(&text, 4, false, Some(3), false, 255), Some((7, 7)));
    assert_eq!(read_number(&text, 4, false, Some(2), false, 255), None);
    assert_eq!(read_number(&text, 4, false, None, false, 6), None);
    // no digit at the position
    assert_eq!(read_number(&text, 0, false, None, false, 255), None);
    assert_eq!(read_number(&text, 3, false, None, false, 255), None);
    assert_eq!(read_number(&text, 11, false, None, false, 255), None);
    // hexadecimal digits in either case
    assert_eq!(read_number(&text, 8, true, Some(4), false, 0xffff), Some((0xff, 10)));
    assert_eq!(read_number(&text, 0, true, Some(4), false, 0xffff), Some((0xa12, 3)));
    assert_eq!(read_number(&text, 8, false, Some(4), false, 0xffff), None);
}

#[test]
fn scan_number_limits() {
    assert_eq!(read_number(&chars("255"), 0, false, Some(3), true, 255), Some((255, 3)));
    assert_eq!(read_number(&chars("256"), 0, false, Some(3), true, 255), None);
    assert_eq!(read_number(&chars("0"), 0, false, Some(3), true, 255), Some((0, 1)));
    assert_eq!(read_number(&chars("00"), 0, false, Some(3), true, 255), None);
    assert_eq!(read_number(&chars("65535"), 0, false, None, false, 0xffff), Some((65535, 5)));
    assert_eq!(read_number(&chars("65536"), 0, false, None, false, 0xffff), None);
    assert_eq!(read_number(&chars("0000000000065535"), 0, false, None, false, 0xffff), Some((65535, 16)));
    assert_eq!(
        read_number(&chars("4294967295"), 0, false, None, false, u32::MAX),
        Some((u32::MAX, 10))
    );
    assert_eq!(read_number(&chars("4294967296"), 0, false, None, false, u32::MAX), None);
    assert_eq!(read_number(&chars("99999999999999999999999"), 0, false, None, false, u32::MAX), None);
    assert_eq!(read_number(&chars("ffff"), 0, true, Some(4), false, 0xffff), Some((0xffff, 4)));
    assert_eq!(read_number(&chars("10000"), 0, true, Some(4), false, 0xffff), None);
}

#[test]
fn scan_at() {
    let text = chars("a:b");
    assert!(at(&text, 1, ':'));
    assert!(!at(&text, 0, ':'));
    assert!(!at(&text, 3, ':'));
    assert!(!at(&text, 100, ':'));
}
