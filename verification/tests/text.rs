use ser2tcp_tester::text::{
    address_port, has_prefix, parse_unsigned, same_text, split_fields, AddressError, IntErrorKind,
};

#[test]
fn split_keeps_empty_fields() {
    assert_eq!(split_fields("a,,b", &[',']), vec!["a", "", "b"]);
    assert_eq!(split_fields("", &[',']), vec![""]);
    assert_eq!(split_fields(",", &[',']), vec!["", ""]);
    assert_eq!(split_fields("serial,/dev/x:9600", &[',', ':']), vec!["serial", "/dev/x", "9600"]);
    assert_eq!(split_fields("héllo:wörld", &[':']), vec!["héllo", "wörld"]);
}

#[test]
fn unsigned_numbers() {
    assert_eq!(parse_unsigned("115200", u32::MAX as u64), Ok(115200));
    assert_eq!(parse_unsigned("+7", u32::MAX as u64), Ok(7));
    assert_eq!(parse_unsigned("007", u32::MAX as u64), Ok(7));
    assert_eq!(parse_unsigned("+", u32::MAX as u64), Err(IntErrorKind::InvalidDigit));
    assert_eq!(parse_unsigned("", u32::MAX as u64), Err(IntErrorKind::Empty));
    assert_eq!(parse_unsigned("-1", u32::MAX as u64), Err(IntErrorKind::InvalidDigit));
    assert_eq!(parse_unsigned("12a", u32::MAX as u64), Err(IntErrorKind::InvalidDigit));
    assert_eq!(parse_unsigned("4294967295", u32::MAX as u64), Ok(4294967295));
    assert_eq!(parse_unsigned("4294967296", u32::MAX as u64), Err(IntErrorKind::PosOverflow));
    assert_eq!(parse_unsigned("65535", 65535), Ok(65535));
    assert_eq!(parse_unsigned("65536", 65535), Err(IntErrorKind::PosOverflow));
    assert_eq!(parse_unsigned("99999999999999999999999", u64::MAX), Err(IntErrorKind::PosOverflow));
    assert_eq!(parse_unsigned("18446744073709551615", u64::MAX), Ok(u64::MAX));
}

#[test]
fn socket_address_ports() {
    assert_eq!(address_port("127.0.0.1:8000"), Ok(8000));
    assert_eq!(address_port("[::1]:80"), Ok(80));
    assert_eq!(address_port("a:b:7"), Ok(7));
    assert_eq!(address_port(":0"), Ok(0));
    assert_eq!(address_port(""), Err(AddressError::MissingPort));
    assert_eq!(address_port("localhost"), Err(AddressError::MissingPort));
    assert_eq!(address_port("host:99999"), Err(AddressError::InvalidPort));
    assert_eq!(address_port("host:"), Err(AddressError::InvalidPort));
    assert_eq!(address_port("host:8000:x"), Err(AddressError::InvalidPort));
}

#[test]
fn prefixes_and_equality() {
    assert!(has_prefix("udp,1", "udp"));
    assert!(has_prefix("udp", "udp"));
    assert!(!has_prefix("ud", "udp"));
    assert!(has_prefix("x", ""));
    assert!(same_text("serial", "serial"));
    assert!(!same_text("serial", "seria"));
    assert!(!same_text("udp", "UDP"));
}

#[test]
fn unsigned_numbers_agree_with_std() {
    for text in [
        "", "+", "-", "-0", "0", "+0", "42", "4294967295", "4294967296", "99999999999x",
        "1x99999999999", "x", " 1", "1 ", "+-1", "00000000000000000000001",
    ] {
        let ours = parse_unsigned(text, u32::MAX as u64);
        match text.parse::<u32>() {
            Ok(v) => assert_eq!(ours, Ok(v as u64), "{}", text),
            Err(e) => {
                let kind = match e.kind() {
                    std::num::IntErrorKind::Empty => IntErrorKind::Empty,
                    std::num::IntErrorKind::InvalidDigit => IntErrorKind::InvalidDigit,
                    std::num::IntErrorKind::PosOverflow => IntErrorKind::PosOverflow,
                    _ => panic!("unexpected kind for {}", text),
                };
                assert_eq!(ours, Err(kind), "{}", text);
                assert_eq!(kind.description(), e.to_string(), "{}", text);
            }
        }
    }
}
