use serialport_api::error::SerialportApiError;
use serialport_api::text::{
    char_is_whitespace, parse_u16, push_signed_decimal, str_eq, str_lt, trim, u64_to_decimal,
    IntErrorKind,
};

#[test]
fn decimal_rendering_matches_to_string() {
    assert_eq!(u64_to_decimal(0), "0");
    assert_eq!(u64_to_decimal(7), "7");
    assert_eq!(u64_to_decimal(4002), "4002");
    assert_eq!(u64_to_decimal(u64::MAX), u64::MAX.to_string());
    let mut s = String::from("id ");
    push_signed_decimal(&mut s, i64::MIN);
    assert_eq!(s, format!("id {}", i64::MIN));
    let mut t = String::new();
    push_signed_decimal(&mut t, -15);
    assert_eq!(t, "-15");
}

#[test]
fn parse_u16_agrees_with_str_parse() {
    for text in [
        "", "0", "+0", "+", "-", "-0", "65535", "65536", "00012", "+4002", "4002x", " 1", "1 ",
        "99999999", "٣",
    ] {
        let expected = text.parse::<u16>().map_err(|e| match e.kind() {
            std::num::IntErrorKind::Empty => IntErrorKind::Empty,
            std::num::IntErrorKind::InvalidDigit => IntErrorKind::InvalidDigit,
            std::num::IntErrorKind::PosOverflow => IntErrorKind::PosOverflow,
            other => panic!("unexpected kind {other:?}"),
        });
        assert_eq!(parse_u16(text), expected, "input {text:?}");
    }
}

#[test]
fn decimal_text_parses_back_to_its_number() {
    for n in [0u16, 1, 9, 10, 255, 4002, 65535] {
        assert_eq!(parse_u16(&u64_to_decimal(n as u64)), Ok(n));
    }
}

#[test]
fn trim_removes_unicode_white_space_at_both_ends() {
    for text in ["", "   ", " a ", "\t\nRead IMU\r\n", "\u{3000}x\u{a0}", "a b", "\u{200b}x"] {
        assert_eq!(trim(text), text.trim(), "input {text:?}");
    }
    for c in ['\u{9}', '\u{20}', '\u{85}', '\u{2029}', 'a', '\u{200b}', '\u{feff}'] {
        assert_eq!(char_is_whitespace(c), c.is_whitespace(), "char {c:?}");
    }
}

#[test]
fn string_order_and_equality_match_str() {
    let words = ["", "a", "ab", "b", "B", "é", "default", "default", "z\u{10000}"];
    for a in words {
        for b in words {
            assert_eq!(str_lt(a, b), a < b, "{a:?} < {b:?}");
            assert_eq!(str_eq(a, b), a == b, "{a:?} == {b:?}");
        }
    }
}

#[test]
fn serialport_api_error_messages() {
    assert_eq!(
        SerialportApiError::ConnectionNotFound("robot".to_string()).message(),
        "connection not found: robot"
    );
    assert_eq!(
        SerialportApiError::InvalidCommandPayload.message(),
        "command payload must be a JSON object"
    );
    assert_eq!(SerialportApiError::CommandTimeout.message(), "command timed out");
    assert_eq!(
        SerialportApiError::InvalidUtf8.message(),
        "invalid UTF-8 serial line"
    );
    assert_eq!(
        SerialportApiError::InvalidJson("EOF".to_string()).message(),
        "invalid JSON: EOF"
    );
    assert_eq!(
        SerialportApiError::SerialPort("busy".to_string()).message(),
        "serial port error: busy"
    );
    assert_eq!(
        SerialportApiError::SerialIo("broken pipe".to_string()).message(),
        "serial I/O error: broken pipe"
    );
}
