use serialport_api::json::JsonValue;
use serialport_api::protocol::{
    bytes_end_with, classify_line, frame_bytes, line_text, trim_frame_delimiter, SerialEvent,
};

fn object(entries: Vec<(&str, JsonValue)>) -> JsonValue {
    let mut value = JsonValue::Object(Vec::new());
    for (key, member) in entries {
        value.set_field(key.to_string(), member);
    }
    value
}

#[test]
fn frame_is_body_then_delimiter() {
    assert_eq!(frame_bytes(b"{}", "\r\n"), b"{}\r\n".to_vec());
    assert_eq!(frame_bytes(b"", "\n"), b"\n".to_vec());
    assert_eq!(frame_bytes(b"x", "\u{2028}"), "x\u{2028}".as_bytes().to_vec());
}

#[test]
fn trimming_a_frame_gives_back_its_body() {
    for delimiter in ["\r\n", "\n", "\r", ";", "END", ""] {
        let frame = frame_bytes(br#"{"reqId":"1"}"#, delimiter);
        assert_eq!(trim_frame_delimiter(&frame, delimiter), br#"{"reqId":"1"}"#);
    }
}

#[test]
fn trimming_falls_back_to_common_line_endings() {
    assert_eq!(trim_frame_delimiter(b"abc\r\n", ";"), b"abc");
    assert_eq!(trim_frame_delimiter(b"abc\n", ";"), b"abc");
    assert_eq!(trim_frame_delimiter(b"abc\r", ";"), b"abc");
    assert_eq!(trim_frame_delimiter(b"abc", ";"), b"abc");
    assert_eq!(trim_frame_delimiter(b"abc;", ";"), b"abc");
    assert!(bytes_end_with(b"abc", b"bc"));
    assert!(!bytes_end_with(b"c", b"bc"));
}

#[test]
fn line_text_decodes_lossily() {
    assert_eq!(line_text(b"hello robot\r\n", "\r\n"), "hello robot");
    assert_eq!(line_text(b"caf\xc3\xa9\n", "\n"), "café");
    assert_eq!(line_text(b"bad \xff byte\n", "\n"), "bad \u{fffd} byte");
}

#[test]
fn classify_line_sorts_by_method() {
    let log = object(vec![("method", JsonValue::Str("log".to_string()))]);
    assert_eq!(
        classify_line(Some(object(vec![("method", JsonValue::Str("log".to_string()))])), "x".to_string()),
        SerialEvent::Log(log)
    );
    let note = || object(vec![("method", JsonValue::Str("notification".to_string()))]);
    assert_eq!(
        classify_line(Some(note()), String::new()),
        SerialEvent::Notification(note())
    );
    let numeric = || object(vec![("method", JsonValue::Number("1".to_string()))]);
    assert_eq!(
        classify_line(Some(numeric()), String::new()),
        SerialEvent::Json(numeric())
    );
    assert_eq!(
        classify_line(Some(JsonValue::Array(Vec::new())), String::new()),
        SerialEvent::Json(JsonValue::Array(Vec::new()))
    );
    assert_eq!(
        classify_line(None, "hello".to_string()),
        SerialEvent::Text("hello".to_string())
    );
}

#[test]
fn json_object_members_are_kept_in_key_order() {
    let mut value = JsonValue::Object(Vec::new());
    value.set_field("b".to_string(), JsonValue::Null);
    value.set_field("a".to_string(), JsonValue::Bool(true));
    value.set_field("b".to_string(), JsonValue::Number("2".to_string()));
    assert_eq!(
        value,
        JsonValue::Object(vec![
            ("a".to_string(), JsonValue::Bool(true)),
            ("b".to_string(), JsonValue::Number("2".to_string())),
        ])
    );
    assert_eq!(value.get_field("b"), Some(&JsonValue::Number("2".to_string())));
    assert_eq!(value.get_field("c"), None);
    assert_eq!(value.get_str_field("a"), None);
    assert!(value.is_object());
    assert_eq!(value.deep_copy(), value);
    assert_eq!(JsonValue::Null.get_field("a"), None);
}
