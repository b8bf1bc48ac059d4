use serialport_api::json::JsonValue;
use serialport_api::serial::mock_device::{
    default_ack_response, MockDeviceResponder, MockResponseRule, MockResponseScript,
};

fn from_serde(value: serde_json::Value) -> JsonValue {
    match value {
        serde_json::Value::Null => JsonValue::Null,
        serde_json::Value::Bool(b) => JsonValue::Bool(b),
        serde_json::Value::Number(n) => JsonValue::Number(n.to_string()),
        serde_json::Value::String(s) => JsonValue::Str(s),
        serde_json::Value::Array(items) => {
            JsonValue::Array(items.into_iter().map(from_serde).collect())
        }
        serde_json::Value::Object(map) => {
            let mut object = JsonValue::Object(Vec::new());
            for (key, value) in map {
                object.set_field(key, from_serde(value));
            }
            object
        }
    }
}

fn j(text: &str) -> JsonValue {
    from_serde(serde_json::from_str(text).unwrap())
}

#[test]
fn default_mock_device_acks_command_with_same_req_id() {
    let responder = MockDeviceResponder::default();

    let response = responder.response_for_frame(b"{\"reqId\":\"1\",\"method\":\"query\",\"topic\":\"sensor.read\",\"data\":{}}\r\n",
        "\r\n",
    )
    .unwrap();

    assert_eq!(
        response,
        j(r#"{"reqId":"1","ok":true,"data":{"mock":true,"topic":"sensor.read"}}"#)
    );
}

#[test]
fn default_mock_device_ignores_frames_without_string_req_id() {
    let responder = MockDeviceResponder::default();

    assert_eq!(
        responder.response_for_frame(b"{\"topic\":\"sensor.read\"}\r\n", "\r\n"),
        None
    );
    assert_eq!(
        responder.response_for_frame(b"{\"reqId\":1,\"topic\":\"sensor.read\"}\r\n", "\r\n"),
        None
    );
}

#[test]
fn scripted_mock_device_matches_response_by_topic_and_injects_req_id() {
    let responder = MockDeviceResponder::from_script(MockResponseScript {
        responses: vec![MockResponseRule {
            topic: "sensor.read".to_string(),
            response: j(r#"{"ok":true,"data":{"temperature":28.5}}"#),
        }],
    });

    let response = responder.response_for_frame(b"{\"reqId\":\"client-99\",\"method\":\"query\",\"topic\":\"sensor.read\",\"data\":{}}\r\n",
        "\r\n",
    )
    .unwrap();

    assert_eq!(
        response,
        j(r#"{"reqId":"client-99","ok":true,"data":{"temperature":28.5}}"#)
    );
}

#[test]
fn scripted_mock_device_falls_back_to_default_ack_for_unknown_topic() {
    let responder = MockDeviceResponder::from_script(MockResponseScript {
        responses: vec![MockResponseRule {
            topic: "sensor.read".to_string(),
            response: j(r#"{"ok":true}"#),
        }],
    });

    let response = responder.response_for_frame(b"{\"reqId\":\"2\",\"topic\":\"unknown.topic\",\"data\":{}}\r\n",
        "\r\n",
    )
    .unwrap();

    assert_eq!(
        response,
        j(r#"{"reqId":"2","ok":true,"data":{"mock":true,"topic":"unknown.topic"}}"#)
    );
}

#[test]
fn scripted_response_keeps_its_own_string_req_id() {
    let responder = MockDeviceResponder::from_script(MockResponseScript {
        responses: vec![MockResponseRule {
            topic: "t".to_string(),
            response: j(r#"{"reqId":"fixed","ok":false}"#),
        }],
    });

    let response = responder
        .response_for_command(&j(r#"{"reqId":"7","topic":"t"}"#))
        .unwrap();

    assert_eq!(response, j(r#"{"reqId":"fixed","ok":false}"#));
}

#[test]
fn scripted_non_object_response_falls_back_to_default_ack() {
    let responder = MockDeviceResponder::from_script(MockResponseScript {
        responses: vec![
            MockResponseRule {
                topic: "t".to_string(),
                response: j("[1]"),
            },
            MockResponseRule {
                topic: "t".to_string(),
                response: j(r#"{"second":true}"#),
            },
        ],
    });

    let response = responder
        .response_for_command(&j(r#"{"reqId":"7","topic":"t"}"#))
        .unwrap();

    assert_eq!(
        response,
        j(r#"{"reqId":"7","ok":true,"data":{"mock":true,"topic":"t"}}"#)
    );
}

#[test]
fn command_without_topic_is_acknowledged_with_null_topic() {
    let responder = MockDeviceResponder::default();

    let response = responder
        .response_for_command(&j(r#"{"reqId":"3"}"#))
        .unwrap();

    assert_eq!(
        response,
        j(r#"{"reqId":"3","ok":true,"data":{"mock":true,"topic":null}}"#)
    );
    assert_eq!(default_ack_response("3", None), response);
}

#[test]
fn non_object_command_gets_no_response() {
    let responder = MockDeviceResponder::default();
    assert_eq!(responder.response_for_command(&j(r#""reqId""#)), None);
    assert_eq!(
        responder.response_for_frame(b"not json\r\n", "\r\n"),
        None
    );
}

#[test]
fn script_rules_are_listed_in_order() {
    let script = MockResponseScript {
        responses: vec![
            MockResponseRule {
                topic: "a".to_string(),
                response: j("{}"),
            },
            MockResponseRule {
                topic: "b".to_string(),
                response: j("{}"),
            },
        ],
    };
    let topics: Vec<&str> = script.responses().iter().map(|r| r.topic.as_str()).collect();
    assert_eq!(topics, vec!["a", "b"]);
}

#[test]
fn frames_that_are_not_json_get_no_answer() {
    let responder = MockDeviceResponder::default();
    assert_eq!(responder.response_for_frame(b"hello\r\n", "\r\n"), None);
    assert_eq!(responder.response_for_frame(b"{\"reqId\":\"1\"", "\n"), None);
    assert_eq!(
        responder.response_for_frame(b"{\"reqId\":\"2\"};", ";"),
        Some(j(r#"{"reqId":"2","ok":true,"data":{"mock":true,"topic":null}}"#))
    );
}
