use serialport_api::error::SerialportApiError;
use serialport_api::json::JsonValue;
use serialport_api::protocol::SerialEvent;
use serialport_api::serial::manager::{
    list_ports, ConnectionInfo, ConnectionManagerWithTransport, ConnectionRequest,
    InMemoryConnectionManager, PortInfo, PortKind, QueuedCommand, SerialPortLister,
    SerialStreamEvent,
};
use serialport_api::serial::mock_device::MockDeviceResponder;
use serialport_api::serial::read_loop::DecodedReadItem;
use serialport_api::serial::transport::{MockSerialTransport, SerialTransport};

fn from_serde(value: serde_json::Value) -> JsonValue {
    match value {
        serde_json::Value::Null => JsonValue::Null,
        serde_json::Value::Bool(b) => JsonValue::Bool(b),
        serde_json::Value::Number(n) => JsonValue::Number(n.to_string()),
        serde_json::Value::String(s) => JsonValue::Str(s),
        serde_json::Value::Array(items) => {
            JsonValue::Array(items.into_iter().map(from_serde).collect())
        }
        serde_json::Value::Object(map) => {
            let mut object = JsonValue::Object(Vec::new());
            for (key, value) in map {
                object.set_field(key, from_serde(value));
            }
            object
        }
    }
}

fn j(text: &str) -> JsonValue {
    from_serde(serde_json::from_str(text).unwrap())
}

fn send<T: SerialTransport>(
    manager: &mut ConnectionManagerWithTransport<T>,
    name: &str,
    payload: JsonValue,
) -> Result<QueuedCommand, SerialportApiError> {
    manager.send_command(name, payload)
}

fn request(port: &str, delimiter: &str) -> ConnectionRequest {
    ConnectionRequest {
        name: "default".to_string(),
        port: port.to_string(),
        baud_rate: 115200,
        delimiter: delimiter.to_string(),
    }
}

struct MockPortLister {
    ports: Vec<PortInfo>,
}

impl SerialPortLister for MockPortLister {
    fn available_ports(&self) -> Result<Vec<PortInfo>, SerialportApiError> {
        Ok(self
            .ports
            .iter()
            .map(|p| PortInfo {
                name: p.name.clone(),
                port_type: p.port_type.clone(),
                manufacturer: p.manufacturer.clone(),
                serial_number: p.serial_number.clone(),
            })
            .collect())
    }
}

fn usb_port() -> PortInfo {
    PortInfo {
        name: "/dev/ttyUSB0".to_string(),
        port_type: "usb".to_string(),
        manufacturer: Some("FTDI".to_string()),
        serial_number: Some("ABC123".to_string()),
    }
}

#[test]
fn list_ports_returns_available_serial_ports() {
    let lister = MockPortLister {
        ports: vec![usb_port()],
    };

    let ports = list_ports(&lister).unwrap();

    assert_eq!(ports, vec![usb_port()]);
}

#[test]
fn in_memory_connection_manager_records_connections() {
    let mut manager = InMemoryConnectionManager::default();

    let connection = manager.connect(request("/dev/ttyUSB0", "\r\n")).unwrap();

    assert_eq!(connection.name, "default");
    assert_eq!(connection.status, "connected");
    assert_eq!(manager.connections().unwrap(), vec![connection]);
}

#[test]
fn connection_manager_opens_and_closes_transport_connections() {
    let transport = MockSerialTransport::default();
    let mut manager = ConnectionManagerWithTransport::new(transport);

    manager.connect(request("/dev/ROBOT", "\r\n")).unwrap();

    assert_eq!(manager.transport().opened_names(), vec!["default".to_string()]);

    manager.disconnect("default").unwrap();

    assert_eq!(manager.transport().opened_names(), Vec::<String>::new());
    assert_eq!(manager.transport().closed_names(), vec!["default".to_string()]);
}

#[test]
fn in_memory_connection_manager_removes_disconnected_connections() {
    let mut manager = InMemoryConnectionManager::default();

    manager.connect(request("/dev/ttyUSB0", "\r\n")).unwrap();

    let disconnected_name = manager.disconnect("default").unwrap();

    assert_eq!(disconnected_name, "default");
    assert_eq!(manager.connections().unwrap(), Vec::<ConnectionInfo>::new());
}

#[test]
fn in_memory_connection_manager_records_framed_command_with_generated_req_id() {
    let mut manager = InMemoryConnectionManager::default();

    manager.connect(request("/dev/ttyUSB0", "\r\n")).unwrap();

    let queued = send(
        &mut manager,
        "default",
        j(r#"{"method":"query","topic":"sensor.read","data":{}}"#),
    )
    .unwrap();

    assert_eq!(queued.req_id, "1");
    let frames = manager.transport().written_frames("default");
    assert_eq!(frames.len(), 1);
    assert!(frames[0].ends_with(b"\r\n"));
    let body = &frames[0][..frames[0].len() - 2];
    let payload: serde_json::Value = serde_json::from_slice(body).unwrap();
    assert_eq!(
        from_serde(payload),
        j(r#"{"reqId":"1","method":"query","topic":"sensor.read","data":{}}"#)
    );
}

#[test]
fn connection_manager_writes_framed_command_through_transport_with_generated_req_id() {
    let transport = MockSerialTransport::default();
    let mut manager = ConnectionManagerWithTransport::new(transport);

    manager.connect(request("/dev/ROBOT", "\r\n")).unwrap();

    let queued = send(
        &mut manager,
        "default",
        j(r#"{"method":"query","topic":"sensor.read","data":{}}"#),
    )
    .unwrap();

    assert_eq!(queued.req_id, "1");
    let frames = manager.transport().written_frames("default");
    assert_eq!(frames.len(), 1);
    assert!(frames[0].ends_with(b"\r\n"));
    let body = &frames[0][..frames[0].len() - 2];
    let payload: serde_json::Value = serde_json::from_slice(body).unwrap();
    assert_eq!(
        from_serde(payload),
        j(r#"{"reqId":"1","method":"query","topic":"sensor.read","data":{}}"#)
    );
}

#[test]
fn in_memory_connection_manager_preserves_existing_req_id() {
    let mut manager = InMemoryConnectionManager::default();

    manager.connect(request("/dev/ttyUSB0", "\n")).unwrap();

    let queued = send(
        &mut manager,
        "default",
        j(r#"{"reqId":"client-42","method":"mutation","topic":"led.set","data":{"on":true}}"#),
    )
    .unwrap();

    assert_eq!(queued.req_id, "client-42");
    let frames = manager.transport().written_frames("default");
    assert_eq!(frames.len(), 1);
    assert!(frames[0].ends_with(b"\n"));
    let body = &frames[0][..frames[0].len() - 1];
    let payload: serde_json::Value = serde_json::from_slice(body).unwrap();
    assert_eq!(
        from_serde(payload),
        j(r#"{"reqId":"client-42","method":"mutation","topic":"led.set","data":{"on":true}}"#)
    );
}

#[test]
fn in_memory_connection_manager_records_serial_events_for_streaming() {
    let mut manager = InMemoryConnectionManager::default();

    manager.record_event(SerialEvent::Json(j(r#"{"reqId":"1","ok":true}"#)));
    manager.record_event(SerialEvent::Text("hello robot".to_string()));
    manager.record_event(SerialEvent::Log(j(
        r#"{"method":"log","data":{"level":"info"}}"#,
    )));
    manager.record_event(SerialEvent::Notification(j(
        r#"{"method":"notification","data":[]}"#,
    )));
    manager.record_error("serial read failed".to_string());

    assert_eq!(
        manager.events().unwrap(),
        vec![
            SerialStreamEvent {
                event: "serial.json",
                data: j(r#"{"reqId":"1","ok":true}"#),
            },
            SerialStreamEvent {
                event: "serial.text",
                data: j(r#""hello robot""#),
            },
            SerialStreamEvent {
                event: "serial.log",
                data: j(r#"{"method":"log","data":{"level":"info"}}"#),
            },
            SerialStreamEvent {
                event: "serial.notification",
                data: j(r#"{"method":"notification","data":[]}"#),
            },
            SerialStreamEvent {
                event: "serial.error",
                data: j(r#""serial read failed""#),
            },
        ]
    );
}

#[test]
fn manager_indexes_json_response_by_connection_and_req_id() {
    let mut manager = InMemoryConnectionManager::default();

    manager.record_event_for_connection(
        "default",
        SerialEvent::Json(j(r#"{"reqId":"1","ok":true,"data":{"temperature":28.5}}"#)),
    );

    assert_eq!(
        manager.take_response("default", "1").unwrap(),
        Some(j(r#"{"reqId":"1","ok":true,"data":{"temperature":28.5}}"#))
    );
    assert_eq!(manager.take_response("default", "1").unwrap(), None);
    assert_eq!(
        manager.events().unwrap(),
        vec![SerialStreamEvent {
            event: "serial.json",
            data: j(r#"{"reqId":"1","ok":true,"data":{"temperature":28.5}}"#),
        }]
    );
}

#[test]
fn manager_does_not_match_responses_across_connections() {
    let mut manager = InMemoryConnectionManager::default();

    manager.record_event_for_connection(
        "default",
        SerialEvent::Json(j(r#"{"reqId":"1","ok":true}"#)),
    );

    assert_eq!(manager.take_response("other", "1").unwrap(), None);
    assert_eq!(
        manager.take_response("default", "1").unwrap(),
        Some(j(r#"{"reqId":"1","ok":true}"#))
    );
}

#[test]
fn manager_returns_duplicate_req_id_responses_fifo() {
    let mut manager = InMemoryConnectionManager::default();

    manager.record_event_for_connection(
        "default",
        SerialEvent::Json(j(r#"{"reqId":"1","seq":1}"#)),
    );
    manager.record_event_for_connection(
        "default",
        SerialEvent::Json(j(r#"{"reqId":"1","seq":2}"#)),
    );

    assert_eq!(
        manager.take_response("default", "1").unwrap(),
        Some(j(r#"{"reqId":"1","seq":1}"#))
    );
    assert_eq!(
        manager.take_response("default", "1").unwrap(),
        Some(j(r#"{"reqId":"1","seq":2}"#))
    );
    assert_eq!(manager.take_response("default", "1").unwrap(), None);
}

#[test]
fn manager_ignores_events_without_string_req_id_for_response_matching() {
    let mut manager = InMemoryConnectionManager::default();

    manager.record_event_for_connection("default", SerialEvent::Text("hello".to_string()));
    manager.record_event_for_connection("default", SerialEvent::Json(j(r#"{"ok":true}"#)));
    manager.record_event_for_connection(
        "default",
        SerialEvent::Json(j(r#"{"reqId":1,"ok":true}"#)),
    );
    manager.record_event_for_connection(
        "default",
        SerialEvent::Log(j(r#"{"method":"log","reqId":"1","data":{}}"#)),
    );

    assert_eq!(manager.take_response("default", "1").unwrap(), None);
}

#[test]
fn manager_with_mock_responder_records_response_after_send_command() {
    let transport = MockSerialTransport::default();
    let mut manager =
        ConnectionManagerWithTransport::with_mock_responder(transport, MockDeviceResponder::default());

    manager.connect(request("/dev/ROBOT", "\r\n")).unwrap();

    let queued = send(
        &mut manager,
        "default",
        j(r#"{"reqId":"mock-1","method":"query","topic":"sensor.read","data":{}}"#),
    )
    .unwrap();

    assert_eq!(queued.req_id, "mock-1");
    assert_eq!(
        manager.take_response("default", "mock-1").unwrap(),
        Some(j(
            r#"{"reqId":"mock-1","ok":true,"data":{"mock":true,"topic":"sensor.read"}}"#
        ))
    );
    assert_eq!(manager.events().unwrap()[0].event, "serial.json");
}

#[test]
fn default_manager_does_not_auto_record_mock_response() {
    let mut manager = InMemoryConnectionManager::default();

    manager.connect(request("/dev/ROBOT", "\r\n")).unwrap();

    send(
        &mut manager,
        "default",
        j(r#"{"reqId":"no-auto","topic":"sensor.read","data":{}}"#),
    )
    .unwrap();

    assert_eq!(manager.take_response("default", "no-auto").unwrap(), None);
    assert_eq!(manager.events().unwrap(), vec![]);
}

#[test]
fn send_command_to_unknown_connection_is_connection_not_found() {
    let mut manager = InMemoryConnectionManager::default();

    let error = send(&mut manager, "missing", j(r#"{"topic":"x"}"#)).unwrap_err();

    assert_eq!(error, SerialportApiError::ConnectionNotFound("missing".to_string()));
    assert_eq!(manager.last_req_id(), 0);
}

#[test]
fn send_command_with_non_object_payload_is_invalid() {
    let mut manager = InMemoryConnectionManager::default();
    manager.connect(request("/dev/ROBOT", "\r\n")).unwrap();

    let error = send(&mut manager, "default", j("[1,2]")).unwrap_err();

    assert_eq!(error, SerialportApiError::InvalidCommandPayload);
    assert!(manager.transport().written_frames("default").is_empty());
}

#[test]
fn generated_req_ids_count_up_and_skip_commands_that_bring_their_own() {
    let mut manager = InMemoryConnectionManager::default();
    manager.connect(request("/dev/ROBOT", "\r\n")).unwrap();

    let first = send(&mut manager, "default", j(r#"{"topic":"a"}"#)).unwrap();
    let own = send(&mut manager, "default", j(r#"{"reqId":"x","topic":"b"}"#)).unwrap();
    let non_string = send(&mut manager, "default", j(r#"{"reqId":7,"topic":"c"}"#)).unwrap();
    let second = send(&mut manager, "default", j(r#"{"topic":"d"}"#)).unwrap();

    assert_eq!(first.req_id, "1");
    assert_eq!(own.req_id, "x");
    assert_eq!(non_string.req_id, "7");
    assert_eq!(second.req_id, "2");
    assert_eq!(manager.last_req_id(), 2);
    let frames = manager.transport().written_frames("default");
    assert_eq!(frames.len(), 4);
    assert_eq!(frames[2], b"{\"reqId\":7,\"topic\":\"c\"}\r\n".to_vec());
}

#[test]
fn array_or_object_req_id_is_replaced_by_a_generated_one() {
    let mut manager = InMemoryConnectionManager::default();
    manager.connect(request("/dev/ROBOT", "\n")).unwrap();

    let queued = send(&mut manager, "default", j(r#"{"reqId":[1],"topic":"a"}"#)).unwrap();
    let nested = send(&mut manager, "default", j(r#"{"reqId":{"n":1},"topic":"b"}"#)).unwrap();

    assert_eq!(queued.req_id, "1");
    assert_eq!(nested.req_id, "2");
    let frames = manager.transport().written_frames("default");
    assert_eq!(frames[0], b"{\"reqId\":\"1\",\"topic\":\"a\"}\n".to_vec());
    assert_eq!(frames[1], b"{\"reqId\":\"2\",\"topic\":\"b\"}\n".to_vec());
}

#[test]
fn connections_are_listed_by_name_and_reconnecting_replaces() {
    let mut manager = InMemoryConnectionManager::default();
    for (name, port) in [("zeta", "/dev/Z"), ("alpha", "/dev/A"), ("mid", "/dev/M")] {
        manager
            .connect(ConnectionRequest {
                name: name.to_string(),
                port: port.to_string(),
                baud_rate: 9600,
                delimiter: "\n".to_string(),
            })
            .unwrap();
    }
    manager
        .connect(ConnectionRequest {
            name: "mid".to_string(),
            port: "/dev/M2".to_string(),
            baud_rate: 57600,
            delimiter: "\r\n".to_string(),
        })
        .unwrap();

    let names: Vec<String> = manager
        .connections()
        .unwrap()
        .into_iter()
        .map(|c| c.name)
        .collect();
    assert_eq!(names, vec!["alpha", "mid", "zeta"]);
    let mid = manager
        .connections()
        .unwrap()
        .into_iter()
        .find(|c| c.name == "mid")
        .unwrap();
    assert_eq!(mid.port, "/dev/M2");
    assert_eq!(mid.baud_rate, 57600);
}

#[test]
fn read_items_become_events_and_responses() {
    let mut manager = InMemoryConnectionManager::default();

    manager.record_read_item(
        "default",
        DecodedReadItem::Line {
            parsed: Some(j(r#"{"reqId":"9","ok":true}"#)),
            text: r#"{"reqId":"9","ok":true}"#.to_string(),
        },
    );
    manager.record_read_item(
        "default",
        DecodedReadItem::Line {
            parsed: None,
            text: "boot ok".to_string(),
        },
    );
    manager.record_read_item(
        "default",
        DecodedReadItem::Line {
            parsed: Some(j(r#"{"method":"notification","data":1}"#)),
            text: String::new(),
        },
    );
    manager.record_read_item("default", DecodedReadItem::Error("port gone".to_string()));

    let kinds: Vec<&str> = manager.events().unwrap().iter().map(|e| e.event).collect();
    assert_eq!(
        kinds,
        vec!["serial.json", "serial.text", "serial.notification", "serial.error"]
    );
    assert_eq!(
        manager.take_response("default", "9").unwrap(),
        Some(j(r#"{"reqId":"9","ok":true}"#))
    );
}

#[test]
fn port_info_from_listing_names_kinds() {
    let usb = PortInfo::from_listing(
        "/dev/ttyUSB0".to_string(),
        PortKind::Usb {
            manufacturer: Some("FTDI".to_string()),
            serial_number: Some("ABC123".to_string()),
        },
    );
    assert_eq!(usb, usb_port());
    let bt = PortInfo::from_listing("/dev/rfcomm0".to_string(), PortKind::Bluetooth);
    assert_eq!(bt.port_type, "bluetooth");
    assert_eq!(bt.manufacturer, None);
    assert_eq!(
        PortInfo::from_listing("p".to_string(), PortKind::Pci).port_type,
        "pci"
    );
    assert_eq!(
        PortInfo::from_listing("u".to_string(), PortKind::Unknown).port_type,
        "unknown"
    );
}

#[test]
fn events_since_gives_the_later_events_only() {
    let mut manager = InMemoryConnectionManager::default();
    manager.record_event(SerialEvent::Text("one".to_string()));
    manager.record_event(SerialEvent::Text("two".to_string()));
    manager.record_error("three".to_string());

    let later = manager.events_since(1);
    assert_eq!(
        later,
        vec![
            SerialStreamEvent {
                event: "serial.text",
                data: JsonValue::Str("two".to_string()),
            },
            SerialStreamEvent {
                event: "serial.error",
                data: JsonValue::Str("three".to_string()),
            },
        ]
    );
    assert!(manager.events_since(3).is_empty());
    assert!(manager.events_since(10).is_empty());
    assert_eq!(manager.events_since(0).len(), 3);
}
