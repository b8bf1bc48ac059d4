use serialport_api::serial::manager::ConnectionInfo;
use serialport_api::serial::transport::{MockSerialTransport, SerialTransport};

fn connection() -> ConnectionInfo {
    ConnectionInfo {
        name: "default".to_string(),
        status: "connected",
        port: "/dev/ROBOT".to_string(),
        baud_rate: 115200,
        delimiter: "\r\n".to_string(),
    }
}

#[test]
fn mock_transport_records_open_close_and_written_frames() {
    let mut transport = MockSerialTransport::default();
    let connection = connection();

    transport.open(&connection).unwrap();
    transport
        .write_frame("default", b"{\"topic\":\"ping\"}\r\n")
        .unwrap();
    transport.close("default").unwrap();

    assert_eq!(transport.opened_names(), Vec::<String>::new());
    assert_eq!(transport.closed_names(), vec!["default".to_string()]);
    assert_eq!(
        transport.written_frames("default"),
        vec![b"{\"topic\":\"ping\"}\r\n".to_vec()]
    );
}

#[test]
fn mock_transport_lists_open_names_in_order_and_keeps_frames_per_name() {
    let mut transport = MockSerialTransport::new();
    for name in ["b", "a", "c", "a"] {
        let mut c = connection();
        c.name = name.to_string();
        transport.open(&c).unwrap();
    }
    transport.write_frame("a", b"1").unwrap();
    transport.write_frame("b", b"2").unwrap();
    transport.write_frame("a", b"3").unwrap();

    assert_eq!(transport.opened_names(), vec!["a", "b", "c"]);
    assert_eq!(transport.written_frames("a"), vec![b"1".to_vec(), b"3".to_vec()]);
    assert_eq!(transport.written_frames("b"), vec![b"2".to_vec()]);
    assert!(transport.written_frames("c").is_empty());
}
