use std::collections::{BTreeMap, VecDeque};
use std::sync::{Arc, Mutex};

use serialport_api::error::SerialportApiError;
use serialport_api::json::JsonValue;
use serialport_api::serial::manager::{ConnectionInfo, ConnectionManagerWithTransport, ConnectionRequest};
use serialport_api::serial::real_transport::{
    find_subslice, split_complete_lines, RealSerialTransport, SerialOpenSettings,
    SerialPortFactory, SerialPortHandle, DEFAULT_SERIAL_TIMEOUT_MS,
};
use serialport_api::serial::transport::SerialTransport;

#[derive(Clone, Default)]
struct FakeSerialPortFactory {
    state: Arc<Mutex<FakeFactoryState>>,
}

#[derive(Default)]
struct FakeFactoryState {
    opened_ports: Vec<(String, u32)>,
    handles_by_connection: BTreeMap<String, FakeSerialPortHandle>,
    refuse: bool,
}

#[derive(Clone, Default)]
struct FakeSerialPortHandle {
    written: Arc<Mutex<Vec<u8>>>,
    flush_count: Arc<Mutex<usize>>,
    readable: Arc<Mutex<VecDeque<u8>>>,
}

impl FakeSerialPortFactory {
    fn opened_ports(&self) -> Vec<(String, u32)> {
        self.state.lock().unwrap().opened_ports.clone()
    }

    fn written_for(&self, name: &str) -> Vec<u8> {
        self.state.lock().unwrap().handles_by_connection[name]
            .written
            .lock()
            .unwrap()
            .clone()
    }

    fn flush_count_for(&self, name: &str) -> usize {
        *self.state.lock().unwrap().handles_by_connection[name]
            .flush_count
            .lock()
            .unwrap()
    }

    fn push_bytes(&self, name: &str, bytes: &[u8]) {
        let state = self.state.lock().unwrap();
        let mut readable = state.handles_by_connection[name].readable.lock().unwrap();
        readable.extend(bytes.iter().copied());
    }
}

impl SerialPortFactory for FakeSerialPortFactory {
    type Handle = FakeSerialPortHandle;

    fn open(&self, connection: &ConnectionInfo) -> Result<Self::Handle, SerialportApiError> {
        let handle = FakeSerialPortHandle::default();
        let mut state = self.state.lock().unwrap();
        if state.refuse {
            return Err(SerialportApiError::SerialPort("busy".to_string()));
        }
        state
            .opened_ports
            .push((connection.port.clone(), connection.baud_rate));
        state
            .handles_by_connection
            .insert(connection.name.clone(), handle.clone());
        Ok(handle)
    }
}

impl SerialPortHandle for FakeSerialPortHandle {
    fn write_all(&mut self, bytes: &[u8]) -> Result<(), SerialportApiError> {
        self.written.lock().unwrap().extend_from_slice(bytes);
        Ok(())
    }

    fn flush(&mut self) -> Result<(), SerialportApiError> {
        *self.flush_count.lock().unwrap() += 1;
        Ok(())
    }

    fn read_byte(&mut self) -> Result<Option<u8>, SerialportApiError> {
        Ok(self.readable.lock().unwrap().pop_front())
    }
}

fn connection() -> ConnectionInfo {
    ConnectionInfo {
        name: "default".to_string(),
        status: "connected",
        port: "/dev/ttyTEST0".to_string(),
        baud_rate: 115200,
        delimiter: "\r\n".to_string(),
    }
}

#[test]
fn real_transport_opens_writes_flushes_and_closes_named_connection() {
    let factory = FakeSerialPortFactory::default();
    let mut transport = RealSerialTransport::new(factory.clone());
    let connection = connection();

    transport.open(&connection).unwrap();
    transport
        .write_frame("default", b"{\"reqId\":\"1\"}\r\n")
        .unwrap();
    transport.close("default").unwrap();

    assert_eq!(
        factory.opened_ports(),
        vec![("/dev/ttyTEST0".to_string(), 115200)]
    );
    assert_eq!(
        factory.written_for("default"),
        b"{\"reqId\":\"1\"}\r\n".to_vec()
    );
    assert_eq!(factory.flush_count_for("default"), 1);
    assert!(!transport.is_open("default"));
}

#[test]
fn real_transport_write_missing_connection_returns_connection_not_found() {
    let mut transport = RealSerialTransport::new(FakeSerialPortFactory::default());

    let error = transport.write_frame("missing", b"{}").unwrap_err();

    assert!(matches!(error, SerialportApiError::ConnectionNotFound(name) if name == "missing"));
}

#[test]
fn serial_open_settings_are_derived_from_connection_info() {
    let connection = ConnectionInfo {
        name: "robot".to_string(),
        status: "connected",
        port: "/dev/ttyUSB0".to_string(),
        baud_rate: 345600,
        delimiter: "\n".to_string(),
    };

    let settings = SerialOpenSettings::from_connection(&connection);

    assert_eq!(settings.port, "/dev/ttyUSB0");
    assert_eq!(settings.baud_rate, 345600);
    assert!(settings.timeout_ms > 0);
    assert_eq!(settings.timeout_ms, DEFAULT_SERIAL_TIMEOUT_MS);
}

#[test]
fn real_transport_drains_complete_delimited_lines_and_keeps_partial_bytes() {
    let factory = FakeSerialPortFactory::default();
    let mut transport = RealSerialTransport::new(factory.clone());
    transport.open(&connection()).unwrap();
    factory.push_bytes("default", b"{\"ok\":true}\r\nhello");

    let lines = transport.drain_lines("default", "\r\n").unwrap();

    assert_eq!(lines, vec![b"{\"ok\":true}\r\n".to_vec()]);
    factory.push_bytes("default", b" robot\r\n");
    assert_eq!(
        transport.drain_lines("default", "\r\n").unwrap(),
        vec![b"hello robot\r\n".to_vec()]
    );
}

#[test]
fn real_transport_drain_with_empty_delimiter_reads_nothing() {
    let factory = FakeSerialPortFactory::default();
    let mut transport = RealSerialTransport::new(factory.clone());
    transport.open(&connection()).unwrap();
    factory.push_bytes("default", b"a\nb\n");

    assert!(transport.drain_lines("default", "").unwrap().is_empty());
    assert_eq!(
        transport.drain_lines("default", "\n").unwrap(),
        vec![b"a\n".to_vec(), b"b\n".to_vec()]
    );
}

#[test]
fn real_transport_drain_missing_connection_returns_connection_not_found() {
    let mut transport = RealSerialTransport::new(FakeSerialPortFactory::default());

    let error = transport.drain_lines("nowhere", "\n").unwrap_err();

    assert!(matches!(error, SerialportApiError::ConnectionNotFound(name) if name == "nowhere"));
}

#[test]
fn real_transport_reopen_forgets_partial_bytes() {
    let factory = FakeSerialPortFactory::default();
    let mut transport = RealSerialTransport::new(factory.clone());
    transport.open(&connection()).unwrap();
    factory.push_bytes("default", b"partial");
    assert!(transport.drain_lines("default", "\n").unwrap().is_empty());

    transport.open(&connection()).unwrap();
    factory.push_bytes("default", b"fresh\n");

    assert_eq!(
        transport.drain_lines("default", "\n").unwrap(),
        vec![b"fresh\n".to_vec()]
    );
    assert!(transport.is_open("default"));
}

#[test]
fn real_transport_failed_open_leaves_nothing_open() {
    let factory = FakeSerialPortFactory::default();
    factory.state.lock().unwrap().refuse = true;
    let mut transport = RealSerialTransport::new(factory.clone());

    let error = transport.open(&connection()).unwrap_err();

    assert!(matches!(error, SerialportApiError::SerialPort(message) if message == "busy"));
    assert!(!transport.is_open("default"));
}

#[test]
fn find_subslice_gives_first_occurrence() {
    assert_eq!(find_subslice(b"ab\r\ncd\r\n", b"\r\n"), Some(2));
    assert_eq!(find_subslice(b"abc", b"\n"), None);
    assert_eq!(find_subslice(b"", b"\n"), None);
    assert_eq!(find_subslice(b"aaa", b"aa"), Some(0));
}

#[test]
fn split_complete_lines_keeps_the_tail() {
    let mut buffer = b"one\ntwo\nthr".to_vec();
    let lines = split_complete_lines(&mut buffer, b"\n");
    assert_eq!(lines, vec![b"one\n".to_vec(), b"two\n".to_vec()]);
    assert_eq!(buffer, b"thr".to_vec());
}

#[test]
fn cut_lines_hold_the_delimiter_only_at_their_end() {
    let mut buffer = b"ab\r\ncd\r\n\r\nef".to_vec();
    let lines = split_complete_lines(&mut buffer, b"\r\n");
    assert_eq!(lines.len(), 3);
    for line in &lines {
        assert_eq!(find_subslice(line, b"\r\n"), Some(line.len() - 2));
    }
    assert_eq!(buffer, b"ef".to_vec());
}

#[test]
fn a_read_loop_turn_records_the_lines_read_and_stops_when_the_port_is_gone() {
    let factory = FakeSerialPortFactory::default();
    let mut manager = ConnectionManagerWithTransport::new(RealSerialTransport::new(factory.clone()));
    manager
        .connect(ConnectionRequest {
            name: "default".to_string(),
            port: "/dev/ttyTEST0".to_string(),
            baud_rate: 115200,
            delimiter: "\n".to_string(),
        })
        .unwrap();
    factory.push_bytes("default", b"{\"reqId\":\"9\",\"ok\":true}\nhello\npart");

    assert!(manager.read_once("default", "\n"));

    let events = manager.events().unwrap();
    assert_eq!(events.len(), 2);
    assert_eq!(events[0].event, "serial.json");
    assert_eq!(events[1].event, "serial.text");
    assert_eq!(events[1].data, JsonValue::Str("hello".to_string()));
    assert!(manager.take_response("default", "9").unwrap().is_some());

    manager.disconnect("default").unwrap();
    assert!(!manager.read_once("default", "\n"));
    assert_eq!(manager.events().unwrap().len(), 2);
}
