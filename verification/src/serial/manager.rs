//! Named connections over a transport, command dispatch with request ids,
//! and the record of events and responses read back.

use vstd::prelude::*;
use vstd::std_specs::convert::FromSpecImpl;
use crate::error::SerialportApiError;
use crate::json::{JsonModel, JsonValue};
use crate::keyed::{keys_sorted, has_key, value_of, index_of_key, insert_sorted, remove_key, get_value, lemma_found_is_index_of_key};
use crate::protocol::{frame_bytes, SerialEvent};
use crate::serial::mock_device::{is_response_to, MockDeviceResponder};
use crate::serial::transport::SerialTransport;
use crate::text::{str_eq, u64_to_decimal, decimal};

verus! {

/// A serial port that the operating system lists.
#[derive(Debug, PartialEq, Eq)]
pub struct PortInfo {
    pub name: String,
    pub port_type: String,
    pub manufacturer: Option<String>,
    pub serial_number: Option<String>,
}

/// The kind of a listed port as the operating system reports it, with the
/// USB descriptor strings where there are some.
#[derive(Debug, PartialEq, Eq)]
pub enum PortKind {
    Usb { manufacturer: Option<String>, serial_number: Option<String> },
    Bluetooth,
    Pci,
    Unknown,
}

/// The name under which a port kind is reported.
pub open spec fn port_kind_name(kind: PortKind) -> Seq<char> {
    match kind {
        PortKind::Usb { .. } => "usb"@,
        PortKind::Bluetooth => "bluetooth"@,
        PortKind::Pci => "pci"@,
        PortKind::Unknown => "unknown"@,
    }
}

impl PortInfo {
    /// Describes a listed port: its name, the name of its kind, and the USB
    /// manufacturer and serial number when it is a USB port.
    pub fn from_listing(name: String, kind: PortKind) -> (r: PortInfo)
        ensures
            r.name == name,
            r.port_type@ == port_kind_name(kind),
            match kind {
                PortKind::Usb { manufacturer, serial_number } => r.manufacturer == manufacturer
                    && r.serial_number == serial_number,
                _ => r.manufacturer is None && r.serial_number is None,
            },
    {
        match kind {
            PortKind::Usb { manufacturer, serial_number } => PortInfo {
                name,
                port_type: String::from_str("usb"),
                manufacturer,
                serial_number,
            },
            PortKind::Bluetooth => PortInfo {
                name,
                port_type: String::from_str("bluetooth"),
                manufacturer: None,
                serial_number: None,
            },
            PortKind::Pci => PortInfo {
                name,
                port_type: String::from_str("pci"),
                manufacturer: None,
                serial_number: None,
            },
            PortKind::Unknown => PortInfo {
                name,
                port_type: String::from_str("unknown"),
                manufacturer: None,
                serial_number: None,
            },
        }
    }
}

/// Something that can list the serial ports present.
pub trait SerialPortLister {
    fn available_ports(&self) -> Result<Vec<PortInfo>, SerialportApiError>;
}

/// The ports that `lister` reports.
pub fn list_ports<L: SerialPortLister>(lister: &L) -> (r: Result<Vec<PortInfo>, SerialportApiError>)
    ensures
        call_ensures(L::available_ports, (lister,), r),
{
    lister.available_ports()
}

/// A request to open a named connection.
#[derive(Debug, PartialEq, Eq)]
pub struct ConnectionRequest {
    pub name: String,
    pub port: String,
    pub baud_rate: u32,
    pub delimiter: String,
}

/// An open named connection.
#[derive(Debug, PartialEq, Eq)]
pub struct ConnectionInfo {
    pub name: String,
    pub status: &'static str,
    pub port: String,
    pub baud_rate: u32,
    pub delimiter: String,
}

impl ConnectionInfo {
    /// A copy of this connection record.
    pub fn duplicate(&self) -> (r: ConnectionInfo)
        ensures
            r == *self,
    {
        ConnectionInfo {
            name: self.name.clone(),
            status: self.status,
            port: self.port.clone(),
            baud_rate: self.baud_rate,
            delimiter: self.delimiter.clone(),
        }
    }
}

/// The answer to a queued command: the request id that a response will
/// carry.
#[derive(Debug, PartialEq, Eq)]
pub struct QueuedCommand {
    pub req_id: String,
}

/// An event as streamed to clients: its name and its JSON data.
#[derive(Debug, PartialEq)]
pub struct SerialStreamEvent {
    pub event: &'static str,
    pub data: JsonValue,
}

/// The streamed form of a received line: `serial.json`, `serial.text` (the
/// text as a JSON string), `serial.log` or `serial.notification`.
pub open spec fn stream_event(e: SerialEvent) -> SerialStreamEvent {
    match e {
        SerialEvent::Json(data) => SerialStreamEvent { event: "serial.json", data },
        SerialEvent::Text(text) => SerialStreamEvent { event: "serial.text", data: JsonValue::Str(text) },
        SerialEvent::Log(data) => SerialStreamEvent { event: "serial.log", data },
        SerialEvent::Notification(data) => SerialStreamEvent { event: "serial.notification", data },
    }
}

impl From<SerialEvent> for SerialStreamEvent {
    fn from(event: SerialEvent) -> (r: SerialStreamEvent) {
        match event {
            SerialEvent::Json(data) => SerialStreamEvent { event: "serial.json", data },
            SerialEvent::Text(text) => SerialStreamEvent { event: "serial.text", data: JsonValue::Str(text) },
            SerialEvent::Log(data) => SerialStreamEvent { event: "serial.log", data },
            SerialEvent::Notification(data) => SerialStreamEvent { event: "serial.notification", data },
        }
    }
}

impl FromSpecImpl<SerialEvent> for SerialStreamEvent {
    open spec fn obeys_from_spec() -> bool {
        true
    }

    open spec fn from_spec(v: SerialEvent) -> SerialStreamEvent {
        stream_event(v)
    }
}

/// An event as mathematics sees it: its name and the model of its data.
pub type EventModel = (Seq<char>, JsonModel);

/// The model of a streamed event.
pub open spec fn event_model(e: SerialStreamEvent) -> EventModel {
    (e.event@, e.data.model())
}

/// A response waiting to be taken: connection name, request id, response.
pub type PendingModel = (Seq<char>, Seq<char>, JsonModel);

/// Recording a JSON response read on connection `conn`: it waits under its
/// string `reqId`; one without a string `reqId` is not kept for matching.
pub open spec fn record_json(pending: Seq<PendingModel>, conn: Seq<char>, v: JsonModel) -> Seq<PendingModel> {
    match v.str_field("reqId"@) {
        Some(r) => pending.push((conn, r, v)),
        None => pending,
    }
}

/// What recording an event does to the waiting responses: only JSON
/// responses wait; logs, notifications and text do not.
pub open spec fn record_pending(pending: Seq<PendingModel>, conn: Seq<char>, e: SerialEvent) -> Seq<PendingModel> {
    match e {
        SerialEvent::Json(v) => record_json(pending, conn, v.model()),
        _ => pending,
    }
}

/// The event a received line is recorded as: its body (see
/// `trimmed_frame`) parsed as JSON is a log, a notification or a response
/// by its string `method`; a body that is not JSON is its text.
pub open spec fn line_event_model(line: Seq<u8>, d: Seq<u8>) -> EventModel {
    let body = crate::protocol::trimmed_frame(line, d);
    match crate::protocol::json_of_bytes(body) {
        None => ("serial.text"@, JsonModel::Str(crate::protocol::lossy_text(body))),
        Some(v) => if v.str_field("method"@) == Some("log"@) {
            ("serial.log"@, v)
        } else if v.str_field("method"@) == Some("notification"@) {
            ("serial.notification"@, v)
        } else {
            ("serial.json"@, v)
        },
    }
}

/// The waiting responses after a line is received on `conn`: a JSON
/// response waits under its string `reqId` (see `record_json`); anything
/// else leaves them as they were.
pub open spec fn line_pending(pending: Seq<PendingModel>, conn: Seq<char>, line: Seq<u8>, d: Seq<u8>) -> Seq<PendingModel> {
    match crate::protocol::json_of_bytes(crate::protocol::trimmed_frame(line, d)) {
        Some(v) => if v.str_field("method"@) == Some("log"@) || v.str_field("method"@) == Some("notification"@) {
            pending
        } else {
            record_json(pending, conn, v)
        },
        None => pending,
    }
}

/// The waiting responses after the lines are received on `conn`, in order.
pub open spec fn lines_pending(pending: Seq<PendingModel>, conn: Seq<char>, lines: Seq<Seq<u8>>, d: Seq<u8>) -> Seq<PendingModel>
    decreases lines.len(),
{
    if lines.len() == 0 {
        pending
    } else {
        line_pending(lines_pending(pending, conn, lines.drop_last(), d), conn, lines.last(), d)
    }
}

/// The index of the oldest response waiting for `(conn, req)` at or after
/// `from`, or the number of waiting responses if there is none.
pub open spec fn first_pending(pending: Seq<PendingModel>, conn: Seq<char>, req: Seq<char>, from: int) -> int
    decreases pending.len() - from,
{
    if from < 0 || from >= pending.len() {
        pending.len() as int
    } else if pending[from].0 == conn && pending[from].1 == req {
        from
    } else {
        first_pending(pending, conn, req, from + 1)
    }
}

/// Taking the response for `(conn, req)`: the oldest one waiting, which
/// stops waiting; nothing if none waits.
pub open spec fn take_pending(pending: Seq<PendingModel>, conn: Seq<char>, req: Seq<char>) -> (Option<JsonModel>, Seq<PendingModel>) {
    let i = first_pending(pending, conn, req, 0);
    if i < pending.len() {
        (Some(pending[i].2), pending.remove(i))
    } else {
        (None, pending)
    }
}

/// `first_pending` finds the first match at or after `from`, or reports
/// that there is none.
pub proof fn lemma_first_pending(pending: Seq<PendingModel>, conn: Seq<char>, req: Seq<char>, from: int)
    requires
        0 <= from <= pending.len(),
    ensures
        from <= first_pending(pending, conn, req, from) <= pending.len(),
        first_pending(pending, conn, req, from) < pending.len() ==> pending[first_pending(pending, conn, req, from)].0 == conn
            && pending[first_pending(pending, conn, req, from)].1 == req,
        forall|j: int| from <= j < first_pending(pending, conn, req, from) ==> !(pending[j].0 == conn && pending[j].1 == req),
    decreases pending.len() - from,
{
    if from < pending.len() && !(pending[from].0 == conn && pending[from].1 == req) {
        lemma_first_pending(pending, conn, req, from + 1);
    }
}

/// An index that matches first (or is past the end with no match) is the
/// one `first_pending` gives.
pub proof fn lemma_first_pending_is(pending: Seq<PendingModel>, conn: Seq<char>, req: Seq<char>, from: int, idx: int)
    requires
        0 <= from <= idx <= pending.len(),
        idx < pending.len() ==> pending[idx].0 == conn && pending[idx].1 == req,
        forall|j: int| from <= j < idx ==> !(pending[j].0 == conn && pending[j].1 == req),
    ensures
        first_pending(pending, conn, req, from) == idx,
    decreases idx - from,
{
    if from < idx {
        lemma_first_pending_is(pending, conn, req, from + 1, idx);
    }
}

/// A response recorded on a connection is what the next take for its
/// request id on that connection gives, when no older response waits for
/// that id there; taking it leaves the waiting responses as they were.
pub proof fn law_take_after_record(pending: Seq<PendingModel>, conn: Seq<char>, v: JsonModel, req: Seq<char>)
    requires
        v.str_field("reqId"@) == Some(req),
        first_pending(pending, conn, req, 0) == pending.len(),
    ensures
        take_pending(record_json(pending, conn, v), conn, req) == (Some(v), pending),
{
    let p2 = record_json(pending, conn, v);
    lemma_first_pending(pending, conn, req, 0);
    assert forall|j: int| 0 <= j < pending.len() implies !(p2[j].0 == conn && p2[j].1 == req) by {
        assert(p2[j] == pending[j]);
    }
    lemma_first_pending_is(p2, conn, req, 0, pending.len() as int);
    assert(p2.remove(pending.len() as int) =~= pending);
}

/// Responses with the same request id on one connection are taken oldest
/// first, and then there is none.
pub proof fn law_duplicate_ids_fifo(pending: Seq<PendingModel>, conn: Seq<char>, req: Seq<char>, v1: JsonModel, v2: JsonModel)
    requires
        v1.str_field("reqId"@) == Some(req),
        v2.str_field("reqId"@) == Some(req),
        first_pending(pending, conn, req, 0) == pending.len(),
    ensures
        ({
            let both = record_json(record_json(pending, conn, v1), conn, v2);
            let (a, rest1) = take_pending(both, conn, req);
            let (b, rest2) = take_pending(rest1, conn, req);
            let (c, rest3) = take_pending(rest2, conn, req);
            a == Some(v1) && b == Some(v2) && c is None && rest3 == pending
        }),
{
    let p1 = pending.push((conn, req, v1));
    let both = p1.push((conn, req, v2));
    lemma_first_pending(pending, conn, req, 0);
    let n = pending.len() as int;
    assert forall|j: int| 0 <= j < n implies !(both[j].0 == conn && both[j].1 == req) by {
        assert(both[j] == pending[j]);
    }
    lemma_first_pending_is(both, conn, req, 0, n);
    let rest1 = both.remove(n);
    assert(rest1 =~= pending.push((conn, req, v2)));
    assert forall|j: int| 0 <= j < n implies !(rest1[j].0 == conn && rest1[j].1 == req) by {
        assert(rest1[j] == pending[j]);
    }
    lemma_first_pending_is(rest1, conn, req, 0, n);
    let rest2 = rest1.remove(n);
    assert(rest2 =~= pending);
    lemma_first_pending_is(rest2, conn, req, 0, n);
}

/// Recording a response on one connection does not change what a take on
/// another connection gives.
pub proof fn law_no_match_across_connections(pending: Seq<PendingModel>, conn: Seq<char>, other: Seq<char>, v: JsonModel, req: Seq<char>)
    requires
        conn != other,
    ensures
        take_pending(record_json(pending, conn, v), other, req).0 == take_pending(pending, other, req).0,
{
    let p2 = record_json(pending, conn, v);
    lemma_first_pending(pending, other, req, 0);
    let f = first_pending(pending, other, req, 0);
    if v.str_field("reqId"@) is Some {
        assert forall|j: int| 0 <= j < f implies !(p2[j].0 == other && p2[j].1 == req) by {
            assert(p2[j] == pending[j]);
        }
        if f < pending.len() {
            assert(p2[f] == pending[f]);
            lemma_first_pending_is(p2, other, req, 0, f);
        } else {
            assert(p2[f].0 == conn);
            lemma_first_pending_is(p2, other, req, 0, p2.len() as int);
        }
    }
}

/// Only JSON responses with a string `reqId` wait to be taken: text, logs,
/// notifications and JSON without a string `reqId` leave the waiting
/// responses as they were.
pub proof fn law_only_json_with_string_id_waits(pending: Seq<PendingModel>, conn: Seq<char>, e: SerialEvent)
    requires
        !(e matches SerialEvent::Json(v) && v.model().str_field("reqId"@) is Some),
    ensures
        record_pending(pending, conn, e) == pending,
{
}

/// The request id a command brings of its own: its `reqId` member when
/// that is a string, number, boolean or null.
pub open spec fn own_req_id(payload: JsonModel) -> Option<JsonModel> {
    match payload.field("reqId"@) {
        Some(JsonModel::Array(_)) | Some(JsonModel::Object(_)) | None => None,
        Some(v) => Some(v),
    }
}

/// The text of a request id given in a command: a string as it is, a
/// number, boolean or null as JSON writes it; an array or object has no
/// such text and gives the empty text.
pub open spec fn req_id_text(v: JsonModel) -> Seq<char> {
    match v {
        JsonModel::Str(s) => s,
        JsonModel::Number(t) => t,
        JsonModel::Bool(b) => if b { "true"@ } else { "false"@ },
        JsonModel::Null => "null"@,
        _ => Seq::empty(),
    }
}

/// The text of a request id given in a command (see `req_id_text`).
pub fn req_id_of(v: &JsonValue) -> (r: String)
    ensures
        r@ == req_id_text(v.model()),
{
    match v {
        JsonValue::Str(s) => s.clone(),
        JsonValue::Number(t) => t.clone(),
        JsonValue::Bool(b) => if *b { String::from_str("true") } else { String::from_str("false") },
        JsonValue::Null => String::from_str("null"),
        _ => String::new(),
    }
}

/// The record kept of a connection.
pub open spec fn connection_of(request: ConnectionRequest) -> ConnectionInfo {
    ConnectionInfo {
        name: request.name,
        status: "connected",
        port: request.port,
        baud_rate: request.baud_rate,
        delimiter: request.delimiter,
    }
}

/// The open connections, one per name, in increasing name order.
#[derive(Debug)]
struct ConnectionTable {
    entries: Vec<(String, ConnectionInfo)>,
}

impl ConnectionTable {
    #[verifier::type_invariant]
    spec fn wf(&self) -> bool {
        &&& keys_sorted(self.entries@)
        &&& forall|i: int| 0 <= i < self.entries@.len() ==> (#[trigger] self.entries@[i]).0@ == self.entries@[i].1.name@
    }

    closed spec fn list(&self) -> Seq<ConnectionInfo> {
        self.entries@.map_values(|e: (String, ConnectionInfo)| e.1)
    }

    closed spec fn lookup(&self, name: Seq<char>) -> Option<ConnectionInfo> {
        value_of(self.entries@, name)
    }

    fn new() -> (r: ConnectionTable)
        ensures
            r.list() == Seq::<ConnectionInfo>::empty(),
            forall|n: Seq<char>| #[trigger] r.lookup(n) is None,
    {
        let r = ConnectionTable { entries: Vec::new() };
        assert(r.list() =~= Seq::<ConnectionInfo>::empty());
        r
    }

    fn get(&self, name: &str) -> (r: Option<&ConnectionInfo>)
        ensures
            match r {
                Some(c) => self.lookup(name@) == Some(*c) && c.name@ == name@,
                None => self.lookup(name@) is None,
            },
    {
        proof {
            use_type_invariant(self);
            if has_key(self.entries@, name@) {
                lemma_found_is_index_of_key(self.entries@, index_of_key(self.entries@, name@));
            }
        }
        get_value(&self.entries, name)
    }

    fn put(&mut self, info: ConnectionInfo)
        ensures
            final(self).lookup(info.name@) == Some(info),
            forall|n: Seq<char>| n != info.name@ ==> #[trigger] final(self).lookup(n) == old(self).lookup(n),
    {
        proof {
            use_type_invariant(&*self);
        }
        let mut entries = Vec::new();
        std::mem::swap(&mut entries, &mut self.entries);
        let ghost before = entries@;
        let ghost name = info.name@;
        insert_sorted(&mut entries, info.name.clone(), info);
        proof {
            assert forall|i: int| 0 <= i < entries@.len() implies (#[trigger] entries@[i]).0@ == entries@[i].1.name@ by {
                if has_key(before, name) {
                    let p = index_of_key(before, name);
                    if i != p {
                        assert(entries@[i] == before[i]);
                    }
                } else {
                    let p = choose|p: int| 0 <= p <= before.len() && entries@ == before.insert(p, entries@[p]);
                    if i < p {
                        assert(entries@[i] == before[i]);
                    } else if i > p {
                        assert(entries@[i] == before[i - 1]);
                    }
                }
            }
        }
        self.entries = entries;
    }

    fn remove(&mut self, name: &str)
        ensures
            final(self).lookup(name@) is None,
            forall|n: Seq<char>| n != name@ ==> #[trigger] final(self).lookup(n) == old(self).lookup(n),
    {
        proof {
            use_type_invariant(&*self);
        }
        let mut entries = Vec::new();
        std::mem::swap(&mut entries, &mut self.entries);
        let ghost before = entries@;
        let _ = remove_key(&mut entries, name);
        proof {
            assert forall|i: int| 0 <= i < entries@.len() implies (#[trigger] entries@[i]).0@ == entries@[i].1.name@ by {
                if has_key(before, name@) {
                    let p = index_of_key(before, name@);
                    if i < p {
                        assert(entries@[i] == before[i]);
                    } else {
                        assert(entries@[i] == before[i + 1]);
                    }
                }
            }
        }
        self.entries = entries;
    }

    fn list_copy(&self) -> (r: Vec<ConnectionInfo>)
        ensures
            r@ == self.list(),
            forall|i: int| 0 <= i < r@.len() ==> self.lookup(#[trigger] r@[i].name@) == Some(r@[i]),
            forall|i: int, j: int| 0 <= i < j < r@.len() ==> crate::text::chars_lt(#[trigger] r@[i].name@, #[trigger] r@[j].name@),
            forall|n: Seq<char>| #[trigger] self.lookup(n) is Some ==> exists|i: int| 0 <= i < r@.len() && r@[i].name@ == n,
    {
        proof {
            use_type_invariant(self);
            assert forall|n: Seq<char>| #[trigger] self.lookup(n) is Some implies exists|i: int|
                0 <= i < self.list().len() && self.list()[i].name@ == n by {
                let i = index_of_key(self.entries@, n);
                assert(self.list()[i] == self.entries@[i].1);
            }
            assert forall|i: int| 0 <= i < self.entries@.len() implies self.lookup(#[trigger] self.entries@[i].1.name@) == Some(self.entries@[i].1) by {
                lemma_found_is_index_of_key(self.entries@, i);
            }
        }
        let mut r: Vec<ConnectionInfo> = Vec::new();
        let mut i: usize = 0;
        while i < self.entries.len()
            invariant
                i <= self.entries@.len(),
                r@ == self.entries@.subrange(0, i as int).map_values(|e: (String, ConnectionInfo)| e.1),
            decreases self.entries@.len() - i,
        {
            r.push(self.entries[i].1.duplicate());
            i = i + 1;
            assert(r@ =~= self.entries@.subrange(0, i as int).map_values(|e: (String, ConnectionInfo)| e.1));
        }
        assert(self.entries@.subrange(0, self.entries@.len() as int) =~= self.entries@);
        r
    }
}

/// A response read from a connection, waiting to be taken by request id.
#[derive(Debug)]
struct PendingResponse {
    connection: String,
    req_id: String,
    value: JsonValue,
}

spec fn pending_model(p: PendingResponse) -> PendingModel {
    (p.connection@, p.req_id@, p.value.model())
}

/// A command ready to be written: its connection, request id, payload (with
/// `reqId` set) and the connection's delimiter. The payload's JSON text is
/// made outside the library and handed to `dispatch_command`.
#[derive(Debug, PartialEq)]
pub struct PreparedCommand {
    pub connection_name: String,
    pub req_id: String,
    pub payload: JsonValue,
    pub delimiter: String,
}

/// Named connections over a transport `T`: the registry of connections, the
/// request id counter, the events read so far and the responses waiting to
/// be taken, and optionally a mock device that answers each command.
#[derive(Debug)]
pub struct ConnectionManagerWithTransport<T> {
    connections: ConnectionTable,
    next_req_id: u64,
    events: Vec<SerialStreamEvent>,
    responses: Vec<PendingResponse>,
    transport: T,
    mock_responder: Option<MockDeviceResponder>,
}

impl<T: SerialTransport + Default> Default for ConnectionManagerWithTransport<T> {
    /// A manager over a default transport, with no connections, events or
    /// responses and no mock device.
    fn default() -> (r: Self)
        ensures
            r.connection_list() == Seq::<ConnectionInfo>::empty(),
            forall|n: Seq<char>| #[trigger] r.connection(n) is None,
            r.req_id_counter() == 0,
            r.event_log() == Seq::<EventModel>::empty(),
            r.pending() == Seq::<PendingModel>::empty(),
            r.responder() is None,
    {
        Self::new(T::default())
    }
}

/// The manager over the recording transport.
pub type InMemoryConnectionManager = ConnectionManagerWithTransport<crate::serial::transport::MockSerialTransport>;

impl<T: SerialTransport> ConnectionManagerWithTransport<T> {
    /// The open connections, in increasing name order.
    pub closed spec fn connection_list(&self) -> Seq<ConnectionInfo> {
        self.connections.list()
    }

    /// The open connection named `name`, if any.
    pub closed spec fn connection(&self, name: Seq<char>) -> Option<ConnectionInfo> {
        self.connections.lookup(name)
    }

    /// The last request id generated (0 before the first).
    pub closed spec fn req_id_counter(&self) -> u64 {
        self.next_req_id
    }

    /// The events recorded so far, oldest first.
    pub closed spec fn event_log(&self) -> Seq<EventModel> {
        self.events@.map_values(|e: SerialStreamEvent| event_model(e))
    }

    /// The responses waiting to be taken, oldest first.
    pub closed spec fn pending(&self) -> Seq<PendingModel> {
        self.responses@.map_values(|p: PendingResponse| pending_model(p))
    }

    /// The transport.
    pub closed spec fn transport_state(&self) -> T {
        self.transport
    }

    /// The mock device, if the manager has one.
    pub closed spec fn responder(&self) -> Option<MockDeviceResponder> {
        self.mock_responder
    }

    /// What connecting does (see `connect`): the transport opens the
    /// connection; when it succeeds the connection is kept under its name
    /// (replacing one of that name) and given back, else no connection
    /// changes. Events, responses and the request counter stay as they were.
    pub open spec fn connects(self, after: Self, request: ConnectionRequest, r: Result<ConnectionInfo, SerialportApiError>) -> bool {
        &&& match r {
            Ok(c) => c == connection_of(request) && after.connection(request.name@) == Some(c) && forall|n: Seq<char>|
                n != request.name@ ==> #[trigger] after.connection(n) == self.connection(n),
            Err(_) => forall|n: Seq<char>| #[trigger] after.connection(n) == self.connection(n),
        }
        &&& r is Ok ==> after.transport_state().holds_open(request.name@)
        &&& self.transport_state().never_fails() ==> r == Ok::<ConnectionInfo, SerialportApiError>(connection_of(request))
        &&& after.transport_state().never_fails() == self.transport_state().never_fails()
        &&& after.transport_state().open_calls() == self.transport_state().open_calls().push(
            (connection_of(request), crate::serial::transport::failure(r)),
        )
        &&& after.transport_state().close_calls() == self.transport_state().close_calls()
        &&& after.transport_state().write_calls() == self.transport_state().write_calls()
        &&& forall|n: Seq<char>| #[trigger] after.transport_state().delivered(n) == self.transport_state().delivered(n)
        &&& after.event_log() == self.event_log()
        &&& after.pending() == self.pending()
        &&& after.req_id_counter() == self.req_id_counter()
        &&& after.responder() == self.responder()
    }

    /// What disconnecting `name` does (see `disconnect`): the connection is
    /// forgotten whatever happens, and the transport closes it; the result
    /// is the name unless closing fails. Events, responses and the request
    /// counter stay as they were.
    pub open spec fn disconnects(self, after: Self, name: Seq<char>, r: Result<String, SerialportApiError>) -> bool {
        &&& after.connection(name) is None
        &&& forall|n: Seq<char>| n != name ==> #[trigger] after.connection(n) == self.connection(n)
        &&& r matches Ok(s) ==> s@ == name && !after.transport_state().holds_open(name)
        &&& self.transport_state().never_fails() ==> r is Ok
        &&& after.transport_state().never_fails() == self.transport_state().never_fails()
        &&& after.transport_state().close_calls() == self.transport_state().close_calls().push(
            (name, crate::serial::transport::failure(r)),
        )
        &&& after.transport_state().open_calls() == self.transport_state().open_calls()
        &&& after.transport_state().write_calls() == self.transport_state().write_calls()
        &&& forall|n: Seq<char>| #[trigger] after.transport_state().delivered(n) == self.transport_state().delivered(n)
        &&& after.event_log() == self.event_log()
        &&& after.pending() == self.pending()
        &&& after.req_id_counter() == self.req_id_counter()
        &&& after.responder() == self.responder()
    }

    /// What readying a command does (see `prepare_command`): the connection
    /// must be open and the payload an object; a `reqId` of its own (a
    /// string, number, boolean or null) is kept, else the next request id is
    /// generated and set as `reqId`; nothing else changes.
    pub open spec fn prepares(self, after: Self, connection_name: Seq<char>, payload: JsonValue, r: Result<PreparedCommand, SerialportApiError>) -> bool {
        &&& match self.connection(connection_name) {
            None => r matches Err(SerialportApiError::ConnectionNotFound(n)) && n@ == connection_name
                && after.req_id_counter() == self.req_id_counter(),
            Some(c) => if !(payload is Object) {
                r matches Err(SerialportApiError::InvalidCommandPayload) && after.req_id_counter() == self.req_id_counter()
            } else {
                r matches Ok(p) && {
                    &&& p.connection_name@ == connection_name
                    &&& p.delimiter@ == c.delimiter@
                    &&& p.payload is Object
                    &&& payload.fields_ordered() ==> p.payload.fields_ordered()
                    &&& match own_req_id(payload.model()) {
                        Some(id) => p.req_id@ == req_id_text(id) && p.payload == payload && after.req_id_counter() == self.req_id_counter(),
                        None => {
                            &&& after.req_id_counter() == self.req_id_counter() + 1
                            &&& p.req_id@ == decimal(after.req_id_counter() as nat)
                            &&& p.payload.model() == JsonModel::Object(
                                crate::json::set_member(payload.model()->Object_0, "reqId"@, JsonModel::Str(p.req_id@)),
                            )
                            &&& p.payload.model().field("reqId"@) == Some(JsonModel::Str(p.req_id@))
                            &&& forall|k: Seq<char>| k != "reqId"@ ==> #[trigger] p.payload.model().field(k) == payload.model().field(k)
                            &&& forall|k: Seq<char>| #[trigger] p.payload.model().keys().contains(k) == (payload.model().keys().contains(k) || k == "reqId"@)
                        },
                    }
                }
            },
        }
        &&& after.connection_list() == self.connection_list()
        &&& forall|n: Seq<char>| #[trigger] after.connection(n) == self.connection(n)
        &&& after.event_log() == self.event_log()
        &&& after.pending() == self.pending()
        &&& after.transport_state() == self.transport_state()
        &&& after.responder() == self.responder()
    }

    /// What writing a prepared command with JSON text `body` does (see
    /// `dispatch_command`): one write of `body` and the delimiter to the
    /// command's connection, whose outcome is the result; on success the
    /// mock device, if any, answers and its answer is recorded.
    pub open spec fn dispatches(self, after: Self, command: PreparedCommand, body: Seq<u8>, r: Result<QueuedCommand, SerialportApiError>) -> bool {
        &&& after.connection_list() == self.connection_list()
        &&& forall|n: Seq<char>| #[trigger] after.connection(n) == self.connection(n)
        &&& after.req_id_counter() == self.req_id_counter()
        &&& after.responder() == self.responder()
        &&& r is Ok ==> after.transport_state().delivered(command.connection_name@) == self.transport_state().delivered(
            command.connection_name@,
        ).push(body + crate::protocol::utf8_of(command.delimiter@))
        &&& r is Err ==> after.transport_state().delivered(command.connection_name@) == self.transport_state().delivered(
            command.connection_name@,
        )
        &&& forall|n: Seq<char>| n != command.connection_name@ ==> #[trigger] after.transport_state().delivered(n)
            == self.transport_state().delivered(n)
        &&& after.transport_state().write_calls() == self.transport_state().write_calls().push(
            (command.connection_name@, body + crate::protocol::utf8_of(command.delimiter@), crate::serial::transport::failure(r)),
        )
        &&& self.transport_state().never_fails() ==> r is Ok
        &&& after.transport_state().never_fails() == self.transport_state().never_fails()
        &&& after.transport_state().open_calls() == self.transport_state().open_calls()
        &&& after.transport_state().close_calls() == self.transport_state().close_calls()
        &&& match r {
            Err(_) => after.event_log() == self.event_log() && after.pending() == self.pending(),
            Ok(q) => q.req_id == command.req_id && match self.responder() {
                None => after.event_log() == self.event_log() && after.pending() == self.pending(),
                Some(device) => exists|reply: Option<JsonModel>| {
                    &&& #[trigger] crate::serial::mock_device::answers_body(device.script().responses@, body, reply)
                    &&& match reply {
                        None => after.event_log() == self.event_log() && after.pending() == self.pending(),
                        Some(v) => after.event_log() == self.event_log().push(("serial.json"@, v))
                            && after.pending() == record_json(self.pending(), command.connection_name@, v),
                    }
                },
            },
        }
    }

    /// A manager with no connections, events or responses, and no mock
    /// device.
    pub fn new(transport: T) -> (r: Self)
        ensures
            r.connection_list() == Seq::<ConnectionInfo>::empty(),
            forall|n: Seq<char>| #[trigger] r.connection(n) is None,
            r.req_id_counter() == 0,
            r.event_log() == Seq::<EventModel>::empty(),
            r.pending() == Seq::<PendingModel>::empty(),
            r.transport_state() == transport,
            r.responder() is None,
    {
        let r = ConnectionManagerWithTransport {
            connections: ConnectionTable::new(),
            next_req_id: 0,
            events: Vec::new(),
            responses: Vec::new(),
            transport,
            mock_responder: None,
        };
        assert(r.event_log() =~= Seq::<EventModel>::empty());
        assert(r.pending() =~= Seq::<PendingModel>::empty());
        assert forall|n: Seq<char>| #[trigger] r.connection(n) is None by {
            assert(r.connections.lookup(n) is None);
        }
        r
    }

    /// As `new`, with a mock device that answers each command written.
    pub fn with_mock_responder(transport: T, responder: MockDeviceResponder) -> (r: Self)
        ensures
            r.connection_list() == Seq::<ConnectionInfo>::empty(),
            forall|n: Seq<char>| #[trigger] r.connection(n) is None,
            r.req_id_counter() == 0,
            r.event_log() == Seq::<EventModel>::empty(),
            r.pending() == Seq::<PendingModel>::empty(),
            r.transport_state() == transport,
            r.responder() == Some(responder),
    {
        let mut r = Self::new(transport);
        let ghost before = r;
        r.mock_responder = Some(responder);
        assert forall|n: Seq<char>| #[trigger] r.connection(n) is None by {
            assert(before.connection(n) is None);
        }
        r
    }

    /// The last request id generated (0 before the first).
    pub fn last_req_id(&self) -> (r: u64)
        ensures
            r == self.req_id_counter(),
    {
        self.next_req_id
    }

    /// Records what was read on connection `connection_name`: a decoded line
    /// as the event it is classified as (see `classify_line`), a read error
    /// as a `serial.error` event.
    pub fn record_read_item(&mut self, connection_name: &str, item: crate::serial::read_loop::DecodedReadItem)
        ensures
            match item {
                crate::serial::read_loop::DecodedReadItem::Line { parsed, text } => exists|e: SerialEvent| {
                    &&& crate::protocol::is_classified(parsed, text, e)
                    &&& final(self).event_log() == old(self).event_log().push(event_model(stream_event(e)))
                    &&& final(self).pending() == record_pending(old(self).pending(), connection_name@, e)
                },
                crate::serial::read_loop::DecodedReadItem::Error(message) => final(self).event_log()
                    == old(self).event_log().push(("serial.error"@, JsonModel::Str(message@))) && final(self).pending()
                    == old(self).pending(),
            },
            final(self).connection_list() == old(self).connection_list(),
            forall|n: Seq<char>| #[trigger] final(self).connection(n) == old(self).connection(n),
            final(self).req_id_counter() == old(self).req_id_counter(),
            final(self).transport_state() == old(self).transport_state(),
            final(self).responder() == old(self).responder(),
    {
        match item {
            crate::serial::read_loop::DecodedReadItem::Line { parsed, text } => {
                let event = crate::protocol::classify_line(parsed, text);
                self.record_event_for_connection(connection_name, event);
            },
            crate::serial::read_loop::DecodedReadItem::Error(message) => {
                self.record_error(message);
            },
        }
    }

    /// Records the lines received on `connection_name`, in order, each as
    /// the event it is (see `line_event_model`).
    pub fn record_lines(&mut self, connection_name: &str, delimiter: &str, lines: &Vec<Vec<u8>>)
        ensures
            final(self).event_log() == old(self).event_log() + lines@.map_values(
                |l: Vec<u8>| line_event_model(l@, crate::protocol::utf8_of(delimiter@)),
            ),
            final(self).pending() == lines_pending(
                old(self).pending(),
                connection_name@,
                lines@.map_values(|l: Vec<u8>| l@),
                crate::protocol::utf8_of(delimiter@),
            ),
            final(self).connection_list() == old(self).connection_list(),
            forall|n: Seq<char>| #[trigger] final(self).connection(n) == old(self).connection(n),
            final(self).req_id_counter() == old(self).req_id_counter(),
            final(self).transport_state() == old(self).transport_state(),
            final(self).responder() == old(self).responder(),
    {
        let ghost d = crate::protocol::utf8_of(delimiter@);
        let ghost views = lines@.map_values(|l: Vec<u8>| l@);
        let mut i: usize = 0;
        while i < lines.len()
            invariant
                i <= lines@.len(),
                views == lines@.map_values(|l: Vec<u8>| l@),
                d == crate::protocol::utf8_of(delimiter@),
                self.event_log() == old(self).event_log() + lines@.subrange(0, i as int).map_values(
                    |l: Vec<u8>| line_event_model(l@, d),
                ),
                self.pending() == lines_pending(old(self).pending(), connection_name@, views.subrange(0, i as int), d),
                self.connection_list() == old(self).connection_list(),
                forall|n: Seq<char>| #[trigger] self.connection(n) == old(self).connection(n),
                self.req_id_counter() == old(self).req_id_counter(),
                self.transport_state() == old(self).transport_state(),
                self.responder() == old(self).responder(),
            decreases lines@.len() - i,
        {
            let line = &lines[i];
            let parsed = crate::protocol::line_json(line.as_slice(), delimiter);
            let text = crate::protocol::line_text(line.as_slice(), delimiter);
            let event = crate::protocol::classify_line(parsed, text);
            let ghost before_log = self.event_log();
            let ghost before_pending = self.pending();
            self.record_event_for_connection(connection_name, event);
            proof {
                assert(event_model(stream_event(event)) == line_event_model(line@, d));
                assert(record_pending(before_pending, connection_name@, event) == line_pending(before_pending, connection_name@, line@, d));
                assert(lines@.subrange(0, i + 1).map_values(|l: Vec<u8>| line_event_model(l@, d)) =~= lines@.subrange(
                    0,
                    i as int,
                ).map_values(|l: Vec<u8>| line_event_model(l@, d)).push(line_event_model(line@, d)));
                assert(views.subrange(0, i + 1).drop_last() =~= views.subrange(0, i as int));
            }
            i = i + 1;
        }
        assert(lines@.subrange(0, i as int) =~= lines@);
        assert(views.subrange(0, i as int) =~= views);
    }

    /// The transport.
    pub fn transport(&self) -> (r: &T)
        ensures
            *r == self.transport_state(),
    {
        &self.transport
    }

    /// Records an event read on the `default` connection.
    pub fn record_event(&mut self, event: SerialEvent)
        ensures
            final(self).event_log() == old(self).event_log().push(event_model(stream_event(event))),
            final(self).pending() == record_pending(old(self).pending(), "default"@, event),
            final(self).connection_list() == old(self).connection_list(),
            forall|n: Seq<char>| #[trigger] final(self).connection(n) == old(self).connection(n),
            final(self).req_id_counter() == old(self).req_id_counter(),
            final(self).transport_state() == old(self).transport_state(),
            final(self).responder() == old(self).responder(),
    {
        self.record_event_for_connection("default", event);
    }

    /// Records an event read on connection `connection_name`: it joins the
    /// event log, and a JSON response with a string `reqId` also waits to be
    /// taken under that id.
    pub fn record_event_for_connection(&mut self, connection_name: &str, event: SerialEvent)
        ensures
            final(self).event_log() == old(self).event_log().push(event_model(stream_event(event))),
            final(self).pending() == record_pending(old(self).pending(), connection_name@, event),
            final(self).connection_list() == old(self).connection_list(),
            forall|n: Seq<char>| #[trigger] final(self).connection(n) == old(self).connection(n),
            final(self).req_id_counter() == old(self).req_id_counter(),
            final(self).transport_state() == old(self).transport_state(),
            final(self).responder() == old(self).responder(),
    {
        let ghost e0 = event;
        if let SerialEvent::Json(value) = &event {
            if let Some(req_id) = value.get_str_field("reqId") {
                let p = PendingResponse {
                    connection: String::from_str(connection_name),
                    req_id,
                    value: value.deep_copy(),
                };
                self.responses.push(p);
                assert(self.pending() =~= old(self).pending().push(pending_model(p)));
            } else {
                assert(self.pending() =~= old(self).pending());
            }
        }
        let ev = SerialStreamEvent::from(event);
        assert(ev == stream_event(e0));
        self.events.push(ev);
        assert(self.event_log() =~= old(self).event_log().push(event_model(stream_event(e0))));
    }

    /// Takes the oldest response waiting on `connection_name` for `req_id`.
    pub fn take_response(&mut self, connection_name: &str, req_id: &str) -> (r: Result<Option<JsonValue>, SerialportApiError>)
        ensures
            r matches Ok(taken) && ({
                let (expected, rest) = take_pending(old(self).pending(), connection_name@, req_id@);
                &&& match taken {
                    Some(v) => expected == Some(v.model()),
                    None => expected is None,
                }
                &&& final(self).pending() == rest
            }),
            final(self).event_log() == old(self).event_log(),
            final(self).connection_list() == old(self).connection_list(),
            forall|n: Seq<char>| #[trigger] final(self).connection(n) == old(self).connection(n),
            final(self).req_id_counter() == old(self).req_id_counter(),
            final(self).transport_state() == old(self).transport_state(),
            final(self).responder() == old(self).responder(),
    {
        let ghost pm = old(self).pending();
        let mut i: usize = 0;
        while i < self.responses.len()
            invariant
                i <= self.responses@.len(),
                *self == *old(self),
                pm == self.responses@.map_values(|p: PendingResponse| pending_model(p)),
                forall|j: int| 0 <= j < i ==> !(#[trigger] pm[j].0 == connection_name@ && pm[j].1 == req_id@),
            decreases self.responses@.len() - i,
        {
            if str_eq(self.responses[i].connection.as_str(), connection_name) && str_eq(self.responses[i].req_id.as_str(), req_id) {
                proof {
                    lemma_first_pending_is(pm, connection_name@, req_id@, 0, i as int);
                }
                let p = self.responses.remove(i);
                assert(self.pending() =~= pm.remove(i as int));
                return Ok(Some(p.value));
            }
            i = i + 1;
        }
        proof {
            lemma_first_pending_is(pm, connection_name@, req_id@, 0, pm.len() as int);
        }
        Ok(None)
    }

    /// Records a read error as a `serial.error` event carrying its message.
    pub fn record_error(&mut self, message: String)
        ensures
            final(self).event_log() == old(self).event_log().push(("serial.error"@, JsonModel::Str(message@))),
            final(self).pending() == old(self).pending(),
            final(self).connection_list() == old(self).connection_list(),
            forall|n: Seq<char>| #[trigger] final(self).connection(n) == old(self).connection(n),
            final(self).req_id_counter() == old(self).req_id_counter(),
            final(self).transport_state() == old(self).transport_state(),
            final(self).responder() == old(self).responder(),
    {
        let ev = SerialStreamEvent { event: "serial.error", data: JsonValue::Str(message) };
        self.events.push(ev);
        assert(self.event_log() =~= old(self).event_log().push(event_model(ev)));
    }

    /// Opens a connection through the transport and, when that succeeds,
    /// records it under its name, replacing any connection of that name.
    pub fn connect(&mut self, request: ConnectionRequest) -> (r: Result<ConnectionInfo, SerialportApiError>)
        ensures
            old(self).connects(*final(self), request, r),
    {
        let connection = ConnectionInfo {
            name: request.name,
            status: "connected",
            port: request.port,
            baud_rate: request.baud_rate,
            delimiter: request.delimiter,
        };
        match self.transport.open(&connection) {
            Ok(()) => {},
            Err(e) => return Err(e),
        }
        self.connections.put(connection.duplicate());
        Ok(connection)
    }

    /// The open connections, in increasing name order.
    pub fn connections(&self) -> (r: Result<Vec<ConnectionInfo>, SerialportApiError>)
        ensures
            r matches Ok(list) && list@ == self.connection_list(),
            forall|i: int| 0 <= i < self.connection_list().len() ==> self.connection(#[trigger] self.connection_list()[i].name@) == Some(self.connection_list()[i]),
            forall|i: int, j: int| 0 <= i < j < self.connection_list().len() ==> crate::text::chars_lt(#[trigger] self.connection_list()[i].name@, #[trigger] self.connection_list()[j].name@),
            forall|n: Seq<char>| #[trigger] self.connection(n) is Some ==> exists|i: int|
                0 <= i < self.connection_list().len() && self.connection_list()[i].name@ == n,
    {
        Ok(self.connections.list_copy())
    }

    /// Forgets the connection named `name` and closes it through the
    /// transport; gives back the name unless closing fails.
    pub fn disconnect(&mut self, name: &str) -> (r: Result<String, SerialportApiError>)
        ensures
            old(self).disconnects(*final(self), name@, r),
    {
        self.connections.remove(name);
        let closed = self.transport.close(name);
        let r = match closed {
            Ok(()) => Ok(String::from_str(name)),
            Err(e) => Err(e),
        };
        r
    }

    /// Readies a command for connection `connection_name`: the connection
    /// must be open and the payload a JSON object; a `reqId` in the payload
    /// is kept as it is (the command's request id is its text, see
    /// `req_id_text`), else the next request id (1, 2, ...) is generated
    /// and put in as `reqId`.
    pub fn prepare_command(&mut self, connection_name: &str, payload: JsonValue) -> (r: Result<PreparedCommand, SerialportApiError>)
        requires
            old(self).connection(connection_name@) is Some && payload is Object && own_req_id(payload.model()) is None
                ==> old(self).req_id_counter() < u64::MAX,
        ensures
            old(self).prepares(*final(self), connection_name@, payload, r),
    {
        let delimiter = match self.connections.get(connection_name) {
            Some(c) => c.delimiter.clone(),
            None => return Err(SerialportApiError::ConnectionNotFound(String::from_str(connection_name))),
        };
        if !payload.is_object() {
            return Err(SerialportApiError::InvalidCommandPayload);
        }
        let mut payload = payload;
        let present = match payload.get_field("reqId") {
            Some(JsonValue::Array(_)) | Some(JsonValue::Object(_)) | None => None,
            Some(id) => Some(req_id_of(id)),
        };
        let req_id = match present {
            Some(id) => id,
            None => {
                self.next_req_id = self.next_req_id + 1;
                let id = u64_to_decimal(self.next_req_id);
                payload.set_field(String::from_str("reqId"), JsonValue::Str(id.clone()));
                id
            },
        };
        Ok(PreparedCommand {
            connection_name: String::from_str(connection_name),
            req_id,
            payload,
            delimiter,
        })
    }

    /// Writes a prepared command: the frame is `body` (the JSON text of the
    /// payload) followed by the delimiter. When the write succeeds and the
    /// manager has a mock device, the device answers the frame (see
    /// `answers_body`) and its answer is recorded as a JSON response on the
    /// connection.
    pub fn dispatch_command(&mut self, command: PreparedCommand, body: &[u8]) -> (r: Result<QueuedCommand, SerialportApiError>)
        ensures
            old(self).dispatches(*final(self), command, body@, r),
    {
        let frame = frame_bytes(body, command.delimiter.as_str());
        match self.transport.write_frame(command.connection_name.as_str(), frame.as_slice()) {
            Ok(()) => {},
            Err(e) => return Err(e),
        }
        let reply = match &self.mock_responder {
            Some(device) => {
                proof {
                    crate::protocol::law_trim_undoes_frame(body@, command.delimiter@);
                }
                device.response_for_frame(frame.as_slice(), command.delimiter.as_str())
            },
            None => None,
        };
        let ghost reply_model = match &reply {
            Some(v) => Some(v.model()),
            None => None::<JsonModel>,
        };
        match reply {
            Some(response) => {
                self.record_event_for_connection(command.connection_name.as_str(), SerialEvent::Json(response));
            },
            None => {},
        }
        Ok(QueuedCommand { req_id: command.req_id })
    }

    /// Sends a command to connection `connection_name`: readies it (see
    /// `prepares`), writes its JSON text followed by the delimiter, and lets
    /// the mock device, if any, answer (see `dispatches`). A payload that
    /// has no JSON text is `InvalidJson`, with nothing written.
    pub fn send_command(&mut self, connection_name: &str, payload: JsonValue) -> (r: Result<QueuedCommand, SerialportApiError>)
        requires
            old(self).connection(connection_name@) is Some && payload is Object && own_req_id(payload.model()) is None
                ==> old(self).req_id_counter() < u64::MAX,
        ensures
            exists|mid: Self, p: Result<PreparedCommand, SerialportApiError>| #[trigger] old(self).prepares(mid, connection_name@, payload, p)
                && match p {
                Err(e) => r == Err::<QueuedCommand, SerialportApiError>(e) && *final(self) == mid,
                Ok(c) => match crate::protocol::json_text_of(c.payload.model()) {
                    None => r matches Err(SerialportApiError::InvalidJson(_)) && *final(self) == mid,
                    Some(text) => mid.dispatches(*final(self), c, text, r),
                },
            },
    {
        let prepared = match self.prepare_command(connection_name, payload) {
            Ok(p) => p,
            Err(e) => return Err(e),
        };
        match crate::protocol::json_bytes(&prepared.payload) {
            Some(body) => self.dispatch_command(prepared, body.as_slice()),
            None => Err(SerialportApiError::InvalidJson(String::from_str("the payload has no JSON text"))),
        }
    }

    /// Copies of the events recorded after the first `start` ones, oldest
    /// first (none when fewer were recorded).
    pub fn events_since(&self, start: usize) -> (r: Vec<SerialStreamEvent>)
        ensures
            r@.map_values(|e: SerialStreamEvent| event_model(e)) == if start < self.event_log().len() {
                self.event_log().subrange(start as int, self.event_log().len() as int)
            } else {
                Seq::<EventModel>::empty()
            },
    {
        let mut out: Vec<SerialStreamEvent> = Vec::new();
        let mut i: usize = start;
        while i < self.events.len()
            invariant
                i == start || start < i <= self.events@.len(),
                out@.len() == i - start,
                forall|j: int| 0 <= j < out@.len() ==> event_model(#[trigger] out@[j]) == event_model(self.events@[start + j]),
            decreases self.events@.len() - i,
        {
            let e = &self.events[i];
            out.push(SerialStreamEvent { event: e.event, data: e.data.deep_copy() });
            i = i + 1;
        }
        proof {
            if start < self.events@.len() {
                assert(out@.map_values(|e: SerialStreamEvent| event_model(e)) =~= self.event_log().subrange(
                    start as int,
                    self.event_log().len() as int,
                ));
            } else {
                assert(out@.map_values(|e: SerialStreamEvent| event_model(e)) =~= Seq::<EventModel>::empty());
            }
        }
        out
    }

    /// Copies of the events recorded so far, oldest first.
    pub fn events(&self) -> (r: Result<Vec<SerialStreamEvent>, SerialportApiError>)
        ensures
            r matches Ok(list) && list@.map_values(|e: SerialStreamEvent| event_model(e)) == self.event_log(),
    {
        let mut out: Vec<SerialStreamEvent> = Vec::new();
        let mut i: usize = 0;
        while i < self.events.len()
            invariant
                i <= self.events@.len(),
                out@.len() == i,
                forall|j: int| 0 <= j < i ==> event_model(#[trigger] out@[j]) == event_model(self.events@[j]),
            decreases self.events@.len() - i,
        {
            let e = &self.events[i];
            out.push(SerialStreamEvent { event: e.event, data: e.data.deep_copy() });
            i = i + 1;
        }
        assert(out@.map_values(|e: SerialStreamEvent| event_model(e)) =~= self.event_log());
        Ok(out)
    }
}

impl<F: crate::serial::real_transport::SerialPortFactory> ConnectionManagerWithTransport<crate::serial::real_transport::RealSerialTransport<F>> {
    /// One turn of a connection's read loop: drains the complete lines read
    /// on the port (see `drain_lines`) and records each as the event it is
    /// (see `record_lines`), then goes on. When the connection has no port
    /// any more, it stops with nothing recorded; on any other error it
    /// records the error's message as a `serial.error` event and stops.
    pub fn read_once(&mut self, connection_name: &str, delimiter: &str) -> (go_on: bool)
        ensures
            exists|r: Result<Vec<Vec<u8>>, SerialportApiError>| {
                &&& #[trigger] old(self).transport_state().drains(final(self).transport_state(), connection_name@, delimiter@, r)
                &&& go_on == r is Ok
                &&& match r {
                    Ok(lines) => final(self).event_log() == old(self).event_log() + lines@.map_values(
                        |l: Vec<u8>| line_event_model(l@, crate::protocol::utf8_of(delimiter@)),
                    ) && final(self).pending() == lines_pending(
                        old(self).pending(),
                        connection_name@,
                        lines@.map_values(|l: Vec<u8>| l@),
                        crate::protocol::utf8_of(delimiter@),
                    ),
                    Err(SerialportApiError::ConnectionNotFound(_)) => final(self).event_log() == old(self).event_log()
                        && final(self).pending() == old(self).pending(),
                    Err(e) => final(self).event_log() == old(self).event_log().push(
                        ("serial.error"@, JsonModel::Str(crate::error::error_message(e))),
                    ) && final(self).pending() == old(self).pending(),
                }
            },
            final(self).connection_list() == old(self).connection_list(),
            forall|n: Seq<char>| #[trigger] final(self).connection(n) == old(self).connection(n),
            final(self).req_id_counter() == old(self).req_id_counter(),
            final(self).responder() == old(self).responder(),
    {
        let drained = self.drain_lines(connection_name, delimiter);
        let ghost r = drained;
        let ghost mid = *self;
        let go_on = match drained {
            Ok(lines) => {
                self.record_lines(connection_name, delimiter, &lines);
                true
            },
            Err(SerialportApiError::ConnectionNotFound(_)) => false,
            Err(e) => {
                self.record_error(e.message());
                false
            },
        };
        assert(old(self).transport_state().drains(self.transport_state(), connection_name@, delimiter@, r));
        go_on
    }

    /// Reads what the port of `connection_name` has to give and cuts the
    /// complete lines off that connection's buffer, as the transport's
    /// `drain_lines` does; the connections, events and responses stay as
    /// they were.
    pub fn drain_lines(&mut self, connection_name: &str, delimiter: &str) -> (r: Result<Vec<Vec<u8>>, SerialportApiError>)
        ensures
            old(self).transport_state().drains(final(self).transport_state(), connection_name@, delimiter@, r),
            final(self).connection_list() == old(self).connection_list(),
            forall|n: Seq<char>| #[trigger] final(self).connection(n) == old(self).connection(n),
            final(self).req_id_counter() == old(self).req_id_counter(),
            final(self).event_log() == old(self).event_log(),
            final(self).pending() == old(self).pending(),
            final(self).responder() == old(self).responder(),
    {
        self.transport.drain_lines(connection_name, delimiter)
    }
}

/// Connecting a name that was not connected and then disconnecting it
/// leaves every connection as it was before; when closing succeeds the
/// transport no longer holds the port open.
pub proof fn law_connect_then_disconnect<T: SerialTransport>(
    m0: ConnectionManagerWithTransport<T>,
    m1: ConnectionManagerWithTransport<T>,
    m2: ConnectionManagerWithTransport<T>,
    request: ConnectionRequest,
    r1: Result<ConnectionInfo, SerialportApiError>,
    r2: Result<String, SerialportApiError>,
)
    requires
        m0.connection(request.name@) is None,
        m0.connects(m1, request, r1),
        m1.disconnects(m2, request.name@, r2),
    ensures
        forall|n: Seq<char>| #[trigger] m2.connection(n) == m0.connection(n),
        r2 is Ok ==> !m2.transport_state().holds_open(request.name@),
        m2.transport_state().open_calls().len() == m0.transport_state().open_calls().len() + 1,
        m2.transport_state().close_calls().len() == m0.transport_state().close_calls().len() + 1,
{
    assert forall|n: Seq<char>| #[trigger] m2.connection(n) == m0.connection(n) by {
        if n != request.name@ {
            assert(m1.connection(n) == m0.connection(n));
        }
    }
}

/// Connecting a name again replaces its connection: the later request
/// wins, and the other connections are those from before both calls.
pub proof fn law_reconnect_replaces<T: SerialTransport>(
    m0: ConnectionManagerWithTransport<T>,
    m1: ConnectionManagerWithTransport<T>,
    m2: ConnectionManagerWithTransport<T>,
    first: ConnectionRequest,
    second: ConnectionRequest,
    r1: Result<ConnectionInfo, SerialportApiError>,
    r2: Result<ConnectionInfo, SerialportApiError>,
)
    requires
        first.name@ == second.name@,
        m0.connects(m1, first, r1),
        m1.connects(m2, second, r2),
        r2 is Ok,
    ensures
        m2.connection(second.name@) == Some(connection_of(second)),
        forall|n: Seq<char>| n != second.name@ ==> #[trigger] m2.connection(n) == m0.connection(n),
{
    assert forall|n: Seq<char>| n != second.name@ implies #[trigger] m2.connection(n) == m0.connection(n) by {
        assert(m1.connection(n) == m0.connection(n));
    }
}

/// Request ids generated for commands without one of their own count up
/// from the counter, one per command, and so never repeat.
pub proof fn law_generated_ids_count_up<T: SerialTransport>(
    m0: ConnectionManagerWithTransport<T>,
    m1: ConnectionManagerWithTransport<T>,
    m2: ConnectionManagerWithTransport<T>,
    name1: Seq<char>,
    name2: Seq<char>,
    payload1: JsonValue,
    payload2: JsonValue,
    c1: PreparedCommand,
    c2: PreparedCommand,
)
    requires
        own_req_id(payload1.model()) is None,
        own_req_id(payload2.model()) is None,
        m0.prepares(m1, name1, payload1, Ok(c1)),
        m1.prepares(m2, name2, payload2, Ok(c2)),
    ensures
        c1.req_id@ == decimal((m0.req_id_counter() + 1) as nat),
        c2.req_id@ == decimal((m0.req_id_counter() + 2) as nat),
        c1.req_id@ != c2.req_id@,
        m2.req_id_counter() == m0.req_id_counter() + 2,
{
    if c1.req_id@ == c2.req_id@ {
        crate::text::law_decimal_injective((m0.req_id_counter() + 1) as nat, (m0.req_id_counter() + 2) as nat);
    }
}

} // verus!
