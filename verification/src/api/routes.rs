//! What the HTTP routes decide, apart from the HTTP plumbing.

use vstd::prelude::*;
use crate::error::concat_str;
use crate::json::{JsonModel, JsonValue};
use crate::serial::manager::SerialStreamEvent;
use crate::storage::PresetStoreError;
use crate::text::{decimal, push_decimal, str_eq};

verus! {

/// The content type served for a dashboard file with this extension.
pub open spec fn content_type_spec(extension: Option<Seq<char>>) -> Seq<char> {
    match extension {
        Some(e) => if e == "css"@ {
            "text/css; charset=utf-8"@
        } else if e == "js"@ {
            "text/javascript; charset=utf-8"@
        } else if e == "map"@ {
            "application/json; charset=utf-8"@
        } else if e == "svg"@ {
            "image/svg+xml"@
        } else if e == "png"@ {
            "image/png"@
        } else if e == "jpg"@ || e == "jpeg"@ {
            "image/jpeg"@
        } else if e == "webp"@ {
            "image/webp"@
        } else if e == "ico"@ {
            "image/x-icon"@
        } else {
            "application/octet-stream"@
        },
        None => "application/octet-stream"@,
    }
}

/// The content type for a file extension (the part after the last dot of
/// the file name, if any).
pub fn content_type_for(extension: Option<&str>) -> (r: &'static str)
    ensures
        r@ == content_type_spec(match extension {
            Some(e) => Some(e@),
            None => None,
        }),
{
    match extension {
        Some(e) => if str_eq(e, "css") {
            "text/css; charset=utf-8"
        } else if str_eq(e, "js") {
            "text/javascript; charset=utf-8"
        } else if str_eq(e, "map") {
            "application/json; charset=utf-8"
        } else if str_eq(e, "svg") {
            "image/svg+xml"
        } else if str_eq(e, "png") {
            "image/png"
        } else if str_eq(e, "jpg") || str_eq(e, "jpeg") {
            "image/jpeg"
        } else if str_eq(e, "webp") {
            "image/webp"
        } else if str_eq(e, "ico") {
            "image/x-icon"
        } else {
            "application/octet-stream"
        },
        None => "application/octet-stream",
    }
}

/// `c` ends an asset reference in HTML: a quote, an angle bracket or a
/// space.
pub open spec fn ends_reference(c: char) -> bool {
    c == '"' || c == '\'' || c == '<' || c == '>' || c == ' '
}

/// The length of the reference that starts at `start`: up to the first
/// character that ends a reference, or to the end of the text.
pub open spec fn reference_len(text: Seq<char>, start: int) -> int
    decreases text.len() - start,
{
    if start < 0 || start >= text.len() || ends_reference(text[start]) {
        0
    } else {
        1 + reference_len(text, start + 1)
    }
}

/// `a` ends with `b`.
pub open spec fn chars_end_with(a: Seq<char>, b: Seq<char>) -> bool {
    b.len() <= a.len() && a.subrange(a.len() - b.len(), a.len() as int) == b
}

/// The index text refers, somewhere, to a file under `/assets/` whose name
/// ends with `extension`.
pub open spec fn references_built_asset(index: Seq<char>, extension: Seq<char>) -> bool {
    exists|i: int|
        0 <= i && i + 8 <= index.len() && #[trigger] index.subrange(i, i + 8) == "/assets/"@ && chars_end_with(
            index.subrange(i, i + reference_len(index, i)),
            extension,
        )
}

/// Decides whether `a[start..end]` ends with `b`.
fn range_ends_with(a: &str, start: usize, end: usize, b: &str) -> (r: bool)
    requires
        start <= end <= a@.len(),
    ensures
        r == chars_end_with(a@.subrange(start as int, end as int), b@),
{
    let lb = b.unicode_len();
    if lb > end - start {
        return false;
    }
    let off = end - lb;
    let mut j: usize = 0;
    while j < lb
        invariant
            lb == b@.len(),
            off + lb == end,
            end <= a@.len(),
            start <= off,
            j <= lb,
            forall|k: int| 0 <= k < j ==> a@[off + k] == b@[k],
        decreases lb - j,
    {
        if a.get_char(off + j) != b.get_char(j) {
            assert(a@.subrange(start as int, end as int).subrange(off - start, end - start)[j as int] != b@[j as int]);
            return false;
        }
        j = j + 1;
    }
    assert(a@.subrange(start as int, end as int).subrange(off - start, end - start) =~= b@);
    true
}

/// Whether `a[start..]` starts with `b`.
fn starts_with_at(a: &str, start: usize, b: &str) -> (r: bool)
    requires
        start <= a@.len(),
    ensures
        r == (start + b@.len() <= a@.len() && a@.subrange(start as int, start + b@.len()) == b@),
{
    let la = a.unicode_len();
    let lb = b.unicode_len();
    if lb > la - start {
        return false;
    }
    let mut j: usize = 0;
    while j < lb
        invariant
            la == a@.len(),
            lb == b@.len(),
            start + lb <= la,
            j <= lb,
            forall|k: int| 0 <= k < j ==> a@[start + k] == b@[k],
        decreases lb - j,
    {
        if a.get_char(start + j) != b.get_char(j) {
            assert(a@.subrange(start as int, start + lb)[j as int] != b@[j as int]);
            return false;
        }
        j = j + 1;
    }
    assert(a@.subrange(start as int, start + lb) =~= b@);
    true
}

/// Whether an index page refers to a built asset with this extension (see
/// `references_built_asset`).
pub fn index_references_built_asset(index: &str, extension: &str) -> (r: bool)
    ensures
        r == references_built_asset(index@, extension@),
{
    proof {
        reveal_strlit("/assets/");
        assert("/assets/"@.len() == 8);
    }
    let len = index.unicode_len();
    let mut i: usize = 0;
    while i < len
        invariant
            len == index@.len(),
            i <= len,
            "/assets/"@.len() == 8,
            forall|k: int| 0 <= k < i ==> !(k + 8 <= index@.len() && #[trigger] index@.subrange(k, k + 8) == "/assets/"@
                && chars_end_with(index@.subrange(k, k + reference_len(index@, k)), extension@)),
        decreases len - i,
    {
        if starts_with_at(index, i, "/assets/") {
            let mut end = i;
            while end < len
                invariant
                    len == index@.len(),
                    i <= end <= len,
                    reference_len(index@, i as int) == (end - i) + reference_len(index@, end as int),
                ensures
                    i <= end <= len,
                    reference_len(index@, i as int) == (end - i) + reference_len(index@, end as int),
                    end == len || ends_reference(index@[end as int]),
                decreases len - end,
            {
                let c = index.get_char(end);
                if c == '"' || c == '\'' || c == '<' || c == '>' || c == ' ' {
                    break;
                }
                end = end + 1;
            }
            assert(reference_len(index@, end as int) == 0);
            if range_ends_with(index, i, end, extension) {
                assert(index@.subrange(i as int, i + 8) == "/assets/"@);
                return true;
            }
        }
        i = i + 1;
    }
    false
}

/// The page served when the dashboard has not been built.
pub open spec fn missing_dashboard_spec(root: Seq<char>) -> Seq<char> {
    "<!doctype html><html><head><title>Dashboard not built</title></head><body><h1>Dashboard assets are not available</h1><p>Build the dashboard with <code>cd web && pnpm install --frozen-lockfile && pnpm build</code>.</p><p>Expected runtime directory: <code>"@
        + root + "</code></p></body></html>"@
}

/// The page served when the dashboard has not been built, naming the
/// directory where it was expected.
pub fn missing_dashboard_html(root: &str) -> (r: String)
    ensures
        r@ == missing_dashboard_spec(root@),
{
    let mut s = concat_str(
        "<!doctype html><html><head><title>Dashboard not built</title></head><body><h1>Dashboard assets are not available</h1><p>Build the dashboard with <code>cd web && pnpm install --frozen-lockfile && pnpm build</code>.</p><p>Expected runtime directory: <code>",
        root,
    );
    s.append("</code></p></body></html>");
    s
}

/// Where the dashboard is served from: the built directory when it has an
/// index page, else the packaged directory when it looks built, else the
/// built directory.
pub fn choose_dashboard_assets_dir(built_has_index: bool, packaged_is_built: bool) -> (r: &'static str)
    ensures
        r@ == (if built_has_index || !packaged_is_built { "web/dist"@ } else { "web"@ }),
{
    if built_has_index {
        "web/dist"
    } else if packaged_is_built {
        "web"
    } else {
        "web/dist"
    }
}

/// Whether a packaged dashboard directory looks built: it has an `assets`
/// directory and an index page that refers to a built script or style
/// sheet.
pub fn is_packaged_dashboard(has_assets_dir: bool, index: Option<&str>) -> (r: bool)
    ensures
        r == (has_assets_dir && match index {
            Some(text) => references_built_asset(text@, ".js"@) || references_built_asset(text@, ".css"@),
            None => false,
        }),
{
    if !has_assets_dir {
        return false;
    }
    match index {
        Some(text) => index_references_built_asset(text, ".js") || index_references_built_asset(text, ".css"),
        None => false,
    }
}

/// The HTTP status of a refused preset request: 400 for an invalid name or
/// payload, 404 for an unknown id, 500 for a storage failure.
pub fn preset_error_status(error: &PresetStoreError) -> (r: u16)
    ensures
        r == match *error {
            PresetStoreError::InvalidName | PresetStoreError::InvalidPayload => 400u16,
            PresetStoreError::NotFound(_) => 404u16,
            PresetStoreError::Storage(_) => 500u16,
        },
{
    match error {
        PresetStoreError::InvalidName | PresetStoreError::InvalidPayload => 400,
        PresetStoreError::NotFound(_) => 404,
        PresetStoreError::Storage(_) => 500,
    }
}

/// The Socket.IO endpoint serves Engine.IO version 4 over WebSocket only.
pub fn socket_io_query_supported(eio: Option<&str>, transport: Option<&str>) -> (r: bool)
    ensures
        r == ((eio matches Some(e) && e@ == "4"@) && (transport matches Some(t) && t@ == "websocket"@)),
{
    let eio_ok = match eio {
        Some(e) => str_eq(e, "4"),
        None => false,
    };
    let transport_ok = match transport {
        Some(t) => str_eq(t, "websocket"),
        None => false,
    };
    eio_ok && transport_ok
}

/// How long a command waits for its response when the request names no
/// timeout, in milliseconds.
pub const DEFAULT_COMMAND_TIMEOUT_MS: u64 = 2000;

/// The time a command waits for its response, in milliseconds.
pub fn command_timeout_ms(requested: Option<u64>) -> (r: u64)
    ensures
        r == match requested {
            Some(t) => t,
            None => DEFAULT_COMMAND_TIMEOUT_MS,
        },
{
    match requested {
        Some(t) => t,
        None => DEFAULT_COMMAND_TIMEOUT_MS,
    }
}

/// How often a waiting command looks for its response, in milliseconds.
pub const RESPONSE_POLL_MS: u64 = 10;

/// What a command waiting for its response does next.
#[derive(Debug, PartialEq)]
pub enum WaitStep {
    /// The response arrived: answer with it.
    Respond(JsonValue),
    /// The deadline passed: answer with a timeout.
    TimedOut,
    /// Look again after this many milliseconds.
    Sleep(u64),
}

/// The next step of waiting for a response, given what the last look
/// found, the time now and the deadline (both in milliseconds): answer with
/// a response as soon as there is one, time out once the deadline is
/// reached, else sleep for the poll interval or until the deadline,
/// whichever is sooner.
pub fn next_wait_step(response: Option<JsonValue>, now_ms: u64, deadline_ms: u64) -> (r: WaitStep)
    ensures
        match response {
            Some(v) => r == WaitStep::Respond(v),
            None => if now_ms >= deadline_ms {
                r == WaitStep::TimedOut
            } else {
                r == WaitStep::Sleep(if deadline_ms - now_ms < RESPONSE_POLL_MS { (deadline_ms - now_ms) as u64 } else { RESPONSE_POLL_MS })
            },
        },
{
    match response {
        Some(v) => WaitStep::Respond(v),
        None => if now_ms >= deadline_ms {
            WaitStep::TimedOut
        } else {
            let left = deadline_ms - now_ms;
            WaitStep::Sleep(if left < RESPONSE_POLL_MS { left } else { RESPONSE_POLL_MS })
        },
    }
}

/// The id of the `n`-th Socket.IO session: `serialport-api-n`.
pub fn socket_io_sid(n: u64) -> (r: String)
    ensures
        r@ == "serialport-api-"@ + decimal(n as nat),
{
    let mut s = String::from_str("serialport-api-");
    push_decimal(&mut s, n);
    s
}

/// The error reported when a live event stream fell behind by `count`
/// events.
pub fn lagged_message(count: u64) -> (r: String)
    ensures
        r@ == "serial event stream lagged by "@ + decimal(count as nat) + " events"@,
{
    let mut s = String::from_str("serial event stream lagged by ");
    push_decimal(&mut s, count);
    s.append(" events");
    s
}

/// A Socket.IO event message (`42` and the JSON array of event name and
/// data).
pub fn socket_io_event_frame(payload_json: &str) -> (r: String)
    ensures
        r@ == "42"@ + payload_json@,
{
    concat_str("42", payload_json)
}

/// The Engine.IO open message (`0` and the JSON handshake).
pub fn engine_io_open_frame(handshake_json: &str) -> (r: String)
    ensures
        r@ == "0"@ + handshake_json@,
{
    concat_str("0", handshake_json)
}

/// A dashboard asset name is served only when it names a file directly in
/// the assets directory: no `/` and no `..` in it.
pub fn asset_name_allowed(file: &str) -> (r: bool)
    ensures
        r == !(file@.contains('/') || exists|i: int| 0 <= i && i + 1 < file@.len() && file@[i] == '.' && #[trigger] file@[i + 1] == '.'),
{
    let len = file.unicode_len();
    let mut i: usize = 0;
    while i < len
        invariant
            len == file@.len(),
            i <= len,
            forall|k: int| 0 <= k < i ==> file@[k] != '/',
            forall|k: int| 0 <= k < i && k + 1 < len ==> !(file@[k] == '.' && #[trigger] file@[k + 1] == '.'),
        decreases len - i,
    {
        let c = file.get_char(i);
        if c == '/' {
            return false;
        }
        if c == '.' && i + 1 < len && file.get_char(i + 1) == '.' {
            return false;
        }
        i = i + 1;
    }
    true
}

/// The event sent to a client that fell behind by `count` live events.
pub fn lagged_event(count: u64) -> (r: SerialStreamEvent)
    ensures
        r.event@ == "serial.error"@,
        r.data.model() == JsonModel::Str("serial event stream lagged by "@ + decimal(count as nat) + " events"@),
{
    SerialStreamEvent { event: "serial.error", data: JsonValue::Str(lagged_message(count)) }
}

/// A WebSocket event message: `{"data": data, "event": name}`.
pub fn ws_event_payload(event: &SerialStreamEvent) -> (r: JsonValue)
    ensures
        r.model() == JsonModel::Object(seq![("data"@, event.data.model()), ("event"@, JsonModel::Str(event.event@))]),
{
    let data = event.data.deep_copy();
    let name = JsonValue::Str(String::from_str(event.event));
    assert(name.model() == JsonModel::Str(event.event@));
    let mut entries: Vec<(String, JsonValue)> = Vec::new();
    entries.push((String::from_str("data"), data));
    entries.push((String::from_str("event"), name));
    let r = JsonValue::Object(entries);
    assert(r.model()->Object_0 =~= seq![("data"@, event.data.model()), ("event"@, JsonModel::Str(event.event@))]);
    r
}

/// The Socket.IO data of an event message: `[name, data]`.
pub fn socket_io_event_payload(event: &SerialStreamEvent) -> (r: JsonValue)
    ensures
        r.model() == JsonModel::Array(seq![JsonModel::Str(event.event@), event.data.model()]),
{
    let data = event.data.deep_copy();
    let name = JsonValue::Str(String::from_str(event.event));
    assert(name.model() == JsonModel::Str(event.event@));
    let mut items: Vec<JsonValue> = Vec::new();
    items.push(name);
    items.push(data);
    let r = JsonValue::Array(items);
    assert(r.model()->Array_0 =~= seq![JsonModel::Str(event.event@), event.data.model()]);
    r
}

/// The model of the Engine.IO handshake of the `n`-th session: its id, no
/// transport upgrades, a ping every 25 s with a 20 s timeout, messages up to
/// 1000000 bytes.
pub open spec fn engine_io_handshake_spec(n: u64) -> JsonModel {
    JsonModel::Object(
        seq![
            ("maxPayload"@, JsonModel::Number("1000000"@)),
            ("pingInterval"@, JsonModel::Number("25000"@)),
            ("pingTimeout"@, JsonModel::Number("20000"@)),
            ("sid"@, JsonModel::Str("serialport-api-"@ + decimal(n as nat))),
            ("upgrades"@, JsonModel::Array(Seq::empty())),
        ],
    )
}

/// The Engine.IO handshake of the `n`-th session (see
/// `engine_io_handshake_spec`).
pub fn engine_io_handshake(n: u64) -> (r: JsonValue)
    ensures
        r.model() == engine_io_handshake_spec(n),
{
    let max_payload = JsonValue::Number(String::from_str("1000000"));
    let ping_interval = JsonValue::Number(String::from_str("25000"));
    let ping_timeout = JsonValue::Number(String::from_str("20000"));
    let sid = JsonValue::Str(socket_io_sid(n));
    let upgrades = JsonValue::Array(Vec::new());
    assert(max_payload.model() == JsonModel::Number("1000000"@));
    assert(ping_interval.model() == JsonModel::Number("25000"@));
    assert(ping_timeout.model() == JsonModel::Number("20000"@));
    assert(sid.model() == JsonModel::Str("serialport-api-"@ + decimal(n as nat)));
    assert(upgrades.model()->Array_0 =~= Seq::<JsonModel>::empty());
    let mut entries: Vec<(String, JsonValue)> = Vec::new();
    entries.push((String::from_str("maxPayload"), max_payload));
    entries.push((String::from_str("pingInterval"), ping_interval));
    entries.push((String::from_str("pingTimeout"), ping_timeout));
    entries.push((String::from_str("sid"), sid));
    entries.push((String::from_str("upgrades"), upgrades));
    let r = JsonValue::Object(entries);
    assert(r.model()->Object_0 =~= seq![
        ("maxPayload"@, JsonModel::Number("1000000"@)),
        ("pingInterval"@, JsonModel::Number("25000"@)),
        ("pingTimeout"@, JsonModel::Number("20000"@)),
        ("sid"@, JsonModel::Str("serialport-api-"@ + decimal(n as nat))),
        ("upgrades"@, JsonModel::Array(Seq::empty())),
    ]);
    r
}

/// The model of a WebSocket event message (see `ws_event_payload`).
pub open spec fn ws_event_model(event: SerialStreamEvent) -> JsonModel {
    JsonModel::Object(seq![("data"@, event.data.model()), ("event"@, JsonModel::Str(event.event@))])
}

/// The model of the data of a Socket.IO event message (see
/// `socket_io_event_payload`).
pub open spec fn socket_io_event_model(event: SerialStreamEvent) -> JsonModel {
    JsonModel::Array(seq![JsonModel::Str(event.event@), event.data.model()])
}

/// The text of a WebSocket event message: the JSON text of
/// `{"data": data, "event": name}`; none when the data has no JSON text.
pub fn ws_event_text(event: &SerialStreamEvent) -> (r: Option<String>)
    ensures
        match r {
            Some(t) => crate::protocol::json_text_of(ws_event_model(*event)) == Some(crate::protocol::utf8_of(t@)),
            None => crate::protocol::json_text_of(ws_event_model(*event)) is None,
        },
{
    crate::protocol::json_string(&ws_event_payload(event))
}

/// The text of a Socket.IO event message: `42` and the JSON text of
/// `[name, data]`; none when the data has no JSON text.
pub fn socket_io_event_text(event: &SerialStreamEvent) -> (r: Option<String>)
    ensures
        match r {
            Some(t) => exists|j: Seq<char>| t@ == "42"@ + j && crate::protocol::json_text_of(socket_io_event_model(*event)) == Some(
                crate::protocol::utf8_of(j),
            ),
            None => crate::protocol::json_text_of(socket_io_event_model(*event)) is None,
        },
{
    match crate::protocol::json_string(&socket_io_event_payload(event)) {
        Some(j) => Some(socket_io_event_frame(j.as_str())),
        None => None,
    }
}

/// The Engine.IO open message of the `n`-th session: `0` and the JSON text
/// of its handshake (see `engine_io_handshake`).
pub fn engine_io_open_text(n: u64) -> (r: Option<String>)
    ensures
        match r {
            Some(t) => exists|j: Seq<char>| t@ == "0"@ + j && crate::protocol::json_text_of(engine_io_handshake_spec(n)) == Some(
                crate::protocol::utf8_of(j),
            ),
            None => crate::protocol::json_text_of(engine_io_handshake_spec(n)) is None,
        },
{
    match crate::protocol::json_string(&engine_io_handshake(n)) {
        Some(j) => Some(engine_io_open_frame(j.as_str())),
        None => None,
    }
}

/// The data line of a Server-Sent Event: the JSON text of the event's data;
/// none when it has none.
pub fn sse_event_data(event: &SerialStreamEvent) -> (r: Option<String>)
    ensures
        match r {
            Some(t) => crate::protocol::json_text_of(event.data.model()) == Some(crate::protocol::utf8_of(t@)),
            None => crate::protocol::json_text_of(event.data.model()) is None,
        },
{
    crate::protocol::json_string(&event.data)
}

/// What happened while a WebSocket client follows the live events.
#[derive(Debug, PartialEq, Eq)]
pub enum LiveInput {
    /// A new event was recorded.
    Recorded,
    /// The client fell behind by this many events.
    Lagged(u64),
    /// No more events will be recorded.
    SourceClosed,
    /// The client closed the connection, or it ended.
    ClientClosed,
    /// The client sent some other message.
    ClientMessage,
    /// Receiving from the client failed.
    ClientFailed,
}

/// What to do about it.
#[derive(Debug, PartialEq, Eq)]
pub enum LiveStep {
    /// Send the recorded event to the client.
    Forward,
    /// Go on waiting.
    Wait,
    /// Stop following.
    Stop,
}

/// A WebSocket client gets each recorded event; events it fell behind on
/// and messages it sends are passed over; the stream stops when either side
/// is done or receiving from the client fails.
pub fn websocket_live_step(input: LiveInput) -> (r: LiveStep)
    ensures
        r == match input {
            LiveInput::Recorded => LiveStep::Forward,
            LiveInput::Lagged(_) | LiveInput::ClientMessage => LiveStep::Wait,
            LiveInput::SourceClosed | LiveInput::ClientClosed | LiveInput::ClientFailed => LiveStep::Stop,
        },
{
    match input {
        LiveInput::Recorded => LiveStep::Forward,
        LiveInput::Lagged(_) | LiveInput::ClientMessage => LiveStep::Wait,
        LiveInput::SourceClosed | LiveInput::ClientClosed | LiveInput::ClientFailed => LiveStep::Stop,
    }
}

} // verus!
