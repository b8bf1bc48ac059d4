//! The serial line protocol: outbound commands are JSON text followed by
//! the connection's delimiter; inbound lines are sorted into event kinds.

use vstd::prelude::*;
use crate::json::{JsonModel, JsonValue};

verus! {

/// The UTF-8 bytes of a string.
pub open spec fn utf8_of(s: Seq<char>) -> Seq<u8> {
    vstd::utf8::encode_utf8(s)
}

/// Appends the bytes of `b` to `v`.
pub fn append_bytes(v: &mut Vec<u8>, b: &[u8])
    ensures
        final(v)@ == old(v)@ + b@,
{
    let mut i: usize = 0;
    while i < b.len()
        invariant
            i <= b@.len(),
            v@ == old(v)@ + b@.subrange(0, i as int),
        decreases b@.len() - i,
    {
        v.push(b[i]);
        i = i + 1;
        assert(v@ =~= old(v)@ + b@.subrange(0, i as int));
    }
    assert(b@.subrange(0, b@.len() as int) =~= b@);
}

/// A command frame: the JSON text of the command, then the delimiter.
pub fn frame_bytes(body: &[u8], delimiter: &str) -> (r: Vec<u8>)
    ensures
        r@ == body@ + utf8_of(delimiter@),
{
    let mut r: Vec<u8> = Vec::new();
    append_bytes(&mut r, body);
    append_bytes(&mut r, delimiter.as_bytes());
    assert(r@ =~= body@ + utf8_of(delimiter@));
    r
}

/// `b` ends with `suffix`.
pub open spec fn ends_with(b: Seq<u8>, suffix: Seq<u8>) -> bool {
    suffix.len() <= b.len() && b.subrange(b.len() - suffix.len(), b.len() as int) == suffix
}

/// Decides `ends_with(b@, suffix@)`.
pub fn bytes_end_with(b: &[u8], suffix: &[u8]) -> (r: bool)
    ensures
        r == ends_with(b@, suffix@),
{
    if suffix.len() > b.len() {
        return false;
    }
    let blen = b.len();
    let off = blen - suffix.len();
    let mut i: usize = 0;
    while i < suffix.len()
        invariant
            blen == b@.len(),
            off + suffix@.len() == blen,
            off == b@.len() - suffix@.len(),
            suffix@.len() <= b@.len(),
            i <= suffix@.len(),
            forall|j: int| 0 <= j < i ==> b@[off + j] == suffix@[j],
        decreases suffix@.len() - i,
    {
        if b[off + i] != suffix[i] {
            assert(b@.subrange(off as int, b@.len() as int)[i as int] != suffix@[i as int]);
            return false;
        }
        i = i + 1;
    }
    assert(b@.subrange(off as int, b@.len() as int) =~= suffix@);
    true
}

/// The frame without its line ending: the connection's delimiter if the
/// frame ends with it, else `\r\n`, `\n` or `\r`, else the whole frame.
pub open spec fn trimmed_frame(frame: Seq<u8>, delimiter: Seq<u8>) -> Seq<u8> {
    let crlf = seq![13u8, 10u8];
    let lf = seq![10u8];
    let cr = seq![13u8];
    if ends_with(frame, delimiter) {
        frame.subrange(0, frame.len() - delimiter.len())
    } else if ends_with(frame, crlf) {
        frame.subrange(0, frame.len() - 2)
    } else if ends_with(frame, lf) {
        frame.subrange(0, frame.len() - 1)
    } else if ends_with(frame, cr) {
        frame.subrange(0, frame.len() - 1)
    } else {
        frame
    }
}

/// Removes the line ending from a frame (see `trimmed_frame`).
pub fn trim_frame_delimiter<'a>(frame: &'a [u8], delimiter: &str) -> (r: &'a [u8])
    ensures
        r@ == trimmed_frame(frame@, utf8_of(delimiter@)),
{
    let d = delimiter.as_bytes();
    let crlf: [u8; 2] = [13u8, 10u8];
    let lf: [u8; 1] = [10u8];
    let cr: [u8; 1] = [13u8];
    assert(crlf@ =~= seq![13u8, 10u8]);
    assert(lf@ =~= seq![10u8]);
    assert(cr@ =~= seq![13u8]);
    let cut: usize = if bytes_end_with(frame, d) {
        d.len()
    } else if bytes_end_with(frame, crlf.as_slice()) {
        2
    } else if bytes_end_with(frame, lf.as_slice()) {
        1
    } else if bytes_end_with(frame, cr.as_slice()) {
        1
    } else {
        0
    };
    let (r, _rest) = frame.split_at(frame.len() - cut);
    assert(r@ =~= trimmed_frame(frame@, utf8_of(delimiter@)));
    r
}

/// Taking the line ending off a frame gives back the JSON text it was made
/// from.
pub proof fn law_trim_undoes_frame(body: Seq<u8>, delimiter: Seq<char>)
    ensures
        trimmed_frame(body + utf8_of(delimiter), utf8_of(delimiter)) == body,
{
    let d = utf8_of(delimiter);
    let f = body + d;
    assert(f.subrange(f.len() - d.len(), f.len() as int) =~= d);
    assert(f.subrange(0, f.len() - d.len()) =~= body);
}

/// The text `String::from_utf8_lossy` makes of some bytes.
pub uninterp spec fn lossy_text(bytes: Seq<u8>) -> Seq<char>;

/// Decodes bytes as UTF-8, putting U+FFFD in place of each invalid sequence
/// (`String::from_utf8_lossy`). Valid UTF-8 decodes to its characters.
#[verifier::external_body]
fn decode_lossy(bytes: &[u8]) -> (r: String)
    ensures
        r@ == lossy_text(bytes@),
        vstd::utf8::valid_utf8(bytes@) ==> r@ == vstd::utf8::decode_utf8(bytes@),
{
    String::from_utf8_lossy(bytes).into_owned()
}

/// The text of a received line: the line without its ending (see
/// `trimmed_frame`), decoded as UTF-8 with invalid sequences replaced.
pub fn line_text(line: &[u8], delimiter: &str) -> (r: String)
    ensures
        r@ == lossy_text(trimmed_frame(line@, utf8_of(delimiter@))),
        vstd::utf8::valid_utf8(trimmed_frame(line@, utf8_of(delimiter@))) ==> r@ == vstd::utf8::decode_utf8(
            trimmed_frame(line@, utf8_of(delimiter@)),
        ),
{
    let body = trim_frame_delimiter(line, delimiter);
    decode_lossy(body)
}

#[verifier::external_type_specification]
#[verifier::external_body]
pub struct ExSerdeJsonValue(serde_json::Value);

/// The JSON value that `serde_json::from_slice` reads from some bytes, if
/// they hold one.
pub uninterp spec fn json_of_bytes(bytes: Seq<u8>) -> Option<JsonModel>;

/// Turns a `serde_json::Value` into a JSON value of the library, variant by
/// variant (object members in the map's key order). Nothing is claimed of
/// it on its own: `parse_json_bytes` states the combined result.
#[verifier::external_body]
fn json_value_of(value: serde_json::Value) -> JsonValue {
    match value {
        serde_json::Value::Null => JsonValue::Null,
        serde_json::Value::Bool(b) => JsonValue::Bool(b),
        serde_json::Value::Number(n) => JsonValue::Number(n.to_string()),
        serde_json::Value::String(s) => JsonValue::Str(s),
        serde_json::Value::Array(items) => JsonValue::Array(items.into_iter().map(json_value_of).collect()),
        serde_json::Value::Object(map) => JsonValue::Object(map.into_iter().map(|(k, v)| (k, json_value_of(v))).collect()),
    }
}

/// Parses bytes as one JSON value (`serde_json::from_slice`): the value
/// read, or none when the bytes are not JSON. The result is named
/// `json_of_bytes`.
#[verifier::external_body]
fn parse_json_bytes(bytes: &[u8]) -> (r: Option<JsonValue>)
    ensures
        match r {
            Some(v) => json_of_bytes(bytes@) == Some(v.model()),
            None => json_of_bytes(bytes@) is None,
        },
{
    serde_json::from_slice::<serde_json::Value>(bytes).ok().map(json_value_of)
}

/// The JSON text that `serde_json::to_vec` writes for a value, or none
/// when the value has none (a number whose text is not a JSON number).
pub uninterp spec fn json_text_of(v: JsonModel) -> Option<Seq<u8>>;

/// Turns a JSON value of the library into a `serde_json::Value`, variant by
/// variant; none when a number's text does not parse as a JSON number.
/// Nothing is claimed of it on its own: `json_bytes` states the combined
/// result.
#[verifier::external_body]
fn serde_value_of(value: &JsonValue) -> Option<serde_json::Value> {
    match value {
        JsonValue::Null => Some(serde_json::Value::Null),
        JsonValue::Bool(b) => Some(serde_json::Value::Bool(*b)),
        JsonValue::Number(text) => text.parse().ok().map(serde_json::Value::Number),
        JsonValue::Str(s) => Some(serde_json::Value::String(s.clone())),
        JsonValue::Array(items) => items.iter().map(serde_value_of).collect::<Option<_>>().map(serde_json::Value::Array),
        JsonValue::Object(entries) => entries.iter().map(|(k, v)| serde_value_of(v).map(|x| (k.clone(), x))).collect::<Option<_>>().map(serde_json::Value::Object),
    }
}

/// The JSON text of a value (`serde_json::to_vec`), named `json_text_of`.
/// The text is valid UTF-8: serde_json writes strings as UTF-8 and escapes
/// only with ASCII (its `to_string` relies on this).
#[verifier::external_body]
pub(crate) fn json_bytes(value: &JsonValue) -> (r: Option<Vec<u8>>)
    ensures
        match r {
            Some(b) => json_text_of(value.model()) == Some(b@) && vstd::utf8::valid_utf8(b@),
            None => json_text_of(value.model()) is None,
        },
{
    match serde_value_of(value) {
        Some(v) => serde_json::to_vec(&v).ok(),
        None => None,
    }
}

/// The JSON text of a value (see `json_bytes`) as a string: its characters
/// are exactly those the text's UTF-8 bytes encode.
pub(crate) fn json_string(value: &JsonValue) -> (r: Option<String>)
    ensures
        match r {
            Some(s) => json_text_of(value.model()) == Some(utf8_of(s@)),
            None => json_text_of(value.model()) is None,
        },
{
    match json_bytes(value) {
        Some(b) => {
            let s = decode_lossy(b.as_slice());
            proof {
                vstd::utf8::decode_utf8_encode_utf8(b@);
            }
            Some(s)
        },
        None => None,
    }
}

/// The JSON value a received line holds: its body (the line without its
/// ending, see `trimmed_frame`) parsed as JSON, or none.
pub fn line_json(line: &[u8], delimiter: &str) -> (r: Option<JsonValue>)
    ensures
        match r {
            Some(v) => json_of_bytes(trimmed_frame(line@, utf8_of(delimiter@))) == Some(v.model()),
            None => json_of_bytes(trimmed_frame(line@, utf8_of(delimiter@))) is None,
        },
{
    parse_json_bytes(trim_frame_delimiter(line, delimiter))
}

/// A line received from a device, sorted by what it holds.
#[derive(Debug, PartialEq)]
pub enum SerialEvent {
    /// A JSON response or other JSON message.
    Json(JsonValue),
    /// A line that is not JSON, as (lossily decoded) text.
    Text(String),
    /// A JSON object whose `method` is `"log"`.
    Log(JsonValue),
    /// A JSON object whose `method` is `"notification"`.
    Notification(JsonValue),
}

/// `e` is the event a line with this parse and text is: text when it did
/// not parse; a log or a notification when its string `method` says so;
/// else a JSON response.
pub open spec fn is_classified(parsed: Option<JsonValue>, text: String, e: SerialEvent) -> bool {
    match parsed {
        None => e == SerialEvent::Text(text),
        Some(v) => if v.model().str_field("method"@) == Some("log"@) {
            e == SerialEvent::Log(v)
        } else if v.model().str_field("method"@) == Some("notification"@) {
            e == SerialEvent::Notification(v)
        } else {
            e == SerialEvent::Json(v)
        },
    }
}

/// How a received line is classified, given the JSON value it parsed to,
/// if any, and its text: text that is not JSON stays text; JSON whose
/// string member `method` is `"log"` or `"notification"` is a log or a
/// notification; any other JSON is a response.
pub fn classify_line(parsed: Option<JsonValue>, text: String) -> (r: SerialEvent)
    ensures
        is_classified(parsed, text, r),
{
    match parsed {
        None => SerialEvent::Text(text),
        Some(v) => {
            let method = v.get_str_field("method");
            match method {
                Some(m) => {
                    if crate::text::str_eq(m.as_str(), "log") {
                        SerialEvent::Log(v)
                    } else if crate::text::str_eq(m.as_str(), "notification") {
                        SerialEvent::Notification(v)
                    } else {
                        SerialEvent::Json(v)
                    }
                },
                None => SerialEvent::Json(v),
            }
        },
    }
}

} // verus!
