//! The library's error type.

use vstd::prelude::*;
use vstd::string::*;

verus! {

/// What can go wrong between a request and the serial line. Errors of the
/// JSON codec, the serial port and I/O keep their message.
#[derive(Debug, PartialEq, Eq)]
pub enum SerialportApiError {
    InvalidJson(String),
    InvalidUtf8,
    SerialPort(String),
    SerialIo(String),
    ConnectionNotFound(String),
    InvalidCommandPayload,
    CommandTimeout,
}

/// The message of an error, as its `Display` shows it.
pub open spec fn error_message(e: SerialportApiError) -> Seq<char> {
    match e {
        SerialportApiError::InvalidJson(m) => "invalid JSON: "@ + m@,
        SerialportApiError::InvalidUtf8 => "invalid UTF-8 serial line"@,
        SerialportApiError::SerialPort(m) => "serial port error: "@ + m@,
        SerialportApiError::SerialIo(m) => "serial I/O error: "@ + m@,
        SerialportApiError::ConnectionNotFound(name) => "connection not found: "@ + name@,
        SerialportApiError::InvalidCommandPayload => "command payload must be a JSON object"@,
        SerialportApiError::CommandTimeout => "command timed out"@,
    }
}

/// `prefix` followed by `rest`.
pub fn concat_str(prefix: &str, rest: &str) -> (r: String)
    ensures
        r@ == prefix@ + rest@,
{
    let mut s = String::from_str(prefix);
    s.append(rest);
    s
}

impl SerialportApiError {
    /// The error's message (what `to_string` gives).
    pub fn message(&self) -> (r: String)
        ensures
            r@ == error_message(*self),
    {
        match self {
            SerialportApiError::InvalidJson(m) => concat_str("invalid JSON: ", m.as_str()),
            SerialportApiError::InvalidUtf8 => String::from_str("invalid UTF-8 serial line"),
            SerialportApiError::SerialPort(m) => concat_str("serial port error: ", m.as_str()),
            SerialportApiError::SerialIo(m) => concat_str("serial I/O error: ", m.as_str()),
            SerialportApiError::ConnectionNotFound(name) => concat_str(
                "connection not found: ",
                name.as_str(),
            ),
            SerialportApiError::InvalidCommandPayload => String::from_str(
                "command payload must be a JSON object",
            ),
            SerialportApiError::CommandTimeout => String::from_str("command timed out"),
        }
    }
}

} // verus!
