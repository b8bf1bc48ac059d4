# serialport-api

A service for JSON-based serial-port communication with microcontrollers and
robots: it lists ports, manages named connections, sends JSON commands framed
with a delimiter, matches responses by `reqId`, and streams serial events over
Server-Sent Events, WebSocket and Socket.IO.

The logic is a library verified with Verus (`src/`):

- `text`, `keyed`, `json`: strings and decimal numbers, name-ordered tables,
  JSON values with a mathematical model.
- `protocol`: command framing, line endings, classification of received lines.
- `serial`: the connection manager (request ids, event log, response queues),
  the recording and real transports, the mock device, the read source.
- `config`: how command line, environment and file settings resolve.
- `storage`: preset validation and the in-memory preset store.
- `api::routes`: what the HTTP routes decide (content types, dashboard
  directory, waiting for responses, Socket.IO framing).

Public functions state in their contracts what they return and how they
change their arguments, as far as the library's own logic decides it. The
JSON text of commands and live events comes from `serde_json`, whose result
the contracts name (`json_text_of`) rather than spell out. Serial port
handles are supplied from outside: the real transport keeps a ghost log of
the calls it makes on them (writes, flushes and byte reads, with their
outcomes), and its contracts state the frames and lines in terms of that
log. The laws that relate several operations are public proof functions
named `law_*`.

`app/` holds the program around the library: the command line, the Axum
server, the OS serial ports, SQLite presets, and the conversion of request and
response bodies.
`tests/` holds the tests.
