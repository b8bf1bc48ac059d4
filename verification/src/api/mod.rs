//! The decisions behind the HTTP API: content types, dashboard discovery,
//! status codes, command waiting and event stream framing.

pub mod routes;
