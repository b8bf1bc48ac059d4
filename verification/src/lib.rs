//! Verified core of a JSON-over-serial gateway: configuration resolution,
//! command framing, connection bookkeeping, response matching and the
//! in-memory preset store.

pub mod text;
pub mod keyed;
pub mod json;
pub mod protocol;
pub mod error;
pub mod serial;
pub mod config;
pub mod storage;
pub mod api;
