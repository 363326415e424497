//! Byte-pipeline building blocks and the protocol state machines that sit on top of them: a
//! partitioned read buffer, an HTTP headers store, the PostgreSQL frontend protocol and
//! WebSocket framing.

pub mod data_transformation;
pub mod database;
pub mod error;
pub mod http;
pub mod misc;
pub mod web_socket;

pub use error::{Error, WebSocketError};
