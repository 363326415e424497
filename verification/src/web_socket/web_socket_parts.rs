//! The two halves of an endpoint and what they share.

pub mod web_socket_part;
pub mod web_socket_part_owned;

pub use web_socket_part::{
    ConnectionState, WebSocketCommonPart, WebSocketReaderPart, WebSocketWriterPart,
};
pub use web_socket_part_owned::{
    WebSocketCommonPartOwned, WebSocketReaderPartOwned, WebSocketWriterPartOwned,
};
