//! WebSocket framing: frames on the wire, fragmented messages and the closing handshake.

pub mod compression;
pub mod frame;
pub mod op_code;
pub mod read;
pub mod received;
pub mod web_socket_parts;
pub mod write;

pub use frame::{Frame, FrameHeader};
pub use op_code::OpCode;
pub use web_socket_parts::{
    ConnectionState, WebSocketCommonPartOwned, WebSocketReaderPartOwned, WebSocketWriterPartOwned,
};
