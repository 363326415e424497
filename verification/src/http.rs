//! The parts of an HTTP message that do not depend on the version of the protocol.

pub mod cookie;
pub mod headers;
pub mod req_res_buffer;
pub mod server_framework;
pub mod session;
pub mod status_code;

pub use cookie::{CookieGeneric, SameSite, Timestamp};
pub use headers::{Header, Headers, Trailers};
pub use req_res_buffer::ReqResBuffer;
pub use status_code::StatusCode;
pub use session::{SessionManager, SessionManagerBuilder};
