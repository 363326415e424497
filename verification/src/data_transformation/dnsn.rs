//! The formats that values travel in.

pub mod serde_json;

pub use self::serde_json::SerdeJson;
