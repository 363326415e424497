//! The frontend side of the PostgreSQL protocol, version 3.0.

pub mod authentication;
pub mod config;
pub mod executor;
pub mod executor_buffer;
pub mod message;
pub mod protocol;
pub mod record;
pub mod sasl;
pub mod statements;

pub use authentication::Authentication;
pub use config::Config;
pub use executor_buffer::ExecutorBuffer;
pub use message::{Message, MessageTy};
pub use record::{Record, Records};
pub use statements::{Column, Statement, Statements};
