//! One module for each kind of server.

pub mod postgres;
