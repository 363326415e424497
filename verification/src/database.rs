//! Clients of database servers.

pub mod client;
