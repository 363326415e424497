//! Turning values into bytes and back.

pub mod dnsn;
