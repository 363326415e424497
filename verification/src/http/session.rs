//! Sessions that are told apart by a cookie.

pub mod session_manager_builder;

pub use session_manager_builder::{
    SessionKey, SessionManager, SessionManagerBuilder, SessionManagerInner, SessionSweep,
    SweepAction,
};
