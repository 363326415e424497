//! What handlers hand back and how paths are matched.

pub mod param_wrappers;
pub mod redirect;

pub use redirect::Redirect;
