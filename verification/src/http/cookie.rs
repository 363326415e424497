//! What a cookie is made of.

use core::time::Duration;
use vstd::prelude::*;

verus! {

/// A moment in time: the whole seconds since the first of January 1970 at midnight, universal
/// time, and the billionths of a second behind them.
#[derive(Debug, Clone, Copy, PartialEq, Eq, Structural)]
pub struct Timestamp {
    /// Whole seconds since the epoch; negative for moments before it.
    pub secs: i64,
    /// Billionths of a second behind the whole seconds.
    pub nanos: u32,
}

/// Controls whether or not a cookie is sent with cross-site requests.
#[derive(Debug, Clone, Copy, PartialEq, Eq, Structural)]
pub enum SameSite {
    /// The cookie is sent when a user follows a link to the site of its origin.
    Lax,
    /// The cookie is sent with every request, whatever site it comes from.
    Unrestricted,
    /// The cookie is only sent with requests that come from the site of its origin.
    Strict,
}

/// A cookie whose texts are of the kind `D` and whose value is of the kind `V`.
#[derive(Debug)]
pub struct CookieGeneric<D, V> {
    /// The host to which the cookie will be sent.
    pub domain: D,
    /// The maximum lifetime of the cookie as a moment in time.
    pub expire: Option<Timestamp>,
    /// Forbids JavaScript from accessing the cookie.
    pub http_only: bool,
    /// The time until the cookie expires.
    pub max_age: Option<Duration>,
    /// Cookie name.
    pub name: D,
    /// The path that must exist in the requested URL for the browser to send the cookie.
    pub path: D,
    /// Controls whether or not a cookie is sent with cross-site requests.
    pub same_site: Option<SameSite>,
    /// The cookie is only sent when a request is made with the `https` scheme.
    pub secure: bool,
    /// Cookie value.
    pub value: V,
}

} // verus!
