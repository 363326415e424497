//! JSON.

use vstd::prelude::*;

verus! {

/// Type that indicates the usage of the `serde_json` dependency.
#[derive(Debug, Clone, Copy, PartialEq, Eq, Structural)]
pub struct SerdeJson;

} // verus!
