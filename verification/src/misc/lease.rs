//! Handing out what is held.

use vstd::prelude::*;

verus! {

/// Something that can hand out a shared reference to a `T`, be it the `T` itself or something
/// that holds one.
pub trait Lease<T> {
    /// Hands out a shared reference.
    fn lease(&self) -> (r: &T)
    ;
}

/// Something that can hand out an exclusive reference to a `T`.
pub trait LeaseMut<T>: Lease<T> {
    /// Hands out an exclusive reference.
    fn lease_mut(&mut self) -> (r: &mut T)
    ;
}

} // verus!
