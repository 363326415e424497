//! How a buffer should grow.

use vstd::prelude::*;

verus! {

/// Generic parameter used in different buffer operations.
#[derive(Clone, Copy, Debug)]
pub enum BufferMode {
    /// Buffer should be modified with more elements.
    Additional(usize),
    /// Buffer should be modified using the exact specified length.
    Len(usize),
}

impl BufferMode {
    /// The number of missing elements and the resulting length of a buffer that currently has
    /// `len` elements, or nothing if the request can not be honoured: the sum does not fit or
    /// the buffer is already longer than asked.
    pub open spec fn spec_params(self, len: usize) -> Option<(usize, usize)> {
        match self {
            BufferMode::Additional(elem) => if len + elem <= usize::MAX {
                Some((elem, (len + elem) as usize))
            } else {
                None
            },
            BufferMode::Len(elem) => if len <= elem {
                Some(((elem - len) as usize, elem))
            } else {
                None
            },
        }
    }

    /// Computes `(additional, new_len)` for a buffer of `len` elements.
    pub fn params(self, len: usize) -> (r: Option<(usize, usize)>)
        ensures
            r == self.spec_params(len),
    {
        match self {
            BufferMode::Additional(elem) => match len.checked_add(elem) {
                Some(new_len) => Some((elem, new_len)),
                None => None,
            },
            BufferMode::Len(elem) => match elem.checked_sub(len) {
                Some(additional) => Some((additional, elem)),
                None => None,
            },
        }
    }
}

} // verus!
