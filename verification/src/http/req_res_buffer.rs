//! What a request and the response to it are written into.

use crate::http::headers::{HeaderView, Headers, Trailers};
use vstd::prelude::*;

verus! {

/// The body and the headers of a request, which make room for those of its response.
#[derive(Debug)]
pub struct ReqResBuffer {
    /// The body.
    pub data: Vec<u8>,
    /// The headers.
    pub headers: Headers,
}

impl ReqResBuffer {
    /// No body and no headers.
    pub fn empty() -> (r: Self)
        ensures
            r.headers.inv(),
            r.headers.trailers_are_exact(),
            r.data@ == Seq::<u8>::empty(),
            r.headers@ == Seq::<HeaderView>::empty(),
    {
        Self { data: Vec::new(), headers: Headers::new() }
    }

    /// Drops the body and the headers.
    pub fn clear(&mut self)
        ensures
            final(self).headers.inv(),
            final(self).headers.trailers_are_exact(),
            final(self).headers.spec_trailers() == Trailers::Absent,
            final(self).headers.spec_bytes_len() == 0,
            final(self).data@ == Seq::<u8>::empty(),
            final(self).headers@ == Seq::<HeaderView>::empty(),
    {
        self.data.clear();
        self.headers.clear();
    }
}

} // verus!
