//! Sending a client somewhere else.

use crate::error::Error;
use crate::http::headers::{Header, HeaderView, Headers};
use crate::http::req_res_buffer::ReqResBuffer;
use crate::http::status_code::StatusCode;
use vstd::prelude::*;
use vstd::string::StringSliceAdditionalSpecFns;

verus! {

/// The text `location`.
pub open spec fn location() -> Seq<u8> {
    seq![0x6cu8, 0x6fu8, 0x63u8, 0x61u8, 0x74u8, 0x69u8, 0x6fu8, 0x6eu8]
}

/// The header that tells where `uri` sends the client.
pub open spec fn location_header(uri: Seq<u8>) -> HeaderView {
    HeaderView { is_sensitive: false, is_trailer: false, name: location(), value: uri }
}

/// Different types of redirects.
#[derive(Debug, Clone, Copy, PartialEq, Eq)]
pub struct Redirect {
    status_code: StatusCode,
    uri: &'static str,
}

impl Redirect {
    /// The status that the response begins with.
    pub closed spec fn spec_status_code(&self) -> StatusCode {
        self.status_code
    }

    /// Where the client is sent.
    pub closed spec fn spec_uri(&self) -> Seq<u8> {
        self.uri.spec_bytes()
    }

    /// Any status with a location.
    pub fn new(status_code: StatusCode, uri: &'static str) -> (r: Self)
        ensures
            r.spec_status_code() == status_code,
            r.spec_uri() == uri.spec_bytes(),
    {
        Self { status_code, uri }
    }

    /// The resource has moved for good: status 308.
    pub fn permanent(uri: &'static str) -> (r: Self)
        ensures
            r.spec_status_code() == StatusCode::PermanentRedirect,
            r.spec_uri() == uri.spec_bytes(),
    {
        Self::new(StatusCode::PermanentRedirect, uri)
    }

    /// The resource is somewhere else for now: status 307.
    pub fn temporary(uri: &'static str) -> (r: Self)
        ensures
            r.spec_status_code() == StatusCode::TemporaryRedirect,
            r.spec_uri() == uri.spec_bytes(),
    {
        Self::new(StatusCode::TemporaryRedirect, uri)
    }

    /// Adds the location `uri` to `headers` and tells the status of a lasting redirect.
    pub fn permanent_raw(headers: &mut Headers, uri: &str) -> (r: Result<StatusCode, Error>)
        requires
            old(headers).inv(),
        ensures
            final(headers).inv(),
            match r {
                Ok(status_code) => {
                    &&& status_code == StatusCode::PermanentRedirect
                    &&& !old(headers).push_overflows(location_header(uri.spec_bytes()))
                    &&& final(headers)@ == old(headers)@.push(location_header(uri.spec_bytes()))
                },
                Err(e) => {
                    &&& final(headers)@ == old(headers)@
                    &&& e == if old(headers).push_overflows(location_header(uri.spec_bytes())) {
                        Error::CapacityOverflow
                    } else {
                        Error::AllocationError
                    }
                },
            },
    {
        match Self::push_headers(headers, uri) {
            Ok(()) => Ok(StatusCode::PermanentRedirect),
            Err(e) => Err(e),
        }
    }

    /// Adds the location `uri` to `headers` and tells the status of a passing redirect.
    pub fn temporary_raw(headers: &mut Headers, uri: &str) -> (r: Result<StatusCode, Error>)
        requires
            old(headers).inv(),
        ensures
            final(headers).inv(),
            match r {
                Ok(status_code) => {
                    &&& status_code == StatusCode::TemporaryRedirect
                    &&& !old(headers).push_overflows(location_header(uri.spec_bytes()))
                    &&& final(headers)@ == old(headers)@.push(location_header(uri.spec_bytes()))
                },
                Err(e) => {
                    &&& final(headers)@ == old(headers)@
                    &&& e == if old(headers).push_overflows(location_header(uri.spec_bytes())) {
                        Error::CapacityOverflow
                    } else {
                        Error::AllocationError
                    }
                },
            },
    {
        match Self::push_headers(headers, uri) {
            Ok(()) => Ok(StatusCode::TemporaryRedirect),
            Err(e) => Err(e),
        }
    }

    /// Turns what a handler handed back into the response: whatever the request held is
    /// dropped, the location is the only header, there is no body, and the status is the one
    /// of the redirect.
    pub fn finalize_response(self, rrb: &mut ReqResBuffer) -> (r: Result<StatusCode, Error>)
        ensures
            final(rrb).headers.inv(),
            final(rrb).data@ == Seq::<u8>::empty(),
            match r {
                Ok(status_code) => {
                    &&& status_code == self.spec_status_code()
                    &&& location().len() + self.spec_uri().len() <= usize::MAX
                    &&& final(rrb).headers@ == seq![location_header(self.spec_uri())]
                },
                Err(e) => {
                    &&& final(rrb).headers@ == Seq::<HeaderView>::empty()
                    &&& e == if location().len() + self.spec_uri().len() > usize::MAX {
                        Error::CapacityOverflow
                    } else {
                        Error::AllocationError
                    }
                },
            },
    {
        rrb.clear();
        match Self::push_headers(&mut rrb.headers, self.uri) {
            Ok(()) => {
                assert(rrb.headers@ =~= seq![location_header(self.spec_uri())]);
                Ok(self.status_code)
            },
            Err(e) => Err(e),
        }
    }

    /// Adds the location `uri` to `headers`.
    fn push_headers(headers: &mut Headers, uri: &str) -> (r: Result<(), Error>)
        requires
            old(headers).inv(),
        ensures
            final(headers).inv(),
            match r {
                Ok(()) => {
                    &&& !old(headers).push_overflows(location_header(uri.spec_bytes()))
                    &&& final(headers)@ == old(headers)@.push(location_header(uri.spec_bytes()))
                },
                Err(e) => {
                    &&& final(headers)@ == old(headers)@
                    &&& e == if old(headers).push_overflows(location_header(uri.spec_bytes())) {
                        Error::CapacityOverflow
                    } else {
                        Error::AllocationError
                    }
                },
            },
    {
        let name: [u8; 8] = [0x6c, 0x6f, 0x63, 0x61, 0x74, 0x69, 0x6f, 0x6e];
        assert(name@ =~= location());
        let value: [&[u8]; 1] = [uri.as_bytes()];
        let header = Header::from_name_and_value(name.as_slice(), value.as_slice());
        proof {
            reveal_with_fuel(crate::misc::filled_buffer::concat, 2);
            assert(value@.drop_last() =~= Seq::<&[u8]>::empty());
            assert(header@.value =~= uri.spec_bytes());
        }
        headers.push_from_iter(header)
    }
}

} // verus!
