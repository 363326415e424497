//! The outcome of a request.

use vstd::prelude::*;

verus! {

/// The status that a response begins with.
#[derive(Debug, Clone, Copy, PartialEq, Eq, Structural)]
pub enum StatusCode {
    /// 201: something was created.
    Created,
    /// 202: the request was taken in and is not carried out yet.
    Accepted,
    /// 204: there is nothing to send back.
    NoContent,
    /// 301: the resource has moved for good; the method may change.
    MovedPermanently,
    /// 302: the resource is somewhere else for now; the method may change.
    Found,
    /// 303: the answer is to be fetched from somewhere else.
    SeeOther,
    /// 307: the resource is somewhere else for now; the method stays.
    TemporaryRedirect,
    /// 308: the resource has moved for good; the method stays.
    PermanentRedirect,
    /// 400: the request makes no sense.
    BadRequest,
    /// 401: the request lacks valid credentials.
    Unauthorized,
    /// 403: the request is understood and refused.
    Forbidden,
    /// 404: there is no such resource.
    NotFound,
    /// 500: the server failed.
    InternalServerError,
}

impl StatusCode {
    /// The number that stands for the status.
    pub open spec fn spec_as_u16(self) -> u16 {
        match self {
            StatusCode::Created => 201,
            StatusCode::Accepted => 202,
            StatusCode::NoContent => 204,
            StatusCode::MovedPermanently => 301,
            StatusCode::Found => 302,
            StatusCode::SeeOther => 303,
            StatusCode::TemporaryRedirect => 307,
            StatusCode::PermanentRedirect => 308,
            StatusCode::BadRequest => 400,
            StatusCode::Unauthorized => 401,
            StatusCode::Forbidden => 403,
            StatusCode::NotFound => 404,
            StatusCode::InternalServerError => 500,
        }
    }

    /// The number that stands for the status.
    pub fn as_u16(self) -> (r: u16)
        ensures
            r == self.spec_as_u16(),
    {
        match self {
            StatusCode::Created => 201,
            StatusCode::Accepted => 202,
            StatusCode::NoContent => 204,
            StatusCode::MovedPermanently => 301,
            StatusCode::Found => 302,
            StatusCode::SeeOther => 303,
            StatusCode::TemporaryRedirect => 307,
            StatusCode::PermanentRedirect => 308,
            StatusCode::BadRequest => 400,
            StatusCode::Unauthorized => 401,
            StatusCode::Forbidden => 403,
            StatusCode::NotFound => 404,
            StatusCode::InternalServerError => 500,
        }
    }

    /// If the status sends the client somewhere else.
    pub fn is_redirection(self) -> (r: bool)
        ensures
            r == (300 <= self.spec_as_u16() < 400),
    {
        match self {
            StatusCode::MovedPermanently => true,
            StatusCode::Found => true,
            StatusCode::SeeOther => true,
            StatusCode::TemporaryRedirect => true,
            StatusCode::PermanentRedirect => true,
            _ => false,
        }
    }
}

} // verus!
