//! Response status codes.
use vstd::prelude::*;

verus! {

/// The status codes the engine and its handlers answer with.
#[derive(Debug, PartialEq, Eq, Structural, Clone, Copy)]
pub enum Status {
    OK,
    Created,
    NoContent,
    MovedPermanently,
    Found,
    NotModified,
    BadRequest,
    Unauthorized,
    Forbidden,
    NotFound,
    MethodNotAllowed,
    InternalServerError,
    NotImplemented,
    ServiceUnavailable,
}

/// The numeric code of a status.
pub open spec fn status_code(s: Status) -> u16 {
    match s {
        Status::OK => 200,
        Status::Created => 201,
        Status::NoContent => 204,
        Status::MovedPermanently => 301,
        Status::Found => 302,
        Status::NotModified => 304,
        Status::BadRequest => 400,
        Status::Unauthorized => 401,
        Status::Forbidden => 403,
        Status::NotFound => 404,
        Status::MethodNotAllowed => 405,
        Status::InternalServerError => 500,
        Status::NotImplemented => 501,
        Status::ServiceUnavailable => 503,
    }
}

/// The reason phrase of a status.
pub open spec fn reason_text(s: Status) -> Seq<char> {
    match s {
        Status::OK => "OK"@,
        Status::Created => "Created"@,
        Status::NoContent => "No Content"@,
        Status::MovedPermanently => "Moved Permanently"@,
        Status::Found => "Found"@,
        Status::NotModified => "Not Modified"@,
        Status::BadRequest => "Bad Request"@,
        Status::Unauthorized => "Unauthorized"@,
        Status::Forbidden => "Forbidden"@,
        Status::NotFound => "Not Found"@,
        Status::MethodNotAllowed => "Method Not Allowed"@,
        Status::InternalServerError => "Internal Server Error"@,
        Status::NotImplemented => "Not Implemented"@,
        Status::ServiceUnavailable => "Service Unavailable"@,
    }
}

impl Status {
    pub fn code(&self) -> (r: u16)
        ensures
            r == status_code(*self),
    {
        match self {
            Status::OK => 200,
            Status::Created => 201,
            Status::NoContent => 204,
            Status::MovedPermanently => 301,
            Status::Found => 302,
            Status::NotModified => 304,
            Status::BadRequest => 400,
            Status::Unauthorized => 401,
            Status::Forbidden => 403,
            Status::NotFound => 404,
            Status::MethodNotAllowed => 405,
            Status::InternalServerError => 500,
            Status::NotImplemented => 501,
            Status::ServiceUnavailable => 503,
        }
    }

    pub fn reason_phrase(&self) -> (r: &'static str)
        ensures
            r@ == reason_text(*self),
    {
        match self {
            Status::OK => "OK",
            Status::Created => "Created",
            Status::NoContent => "No Content",
            Status::MovedPermanently => "Moved Permanently",
            Status::Found => "Found",
            Status::NotModified => "Not Modified",
            Status::BadRequest => "Bad Request",
            Status::Unauthorized => "Unauthorized",
            Status::Forbidden => "Forbidden",
            Status::NotFound => "Not Found",
            Status::MethodNotAllowed => "Method Not Allowed",
            Status::InternalServerError => "Internal Server Error",
            Status::NotImplemented => "Not Implemented",
            Status::ServiceUnavailable => "Service Unavailable",
        }
    }
}

} // verus!
