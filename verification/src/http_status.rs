//! Response status vocabulary used by the core, with its wire text.
use vstd::prelude::*;

verus! {

/// The status codes that the core emits on the wire.
#[derive(Clone, Copy, Debug, PartialEq, Eq, Structural)]
pub enum HttpStatus {
    Okay,
    Created,
    NoContent,
    BadRequest,
    NotFound,
    Conflict,
    UnprocessableEntity,
    InternalServerError,
}

/// The status-line text of a status: code, a space, and the reason phrase.
pub open spec fn status_chars(s: HttpStatus) -> Seq<char> {
    match s {
        HttpStatus::Okay => "200 OK"@,
        HttpStatus::Created => "201 Created"@,
        HttpStatus::NoContent => "204 No Content"@,
        HttpStatus::BadRequest => "400 Bad Request"@,
        HttpStatus::NotFound => "404 Not Found"@,
        HttpStatus::Conflict => "409 Conflict"@,
        HttpStatus::UnprocessableEntity => "422 Unprocessable Entity"@,
        HttpStatus::InternalServerError => "500 Internal Server Error"@,
    }
}

impl HttpStatus {
    /// The code and reason phrase as written on the status line.
    pub fn as_str(&self) -> (r: &'static str)
        ensures
            r@ == status_chars(*self),
    {
        match self {
            HttpStatus::Okay => "200 OK",
            HttpStatus::Created => "201 Created",
            HttpStatus::NoContent => "204 No Content",
            HttpStatus::BadRequest => "400 Bad Request",
            HttpStatus::NotFound => "404 Not Found",
            HttpStatus::Conflict => "409 Conflict",
            HttpStatus::UnprocessableEntity => "422 Unprocessable Entity",
            HttpStatus::InternalServerError => "500 Internal Server Error",
        }
    }
}

} // verus!
