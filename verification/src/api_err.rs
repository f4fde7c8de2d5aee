//! The error taxonomy surfaced at the connection boundary.
use crate::http_status::HttpStatus;
use vstd::prelude::*;

verus! {

/// Everything that can go wrong while reading, parsing, or handling a request.
/// Stream failures carry the reporting text of the underlying I/O error.
#[derive(Debug)]
pub enum ApiErr {
    InternalError(String),
    InvalidMethod,
    MediaTypeNotSupported,
    StreamError(String),
    Conflict(String),
    InvalidRequest,
}

#[verifier::external_type_specification]
#[verifier::external_body]
pub struct ExValue(serde_json::Value);

/// The JSON value serde_json builds for a message string; it depends on the
/// string alone.
pub uninterp spec fn message_value_of(message: Seq<char>) -> serde_json::Value;

/// Relies on serde_json::Value: builds the one-entry object holding the
/// message under "message".
#[verifier::external_body]
fn message_value(message: &str) -> (r: serde_json::Value)
    ensures
        r == message_value_of(message@),
{
    let mut fields = serde_json::Map::new();
    fields.insert("message".to_string(), serde_json::Value::String(message.to_string()));
    serde_json::Value::Object(fields)
}

/// The status code each error is answered with.
pub open spec fn status_of_err(e: ApiErr) -> HttpStatus {
    match e {
        ApiErr::StreamError(_) => HttpStatus::InternalServerError,
        ApiErr::InternalError(_) => HttpStatus::InternalServerError,
        ApiErr::MediaTypeNotSupported => HttpStatus::BadRequest,
        ApiErr::InvalidMethod => HttpStatus::BadRequest,
        ApiErr::Conflict(_) => HttpStatus::Conflict,
        ApiErr::InvalidRequest => HttpStatus::BadRequest,
    }
}

/// The human-readable text of each error.
pub open spec fn message_of_err(e: ApiErr) -> Seq<char> {
    match e {
        ApiErr::StreamError(s) => s@,
        ApiErr::InternalError(s) => s@,
        ApiErr::MediaTypeNotSupported => "Media type not supported."@,
        ApiErr::InvalidMethod => "Invalid method."@,
        ApiErr::Conflict(s) => s@ + " already exists!"@,
        ApiErr::InvalidRequest => "Invalid request."@,
    }
}

impl ApiErr {
    /// The status code this error is answered with.
    pub fn http_status(&self) -> (r: HttpStatus)
        ensures
            r == status_of_err(*self),
    {
        match self {
            ApiErr::StreamError(_) => HttpStatus::InternalServerError,
            ApiErr::InternalError(_) => HttpStatus::InternalServerError,
            ApiErr::MediaTypeNotSupported => HttpStatus::BadRequest,
            ApiErr::InvalidMethod => HttpStatus::BadRequest,
            ApiErr::Conflict(_) => HttpStatus::Conflict,
            ApiErr::InvalidRequest => HttpStatus::BadRequest,
        }
    }

    /// The error as a JSON object holding its reporting text.
    pub fn to_value(&self) -> (r: serde_json::Value)
        ensures
            r == message_value_of(message_of_err(*self)),
    {
        let message = self.message();
        message_value(message.as_str())
    }

    /// The reporting text of the error, as written into error responses.
    pub fn message(&self) -> (r: String)
        ensures
            r@ == message_of_err(*self),
    {
        match self {
            ApiErr::StreamError(s) => s.clone(),
            ApiErr::InternalError(s) => s.clone(),
            ApiErr::MediaTypeNotSupported => String::from_str("Media type not supported."),
            ApiErr::InvalidMethod => String::from_str("Invalid method."),
            ApiErr::Conflict(s) => s.clone().concat(" already exists!"),
            ApiErr::InvalidRequest => String::from_str("Invalid request."),
        }
    }
}

} // verus!
