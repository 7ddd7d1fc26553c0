use vstd::prelude::*;
use vstd::string::{StrSliceExecFns, StringExecFns};
use vstd::utf8::encode_utf8;

use crate::response::{Response, ResponseView};

verus! {

broadcast use vstd::string::group_string_axioms;

/// `serde_json::Error`, carried by `AppError::Serde`.
#[verifier::external_type_specification]
#[verifier::external_body]
pub struct ExSerdeJsonError(serde_json::Error);

/// `std::io::Error`, carried by `AppError::Io`.
#[verifier::external_type_specification]
#[verifier::external_body]
pub struct ExIoError(std::io::Error);

/// The errors a handler or the framework can end a request with.
#[derive(Debug)]
pub enum AppError {
    /// No route reaches the request.
    NotFound,
    /// Internal server error with a detailed message.
    Internal(String),
    /// Bad request error with a detailed message.
    BadRequest(String),
    /// Too many requests, typically from rate limiting.
    TooManyRequests,
    /// An I/O error.
    Io(std::io::Error),
    /// A serialisation or deserialisation error.
    Serde(serde_json::Error),
}

/// A response, or the error a request ended with.
pub type AppResult = Result<Response, AppError>;

/// The status code an error is answered with.
pub open spec fn error_status(e: &AppError) -> u16 {
    match e {
        AppError::NotFound => 404,
        AppError::Internal(_) => 500,
        AppError::BadRequest(_) => 400,
        AppError::TooManyRequests => 429,
        AppError::Io(_) => 500,
        AppError::Serde(_) => 500,
    }
}

/// Every error is answered with a client or server error status, and a
/// request that reaches no route with `404 Not Found`.
pub proof fn law_errors_answered_with_error_status(e: AppError)
    ensures
        400 <= error_status(&e) <= 599,
        e is NotFound ==> error_status(&e) == 404 && error_message(&e) == "Not Found"@,
{
}

/// The status and body of each error, whatever the message it carries:
/// `400` for a bad request and `500` for an internal error, each with its
/// message as the body; `404 Not Found`; `429` for too many requests;
/// `500` for an I/O or serialisation error.
pub proof fn law_error_responses(e: AppError)
    ensures
        e is NotFound ==> error_status(&e) == 404 && error_message(&e) == "Not Found"@,
        e matches AppError::BadRequest(m) ==> error_status(&e) == 400 && error_message(&e) == m@,
        e matches AppError::Internal(m) ==> error_status(&e) == 500 && error_message(&e) == m@,
        e is TooManyRequests ==> error_status(&e) == 429 && error_message(&e)
            == "Rate limit exceeded"@,
        e is Io ==> error_status(&e) == 500 && error_message(&e) == "IO Error"@,
        e is Serde ==> error_status(&e) == 500 && error_message(&e) == "Serialization Error"@,
{
}

/// The text of the body an error is answered with.
pub open spec fn error_message(e: &AppError) -> Seq<char> {
    match e {
        AppError::NotFound => "Not Found"@,
        AppError::Internal(m) => m@,
        AppError::BadRequest(m) => m@,
        AppError::TooManyRequests => "Rate limit exceeded"@,
        AppError::Io(_) => "IO Error"@,
        AppError::Serde(_) => "Serialization Error"@,
    }
}

impl AppError {
    /// The text that describes the error: `Not Found`, `Internal Server
    /// Error: ` or `Bad Request: ` followed by the message,
    /// `Too Many Requests`, or `IO Error: ` or `Serialization Error: `
    /// followed by the text of the error it carries, as its `to_string`
    /// gives it.
    pub fn text(&self) -> (r: String)
        ensures
            match self {
                AppError::NotFound => r@ == "Not Found"@,
                AppError::Internal(m) => r@ == "Internal Server Error: "@ + m@,
                AppError::BadRequest(m) => r@ == "Bad Request: "@ + m@,
                AppError::TooManyRequests => r@ == "Too Many Requests"@,
                AppError::Io(e) => exists|t: String|
                    vstd::string::to_string_from_display_ensures::<std::io::Error>(e, t) && r@
                        == "IO Error: "@ + t@,
                AppError::Serde(e) => exists|t: String|
                    vstd::string::to_string_from_display_ensures::<serde_json::Error>(e, t) && r@
                        == "Serialization Error: "@ + t@,
            },
    {
        match self {
            AppError::NotFound => String::from_str("Not Found"),
            AppError::Internal(m) => String::from_str("Internal Server Error: ").concat(m.as_str()),
            AppError::BadRequest(m) => String::from_str("Bad Request: ").concat(m.as_str()),
            AppError::TooManyRequests => String::from_str("Too Many Requests"),
            AppError::Io(e) => {
                let t = e.to_string();
                let r = String::from_str("IO Error: ").concat(t.as_str());
                assert(r@ == "IO Error: "@ + t@);
                r
            },
            AppError::Serde(e) => {
                let t = e.to_string();
                let r = String::from_str("Serialization Error: ").concat(t.as_str());
                assert(r@ == "Serialization Error: "@ + t@);
                r
            },
        }
    }

    /// The response an error is answered with: its status code, no header,
    /// and its message as the body.
    pub fn into_response(self) -> (r: Response)
        ensures
            r@ == (ResponseView {
                status: error_status(&self),
                headers: Map::<Seq<char>, Seq<char>>::empty(),
                header_names: Seq::<Seq<char>>::empty(),
                body: encode_utf8(error_message(&self)),
            }),
    {
        let (status, msg): (u16, Vec<u8>) = match self {
            AppError::NotFound => (404, "Not Found".as_bytes_vec()),
            AppError::Internal(e) => (500, e.as_str().as_bytes_vec()),
            AppError::BadRequest(e) => (400, e.as_str().as_bytes_vec()),
            AppError::TooManyRequests => (429, "Rate limit exceeded".as_bytes_vec()),
            AppError::Io(_) => (500, "IO Error".as_bytes_vec()),
            AppError::Serde(_) => (500, "Serialization Error".as_bytes_vec()),
        };
        Response::new(status, msg)
    }
}

impl From<std::io::Error> for AppError {
    fn from(e: std::io::Error) -> (r: AppError) {
        AppError::Io(e)
    }
}

impl vstd::std_specs::convert::FromSpecImpl<std::io::Error> for AppError {
    open spec fn obeys_from_spec() -> bool {
        true
    }

    open spec fn from_spec(e: std::io::Error) -> AppError {
        AppError::Io(e)
    }
}

impl From<serde_json::Error> for AppError {
    fn from(e: serde_json::Error) -> (r: AppError) {
        AppError::Serde(e)
    }
}

impl vstd::std_specs::convert::FromSpecImpl<serde_json::Error> for AppError {
    open spec fn obeys_from_spec() -> bool {
        true
    }

    open spec fn from_spec(e: serde_json::Error) -> AppError {
        AppError::Serde(e)
    }
}

/// The response a request gets: the one its handler produced, or the one
/// its error is answered with.
pub fn respond(result: AppResult) -> (r: Response)
    ensures
        match result {
            Ok(res) => r == res,
            Err(e) => r@ == (ResponseView {
                status: error_status(&e),
                headers: Map::<Seq<char>, Seq<char>>::empty(),
                header_names: Seq::<Seq<char>>::empty(),
                body: encode_utf8(error_message(&e)),
            }),
        },
{
    match result {
        Ok(res) => res,
        Err(e) => e.into_response(),
    }
}

} // verus!
