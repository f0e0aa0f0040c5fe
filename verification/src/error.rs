//! The error kinds of the server and the table that maps each to a status.

use vstd::prelude::*;
use vstd::string::*;

verus! {

/// Everything that can go wrong while the server starts or handles a request.
#[derive(Debug, Clone, PartialEq, Eq)]
pub enum AppError {
    /// An I/O failure, with the system's description of it.
    Io(String),
    /// An extension pattern that is no valid glob, with the reason.
    Glob(String),
    /// A listen address that cannot be parsed, with the reason.
    AddrParse(String),
    InvalidPath,
    DirectoryNotFound(String),
    Forbidden,
    NotFound,
    BadRequest,
    Unauthorized,
    MethodNotAllowed,
    RangeNotSatisfiable,
    InternalServerError(String),
}

/// The status code that answers a request which failed with `error`.
pub open spec fn status_code_of(error: AppError) -> u16 {
    match error {
        AppError::NotFound => 404,
        AppError::Forbidden => 403,
        AppError::BadRequest => 400,
        AppError::Unauthorized => 401,
        AppError::MethodNotAllowed => 405,
        AppError::RangeNotSatisfiable => 416,
        _ => 500,
    }
}

/// The reason phrase that goes with `status_code_of`.
pub open spec fn status_text_of(error: AppError) -> Seq<char> {
    match error {
        AppError::NotFound => "Not Found"@,
        AppError::Forbidden => "Forbidden"@,
        AppError::BadRequest => "Bad Request"@,
        AppError::Unauthorized => "Unauthorized"@,
        AppError::MethodNotAllowed => "Method Not Allowed"@,
        AppError::RangeNotSatisfiable => "Requested Range Not Satisfiable"@,
        _ => "Internal Server Error"@,
    }
}

/// What `AppError::message` writes for `error`.
pub open spec fn message_of(error: AppError) -> Seq<char> {
    match error {
        AppError::Io(detail) => "IO error: "@ + detail@,
        AppError::Glob(detail) => "Glob pattern error: "@ + detail@,
        AppError::AddrParse(detail) => "Address parse error: "@ + detail@,
        AppError::InvalidPath => "Invalid path"@,
        AppError::DirectoryNotFound(path) => "Directory not found: "@ + path@,
        AppError::Forbidden => "Forbidden"@,
        AppError::NotFound => "Not Found"@,
        AppError::BadRequest => "Bad request"@,
        AppError::Unauthorized => "Unauthorized"@,
        AppError::MethodNotAllowed => "Method not allowed"@,
        AppError::RangeNotSatisfiable => "Range not satisfiable"@,
        AppError::InternalServerError(detail) => "Internal server error: "@ + detail@,
    }
}

impl AppError {
    /// The status line of the response for this error: every kind has its
    /// own code and phrase, and what has none is a 500.
    pub fn status(&self) -> (line: (u16, &'static str))
        ensures
            line.0 == status_code_of(*self),
            line.1@ == status_text_of(*self),
    {
        match self {
            AppError::NotFound => (404, "Not Found"),
            AppError::Forbidden => (403, "Forbidden"),
            AppError::BadRequest => (400, "Bad Request"),
            AppError::Unauthorized => (401, "Unauthorized"),
            AppError::MethodNotAllowed => (405, "Method Not Allowed"),
            AppError::RangeNotSatisfiable => (416, "Requested Range Not Satisfiable"),
            _ => (500, "Internal Server Error"),
        }
    }

    /// The error in words, for logs and for people.
    pub fn message(&self) -> (text: String)
        ensures
            text@ == message_of(*self),
    {
        match self {
            AppError::Io(detail) => String::from_str("IO error: ").concat(detail.as_str()),
            AppError::Glob(detail) => String::from_str("Glob pattern error: ").concat(
                detail.as_str(),
            ),
            AppError::AddrParse(detail) => String::from_str("Address parse error: ").concat(
                detail.as_str(),
            ),
            AppError::InvalidPath => String::from_str("Invalid path"),
            AppError::DirectoryNotFound(path) => String::from_str("Directory not found: ").concat(
                path.as_str(),
            ),
            AppError::Forbidden => String::from_str("Forbidden"),
            AppError::NotFound => String::from_str("Not Found"),
            AppError::BadRequest => String::from_str("Bad request"),
            AppError::Unauthorized => String::from_str("Unauthorized"),
            AppError::MethodNotAllowed => String::from_str("Method not allowed"),
            AppError::RangeNotSatisfiable => String::from_str("Range not satisfiable"),
            AppError::InternalServerError(detail) => String::from_str(
                "Internal server error: ",
            ).concat(detail.as_str()),
        }
    }
}

} // verus!
