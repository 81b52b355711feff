//! The errors the registry's operations report.
use vstd::prelude::*;

verus! {

/// An error with the HTTP-level meaning the service gives it.
#[derive(Debug, PartialEq, Eq)]
pub enum AppError {
    BadRequest(String),
    Unauthorized(String),
    Forbidden(String),
    NotFound(String),
    Conflict(String),
    Internal(String),
}

/// The kind of an error, without its message.
#[derive(Debug, Clone, Copy, PartialEq, Eq, Structural)]
pub enum ErrorKind {
    BadRequest,
    Unauthorized,
    Forbidden,
    NotFound,
    Conflict,
    Internal,
}

/// An error as its kind and message.
pub open spec fn error_view(e: AppError) -> (ErrorKind, Seq<char>) {
    match e {
        AppError::BadRequest(m) => (ErrorKind::BadRequest, m@),
        AppError::Unauthorized(m) => (ErrorKind::Unauthorized, m@),
        AppError::Forbidden(m) => (ErrorKind::Forbidden, m@),
        AppError::NotFound(m) => (ErrorKind::NotFound, m@),
        AppError::Conflict(m) => (ErrorKind::Conflict, m@),
        AppError::Internal(m) => (ErrorKind::Internal, m@),
    }
}

} // verus!
