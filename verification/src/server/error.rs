//! Errors that a request is answered with.

use vstd::prelude::*;
use vstd::string::*;
use crate::text::copy_opt;

verus! {

/// Why a request failed.
#[derive(Debug)]
pub enum AppError {
    NotFound(String),
    Conflict(String),
    TooManyRequests,
    BadRequest(String),
    /// A bad request with a stable code for programs and a hint for people.
    BadRequestWithHint { code: &'static str, message: String, hint: Option<String> },
    ServiceUnavailable(String),
    /// Any other failure, with its chain of causes.
    Internal(String),
}

/// What an error is answered with.
#[derive(Debug)]
pub struct ErrorReply {
    pub status: u16,
    pub code: String,
    pub message: String,
    pub hint: Option<String>,
}

/// The status of an error.
pub open spec fn status_of(e: AppError) -> u16 {
    match e {
        AppError::NotFound(_) => 404,
        AppError::Conflict(_) => 409,
        AppError::TooManyRequests => 429,
        AppError::BadRequest(_) => 400,
        AppError::BadRequestWithHint { .. } => 400,
        AppError::ServiceUnavailable(_) => 503,
        AppError::Internal(_) => 500,
    }
}

/// The code of an error.
pub open spec fn code_of(e: AppError) -> Seq<char> {
    match e {
        AppError::NotFound(_) => "not_found"@,
        AppError::Conflict(_) => "conflict"@,
        AppError::TooManyRequests => "too_many_requests"@,
        AppError::BadRequest(_) => "bad_request"@,
        AppError::BadRequestWithHint { code, .. } => code@,
        AppError::ServiceUnavailable(_) => "service_unavailable"@,
        AppError::Internal(_) => "internal_error"@,
    }
}

/// The message of an error.
pub open spec fn message_of(e: AppError) -> Seq<char> {
    match e {
        AppError::NotFound(m) => m@,
        AppError::Conflict(m) => m@,
        AppError::TooManyRequests => "job queue full (max 4 concurrent)"@,
        AppError::BadRequest(m) => m@,
        AppError::BadRequestWithHint { message, .. } => message@,
        AppError::ServiceUnavailable(m) => m@,
        AppError::Internal(m) => m@,
    }
}

/// The hint of an error.
pub open spec fn hint_of(e: AppError) -> Option<String> {
    match e {
        AppError::BadRequestWithHint { hint, .. } => hint,
        _ => None,
    }
}

impl AppError {
    /// What the error is answered with.
    pub fn reply(&self) -> (r: ErrorReply)
        ensures
            r.status == status_of(*self),
            r.code@ == code_of(*self),
            r.message@ == message_of(*self),
            r.hint == hint_of(*self),
    {
        match self {
            AppError::NotFound(m) => ErrorReply {
                status: 404,
                code: "not_found".to_owned(),
                message: m.clone(),
                hint: None,
            },
            AppError::Conflict(m) => ErrorReply {
                status: 409,
                code: "conflict".to_owned(),
                message: m.clone(),
                hint: None,
            },
            AppError::TooManyRequests => ErrorReply {
                status: 429,
                code: "too_many_requests".to_owned(),
                message: "job queue full (max 4 concurrent)".to_owned(),
                hint: None,
            },
            AppError::BadRequest(m) => ErrorReply {
                status: 400,
                code: "bad_request".to_owned(),
                message: m.clone(),
                hint: None,
            },
            AppError::BadRequestWithHint { code, message, hint } => ErrorReply {
                status: 400,
                code: (*code).to_owned(),
                message: message.clone(),
                hint: copy_opt(hint),
            },
            AppError::ServiceUnavailable(m) => ErrorReply {
                status: 503,
                code: "service_unavailable".to_owned(),
                message: m.clone(),
                hint: None,
            },
            AppError::Internal(m) => ErrorReply {
                status: 500,
                code: "internal_error".to_owned(),
                message: m.clone(),
                hint: None,
            },
        }
    }
}

/// Every error is answered with a status that says so, and only a bad request with its own code
/// carries a hint.
pub proof fn errors_are_answered_as_errors(e: AppError)
    ensures
        400 <= status_of(e) < 600,
        hint_of(e) is Some ==> e is BadRequestWithHint,
{
}

} // verus!
