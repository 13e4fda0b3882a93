//! The errors the transport answers with.

use vstd::prelude::*;

use crate::text::copy_text;
pub use crate::types::api_error::{ApiErrorCode, ApiErrorResponse};

verus! {

/// Why a request was not served.
#[derive(Debug, Clone, PartialEq, Eq)]
pub enum ApiError {
    Validation { message: String },
    Unauthorized { message: String },
    RateLimited { message: String },
    NotFound { message: String },
    Conflict { message: String },
    /// The database refused a statement; what it said stays inside.
    Db(String),
    Internal { message: String },
}

pub enum ApiErrorView {
    Validation { message: Seq<char> },
    Unauthorized { message: Seq<char> },
    RateLimited { message: Seq<char> },
    NotFound { message: Seq<char> },
    Conflict { message: Seq<char> },
    Db(Seq<char>),
    Internal { message: Seq<char> },
}

impl View for ApiError {
    type V = ApiErrorView;

    open spec fn view(&self) -> ApiErrorView {
        match self {
            ApiError::Validation { message } => ApiErrorView::Validation { message: message@ },
            ApiError::Unauthorized { message } => ApiErrorView::Unauthorized { message: message@ },
            ApiError::RateLimited { message } => ApiErrorView::RateLimited { message: message@ },
            ApiError::NotFound { message } => ApiErrorView::NotFound { message: message@ },
            ApiError::Conflict { message } => ApiErrorView::Conflict { message: message@ },
            ApiError::Db(m) => ApiErrorView::Db(m@),
            ApiError::Internal { message } => ApiErrorView::Internal { message: message@ },
        }
    }
}

impl ApiErrorView {
    /// The HTTP status the error is answered with.
    pub open spec fn status(self) -> u16 {
        match self {
            ApiErrorView::Validation { .. } => 400,
            ApiErrorView::Unauthorized { .. } => 401,
            ApiErrorView::RateLimited { .. } => 429,
            ApiErrorView::NotFound { .. } => 404,
            ApiErrorView::Conflict { .. } => 409,
            ApiErrorView::Db(_) => 500,
            ApiErrorView::Internal { .. } => 500,
        }
    }

    /// The code the error is answered with.
    pub open spec fn code(self) -> ApiErrorCode {
        match self {
            ApiErrorView::Validation { .. } => ApiErrorCode::Validation,
            ApiErrorView::Unauthorized { .. } => ApiErrorCode::Unauthorized,
            ApiErrorView::RateLimited { .. } => ApiErrorCode::RateLimited,
            ApiErrorView::NotFound { .. } => ApiErrorCode::NotFound,
            ApiErrorView::Conflict { .. } => ApiErrorCode::Conflict,
            ApiErrorView::Db(_) => ApiErrorCode::Database,
            ApiErrorView::Internal { .. } => ApiErrorCode::Internal,
        }
    }

    /// The message the error is answered with. What a database said is not
    /// passed on.
    pub open spec fn message(self) -> Seq<char> {
        match self {
            ApiErrorView::Validation { message } => message,
            ApiErrorView::Unauthorized { message } => message,
            ApiErrorView::RateLimited { message } => message,
            ApiErrorView::NotFound { message } => message,
            ApiErrorView::Conflict { message } => message,
            ApiErrorView::Db(_) => "database error"@,
            ApiErrorView::Internal { message } => message,
        }
    }
}

impl ApiError {
    pub fn validation(message: &str) -> (r: ApiError)
        ensures
            r@ == (ApiErrorView::Validation { message: message@ }),
    {
        ApiError::Validation { message: copy_text(message) }
    }

    pub fn unauthorized(message: &str) -> (r: ApiError)
        ensures
            r@ == (ApiErrorView::Unauthorized { message: message@ }),
    {
        ApiError::Unauthorized { message: copy_text(message) }
    }

    pub fn rate_limited(message: &str) -> (r: ApiError)
        ensures
            r@ == (ApiErrorView::RateLimited { message: message@ }),
    {
        ApiError::RateLimited { message: copy_text(message) }
    }

    pub fn not_found(message: &str) -> (r: ApiError)
        ensures
            r@ == (ApiErrorView::NotFound { message: message@ }),
    {
        ApiError::NotFound { message: copy_text(message) }
    }

    pub fn conflict(message: &str) -> (r: ApiError)
        ensures
            r@ == (ApiErrorView::Conflict { message: message@ }),
    {
        ApiError::Conflict { message: copy_text(message) }
    }

    pub fn internal(message: &str) -> (r: ApiError)
        ensures
            r@ == (ApiErrorView::Internal { message: message@ }),
    {
        ApiError::Internal { message: copy_text(message) }
    }

    /// The HTTP status, the code and the message the error is answered with.
    pub fn into_response_parts(self) -> (r: (u16, ApiErrorCode, String))
        ensures
            r.0 == self@.status(),
            r.1 == self@.code(),
            r.2@ == self@.message(),
    {
        match self {
            ApiError::Validation { message } => (400, ApiErrorCode::Validation, message),
            ApiError::Unauthorized { message } => (401, ApiErrorCode::Unauthorized, message),
            ApiError::RateLimited { message } => (429, ApiErrorCode::RateLimited, message),
            ApiError::NotFound { message } => (404, ApiErrorCode::NotFound, message),
            ApiError::Conflict { message } => (409, ApiErrorCode::Conflict, message),
            ApiError::Db(_) => (500, ApiErrorCode::Database, copy_text("database error")),
            ApiError::Internal { message } => (500, ApiErrorCode::Internal, message),
        }
    }

    /// The body the error is answered with.
    pub fn into_response(self) -> (r: (u16, ApiErrorResponse))
        ensures
            r.0 == self@.status(),
            r.1.code == self@.code(),
            r.1.message@ == self@.message(),
    {
        let (status, code, message) = self.into_response_parts();
        (status, ApiErrorResponse { code, message })
    }
}

} // verus!
