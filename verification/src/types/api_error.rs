use vstd::prelude::*;

verus! {

/// The kind of an error, as a client reads it.
#[derive(Debug, Clone, Copy, PartialEq, Eq, Structural)]
pub enum ApiErrorCode {
    Validation,
    Unauthorized,
    RateLimited,
    NotFound,
    Conflict,
    Database,
    Internal,
}

/// The body of an error response.
#[derive(Debug, Clone, PartialEq, Eq)]
pub struct ApiErrorResponse {
    pub code: ApiErrorCode,
    pub message: String,
}

} // verus!
