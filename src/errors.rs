//! Errors of the plain request handlers and their HTTP status codes.
use vstd::prelude::*;

verus! {

/// HTTP `500 Internal Server Error`.
pub const INTERNAL_SERVER_ERROR: u16 = 500;

/// Failure of the JSON publish endpoint.
pub enum PublishError {
    UnexpectedError(String),
}

impl PublishError {
    pub fn status_code(&self) -> (r: u16)
        ensures
            r == INTERNAL_SERVER_ERROR,
    {
        match self {
            PublishError::UnexpectedError(_) => INTERNAL_SERVER_ERROR,
        }
    }
}

/// Failure of the subscription confirmation endpoint.
pub enum SubscribeConfirmationError {
    UnexpectedError(String),
}

impl SubscribeConfirmationError {
    pub fn status_code(&self) -> (r: u16)
        ensures
            r == INTERNAL_SERVER_ERROR,
    {
        match self {
            SubscribeConfirmationError::UnexpectedError(_) => INTERNAL_SERVER_ERROR,
        }
    }
}

} // verus!
