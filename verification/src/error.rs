use vstd::prelude::*;

verus! {

/// HTTP status that a request is answered with when it is refused as malformed.
pub const BAD_REQUEST: u16 = 400;

/// HTTP status for a request without a valid session.
pub const UNAUTHORIZED: u16 = 401;

/// HTTP status for every other failure (storage errors, failed sign-ins).
pub const INTERNAL_SERVER_ERROR: u16 = 500;

/// A failed request: the status it is answered with and what went wrong.
pub struct AppError {
    pub status: u16,
    pub message: String,
}

impl AppError {
    /// A request that the service refuses (400).
    pub fn bad_request(message: String) -> (e: AppError)
        ensures
            e.status == BAD_REQUEST,
            e.message == message,
    {
        AppError { status: BAD_REQUEST, message }
    }

    /// Any other failure (500).
    pub fn internal(message: String) -> (e: AppError)
        ensures
            e.status == INTERNAL_SERVER_ERROR,
            e.message == message,
    {
        AppError { status: INTERNAL_SERVER_ERROR, message }
    }

    /// The status that the error is answered with.
    pub fn status(&self) -> (s: u16)
        ensures
            s == self.status,
    {
        self.status
    }

    /// Only server errors are written to the log; refused requests are not.
    pub fn should_log(&self) -> (b: bool)
        ensures
            b == (self.status == INTERNAL_SERVER_ERROR),
    {
        self.status == INTERNAL_SERVER_ERROR
    }
}

} // verus!
