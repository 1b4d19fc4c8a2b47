//! Types of the HTTP API.

use vstd::prelude::*;

verus! {

/// An API error: a code and a message.
#[derive(Debug, Clone)]
pub struct ApiError {
    pub code: String,
    pub message: String,
}

/// The HTTP status of an API error code: 404, 400, 401 and 409 for
/// `NOT_FOUND`, `INVALID_REQUEST`, `UNAUTHORIZED` and `CONFLICT`, 500 for
/// any other.
pub open spec fn status_for(code: Seq<char>) -> u16 {
    if code == "NOT_FOUND"@ {
        404
    } else if code == "INVALID_REQUEST"@ {
        400
    } else if code == "UNAUTHORIZED"@ {
        401
    } else if code == "CONFLICT"@ {
        409
    } else {
        500
    }
}

impl ApiError {
    /// An error with the given code and message.
    pub fn new(code: String, message: String) -> (e: Self)
        ensures
            e.code == code,
            e.message == message,
    {
        ApiError { code, message }
    }

    /// The HTTP status this error is answered with.
    pub fn http_status(&self) -> (s: u16)
        ensures
            s == status_for(self.code@),
    {
        let c = self.code.as_str();
        if crate::assoc::str_eq(c, "NOT_FOUND") {
            404
        } else if crate::assoc::str_eq(c, "INVALID_REQUEST") {
            400
        } else if crate::assoc::str_eq(c, "UNAUTHORIZED") {
            401
        } else if crate::assoc::str_eq(c, "CONFLICT") {
            409
        } else {
            500
        }
    }
}

/// The answer to a submitted operation.
#[derive(Debug, Clone)]
pub struct OperationResponse {
    pub success: bool,
    pub operation_id: String,
}

/// State shared by the API handlers.
#[derive(Debug, Clone)]
pub struct AppState {
    pub node_id: String,
}

} // verus!
