//! The JSON response envelope of the HTTP surface, as plain data.
//!
//! Serialization lives with the binary around the library; these types pin
//! down what a success or error envelope holds.

use vstd::prelude::*;

verus! {

/// Standard response envelope: either data or an error message.
#[derive(Clone, Debug)]
pub struct ApiResponse<T> {
    pub success: bool,
    pub data: Option<T>,
    pub error: Option<String>,
}

impl<T> ApiResponse<T> {
    /// A success envelope wrapping the given data.
    pub fn ok(data: T) -> (r: Self)
        ensures
            r.success,
            r.data == Some(data),
            r.error is None,
    {
        ApiResponse { success: true, data: Some(data), error: None }
    }

    /// An error envelope with the given message.
    pub fn err(error_msg: String) -> (r: Self)
        ensures
            !r.success,
            r.data is None,
            r.error == Some(error_msg),
    {
        ApiResponse { success: false, data: None, error: Some(error_msg) }
    }
}

/// Envelope for operations that return no data.
#[derive(Clone, Debug)]
pub struct EmptyApiResponse {
    pub success: bool,
    pub error: Option<String>,
}

/// Response of the liveness endpoint.
#[derive(Clone, Debug)]
pub struct HeadpatResponse {
    pub message: String,
}

} // verus!
