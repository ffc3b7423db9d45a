//! The uniform error record that every failure converges to, and its
//! standard constructors.

use vstd::prelude::*;
use crate::json::JsonValue;

verus! {

/// An API error as returned to the transport. Only the external message, the
/// code and the optional context cross the trust boundary; the internal
/// message is for logs alone.
#[derive(Debug, PartialEq, Eq)]
pub struct ApiError {
    /// The HTTP status code this error responds with.
    pub code: u16,
    /// A message for internal logs; never shown to API consumers.
    pub internal_message: String,
    /// A message that can be shown to API consumers.
    pub external_message: String,
    /// Optional structured context, safe to hand back to consumers.
    pub value: Option<JsonValue>,
}

impl ApiError {
    /// A server error: code 500, the message kept internal, the fixed
    /// external text.
    pub fn server_error(msg: String) -> (r: ApiError)
        ensures
            r.code == 500,
            r.internal_message@ == msg@,
            r.external_message@ == "Internal server error"@,
            r.value is None,
    {
        ApiError {
            code: 500,
            internal_message: msg,
            external_message: String::from_str("Internal server error"),
            value: None,
        }
    }

    /// A not-found error: code 404, the fixed text on both sides.
    pub fn path_not_found() -> (r: ApiError)
        ensures
            r.code == 404,
            r.internal_message@ == "Not found"@,
            r.external_message@ == "Not found"@,
            r.value is None,
    {
        ApiError {
            code: 404,
            internal_message: String::from_str("Not found"),
            external_message: String::from_str("Not found"),
            value: None,
        }
    }

    /// A not-authorized error: code 403, the reason appended to the fixed
    /// prefix on both sides.
    pub fn not_authorized(reason: &str) -> (r: ApiError)
        ensures
            r.code == 403,
            r.internal_message@ == "Not Authorized: "@ + reason@,
            r.external_message@ == "Not Authorized: "@ + reason@,
            r.value is None,
    {
        let mut msg = String::from_str("Not Authorized: ");
        msg.append(reason);
        let mut msg2 = String::from_str("Not Authorized: ");
        msg2.append(reason);
        ApiError { code: 403, internal_message: msg, external_message: msg2, value: None }
    }
}

/// Anything that collapses to the uniform error record.
pub trait IntoApiError {
    /// Turn the error into the uniform record.
    fn into_api_error(self) -> ApiError;
}

impl IntoApiError for ApiError {
    fn into_api_error(self) -> ApiError {
        self
    }
}

} // verus!
