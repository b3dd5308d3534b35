//! Structured rejections: a status code, a human message and a kind.
use vstd::prelude::*;
use crate::text::joined;

verus! {

/// The kind of a rejection.
#[derive(Debug, Clone, Copy, PartialEq, Eq, Structural)]
pub enum GatewayErrorType {
    NotFound,
    Unauthorized,
    RateLimited,
    BadGateway,
    InternalError,
    MethodNotAllowed,
}

/// A rejection as surfaced to the caller.
#[derive(Debug)]
pub struct GatewayError {
    pub code: u16,
    pub message: String,
    pub error_type: GatewayErrorType,
}

impl GatewayError {
    /// 404: no active route serves `path`.
    pub fn not_found(path: &str) -> (r: Self)
        ensures
            r.code == 404,
            r.message@ == "No route found for path: "@ + path@,
            r.error_type == GatewayErrorType::NotFound,
    {
        GatewayError {
            code: 404,
            message: joined("No route found for path: ", path),
            error_type: GatewayErrorType::NotFound,
        }
    }

    /// 401 with the given message.
    pub fn unauthorized(message: &str) -> (r: Self)
        ensures
            r.code == 401,
            r.message@ == message@,
            r.error_type == GatewayErrorType::Unauthorized,
    {
        GatewayError { code: 401, message: String::from_str(message), error_type: GatewayErrorType::Unauthorized }
    }

    /// 429: the client's bucket is empty.
    pub fn rate_limited() -> (r: Self)
        ensures
            r.code == 429,
            r.message@ == "Rate limit exceeded. Please try again later."@,
            r.error_type == GatewayErrorType::RateLimited,
    {
        GatewayError {
            code: 429,
            message: String::from_str("Rate limit exceeded. Please try again later."),
            error_type: GatewayErrorType::RateLimited,
        }
    }

    /// 502: the named upstream service could not be reached.
    pub fn bad_gateway(service: &str) -> (r: Self)
        ensures
            r.code == 502,
            r.message@ == "Service '"@ + service@ + "' is unavailable"@,
            r.error_type == GatewayErrorType::BadGateway,
    {
        let head = joined("Service '", service);
        GatewayError {
            code: 502,
            message: joined(head.as_str(), "' is unavailable"),
            error_type: GatewayErrorType::BadGateway,
        }
    }

    /// 500 with the given message.
    pub fn internal(message: &str) -> (r: Self)
        ensures
            r.code == 500,
            r.message@ == message@,
            r.error_type == GatewayErrorType::InternalError,
    {
        GatewayError { code: 500, message: String::from_str(message), error_type: GatewayErrorType::InternalError }
    }

    /// 405: the route serving `path` does not accept `method`.
    pub fn method_not_allowed(method: &str, path: &str) -> (r: Self)
        ensures
            r.code == 405,
            r.message@ == "Method '"@ + method@ + "' not allowed for path: "@ + path@,
            r.error_type == GatewayErrorType::MethodNotAllowed,
    {
        let head = joined("Method '", method);
        let mid = joined(head.as_str(), "' not allowed for path: ");
        GatewayError {
            code: 405,
            message: joined(mid.as_str(), path),
            error_type: GatewayErrorType::MethodNotAllowed,
        }
    }
}

} // verus!
