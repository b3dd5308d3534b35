use api_gateway::error::{GatewayError, GatewayErrorType};

#[test]
fn test_not_found_error() {
    let err = GatewayError::not_found("/test");
    assert_eq!(err.code, 404);
    assert!(err.message.contains("/test"));
}

#[test]
fn test_unauthorized_error() {
    let err = GatewayError::unauthorized("No token");
    assert_eq!(err.code, 401);
}

#[test]
fn test_rate_limited_error() {
    let err = GatewayError::rate_limited();
    assert_eq!(err.code, 429);
}

#[test]
fn test_bad_gateway_error() {
    let err = GatewayError::bad_gateway("user-service");
    assert_eq!(err.code, 502);
    assert!(err.message.contains("user-service"));
}

#[test]
fn test_method_not_allowed_error() {
    let err = GatewayError::method_not_allowed("DELETE", "/health");
    assert_eq!(err.code, 405);
}

#[test]
fn error_messages_are_exact() {
    assert_eq!(GatewayError::not_found("/x").message, "No route found for path: /x");
    assert_eq!(GatewayError::bad_gateway("svc").message, "Service 'svc' is unavailable");
    assert_eq!(
        GatewayError::method_not_allowed("DELETE", "/health").message,
        "Method 'DELETE' not allowed for path: /health"
    );
    assert_eq!(GatewayError::rate_limited().message, "Rate limit exceeded. Please try again later.");
    let internal = GatewayError::internal("boom");
    assert_eq!(internal.code, 500);
    assert_eq!(internal.message, "boom");
    assert_eq!(internal.error_type, GatewayErrorType::InternalError);
    assert_eq!(GatewayError::unauthorized("No token").error_type, GatewayErrorType::Unauthorized);
}
