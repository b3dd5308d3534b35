use api_gateway::auth::{AuthError, AuthMiddleware};

fn setup_auth() -> AuthMiddleware {
    let mut auth = AuthMiddleware::new();
    auth.register_api_key("valid-token-123".to_string(), "user-1".to_string(), vec!["user".to_string()]);
    auth.register_api_key(
        "admin-token-456".to_string(),
        "admin-1".to_string(),
        vec!["admin".to_string(), "user".to_string()],
    );
    auth
}

#[test]
fn test_authenticate_valid_token() {
    let auth = setup_auth();
    let result = auth.authenticate("valid-token-123");
    assert!(result.is_ok());
    assert_eq!(result.unwrap().user_id, "user-1");
}

#[test]
fn test_authenticate_bearer_prefix() {
    let auth = setup_auth();
    let result = auth.authenticate("Bearer valid-token-123");
    assert!(result.is_ok());
}

#[test]
fn test_authenticate_invalid_token() {
    let auth = setup_auth();
    let result = auth.authenticate("invalid-token");
    assert!(result.is_err());
}

#[test]
fn test_authenticate_empty_token() {
    let auth = setup_auth();
    let result = auth.authenticate("");
    assert!(result.is_err());
}

#[test]
fn test_authorize_correct_role() {
    let auth = setup_auth();
    let info = auth.authenticate("valid-token-123").unwrap();
    assert!(auth.authorize(&info, "user").is_ok());
}

#[test]
fn test_authorize_admin_has_all_access() {
    let auth = setup_auth();
    let info = auth.authenticate("admin-token-456").unwrap();
    assert!(auth.authorize(&info, "user").is_ok());
    assert!(auth.authorize(&info, "admin").is_ok());
    assert!(auth.authorize(&info, "anything").is_ok());
}

#[test]
fn test_authorize_insufficient_permissions() {
    let auth = setup_auth();
    let info = auth.authenticate("valid-token-123").unwrap();
    assert!(auth.authorize(&info, "admin").is_err());
}

#[test]
fn test_public_paths() {
    let auth = setup_auth();
    assert!(auth.is_public_path("/health"));
    assert!(auth.is_public_path("/auth/login"));
    assert!(!auth.is_public_path("/orders"));
}

#[test]
fn test_validate_public_request() {
    let auth = setup_auth();
    let result = auth.validate_request("/health", None);
    assert!(result.is_ok());
    assert!(result.unwrap().is_none());
}

#[test]
fn test_validate_protected_request_no_token() {
    let auth = setup_auth();
    let result = auth.validate_request("/orders", None);
    assert!(result.is_err());
}

#[test]
fn test_validate_protected_request_with_token() {
    let auth = setup_auth();
    let result = auth.validate_request("/orders", Some("valid-token-123"));
    assert!(result.is_ok());
    assert!(result.unwrap().is_some());
}

#[test]
fn authentication_failure_kinds() {
    let auth = setup_auth();
    assert_eq!(auth.authenticate("").err(), Some(AuthError::MissingToken));
    assert_eq!(auth.authenticate("nope").err(), Some(AuthError::InvalidToken));
    assert_eq!(auth.authenticate("bearer valid-token-123").err(), Some(AuthError::InvalidToken));
    assert_eq!(auth.authenticate("Bearer ").err(), Some(AuthError::InvalidToken));
    let info = auth.authenticate("valid-token-123").unwrap();
    assert_eq!(auth.authorize(&info, "admin").err(), Some(AuthError::InsufficientPermissions));
    assert_eq!(auth.validate_request("/orders", None).err(), Some(AuthError::MissingToken));
    assert_eq!(auth.validate_request("/orders", Some("bad")).err(), Some(AuthError::InvalidToken));
}

#[test]
fn bearer_and_bare_token_authenticate_alike() {
    let auth = setup_auth();
    let a = auth.authenticate("admin-token-456").unwrap();
    let b = auth.authenticate("Bearer admin-token-456").unwrap();
    assert_eq!(a.user_id, b.user_id);
    assert_eq!(a.roles, b.roles);
    assert_eq!(a.roles, vec!["admin", "user"]);
    let again = auth.authenticate("admin-token-456").unwrap();
    assert_eq!(again.user_id, "admin-1");
}

#[test]
fn public_path_ignores_bad_token() {
    let auth = setup_auth();
    assert!(auth.validate_request("/health/live", Some("garbage")).unwrap().is_none());
    assert!(auth.validate_request("/auth/register", Some("")).unwrap().is_none());
}

#[test]
fn reregistering_a_key_replaces_identity_and_added_paths_are_public() {
    let mut auth = setup_auth();
    auth.register_api_key("valid-token-123".to_string(), "user-2".to_string(), vec![]);
    assert_eq!(auth.authenticate("valid-token-123").unwrap().user_id, "user-2");
    assert!(!auth.is_public_path("/docs/intro"));
    auth.add_public_path("/docs".to_string());
    assert!(auth.is_public_path("/docs/intro"));
}

#[test]
fn auth_error_messages() {
    assert_eq!(AuthError::MissingToken.message(), "Authentication token is required");
    assert_eq!(AuthError::InvalidToken.message(), "Invalid authentication token");
    assert_eq!(AuthError::InsufficientPermissions.message(), "Insufficient permissions");
    assert_eq!(AuthError::ExpiredToken.message(), "Authentication token has expired");
}
