use api_gateway::config::{CorsConfig, GatewayConfig, RateLimitConfig, RouteConfig};

#[test]
fn test_default_config_has_all_routes() {
    let config = GatewayConfig::default();
    assert_eq!(config.routes.len(), 9);
    assert_eq!(config.port, 8000);
}

#[test]
fn test_route_config_matches() {
    let route = RouteConfig::new("/users", "http://localhost:8001", "user-service");
    assert!(route.matches("/users"));
    assert!(route.matches("/users/123"));
    assert!(!route.matches("/products"));
}

#[test]
fn test_route_config_with_auth() {
    let route = RouteConfig::new("/orders", "http://localhost:8003", "order-service").with_auth();
    assert!(route.requires_auth);
}

#[test]
fn test_inactive_route_does_not_match() {
    let mut route = RouteConfig::new("/users", "http://localhost:8001", "user-service");
    route.is_active = false;
    assert!(!route.matches("/users"));
}

#[test]
fn test_default_rate_limit() {
    let config = RateLimitConfig::default();
    assert_eq!(config.requests_per_minute, 60);
    assert!(config.enabled);
}

#[test]
fn test_default_cors() {
    let cors = CorsConfig::default();
    assert!(cors.allowed_origins.contains(&"*".to_string()));
    assert_eq!(cors.max_age, 3600);
}

#[test]
fn route_new_sets_plain_defaults() {
    let route = RouteConfig::new("/a", "http://up", "svc");
    assert_eq!(route.path_prefix, "/a");
    assert_eq!(route.upstream_url, "http://up");
    assert_eq!(route.service_name, "svc");
    assert!(!route.requires_auth);
    assert!(route.rate_limit_override.is_none());
    assert_eq!(route.methods, vec!["GET", "POST", "PUT", "DELETE"]);
    assert!(route.is_active);
}

#[test]
fn route_match_is_literal_prefix_without_segment_boundary() {
    let route = RouteConfig::new("/users", "http://localhost:8001", "user-service");
    assert!(route.matches("/usersettings"));
    assert!(!route.matches("/user"));
    assert!(!route.matches(""));
}

#[test]
fn default_config_route_order_and_limits() {
    let config = GatewayConfig::default();
    assert_eq!(config.routes[0].path_prefix, "/users");
    assert_eq!(config.routes[8].service_name, "review-service");
    assert_eq!(config.routes[8].upstream_url, "http://localhost:8009");
    assert_eq!(config.rate_limit.burst_size, 10);
    assert_eq!(config.cors.allowed_headers, vec!["Content-Type", "Authorization"]);
}
