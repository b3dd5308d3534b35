use api_gateway::auth::AuthMiddleware;
use api_gateway::config::{GatewayConfig, RouteConfig};
use api_gateway::error::GatewayErrorType;
use api_gateway::gateway::Gateway;

fn scenario_gateway() -> Gateway {
    let mut config = GatewayConfig::default();
    config.routes = vec![
        RouteConfig::new("/users", "http://localhost:8001", "user-service"),
        RouteConfig::new("/orders", "http://localhost:8003", "order-service").with_auth(),
    ];
    config.rate_limit.burst_size = 1;
    let mut auth = AuthMiddleware::new();
    auth.register_api_key("tok".to_string(), "u-1".to_string(), vec!["user".to_string()]);
    Gateway::new(config, auth)
}

#[test]
fn open_route_forwards_with_concatenated_target() {
    let mut g = scenario_gateway();
    let a = g.admit_at("/users/123", "GET", None, "1.2.3.4", 0).ok().unwrap();
    assert_eq!(a.route.upstream_url, "http://localhost:8001/123");
    assert!(a.identity.is_none());
}

#[test]
fn protected_route_without_token_is_missing_token() {
    let mut g = scenario_gateway();
    let e = g.admit_at("/orders", "GET", None, "1.2.3.4", 0).err().unwrap();
    assert_eq!(e.code, 401);
    assert_eq!(e.error_type, GatewayErrorType::Unauthorized);
    assert_eq!(e.message, "Authentication token is required");
}

#[test]
fn protected_route_with_token_reaches_rate_limit() {
    let mut g = scenario_gateway();
    let a = g.admit_at("/orders", "GET", Some("Bearer tok"), "1.2.3.4", 0).ok().unwrap();
    assert_eq!(a.identity.unwrap().user_id, "u-1");
    assert_eq!(a.route.upstream_url, "http://localhost:8003");
    let e = g.admit_at("/orders", "GET", Some("tok"), "9.9.9.9", 0).err().unwrap();
    assert_eq!(e.code, 429);
    assert!(g.admit_at("/users", "GET", None, "9.9.9.9", 0).is_ok());
}

#[test]
fn missing_route_and_method_stop_before_rate_limit() {
    let mut g = scenario_gateway();
    let nf = g.admit_at("/nowhere", "GET", None, "c", 0).err().unwrap();
    assert_eq!(nf.code, 404);
    let mna = g.admit_at("/users", "PATCH", None, "c", 0).err().unwrap();
    assert_eq!(mna.code, 405);
    assert_eq!(g.global_limiter().client_count(), 0);
    let bad = g.admit_at("/orders", "GET", Some("wrong"), "c", 0).err().unwrap();
    assert_eq!(bad.message, "Invalid authentication token");
    assert_eq!(g.global_limiter().client_count(), 0);
}

#[test]
fn route_override_uses_its_own_buckets() {
    let mut config = GatewayConfig::default();
    let mut search = RouteConfig::new("/search", "http://localhost:8010", "search-service");
    search.rate_limit_override = Some(120);
    config.routes = vec![RouteConfig::new("/users", "http://localhost:8001", "user-service"), search];
    config.rate_limit.burst_size = 1;
    let mut g = Gateway::new(config, AuthMiddleware::new());
    assert!(g.admit_at("/users", "GET", None, "c", 0).is_ok());
    let s = g.admit_at("/search", "GET", None, "c", 0).ok().unwrap();
    assert_eq!(s.rate.limit, 120);
    assert_eq!(g.admit_at("/users", "GET", None, "c", 0).err().unwrap().code, 429);
    assert_eq!(g.admit_at("/search", "GET", None, "c", 0).err().unwrap().code, 429);
    assert!(g.admit_at("/search", "GET", None, "c", 500_000).is_ok());
    assert_eq!(g.global_limiter().client_count(), 1);
}
