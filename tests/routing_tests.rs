use api_gateway::config::{GatewayConfig, RouteConfig};
use api_gateway::routing::RoutingService;

fn create_routing_service() -> RoutingService {
    RoutingService::new(GatewayConfig::default())
}

#[test]
fn test_resolve_users_route() {
    let service = create_routing_service();
    let result = service.resolve_route("/users/123");
    assert!(result.is_some());
    let resolved = result.unwrap();
    assert_eq!(resolved.service_name, "user-service");
    assert!(resolved.upstream_url.contains("8001"));
}

#[test]
fn test_resolve_products_route() {
    let service = create_routing_service();
    let result = service.resolve_route("/products");
    assert!(result.is_some());
    assert_eq!(result.unwrap().service_name, "product-service");
}

#[test]
fn test_resolve_unknown_route() {
    let service = create_routing_service();
    let result = service.resolve_route("/unknown");
    assert!(result.is_none());
}

#[test]
fn test_list_all_routes() {
    let service = create_routing_service();
    assert_eq!(service.list_routes().len(), 9);
}

#[test]
fn test_get_active_routes() {
    let service = create_routing_service();
    let active = service.get_active_routes();
    assert_eq!(active.len(), 9);
}

#[test]
fn test_get_service_url() {
    let service = create_routing_service();
    let url = service.get_service_url("user-service");
    assert!(url.is_some());
    assert!(url.unwrap().contains("8001"));
}

#[test]
fn test_get_nonexistent_service_url() {
    let service = create_routing_service();
    let url = service.get_service_url("nonexistent");
    assert!(url.is_none());
}

#[test]
fn test_method_allowed() {
    let service = create_routing_service();
    assert!(service.is_method_allowed("/users", "GET"));
    assert!(service.is_method_allowed("/users", "POST"));
}

#[test]
fn test_method_not_allowed_unknown_path() {
    let service = create_routing_service();
    assert!(!service.is_method_allowed("/unknown", "GET"));
}

fn config_with(routes: Vec<RouteConfig>) -> GatewayConfig {
    let mut config = GatewayConfig::default();
    config.routes = routes;
    config
}

#[test]
fn first_declared_of_overlapping_prefixes_wins() {
    let service = RoutingService::new(config_with(vec![
        RouteConfig::new("/users", "http://a", "users"),
        RouteConfig::new("/users/admin", "http://b", "admins"),
    ]));
    let r = service.resolve_route("/users/admin/1").unwrap();
    assert_eq!(r.service_name, "users");
    assert_eq!(r.upstream_path, "/admin/1");
    let reversed = RoutingService::new(config_with(vec![
        RouteConfig::new("/users/admin", "http://b", "admins"),
        RouteConfig::new("/users", "http://a", "users"),
    ]));
    assert_eq!(reversed.resolve_route("/users/admin/1").unwrap().service_name, "admins");
    assert_eq!(reversed.resolve_route("/users/7").unwrap().service_name, "users");
}

#[test]
fn inactive_route_never_resolves() {
    let mut off = RouteConfig::new("/orders", "http://localhost:8003", "order-service");
    off.is_active = false;
    let service = RoutingService::new(config_with(vec![off]));
    assert!(service.resolve_route("/orders").is_none());
    assert!(!service.is_method_allowed("/orders", "GET"));
    assert_eq!(service.get_active_routes().len(), 0);
    assert_eq!(service.get_service_url("order-service").unwrap(), "http://localhost:8003");
}

#[test]
fn upstream_target_is_plain_concatenation() {
    let service = RoutingService::new(config_with(vec![RouteConfig::new("/api", "http://up/", "svc")]));
    let r = service.resolve_route("/api/v1").unwrap();
    assert_eq!(r.upstream_url, "http://up//v1");
    assert_eq!(r.upstream_path, "/v1");
    let exact = service.resolve_route("/api").unwrap();
    assert_eq!(exact.upstream_url, "http://up/");
    assert_eq!(exact.upstream_path, "");
    assert!(!exact.requires_auth);
}

#[test]
fn method_must_match_exactly() {
    let service = create_routing_service();
    assert!(!service.is_method_allowed("/users", "get"));
    assert!(!service.is_method_allowed("/users", "PATCH"));
    assert!(service.is_method_allowed("/reviews/3", "DELETE"));
}
