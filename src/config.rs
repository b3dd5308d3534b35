//! Gateway configuration: the ordered route table, the global rate-limit
//! parameters and the CORS settings, as already-parsed values.
use vstd::prelude::*;
use crate::text::{is_prefix_of, starts_with, texts};

verus! {

/// The methods a route accepts unless configured otherwise.
pub open spec fn default_methods() -> Seq<Seq<char>> {
    seq!["GET"@, "POST"@, "PUT"@, "DELETE"@]
}

/// One configured mapping from a path prefix to an upstream service.
#[derive(Debug, Clone)]
pub struct RouteConfig {
    pub path_prefix: String,
    pub upstream_url: String,
    pub service_name: String,
    pub requires_auth: bool,
    pub rate_limit_override: Option<u32>,
    pub methods: Vec<String>,
    pub is_active: bool,
}

impl RouteConfig {
    /// The route is active and `path` begins with its prefix.
    pub open spec fn spec_matches(&self, path: Seq<char>) -> bool {
        self.is_active && is_prefix_of(self.path_prefix@, path)
    }

    /// A route freshly built by `new` from these three strings.
    pub open spec fn is_plain(&self, prefix: Seq<char>, url: Seq<char>, name: Seq<char>) -> bool {
        &&& self.path_prefix@ == prefix
        &&& self.upstream_url@ == url
        &&& self.service_name@ == name
        &&& !self.requires_auth
        &&& self.rate_limit_override is None
        &&& texts(self.methods@) == default_methods()
        &&& self.is_active
    }

    /// An active route without authentication, override or method restriction
    /// beyond the four usual methods.
    pub fn new(path_prefix: &str, upstream_url: &str, service_name: &str) -> (r: Self)
        ensures
            r.is_plain(path_prefix@, upstream_url@, service_name@),
    {
        let mut methods: Vec<String> = Vec::new();
        methods.push(String::from_str("GET"));
        methods.push(String::from_str("POST"));
        methods.push(String::from_str("PUT"));
        methods.push(String::from_str("DELETE"));
        let r = RouteConfig {
            path_prefix: String::from_str(path_prefix),
            upstream_url: String::from_str(upstream_url),
            service_name: String::from_str(service_name),
            requires_auth: false,
            rate_limit_override: None,
            methods,
            is_active: true,
        };
        assert(texts(r.methods@) =~= default_methods());
        r
    }

    /// The same route, now requiring authentication.
    pub fn with_auth(self) -> (r: Self)
        ensures
            r == (RouteConfig { requires_auth: true, ..self }),
    {
        let mut s = self;
        s.requires_auth = true;
        s
    }

    /// Whether this route serves `path`.
    pub fn matches(&self, path: &str) -> (r: bool)
        ensures
            r == self.spec_matches(path@),
    {
        self.is_active && starts_with(path, self.path_prefix.as_str())
    }
}

/// Global token-bucket parameters.
#[derive(Debug, Clone)]
pub struct RateLimitConfig {
    pub requests_per_minute: u32,
    pub burst_size: u32,
    pub enabled: bool,
}

impl Default for RateLimitConfig {
    fn default() -> (r: Self)
        ensures
            r.requests_per_minute == 60,
            r.burst_size == 10,
            r.enabled,
    {
        RateLimitConfig { requests_per_minute: 60, burst_size: 10, enabled: true }
    }
}

/// Cross-origin settings handed to the transport layer.
#[derive(Debug, Clone)]
pub struct CorsConfig {
    pub allowed_origins: Vec<String>,
    pub allowed_methods: Vec<String>,
    pub allowed_headers: Vec<String>,
    pub max_age: u32,
}

impl Default for CorsConfig {
    fn default() -> (r: Self)
        ensures
            texts(r.allowed_origins@) == seq!["*"@],
            texts(r.allowed_methods@) == seq!["GET"@, "POST"@, "PUT"@, "DELETE"@, "OPTIONS"@],
            texts(r.allowed_headers@) == seq!["Content-Type"@, "Authorization"@],
            r.max_age == 3600,
    {
        let mut allowed_origins: Vec<String> = Vec::new();
        allowed_origins.push(String::from_str("*"));
        let mut allowed_methods: Vec<String> = Vec::new();
        allowed_methods.push(String::from_str("GET"));
        allowed_methods.push(String::from_str("POST"));
        allowed_methods.push(String::from_str("PUT"));
        allowed_methods.push(String::from_str("DELETE"));
        allowed_methods.push(String::from_str("OPTIONS"));
        let mut allowed_headers: Vec<String> = Vec::new();
        allowed_headers.push(String::from_str("Content-Type"));
        allowed_headers.push(String::from_str("Authorization"));
        let r = CorsConfig { allowed_origins, allowed_methods, allowed_headers, max_age: 3600 };
        assert(texts(r.allowed_origins@) =~= seq!["*"@]);
        assert(texts(r.allowed_methods@) =~= seq!["GET"@, "POST"@, "PUT"@, "DELETE"@, "OPTIONS"@]);
        assert(texts(r.allowed_headers@) =~= seq!["Content-Type"@, "Authorization"@]);
        r
    }
}

/// The whole configuration surface the core consumes.
#[derive(Debug, Clone)]
pub struct GatewayConfig {
    pub port: u16,
    pub routes: Vec<RouteConfig>,
    pub rate_limit: RateLimitConfig,
    pub cors: CorsConfig,
}

impl Default for GatewayConfig {
    /// Port 8000 and nine plain routes, `/users` to `/reviews`, on local
    /// ports 8001 to 8009.
    fn default() -> (r: Self)
        ensures
            r.port == 8000,
            r.routes@.len() == 9,
            r.routes@[0].is_plain("/users"@, "http://localhost:8001"@, "user-service"@),
            r.routes@[1].is_plain("/products"@, "http://localhost:8002"@, "product-service"@),
            r.routes@[2].is_plain("/orders"@, "http://localhost:8003"@, "order-service"@),
            r.routes@[3].is_plain("/payments"@, "http://localhost:8004"@, "payment-service"@),
            r.routes@[4].is_plain("/inventory"@, "http://localhost:8005"@, "inventory-service"@),
            r.routes@[5].is_plain(
                "/notifications"@,
                "http://localhost:8006"@,
                "notification-service"@,
            ),
            r.routes@[6].is_plain("/shipping"@, "http://localhost:8007"@, "shipping-service"@),
            r.routes@[7].is_plain("/analytics"@, "http://localhost:8008"@, "analytics-service"@),
            r.routes@[8].is_plain("/reviews"@, "http://localhost:8009"@, "review-service"@),
            r.rate_limit.requests_per_minute == 60,
            r.rate_limit.burst_size == 10,
            r.rate_limit.enabled,
            r.cors.max_age == 3600,
    {
        let mut routes: Vec<RouteConfig> = Vec::new();
        routes.push(RouteConfig::new("/users", "http://localhost:8001", "user-service"));
        routes.push(RouteConfig::new("/products", "http://localhost:8002", "product-service"));
        routes.push(RouteConfig::new("/orders", "http://localhost:8003", "order-service"));
        routes.push(RouteConfig::new("/payments", "http://localhost:8004", "payment-service"));
        routes.push(RouteConfig::new("/inventory", "http://localhost:8005", "inventory-service"));
        routes.push(
            RouteConfig::new("/notifications", "http://localhost:8006", "notification-service"),
        );
        routes.push(RouteConfig::new("/shipping", "http://localhost:8007", "shipping-service"));
        routes.push(RouteConfig::new("/analytics", "http://localhost:8008", "analytics-service"));
        routes.push(RouteConfig::new("/reviews", "http://localhost:8009", "review-service"));
        GatewayConfig {
            port: 8000,
            routes,
            rate_limit: RateLimitConfig::default(),
            cors: CorsConfig::default(),
        }
    }
}

} // verus!
