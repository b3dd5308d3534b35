//! The admission pipeline: route, then method, then identity, then rate.
//!
//! Rate limits are kept in slots: slot 0 is the gateway-wide limiter and
//! slot `i + 1` belongs to route `i`, used only when that route declares its
//! own requests-per-minute.
use vstd::prelude::*;
use crate::auth::{auth_error_text, token_view, AuthError, AuthInfo, AuthInfoView, AuthMiddleware};
use crate::config::{GatewayConfig, RouteConfig};
use crate::error::{GatewayError, GatewayErrorType};
use crate::rate_limiter::{after_request, request_outcome, BucketView, RateLimitResult, RateLimiter};
use crate::routing::{first_match, resolved_by, ResolvedRoute, RoutingService};
use crate::text::texts;

verus! {

/// A request let through to forwarding.
pub struct Admission {
    pub route: ResolvedRoute,
    pub identity: Option<AuthInfo>,
    pub rate: RateLimitResult,
}

/// The limiter slot that requests on route `i` draw from.
pub open spec fn slot_for(route: RouteConfig, i: int) -> int {
    if route.rate_limit_override is Some { i + 1 } else { 0 }
}

/// The rate-limit key: the authenticated user, else the client address.
pub open spec fn rate_key(id: Result<Option<AuthInfoView>, AuthError>, client: Seq<char>) -> Seq<char> {
    match id {
        Ok(Some(i)) => i.user_id,
        _ => client,
    }
}

/// The gateway's three components, composed.
pub struct Gateway {
    routing: RoutingService,
    auth: AuthMiddleware,
    limiters: Vec<RateLimiter>,
}

impl Gateway {
    /// The route table.
    pub closed spec fn routes(&self) -> Seq<RouteConfig> {
        self.routing.routes()
    }

    /// The identity validator.
    pub closed spec fn validator(&self) -> AuthMiddleware {
        self.auth
    }

    /// The buckets of each limiter slot.
    pub closed spec fn tables(&self) -> Seq<Seq<BucketView>> {
        self.limiters@.map_values(|l: RateLimiter| l.buckets_view())
    }

    /// Requests per minute of a slot.
    pub closed spec fn rate_of(&self, slot: int) -> u32 {
        self.limiters@[slot].spec_rpm()
    }

    /// Burst size of a slot.
    pub closed spec fn burst_of(&self, slot: int) -> u32 {
        self.limiters@[slot].spec_burst()
    }

    /// One slot per route after the global one; every slot shares the
    /// global burst; a route's slot runs at its declared rate.
    pub closed spec fn wf(&self) -> bool {
        &&& self.limiters@.len() == self.routes().len() + 1
        &&& forall|j: int| 0 <= j < self.limiters@.len() ==> (#[trigger] self.limiters@[j]).wf()
        &&& forall|j: int| 0 <= j < self.limiters@.len() ==> #[trigger] self.burst_of(j) == self.burst_of(0)
        &&& forall|i: int| 0 <= i < self.routes().len() ==> #[trigger] self.rate_of(i + 1) == match self.routes()[i].rate_limit_override {
            Some(r) => r,
            None => self.rate_of(0),
        }
    }

    /// What identity checking decides for a request on route `i`: `Ok(None)`
    /// when the route needs none or the path is public.
    pub open spec fn identity_outcome(&self, i: int, path: Seq<char>, token: Option<Seq<char>>) -> Result<Option<AuthInfoView>, AuthError> {
        if self.routes()[i].requires_auth {
            self.validator().spec_validate(path, token)
        } else {
            Ok(None)
        }
    }

    /// A gateway over `config`'s routes and rate limits, with no client seen.
    pub fn new(config: GatewayConfig, auth: AuthMiddleware) -> (r: Self)
        ensures
            r.wf(),
            r.routes() == config.routes@,
            r.validator() == auth,
            r.rate_of(0) == config.rate_limit.requests_per_minute,
            r.burst_of(0) == config.rate_limit.burst_size,
            forall|j: int| 0 <= j < r.tables().len() ==> (#[trigger] r.tables()[j]).len() == 0,
    {
        let rpm = config.rate_limit.requests_per_minute;
        let burst = config.rate_limit.burst_size;
        let mut limiters: Vec<RateLimiter> = Vec::new();
        limiters.push(RateLimiter::new(rpm, burst));
        let mut i: usize = 0;
        while i < config.routes.len()
            invariant
                i <= config.routes@.len(),
                limiters@.len() == i + 1,
                forall|j: int| 0 <= j < limiters@.len() ==> (#[trigger] limiters@[j]).wf(),
                forall|j: int| 0 <= j < limiters@.len() ==> (#[trigger] limiters@[j]).spec_burst() == burst,
                forall|j: int| 0 <= j < limiters@.len() ==> (#[trigger] limiters@[j]).buckets_view().len() == 0,
                limiters@[0].spec_rpm() == rpm,
                forall|k: int| 0 <= k < i ==> #[trigger] limiters@[k + 1].spec_rpm() == match config.routes@[k].rate_limit_override {
                    Some(r) => r,
                    None => rpm,
                },
            decreases config.routes.len() - i,
        {
            let route_rpm = match config.routes[i].rate_limit_override {
                Some(r) => r,
                None => rpm,
            };
            limiters.push(RateLimiter::new(route_rpm, burst));
            i += 1;
        }
        let r = Gateway { routing: RoutingService::new(config), auth, limiters };
        assert forall|k: int| 0 <= k < r.routes().len() implies #[trigger] r.rate_of(k + 1) == match r.routes()[k].rate_limit_override {
            Some(x) => x,
            None => r.rate_of(0),
        } by {
            assert(limiters@[k + 1].spec_rpm() == match config.routes@[k].rate_limit_override {
                Some(x) => x,
                None => rpm,
            });
        }
        r
    }

    /// The gateway-wide limiter.
    pub fn global_limiter(&self) -> (r: &RateLimiter)
        requires
            self.wf(),
        ensures
            r.buckets_view() == self.tables()[0],
            r.spec_rpm() == self.rate_of(0),
            r.spec_burst() == self.burst_of(0),
    {
        &self.limiters[0]
    }

    /// Decide one request at time `now` (microseconds). A missing route
    /// (404), a refused method (405) or a failed identity check (401) stops
    /// the request before any rate budget is spent; otherwise the bucket of
    /// the route's limiter slot decides (429 when empty).
    pub fn admit_at(
        &mut self,
        path: &str,
        method: &str,
        token: Option<&str>,
        client_key: &str,
        now: u64,
    ) -> (r: Result<Admission, GatewayError>)
        requires
            old(self).wf(),
        ensures
            final(self).wf(),
            final(self).routes() == old(self).routes(),
            final(self).validator() == old(self).validator(),
            forall|j: int| 0 <= j < old(self).tables().len() ==> #[trigger] final(self).rate_of(j) == old(self).rate_of(j),
            forall|j: int| 0 <= j < old(self).tables().len() ==> #[trigger] final(self).burst_of(j) == old(self).burst_of(j),
            ({
                let routes = old(self).routes();
                let i = first_match(routes, path@);
                if i < 0 {
                    &&& r is Err
                    &&& r->Err_0.code == 404
                    &&& r->Err_0.error_type == GatewayErrorType::NotFound
                    &&& final(self).tables() == old(self).tables()
                } else if !texts(routes[i].methods@).contains(method@) {
                    &&& r is Err
                    &&& r->Err_0.code == 405
                    &&& r->Err_0.error_type == GatewayErrorType::MethodNotAllowed
                    &&& final(self).tables() == old(self).tables()
                } else if old(self).identity_outcome(i, path@, token_view(token)) is Err {
                    &&& r is Err
                    &&& r->Err_0.code == 401
                    &&& r->Err_0.error_type == GatewayErrorType::Unauthorized
                    &&& r->Err_0.message@ == auth_error_text(old(self).identity_outcome(i, path@, token_view(token))->Err_0)
                    &&& final(self).tables() == old(self).tables()
                } else {
                    let id = old(self).identity_outcome(i, path@, token_view(token));
                    let key = rate_key(id, client_key@);
                    let slot = slot_for(routes[i], i);
                    let (rpm, burst) = (old(self).rate_of(slot), old(self).burst_of(slot));
                    let before = old(self).tables()[slot];
                    let outcome = request_outcome(before, key, now as int, rpm, burst);
                    &&& final(self).tables() == old(self).tables().update(slot, after_request(before, key, now as int, rpm, burst))
                    &&& (r is Ok <==> outcome.allowed)
                    &&& r is Ok ==> {
                        &&& resolved_by(r->Ok_0.route, routes[i], path@)
                        &&& r->Ok_0.rate == outcome
                        &&& match r->Ok_0.identity {
                            Some(a) => id == Ok::<Option<AuthInfoView>, AuthError>(Some(a@)),
                            None => id == Ok::<Option<AuthInfoView>, AuthError>(None),
                        }
                    }
                    &&& r is Err ==> r->Err_0.code == 429 && r->Err_0.error_type == GatewayErrorType::RateLimited
                }
            }),
    {
        proof {
            crate::routing::lemma_first_match(self.routing.routes(), path@);
        }
        let i = match self.routing.route_index(path) {
            None => return Err(GatewayError::not_found(path)),
            Some(i) => i,
        };
        let route = match self.routing.resolve_route(path) {
            None => return Err(GatewayError::not_found(path)),
            Some(route) => route,
        };
        if !self.routing.is_method_allowed(path, method) {
            return Err(GatewayError::method_not_allowed(method, path));
        }
        let identity = if route.requires_auth {
            match self.auth.validate_request(path, token) {
                Ok(id) => id,
                Err(e) => {
                    let text = e.message();
                    return Err(GatewayError::unauthorized(text.as_str()));
                }
            }
        } else {
            None
        };
        let slot: usize = if self.routing.list_routes()[i].rate_limit_override.is_some() { i + 1 } else { 0 };
        let ghost old_limiters = self.limiters@;
        let mut limiter = self.limiters.remove(slot);
        let rate = match &identity {
            Some(info) => limiter.allow_request_at(info.user_id.as_str(), now),
            None => limiter.allow_request_at(client_key, now),
        };
        self.limiters.insert(slot, limiter);
        proof {
            assert(self.limiters@ =~= old_limiters.update(slot as int, limiter));
            assert(self.tables() =~= old(self).tables().update(
                slot as int,
                limiter.buckets_view(),
            ));
            assert forall|j: int| 0 <= j < old(self).tables().len() implies #[trigger] self.rate_of(j) == old(self).rate_of(j) by {
                assert(self.limiters@[j].spec_rpm() == old_limiters[j].spec_rpm());
            }
            assert forall|j: int| 0 <= j < old(self).tables().len() implies #[trigger] self.burst_of(j) == old(self).burst_of(j) by {
                assert(self.limiters@[j].spec_burst() == old_limiters[j].spec_burst());
            }
            assert forall|k: int| 0 <= k < self.routes().len() implies #[trigger] self.rate_of(k + 1) == match self.routes()[k].rate_limit_override {
                Some(x) => x,
                None => self.rate_of(0),
            } by {
                assert(old(self).rate_of(k + 1) == match old(self).routes()[k].rate_limit_override {
                    Some(x) => x,
                    None => old(self).rate_of(0),
                });
            }
        }
        if rate.allowed {
            Ok(Admission { route, identity, rate })
        } else {
            Err(GatewayError::rate_limited())
        }
    }
}

} // verus!
