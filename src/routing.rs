//! Route resolution: first active route, in declaration order, whose
//! prefix begins the request path.
use vstd::prelude::*;
use crate::config::{GatewayConfig, RouteConfig};
use crate::text::{contains_text, is_prefix_of, joined, same_text, suffix_from, texts};

verus! {

/// Where a request goes: the upstream target and what the route demands.
#[derive(Debug)]
pub struct ResolvedRoute {
    pub upstream_url: String,
    pub service_name: String,
    pub requires_auth: bool,
    pub upstream_path: String,
}

/// Index of the first route in `routes` that serves `path`, or -1.
pub open spec fn first_match(routes: Seq<RouteConfig>, path: Seq<char>) -> int
    decreases routes.len(),
{
    if routes.len() == 0 {
        -1
    } else {
        let rest = first_match(routes.drop_first(), path);
        if routes[0].spec_matches(path) {
            0
        } else if rest < 0 {
            -1
        } else {
            rest + 1
        }
    }
}

/// Index of the first route whose service is named `name`, or -1.
pub open spec fn first_named(routes: Seq<RouteConfig>, name: Seq<char>) -> int
    decreases routes.len(),
{
    if routes.len() == 0 {
        -1
    } else {
        let rest = first_named(routes.drop_first(), name);
        if routes[0].service_name@ == name {
            0
        } else if rest < 0 {
            -1
        } else {
            rest + 1
        }
    }
}

/// `first_match` is the least index whose route serves `path`.
pub proof fn lemma_first_match(routes: Seq<RouteConfig>, path: Seq<char>)
    ensures
        -1 <= first_match(routes, path) < routes.len(),
        first_match(routes, path) >= 0 ==> routes[first_match(routes, path)].spec_matches(path),
        forall|j: int| 0 <= j < routes.len() && (first_match(routes, path) < 0 || j < first_match(routes, path))
            ==> !(#[trigger] routes[j]).spec_matches(path),
    decreases routes.len(),
{
    if routes.len() > 0 {
        lemma_first_match(routes.drop_first(), path);
        assert forall|j: int| 0 <= j < routes.len() && (first_match(routes, path) < 0 || j < first_match(routes, path))
            implies !(#[trigger] routes[j]).spec_matches(path) by {
            if j > 0 {
                assert(routes[j] == routes.drop_first()[j - 1]);
            }
        }
    }
}

/// `first_named` is the least index whose route carries service `name`.
pub proof fn lemma_first_named(routes: Seq<RouteConfig>, name: Seq<char>)
    ensures
        -1 <= first_named(routes, name) < routes.len(),
        first_named(routes, name) >= 0 ==> routes[first_named(routes, name)].service_name@ == name,
        forall|j: int| 0 <= j < routes.len() && (first_named(routes, name) < 0 || j < first_named(routes, name))
            ==> (#[trigger] routes[j]).service_name@ != name,
    decreases routes.len(),
{
    if routes.len() > 0 {
        lemma_first_named(routes.drop_first(), name);
        assert forall|j: int| 0 <= j < routes.len() && (first_named(routes, name) < 0 || j < first_named(routes, name))
            implies (#[trigger] routes[j]).service_name@ != name by {
            if j > 0 {
                assert(routes[j] == routes.drop_first()[j - 1]);
            }
        }
    }
}

/// What resolving `path` against route `r` yields.
pub open spec fn resolved_by(res: ResolvedRoute, r: RouteConfig, path: Seq<char>) -> bool {
    let suffix = path.subrange(r.path_prefix@.len() as int, path.len() as int);
    &&& res.upstream_path@ == suffix
    &&& res.upstream_url@ == r.upstream_url@ + suffix
    &&& res.service_name@ == r.service_name@
    &&& res.requires_auth == r.requires_auth
}

/// The route resolver over a fixed configuration.
pub struct RoutingService {
    config: GatewayConfig,
}

impl RoutingService {
    /// The configured routes, in declaration order.
    pub closed spec fn routes(&self) -> Seq<RouteConfig> {
        self.config.routes@
    }

    pub fn new(config: GatewayConfig) -> (r: Self)
        ensures
            r.routes() == config.routes@,
    {
        RoutingService { config }
    }

    /// Position of the first route serving `path`, if any.
    pub fn route_index(&self, path: &str) -> (r: Option<usize>)
        ensures
            r is Some <==> first_match(self.routes(), path@) >= 0,
            r is Some ==> r->Some_0 == first_match(self.routes(), path@),
            r is Some ==> r->Some_0 < self.routes().len(),
    {
        proof {
            lemma_first_match(self.routes(), path@);
        }
        let mut i: usize = 0;
        while i < self.config.routes.len()
            invariant
                i <= self.routes().len(),
                forall|j: int| 0 <= j < i ==> !(#[trigger] self.routes()[j]).spec_matches(path@),
                -1 <= first_match(self.routes(), path@) < self.routes().len(),
                first_match(self.routes(), path@) >= 0 ==> self.routes()[first_match(self.routes(), path@)].spec_matches(path@),
                forall|j: int| 0 <= j < self.routes().len() && (first_match(self.routes(), path@) < 0 || j < first_match(self.routes(), path@))
                    ==> !(#[trigger] self.routes()[j]).spec_matches(path@),
            decreases self.config.routes.len() - i,
        {
            if self.config.routes[i].matches(path) {
                return Some(i);
            }
            i += 1;
        }
        None
    }

    /// The first active route whose prefix begins `path`, with the rest of
    /// the path appended verbatim to its upstream URL; `None` when no active
    /// route matches.
    pub fn resolve_route(&self, path: &str) -> (r: Option<ResolvedRoute>)
        ensures
            r is None <==> first_match(self.routes(), path@) < 0,
            r is Some ==> resolved_by(r->Some_0, self.routes()[first_match(self.routes(), path@)], path@),
    {
        match self.route_index(path) {
            None => None,
            Some(i) => {
                let route = &self.config.routes[i];
                proof {
                    lemma_first_match(self.routes(), path@);
                }
                let upstream_path = suffix_from(path, route.path_prefix.as_str().unicode_len());
                Some(ResolvedRoute {
                    upstream_url: joined(route.upstream_url.as_str(), upstream_path.as_str()),
                    service_name: route.service_name.clone(),
                    requires_auth: route.requires_auth,
                    upstream_path,
                })
            }
        }
    }

    /// All configured routes, active or not, in declaration order.
    pub fn list_routes(&self) -> (r: &[RouteConfig])
        ensures
            r@ == self.routes(),
    {
        self.config.routes.as_slice()
    }

    /// The active routes, in declaration order.
    pub fn get_active_routes(&self) -> (r: Vec<&RouteConfig>)
        ensures
            r@.map_values(|x: &RouteConfig| *x) == self.routes().filter(|x: RouteConfig| x.is_active),
    {
        let mut r: Vec<&RouteConfig> = Vec::new();
        let mut i: usize = 0;
        while i < self.config.routes.len()
            invariant
                i <= self.routes().len(),
                r@.map_values(|x: &RouteConfig| *x) == self.routes().take(i as int).filter(|x: RouteConfig| x.is_active),
            decreases self.config.routes.len() - i,
        {
            let ghost before = r@;
            assert(self.routes().take(i as int + 1).drop_last() =~= self.routes().take(i as int));
            if self.config.routes[i].is_active {
                r.push(&self.config.routes[i]);
                assert(r@.map_values(|x: &RouteConfig| *x) =~= before.map_values(|x: &RouteConfig| *x).push(self.routes()[i as int]));
            }
            assert(r@.map_values(|x: &RouteConfig| *x) == self.routes().take(i as int + 1).filter(|x: RouteConfig| x.is_active)) by {
                reveal(Seq::filter);
                assert(self.routes().take(i as int + 1).last() == self.routes()[i as int]);
            }
            i += 1;
        }
        assert(self.routes().take(self.routes().len() as int) =~= self.routes());
        r
    }

    /// The upstream URL of the first route whose service is `service_name`,
    /// whether or not that route is active.
    pub fn get_service_url(&self, service_name: &str) -> (r: Option<String>)
        ensures
            r is None <==> first_named(self.routes(), service_name@) < 0,
            r is Some ==> r->Some_0@ == self.routes()[first_named(self.routes(), service_name@)].upstream_url@,
    {
        proof {
            lemma_first_named(self.routes(), service_name@);
        }
        let mut i: usize = 0;
        while i < self.config.routes.len()
            invariant
                i <= self.routes().len(),
                forall|j: int| 0 <= j < i ==> (#[trigger] self.routes()[j]).service_name@ != service_name@,
                -1 <= first_named(self.routes(), service_name@) < self.routes().len(),
                first_named(self.routes(), service_name@) >= 0 ==> self.routes()[first_named(self.routes(), service_name@)].service_name@ == service_name@,
                forall|j: int| 0 <= j < self.routes().len() && (first_named(self.routes(), service_name@) < 0 || j < first_named(self.routes(), service_name@))
                    ==> (#[trigger] self.routes()[j]).service_name@ != service_name@,
            decreases self.config.routes.len() - i,
        {
            if same_text(self.config.routes[i].service_name.as_str(), service_name) {
                return Some(self.config.routes[i].upstream_url.clone());
            }
            i += 1;
        }
        None
    }

    /// Whether the first route serving `path` lists `method` exactly; false
    /// when no route serves `path`.
    pub fn is_method_allowed(&self, path: &str, method: &str) -> (r: bool)
        ensures
            r == (first_match(self.routes(), path@) >= 0
                && texts(self.routes()[first_match(self.routes(), path@)].methods@).contains(method@)),
    {
        proof {
            lemma_first_match(self.routes(), path@);
        }
        match self.route_index(path) {
            None => false,
            Some(i) => contains_text(&self.config.routes[i].methods, method),
        }
    }
}

/// Resolution succeeds exactly when some active route's prefix begins the
/// path, and then it picks the first such route in declaration order.
pub proof fn lemma_resolves_iff_prefix(svc: RoutingService, path: Seq<char>)
    ensures
        first_match(svc.routes(), path) >= 0 <==> exists|i: int|
            0 <= i < svc.routes().len() && (#[trigger] svc.routes()[i]).is_active
                && is_prefix_of(svc.routes()[i].path_prefix@, path),
        first_match(svc.routes(), path) >= 0 ==> {
            let i = first_match(svc.routes(), path);
            &&& svc.routes()[i].is_active
            &&& is_prefix_of(svc.routes()[i].path_prefix@, path)
            &&& forall|j: int| 0 <= j < i ==> !((#[trigger] svc.routes()[j]).is_active
                && is_prefix_of(svc.routes()[j].path_prefix@, path))
        },
{
    lemma_first_match(svc.routes(), path);
    if first_match(svc.routes(), path) >= 0 {
        let i = first_match(svc.routes(), path);
        assert(svc.routes()[i].spec_matches(path));
    } else {
        assert forall|i: int| 0 <= i < svc.routes().len() implies !((#[trigger] svc.routes()[i]).is_active
            && is_prefix_of(svc.routes()[i].path_prefix@, path)) by {
            assert(!svc.routes()[i].spec_matches(path));
        }
    }
}

/// An inactive route is never the one a path resolves to, whatever its
/// prefix.
pub proof fn lemma_inactive_never_resolves(svc: RoutingService, path: Seq<char>, i: int)
    requires
        0 <= i < svc.routes().len(),
        !svc.routes()[i].is_active,
    ensures
        first_match(svc.routes(), path) != i,
{
    lemma_first_match(svc.routes(), path);
}

} // verus!
