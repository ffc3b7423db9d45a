//! The route registry and router: registration stores a resolved handler
//! under its method and slash-trimmed path, matching strips the configured
//! base path, and introspection lists every route sorted by path.

use vstd::prelude::*;
use crate::error::ApiError;
use crate::handler::{Method, ResolvedHandler};
use crate::schema::{ApiBodyInfo, ApiBodyType, info_eq, infos_eq, keys_eq, lemma_infos_eq_intro,
    lemma_keys_eq_intro};
use crate::text::{
    lemma_lex_le_antisym, lemma_lex_le_refl, lemma_lex_le_total, lemma_lex_le_trans, lex_le,
    spec_trim_end_char, spec_trim_start_char, str_lex_le, str_starts_with, str_suffix_from,
    trim_matches_char, trim_start_char,
};

verus! {

/// A registered route: its key (method and slash-trimmed path), its
/// description, and its resolved handler. Immutable once stored.
#[derive(Debug)]
pub struct ResolvedApiRoute {
    /// The method the route answers to.
    pub method: Method,
    /// The route's path, trimmed of surrounding slashes.
    pub path: String,
    /// The route's human description.
    pub description: String,
    /// The normalized handler with its derived schemas.
    pub resolved_handler: ResolvedHandler,
}

/// Builds one route: a path, then a description, then the handler.
#[derive(Debug)]
pub struct RouteBuilder {
    /// The path the route will answer under.
    pub path: String,
    /// The route's description; empty until one is given.
    pub description: String,
}

impl RouteBuilder {
    /// Start a route at the given path.
    pub fn new(path: String) -> (r: RouteBuilder)
        ensures
            r.path@ == path@,
            r.description@ == Seq::<char>::empty(),
    {
        RouteBuilder { path, description: String::new() }
    }

    /// Give the route a description.
    pub fn description(self, desc: String) -> (r: RouteBuilder)
        ensures
            r.path@ == self.path@,
            r.description@ == desc@,
    {
        RouteBuilder { path: self.path, description: desc }
    }
}

/// A route either was not found, or was matched and failed.
#[derive(Debug)]
pub enum RouteError {
    /// No route matched the request; the caller may fall through to other
    /// routing.
    NotFound,
    /// The matching route ran and failed with this error.
    Failed(ApiError),
}

impl RouteError {
    /// Unwrap the error of a matched route that failed.
    pub fn unwrap_api_error(self) -> (r: ApiError)
        requires
            self is Failed,
        ensures
            self matches RouteError::Failed(e) && r == e,
    {
        match self {
            RouteError::Failed(e) => e,
            RouteError::NotFound => ApiError::path_not_found(),
        }
    }
}

/// Information about a single registered route, for client generation.
#[derive(Debug)]
pub struct RouteInfo {
    /// The path a request must carry to match this route.
    pub name: String,
    /// The method the route answers to.
    pub method: Method,
    /// The route's description.
    pub description: String,
    /// The schema of the expected request body.
    pub request_type: ApiBodyInfo,
    /// The schema of the response body.
    pub response_type: ApiBodyInfo,
}

/// The route stored under a method and path, if any.
pub open spec fn route_lookup(
    routes: Seq<ResolvedApiRoute>,
    method: Method,
    path: Seq<char>,
) -> Option<ResolvedApiRoute>
    decreases routes.len(),
{
    if routes.len() == 0 {
        None
    } else if routes[0].method == method && routes[0].path@ == path {
        Some(routes[0])
    } else {
        route_lookup(routes.drop_first(), method, path)
    }
}

/// No two routes share a method and path.
pub open spec fn routes_unique(routes: Seq<ResolvedApiRoute>) -> bool {
    forall|i: int, j: int|
        0 <= i < j < routes.len() ==> !((#[trigger] routes[i]).method == (#[trigger] routes[j]).method
            && routes[i].path@ == routes[j].path@)
}

/// A path trimmed of surrounding slashes, as a route key is stored.
pub open spec fn spec_trimmed(path: Seq<char>) -> Seq<char> {
    spec_trim_end_char(spec_trim_start_char(path, '/'), '/')
}

/// The route that a request's method and path reach: the base path, with
/// leading slashes ignored, must prefix the path; the remainder, with
/// leading slashes ignored, is looked up under the method. A mismatched
/// base path finds nothing.
pub open spec fn spec_match_route(
    routes: Seq<ResolvedApiRoute>,
    base_path: Seq<char>,
    method: Method,
    path: Seq<char>,
) -> Option<ResolvedApiRoute> {
    let base = spec_trim_start_char(base_path, '/');
    let req = spec_trim_start_char(path, '/');
    if base.is_prefix_of(req) {
        route_lookup(
            routes,
            method,
            spec_trim_start_char(req.subrange(base.len() as int, req.len() as int), '/'),
        )
    } else {
        None
    }
}

/// The route registry: effectively immutable once serving begins. Requests
/// whose path begins with the base path are matched against the registered
/// (method, path) keys; re-registration under a key overwrites.
#[derive(Debug)]
pub struct Api {
    /// The configured base path, stripped from every incoming path.
    pub base_path: String,
    /// The registered routes; their (method, path) keys are unique.
    pub routes: Vec<ResolvedApiRoute>,
}

impl Api {
    /// The registry's invariant: route keys are unique.
    pub open spec fn wf(&self) -> bool {
        routes_unique(self.routes@)
    }

    /// A fresh registry without a base path.
    pub fn new() -> (r: Api)
        ensures
            r.wf(),
            r.base_path@ == Seq::<char>::empty(),
            r.routes@.len() == 0,
    {
        Api { base_path: String::new(), routes: Vec::new() }
    }

    /// A fresh registry that answers under the given base path.
    pub fn new_with_base_path(base_path: String) -> (r: Api)
        ensures
            r.wf(),
            r.base_path@ == base_path@,
            r.routes@.len() == 0,
    {
        Api { base_path, routes: Vec::new() }
    }

    /// Register a route: the path is trimmed of surrounding slashes and the
    /// entry is stored under the handler's method; registering under an
    /// existing key overwrites that entry, keeping map semantics.
    #[verifier::loop_isolation(false)]
    pub fn add(&mut self, builder: RouteBuilder, handler: ResolvedHandler)
        requires
            old(self).wf(),
        ensures
            final(self).wf(),
            final(self).base_path@ == old(self).base_path@,
            route_lookup(final(self).routes@, handler.method, spec_trimmed(builder.path@))
                matches Some(entry) && entry.method == handler.method && entry.path@
                == spec_trimmed(builder.path@) && entry.description@ == builder.description@
                && entry.resolved_handler == handler,
            forall|m: Method, p: Seq<char>|
                !(m == handler.method && p == spec_trimmed(builder.path@)) ==> route_lookup(
                    final(self).routes@,
                    m,
                    p,
                ) == route_lookup(old(self).routes@, m, p),
    {
        let trimmed = trim_matches_char(builder.path.as_str(), '/');
        let path: String = String::from_str(trimmed);
        let method = handler.method;
        let entry = ResolvedApiRoute {
            method,
            path,
            description: builder.description,
            resolved_handler: handler,
        };
        let ghost before = self.routes@;
        let ghost key_path = spec_trimmed(builder.path@);
        let mut i: usize = 0;
        while i < self.routes.len()
            invariant
                0 <= i <= self.routes@.len(),
                self.routes@ == before,
                self.base_path@ == old(self).base_path@,
                entry.method == method,
                entry.path@ == key_path,
                forall|j: int|
                    0 <= j < i ==> !((#[trigger] before[j]).method == method && before[j].path@
                        == key_path),
            decreases self.routes@.len() - i,
        {
            let same_method = self.routes[i].method == method;
            let same_path = self.routes[i].path.eq(&entry.path);
            if same_method && same_path {
                let ghost p = entry;
                self.routes.remove(i);
                self.routes.insert(i, entry);
                proof {
                    assert(self.routes@ =~= before.update(i as int, p));
                    lemma_route_update(before, i as int, p);
                }
                return ;
            }
            i = i + 1;
        }
        let ghost p = entry;
        self.routes.push(entry);
        proof {
            assert(self.routes@ =~= before.push(p));
            lemma_route_push(before, p);
            assert forall|m: Method, pth: Seq<char>|
                !(m == p.method && pth == p.path@) implies route_lookup(self.routes@, m, pth)
                == route_lookup(before, m, pth) by {
                lemma_route_push_other(before, p, m, pth);
            }
        }
    }

    /// Match a request against the registered routes: strip the base path
    /// (a mismatch is an immediate not-found), then look the remainder up
    /// under the request's method.
    #[verifier::loop_isolation(false)]
    pub fn handle(&self, method: Method, path: &str) -> (r: Result<&ResolvedApiRoute, RouteError>)
        ensures
            (r matches Ok(route) && spec_match_route(self.routes@, self.base_path@, method, path@)
                matches Some(e) && *route == e) || (r matches Err(re) && re is NotFound
                && spec_match_route(self.routes@, self.base_path@, method, path@) is None),
    {
        let base = trim_start_char(self.base_path.as_str(), '/');
        let req = trim_start_char(path, '/');
        if !str_starts_with(req, base) {
            return Err(RouteError::NotFound);
        }
        let tail = str_suffix_from(req, base.unicode_len());
        let tail = trim_start_char(tail, '/');
        let ghost key = spec_trim_start_char(
            spec_trim_start_char(path@, '/').subrange(
                spec_trim_start_char(self.base_path@, '/').len() as int,
                spec_trim_start_char(path@, '/').len() as int,
            ),
            '/',
        );
        proof {
            assert(tail@ == key);
            assert(self.routes@.subrange(0, self.routes@.len() as int) =~= self.routes@);
        }
        let mut i: usize = 0;
        while i < self.routes.len()
            invariant
                0 <= i <= self.routes@.len(),
                tail@ == key,
                route_lookup(self.routes@, method, key) == route_lookup(
                    self.routes@.subrange(i as int, self.routes@.len() as int),
                    method,
                    key,
                ),
            decreases self.routes@.len() - i,
        {
            let ghost rest = self.routes@.subrange(i as int, self.routes@.len() as int);
            proof {
                assert(rest[0] == self.routes@[i as int]);
                assert(rest.drop_first() =~= self.routes@.subrange(
                    i + 1 as int,
                    self.routes@.len() as int,
                ));
            }
            let same_method = self.routes[i].method == method;
            let same_path = crate::text::str_eq(self.routes[i].path.as_str(), tail);
            if same_method && same_path {
                proof {
                    assert(route_lookup(rest, method, key) == Some(self.routes@[i as int]));
                }
                return Ok(&self.routes[i]);
            }
            i = i + 1;
        }
        proof {
            assert(self.routes@.subrange(
                self.routes@.len() as int,
                self.routes@.len() as int,
            ).len() == 0);
        }
        Err(RouteError::NotFound)
    }

    /// List every registered route's information, sorted by path and, among
    /// routes sharing a path, by method. Together with the unique route keys
    /// this order is strict and total, so a fixed registry admits exactly
    /// one conforming output: introspection is deterministic.
    #[verifier::loop_isolation(false)]
    pub fn info(&self) -> (r: Vec<RouteInfo>)
        requires
            self.wf(),
        ensures
            r@.len() == self.routes@.len(),
            sorted_by_name(r@),
            sorted_by_key(r@),
            all_lines_describe(r@, self.routes@),
            all_routes_described(r@, self.routes@),
    {
        let mut unsorted: Vec<RouteInfo> = Vec::new();
        let mut i: usize = 0;
        while i < self.routes.len()
            invariant
                0 <= i <= self.routes@.len(),
                unsorted@.len() == i,
                forall|j: int|
                    #![trigger unsorted@[j]]
                    0 <= j < i ==> describes(unsorted@[j], self.routes@[j]),
            decreases self.routes@.len() - i,
        {
            let rt = &self.routes[i];
            let entry = RouteInfo {
                name: rt.path.clone(),
                method: rt.method,
                description: rt.description.clone(),
                request_type: clone_info(&rt.resolved_handler.request_type),
                response_type: clone_info(&rt.resolved_handler.response_type),
            };
            proof {
                assert(describes(entry, self.routes@[i as int]));
            }
            unsorted.push(entry);
            i = i + 1;
        }
        proof {
            lemma_pointwise_described(unsorted@, self.routes@);
            // pointwise description under unique route keys gives each line
            // a distinct key
            assert forall|x: int, y: int|
                0 <= x < y < unsorted@.len() implies !same_key(
                #[trigger] unsorted@[x],
                #[trigger] unsorted@[y],
            ) by {
                assert(describes(unsorted@[x], self.routes@[x]));
                assert(describes(unsorted@[y], self.routes@[y]));
            }
        }
        let mut out: Vec<RouteInfo> = Vec::new();
        while unsorted.len() > 0
            invariant
                sorted_by_key(out@),
                distinct_keys(unsorted@),
                cross_distinct(out@, unsorted@),
                out@.len() + unsorted@.len() == self.routes@.len(),
                all_lines_describe(out@, self.routes@),
                all_lines_describe(unsorted@, self.routes@),
                all_routes_described(out@ + unsorted@, self.routes@),
            decreases unsorted@.len(),
        {
            let ghost old_out = out@;
            let ghost old_unsorted = unsorted@;
            let x = unsorted.remove(0);
            proof {
                assert(unsorted@ =~= old_unsorted.drop_first());
                assert(x == old_unsorted[0]);
                assert forall|a: int| 0 <= a < old_out.len() implies !same_key(
                    #[trigger] old_out[a],
                    x,
                ) by {
                    assert(!same_key(old_out[a], old_unsorted[0]));
                }
            }
            let ghost prev = out@;
            let ghost xg = x;
            insert_sorted(&mut out, x);
            proof {
                let p = choose|p: int| 0 <= p <= prev.len() && out@ == prev.insert(p, xg);
                assert(line_described(xg, self.routes@));
                lemma_all_lines_insert(prev, p, xg, self.routes@);
                assert(old_out + old_unsorted =~= old_out + (seq![xg] + old_unsorted.drop_first()));
                lemma_all_routes_shift(
                    old_out,
                    xg,
                    old_unsorted.drop_first(),
                    p,
                    self.routes@,
                );
                assert(out@ + unsorted@ =~= old_out.insert(p, xg) + old_unsorted.drop_first());
                // the distinct-key bookkeeping survives the move
                assert forall|a: int, b: int|
                    0 <= a < unsorted@.len() && 0 <= b < unsorted@.len() && a < b implies !same_key(
                    #[trigger] unsorted@[a],
                    #[trigger] unsorted@[b],
                ) by {
                    assert(unsorted@[a] == old_unsorted[a + 1]);
                    assert(unsorted@[b] == old_unsorted[b + 1]);
                }
                assert forall|a: int, b: int|
                    0 <= a < out@.len() && 0 <= b < unsorted@.len() implies !same_key(
                    #[trigger] out@[a],
                    #[trigger] unsorted@[b],
                ) by {
                    assert(unsorted@[b] == old_unsorted[b + 1]);
                    if a == p {
                        assert(out@[a] == xg);
                        assert(!same_key(old_unsorted[0], old_unsorted[b + 1]));
                        assert(same_key(xg, old_unsorted[b + 1]) ==> same_key(
                            old_unsorted[0],
                            old_unsorted[b + 1],
                        ));
                    } else {
                        let pa = if a < p {
                            a
                        } else {
                            a - 1
                        };
                        assert(out@[a] == old_out[pa]);
                    }
                }
            }
        }
        proof {
            assert(out@ + unsorted@ =~= out@);
            // strict key order sorts by path as well
            assert forall|x: int, y: int| 0 <= x < y < out@.len() implies lex_le(
                (#[trigger] out@[x]).name@,
                (#[trigger] out@[y]).name@,
            ) by {
                assert(key_le(out@[x], out@[y]));
                if out@[x].name@ == out@[y].name@ {
                    lemma_lex_le_refl(out@[x].name@);
                }
            }
        }
        out
    }
}

/// The line describes one of the routes.
pub open spec fn line_described(info: RouteInfo, routes: Seq<ResolvedApiRoute>) -> bool
    decreases routes.len(),
{
    if routes.len() == 0 {
        false
    } else {
        describes(info, routes[0]) || line_described(info, routes.drop_first())
    }
}

/// Every line of route information describes one of the routes.
pub open spec fn all_lines_describe(infos: Seq<RouteInfo>, routes: Seq<ResolvedApiRoute>) -> bool
    decreases infos.len(),
{
    if infos.len() == 0 {
        true
    } else {
        line_described(infos[0], routes) && all_lines_describe(infos.drop_first(), routes)
    }
}

/// The route is described by one of the lines.
pub open spec fn route_described(infos: Seq<RouteInfo>, route: ResolvedApiRoute) -> bool
    decreases infos.len(),
{
    if infos.len() == 0 {
        false
    } else {
        describes(infos[0], route) || route_described(infos.drop_first(), route)
    }
}

/// Every route is described by one of the lines.
pub open spec fn all_routes_described(
    infos: Seq<RouteInfo>,
    routes: Seq<ResolvedApiRoute>,
) -> bool
    decreases routes.len(),
{
    if routes.len() == 0 {
        true
    } else {
        route_described(infos, routes[0]) && all_routes_described(infos, routes.drop_first())
    }
}

/// A witness makes a line described.
pub proof fn lemma_line_described_intro(info: RouteInfo, routes: Seq<ResolvedApiRoute>, k: int)
    requires
        0 <= k < routes.len(),
        describes(info, routes[k]),
    ensures
        line_described(info, routes),
    decreases routes.len(),
{
    if k > 0 {
        assert(routes.drop_first()[k - 1] == routes[k]);
        lemma_line_described_intro(info, routes.drop_first(), k - 1);
    }
}

/// A witness makes a route described.
pub proof fn lemma_route_described_intro(infos: Seq<RouteInfo>, route: ResolvedApiRoute, j: int)
    requires
        0 <= j < infos.len(),
        describes(infos[j], route),
    ensures
        route_described(infos, route),
    decreases infos.len(),
{
    if j > 0 {
        assert(infos.drop_first()[j - 1] == infos[j]);
        lemma_route_described_intro(infos.drop_first(), route, j - 1);
    }
}

/// A described route has a describing line at some index.
pub proof fn lemma_route_described_elim(infos: Seq<RouteInfo>, route: ResolvedApiRoute)
    requires
        route_described(infos, route),
    ensures
        exists|j: int| 0 <= j < infos.len() && describes(infos[j], route),
    decreases infos.len(),
{
    if describes(infos[0], route) {
        assert(0 <= 0 < infos.len() && describes(infos[0], route));
    } else {
        lemma_route_described_elim(infos.drop_first(), route);
        let j = choose|j: int|
            0 <= j < infos.drop_first().len() && describes(infos.drop_first()[j], route);
        assert(infos.drop_first()[j] == infos[j + 1]);
        assert(describes(infos[j + 1], route));
    }
}

/// Pointwise description gives both directions: every line describes its
/// route and every route is described by its line.
proof fn lemma_pointwise_described(infos: Seq<RouteInfo>, routes: Seq<ResolvedApiRoute>)
    requires
        infos.len() == routes.len(),
        forall|j: int| #![trigger infos[j]] 0 <= j < infos.len() ==> describes(infos[j], routes[j]),
    ensures
        all_lines_describe(infos, routes),
        all_routes_described(infos, routes),
{
    lemma_all_lines_intro_pointwise(infos, routes, routes);
    lemma_all_routes_intro_pointwise(infos, routes, 0);
}

proof fn lemma_all_lines_intro_pointwise(
    infos: Seq<RouteInfo>,
    routes: Seq<ResolvedApiRoute>,
    all: Seq<ResolvedApiRoute>,
)
    requires
        infos.len() <= routes.len(),
        forall|j: int| #![trigger infos[j]] 0 <= j < infos.len() ==> describes(infos[j], routes[j]),
        forall|k: int|
            0 <= k < routes.len() ==> exists|k2: int|
                0 <= k2 < all.len() && #[trigger] routes[k] == all[k2],
    ensures
        all_lines_describe(infos, all),
    decreases infos.len(),
{
    if infos.len() > 0 {
        let x = infos[0];
        let r0 = routes[0];
        let k2 = choose|k2: int| 0 <= k2 < all.len() && routes[0] == all[k2];
        lemma_line_described_intro(infos[0], all, k2);
        assert(forall|j: int|
            0 <= j < infos.drop_first().len() ==> infos.drop_first()[j] == infos[j + 1]
                && routes.drop_first()[j] == routes[j + 1]);
        assert(forall|k: int|
            0 <= k < routes.drop_first().len() ==> #[trigger] routes.drop_first()[k] == routes[k
                + 1]);
        assert forall|k: int| 0 <= k < routes.drop_first().len() implies exists|k2: int|
            0 <= k2 < all.len() && #[trigger] routes.drop_first()[k] == all[k2] by {
            let kk = choose|kk: int| 0 <= kk < all.len() && routes[k + 1] == all[kk];
            assert(routes.drop_first()[k] == all[kk]);
        }
        lemma_all_lines_intro_pointwise(infos.drop_first(), routes.drop_first(), all);
    }
}

proof fn lemma_all_routes_intro_pointwise(
    infos: Seq<RouteInfo>,
    routes: Seq<ResolvedApiRoute>,
    off: int,
)
    requires
        0 <= off,
        infos.len() == routes.len() + off,
        forall|k: int|
            #![trigger routes[k]]
            0 <= k < routes.len() ==> describes(infos[k + off], routes[k]),
    ensures
        all_routes_described(infos, routes),
    decreases routes.len(),
{
    if routes.len() > 0 {
        let r0 = routes[0];
        lemma_route_described_intro(infos, routes[0], off);
        assert(forall|k: int|
            0 <= k < routes.drop_first().len() ==> #[trigger] routes.drop_first()[k] == routes[k
                + 1]);
        assert forall|k: int|
            #![trigger routes.drop_first()[k]]
            0 <= k < routes.drop_first().len() implies describes(
            infos[k + (off + 1)],
            routes.drop_first()[k],
        ) by {
            assert(describes(infos[(k + 1) + off], routes[k + 1]));
        }
        lemma_all_routes_intro_pointwise(infos, routes.drop_first(), off + 1);
    }
}

/// Inserting a line that describes a route keeps every line describing one.
proof fn lemma_all_lines_insert(
    infos: Seq<RouteInfo>,
    p: int,
    entry: RouteInfo,
    routes: Seq<ResolvedApiRoute>,
)
    requires
        0 <= p <= infos.len(),
        all_lines_describe(infos, routes),
        line_described(entry, routes),
    ensures
        all_lines_describe(infos.insert(p, entry), routes),
    decreases infos.len(),
{
    let u = infos.insert(p, entry);
    if p == 0 {
        assert(u[0] == entry);
        assert(u.drop_first() =~= infos);
    } else {
        assert(u[0] == infos[0]);
        assert(u.drop_first() =~= infos.drop_first().insert(p - 1, entry));
        lemma_all_lines_insert(infos.drop_first(), p - 1, entry, routes);
    }
}

/// Moving a line from the pending block to its sorted place keeps every
/// route described.
proof fn lemma_all_routes_shift(
    a: Seq<RouteInfo>,
    x: RouteInfo,
    b: Seq<RouteInfo>,
    p: int,
    routes: Seq<ResolvedApiRoute>,
)
    requires
        0 <= p <= a.len(),
        all_routes_described(a + (seq![x] + b), routes),
    ensures
        all_routes_described(a.insert(p, x) + b, routes),
    decreases routes.len(),
{
    if routes.len() > 0 {
        let old_seq = a + (seq![x] + b);
        let new_seq = a.insert(p, x) + b;
        assert(old_seq.len() == new_seq.len());
        lemma_route_described_elim(old_seq, routes[0]);
        let j = choose|j: int| 0 <= j < old_seq.len() && describes(old_seq[j], routes[0]);
        let jj: int = if j < a.len() {
            if j < p {
                j
            } else {
                j + 1
            }
        } else if j == a.len() {
            p
        } else {
            j
        };
        assert(new_seq[jj] == old_seq[j]) by {
            if j < a.len() {
                if j < p {
                    assert(new_seq[j] == a[j]);
                    assert(old_seq[j] == a[j]);
                } else {
                    assert(new_seq[j + 1] == a[j]);
                    assert(old_seq[j] == a[j]);
                }
            } else if j == a.len() {
                assert(new_seq[p] == x);
                assert(old_seq[j] == (seq![x] + b)[0]);
            } else {
                assert(new_seq[j] == b[j - a.len() - 1]);
                assert(old_seq[j] == (seq![x] + b)[j - a.len()]);
                assert((seq![x] + b)[j - a.len()] == b[j - a.len() - 1]);
            }
        }
        lemma_route_described_intro(new_seq, routes[0], jj);
        lemma_all_routes_shift(a, x, b, p, routes.drop_first());
    }
}



/// Does one line of route information describe the given route?
pub open spec fn describes(info: RouteInfo, route: ResolvedApiRoute) -> bool {
    &&& info.name@ == route.path@
    &&& info.method == route.method
    &&& info.description@ == route.description@
    &&& info_eq(route.resolved_handler.request_type, info.request_type)
    &&& info_eq(route.resolved_handler.response_type, info.response_type)
}

/// A fixed rank for each method: the tie-breaker of the introspection
/// order among routes sharing a path.
pub open spec fn method_rank(m: Method) -> int {
    match m {
        Method::Get => 0,
        Method::Post => 1,
        Method::Unknown => 2,
    }
}

/// Two lines carry the same route key.
pub open spec fn same_key(a: RouteInfo, b: RouteInfo) -> bool {
    a.name@ == b.name@ && a.method == b.method
}

/// The total introspection order: by path, then by method rank.
pub open spec fn key_le(a: RouteInfo, b: RouteInfo) -> bool {
    if a.name@ == b.name@ {
        method_rank(a.method) <= method_rank(b.method)
    } else {
        lex_le(a.name@, b.name@)
    }
}

/// The route information is strictly sorted by (path, method): since route
/// keys are unique and the order is total, exactly one arrangement of a
/// given set of lines satisfies this.
pub open spec fn sorted_by_key(s: Seq<RouteInfo>) -> bool {
    forall|x: int, y: int|
        0 <= x < y < s.len() ==> key_le(#[trigger] s[x], #[trigger] s[y]) && !same_key(s[x], s[y])
}

/// The introspection order is total.
proof fn lemma_key_le_total(a: RouteInfo, b: RouteInfo)
    ensures
        key_le(a, b) || key_le(b, a),
{
    if a.name@ == b.name@ {
    } else {
        lemma_lex_le_total(a.name@, b.name@);
    }
}

/// The introspection order is transitive.
proof fn lemma_key_le_trans(a: RouteInfo, b: RouteInfo, c: RouteInfo)
    requires
        key_le(a, b),
        key_le(b, c),
    ensures
        key_le(a, c),
{
    if a.name@ == b.name@ && b.name@ == c.name@ {
    } else if a.name@ == b.name@ {
    } else if b.name@ == c.name@ {
    } else {
        lemma_lex_le_trans(a.name@, b.name@, c.name@);
        if a.name@ == c.name@ {
            lemma_lex_le_antisym(a.name@, b.name@);
        }
    }
}

/// The rank determines the method.
proof fn lemma_method_rank_injective(a: Method, b: Method)
    requires
        method_rank(a) == method_rank(b),
    ensures
        a == b,
{
}

/// Decide the introspection order on two lines.
fn key_le_exec(a: &RouteInfo, b: &RouteInfo) -> (r: bool)
    ensures
        r == key_le(*a, *b),
{
    let ab = str_lex_le(a.name.as_str(), b.name.as_str());
    let ba = str_lex_le(b.name.as_str(), a.name.as_str());
    if ab && ba {
        proof {
            lemma_lex_le_antisym(a.name@, b.name@);
        }
        method_rank_of(a.method) <= method_rank_of(b.method)
    } else {
        proof {
            if a.name@ == b.name@ {
                lemma_lex_le_refl(a.name@);
            }
        }
        ab
    }
}

/// The method's rank, as a number.
fn method_rank_of(m: Method) -> (r: u8)
    ensures
        r as int == method_rank(m),
{
    match m {
        Method::Get => 0,
        Method::Post => 1,
        Method::Unknown => 2,
    }
}

/// No two lines carry the same route key.
pub open spec fn distinct_keys(s: Seq<RouteInfo>) -> bool {
    forall|x: int, y: int| 0 <= x < y < s.len() ==> !same_key(#[trigger] s[x], #[trigger] s[y])
}

/// No line of one block carries a key of the other.
pub open spec fn cross_distinct(a: Seq<RouteInfo>, b: Seq<RouteInfo>) -> bool {
    forall|x: int, y: int|
        0 <= x < a.len() && 0 <= y < b.len() ==> !same_key(#[trigger] a[x], #[trigger] b[y])
}

/// The route information is sorted by path.
pub open spec fn sorted_by_name(s: Seq<RouteInfo>) -> bool {
    forall|a: int, b: int| 0 <= a < b < s.len() ==> lex_le((#[trigger] s[a]).name@, (#[trigger] s[b]).name@)
}

proof fn lemma_route_update(routes: Seq<ResolvedApiRoute>, i: int, p: ResolvedApiRoute)
    requires
        0 <= i < routes.len(),
        routes[i].method == p.method,
        routes[i].path@ == p.path@,
        forall|j: int|
            0 <= j < i ==> !((#[trigger] routes[j]).method == p.method && routes[j].path@
                == p.path@),
        routes_unique(routes),
    ensures
        routes_unique(routes.update(i, p)),
        route_lookup(routes.update(i, p), p.method, p.path@) == Some(p),
        forall|m: Method, pth: Seq<char>|
            !(m == p.method && pth == p.path@) ==> route_lookup(routes.update(i, p), m, pth)
                == route_lookup(routes, m, pth),
    decreases routes.len(),
{
    let u = routes.update(i, p);
    assert forall|a: int, b: int| 0 <= a < b < u.len() implies !((#[trigger] u[a]).method
        == (#[trigger] u[b]).method && u[a].path@ == u[b].path@) by {
        if a != i && b != i {
            assert(u[a] == routes[a] && u[b] == routes[b]);
        } else if a == i {
            assert(u[b] == routes[b]);
            assert(!(routes[i].method == routes[b].method && routes[i].path@ == routes[b].path@));
        } else {
            assert(u[a] == routes[a]);
            assert(!(routes[a].method == routes[i].method && routes[a].path@ == routes[i].path@));
        }
    }
    if i == 0 {
        assert(u[0] == p);
        assert(u.drop_first() =~= routes.drop_first());
        assert forall|m: Method, pth: Seq<char>|
            !(m == p.method && pth == p.path@) implies route_lookup(u, m, pth) == route_lookup(
            routes,
            m,
            pth,
        ) by {
            assert(u[0].method == routes[0].method && u[0].path@ == routes[0].path@);
            if routes[0].method == m && routes[0].path@ == pth {
            } else {
                assert(route_lookup(u, m, pth) == route_lookup(u.drop_first(), m, pth));
                assert(route_lookup(routes, m, pth) == route_lookup(routes.drop_first(), m, pth));
            }
        }
    } else {
        assert(u[0] == routes[0]);
        assert(u.drop_first() =~= routes.drop_first().update(i - 1, p));
        assert(forall|j: int|
            0 <= j < i - 1 ==> routes.drop_first()[j] == routes[j + 1]);
        assert(routes_unique(routes.drop_first())) by {
            assert(forall|a: int, b: int|
                0 <= a < b < routes.drop_first().len() ==> routes.drop_first()[a] == routes[a + 1]
                    && routes.drop_first()[b] == routes[b + 1]);
        }
        lemma_route_update(routes.drop_first(), i - 1, p);
        assert(!(routes[0].method == p.method && routes[0].path@ == p.path@));
        assert(route_lookup(u, p.method, p.path@) == Some(p));
        assert forall|m: Method, pth: Seq<char>|
            !(m == p.method && pth == p.path@) implies route_lookup(u, m, pth) == route_lookup(
            routes,
            m,
            pth,
        ) by {
            if routes[0].method == m && routes[0].path@ == pth {
            } else {
                assert(route_lookup(u, m, pth) == route_lookup(u.drop_first(), m, pth));
                assert(route_lookup(routes, m, pth) == route_lookup(routes.drop_first(), m, pth));
            }
        }
    }
}

proof fn lemma_route_push(routes: Seq<ResolvedApiRoute>, p: ResolvedApiRoute)
    requires
        forall|j: int|
            0 <= j < routes.len() ==> !((#[trigger] routes[j]).method == p.method
                && routes[j].path@ == p.path@),
        routes_unique(routes),
    ensures
        routes_unique(routes.push(p)),
        route_lookup(routes.push(p), p.method, p.path@) == Some(p),
    decreases routes.len(),
{
    let u = routes.push(p);
    assert forall|a: int, b: int| 0 <= a < b < u.len() implies !((#[trigger] u[a]).method
        == (#[trigger] u[b]).method && u[a].path@ == u[b].path@) by {
        if b == routes.len() {
            assert(u[a] == routes[a] && u[b] == p);
        } else {
            assert(u[a] == routes[a] && u[b] == routes[b]);
        }
    }
    if routes.len() == 0 {
        assert(u[0] == p);
    } else {
        assert(u[0] == routes[0]);
        assert(u.drop_first() =~= routes.drop_first().push(p));
        assert(forall|j: int|
            0 <= j < routes.drop_first().len() ==> routes.drop_first()[j] == routes[j + 1]);
        assert(routes_unique(routes.drop_first())) by {
            assert(forall|a: int, b: int|
                0 <= a < b < routes.drop_first().len() ==> routes.drop_first()[a] == routes[a + 1]
                    && routes.drop_first()[b] == routes[b + 1]);
        }
        lemma_route_push(routes.drop_first(), p);
        assert(!(routes[0].method == p.method && routes[0].path@ == p.path@));
    }
}

proof fn lemma_route_push_other(
    routes: Seq<ResolvedApiRoute>,
    p: ResolvedApiRoute,
    m: Method,
    pth: Seq<char>,
)
    requires
        !(m == p.method && pth == p.path@),
    ensures
        route_lookup(routes.push(p), m, pth) == route_lookup(routes, m, pth),
    decreases routes.len(),
{
    let u = routes.push(p);
    if routes.len() == 0 {
        assert(u[0] == p);
        assert(u.drop_first() =~= Seq::<ResolvedApiRoute>::empty());
        assert(route_lookup(u, m, pth) == route_lookup(u.drop_first(), m, pth));
        assert(route_lookup(u.drop_first(), m, pth) is None);
    } else {
        assert(u[0] == routes[0]);
        assert(u.drop_first() =~= routes.drop_first().push(p));
        lemma_route_push_other(routes.drop_first(), p, m, pth);
        if routes[0].method == m && routes[0].path@ == pth {
        } else {
            assert(route_lookup(u, m, pth) == route_lookup(u.drop_first(), m, pth));
            assert(route_lookup(routes, m, pth) == route_lookup(routes.drop_first(), m, pth));
        }
    }
}

/// A deep copy of a schema node; the copy is deep-equal to the original.
pub fn clone_info(s: &ApiBodyInfo) -> (r: ApiBodyInfo)
    ensures
        info_eq(*s, r),
    decreases *s,
{
    let description = s.description.clone();
    let ty = match &s.ty {
        ApiBodyType::String => ApiBodyType::String,
        ApiBodyType::Number => ApiBodyType::Number,
        ApiBodyType::Boolean => ApiBodyType::Boolean,
        ApiBodyType::Null => ApiBodyType::Null,
        ApiBodyType::Any => ApiBodyType::Any,
        ApiBodyType::ArrayOf { value } => ApiBodyType::ArrayOf {
            value: Box::new(clone_info(value)),
        },
        ApiBodyType::TupleOf { values } => ApiBodyType::TupleOf { values: clone_infos(values) },
        ApiBodyType::ObjectOf { value } => ApiBodyType::ObjectOf {
            value: Box::new(clone_info(value)),
        },
        ApiBodyType::Object { keys } => ApiBodyType::Object { keys: clone_keys(keys) },
        ApiBodyType::OneOf { values } => ApiBodyType::OneOf { values: clone_infos(values) },
        ApiBodyType::StringLiteral { literal } => ApiBodyType::StringLiteral {
            literal: literal.clone(),
        },
        ApiBodyType::Optional { value } => ApiBodyType::Optional {
            value: Box::new(clone_info(value)),
        },
    };
    ApiBodyInfo { description, ty }
}

/// A deep copy of a list of schema nodes.
fn clone_infos(values: &Vec<ApiBodyInfo>) -> (r: Vec<ApiBodyInfo>)
    ensures
        infos_eq(values@, r@),
    decreases values@,
{
    let mut out: Vec<ApiBodyInfo> = Vec::new();
    let mut i: usize = 0;
    while i < values.len()
        invariant
            0 <= i <= values@.len(),
            out@.len() == i,
            forall|j: int| 0 <= j < i ==> info_eq(#[trigger] values@[j], out@[j]),
        decreases values@.len() - i,
    {
        let v = clone_info(&values[i]);
        out.push(v);
        i = i + 1;
    }
    proof {
        lemma_infos_eq_intro(values@, out@);
    }
    out
}

/// A deep copy of an object's entry list.
fn clone_keys(keys: &Vec<(String, ApiBodyInfo)>) -> (r: Vec<(String, ApiBodyInfo)>)
    ensures
        keys_eq(keys@, r@),
    decreases keys@,
{
    let mut out: Vec<(String, ApiBodyInfo)> = Vec::new();
    let mut i: usize = 0;
    while i < keys.len()
        invariant
            0 <= i <= keys@.len(),
            out@.len() == i,
            forall|j: int| 0 <= j < i ==> (#[trigger] keys@[j]).0@ == out@[j].0@,
            forall|j: int| 0 <= j < i ==> info_eq((#[trigger] keys@[j]).1, out@[j].1),
        decreases keys@.len() - i,
    {
        let name = keys[i].0.clone();
        let node = clone_info(&keys[i].1);
        out.push((name, node));
        i = i + 1;
    }
    proof {
        lemma_keys_eq_intro(keys@, out@);
    }
    out
}

/// Insert a line of route information into a strictly sorted list, keeping
/// it strictly sorted: the entry's key must be fresh. Everything already
/// present stays, positions shifted by at most one.
#[verifier::loop_isolation(false)]
fn insert_sorted(out: &mut Vec<RouteInfo>, entry: RouteInfo)
    requires
        sorted_by_key(old(out)@),
        forall|a: int| 0 <= a < old(out)@.len() ==> !same_key(#[trigger] old(out)@[a], entry),
    ensures
        sorted_by_key(final(out)@),
        final(out)@.len() == old(out)@.len() + 1,
        exists|p: int|
            0 <= p <= old(out)@.len() && final(out)@ == old(out)@.insert(p, entry),
{
    let ghost before = out@;
    let mut p: usize = 0;
    while p < out.len() && key_le_exec(&out[p], &entry)
        invariant
            0 <= p <= out@.len(),
            out@ == before,
            forall|a: int| 0 <= a < p ==> key_le(#[trigger] before[a], entry),
        decreases out@.len() - p,
    {
        p = p + 1;
    }
    proof {
        if p < before.len() {
            lemma_key_le_total(before[p as int], entry);
        }
    }
    out.insert(p, entry);
    proof {
        assert(out@ =~= before.insert(p as int, entry));
        assert forall|a: int, b: int| 0 <= a < b < out@.len() implies key_le(
            #[trigger] out@[a],
            #[trigger] out@[b],
        ) && !same_key(out@[a], out@[b]) by {
            let pa = if a < p as int {
                a
            } else {
                a - 1
            };
            let pb = if b < p as int {
                b
            } else {
                b - 1
            };
            if a == p as int {
                // the entry sits before every element the scan stopped at
                assert(out@[b] == before[pb]);
                assert(key_le(entry, before[p as int]));
                if pb > p as int {
                    assert(key_le(before[p as int], before[pb]));
                    lemma_key_le_trans(entry, before[p as int], before[pb]);
                }
            } else if b == p as int {
                assert(out@[a] == before[pa]);
                assert(key_le(before[pa], entry));
            } else {
                assert(out@[a] == before[pa] && out@[b] == before[pb]);
                if a < p as int && b > p as int {
                    assert(key_le(before[pa], before[pb]));
                }
            }
        }
    }
}



} // verus!
