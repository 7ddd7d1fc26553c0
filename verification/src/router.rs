use vstd::prelude::*;

use crate::method::{Method, MethodView};
use crate::string_map::Params;
use crate::path::{has_colon, match_pattern, path_params, pattern_matches};

verus! {

/// An incoming request, as far as routing reads and fills it.
pub struct Request {
    pub method: Method,
    pub path: String,
    pub params: Params,
}

/// A route as the contracts see it: method, path or pattern, handler.
pub type RouteView<H> = (MethodView, Seq<char>, H);

/// A dynamic route applies to a request when the methods are equal and the
/// pattern matches the path.
pub open spec fn route_applies<H>(route: RouteView<H>, m: MethodView, path: Seq<char>) -> bool {
    route.0 == m && pattern_matches(route.1, path)
}

/// The position of the first route, in order of registration, that applies.
pub open spec fn first_match<H>(routes: Seq<RouteView<H>>, m: MethodView, path: Seq<char>) -> Option<
    int,
>
    decreases routes.len(),
{
    if routes.len() == 0 {
        None
    } else if route_applies(routes[0], m, path) {
        Some(0)
    } else {
        match first_match(routes.drop_first(), m, path) {
            Some(i) => Some(i + 1),
            None => None,
        }
    }
}

/// `first_match` is the least position whose route applies.
pub proof fn lemma_first_match<H>(routes: Seq<RouteView<H>>, m: MethodView, path: Seq<char>, i: int)
    requires
        0 <= i < routes.len(),
        route_applies(routes[i], m, path),
        forall|k: int| 0 <= k < i ==> !route_applies(#[trigger] routes[k], m, path),
    ensures
        first_match(routes, m, path) == Some(i),
    decreases i,
{
    if i > 0 {
        let rest = routes.drop_first();
        assert(!route_applies(routes[0], m, path));
        assert forall|k: int| 0 <= k < i - 1 implies !route_applies(#[trigger] rest[k], m, path) by {
            assert(rest[k] == routes[k + 1]);
        }
        assert(rest[i - 1] == routes[i]);
        lemma_first_match(rest, m, path, i - 1);
    }
}

/// `first_match` finds nothing when no route applies.
pub proof fn lemma_no_match<H>(routes: Seq<RouteView<H>>, m: MethodView, path: Seq<char>)
    requires
        forall|k: int| 0 <= k < routes.len() ==> !route_applies(#[trigger] routes[k], m, path),
    ensures
        first_match(routes, m, path) is None,
    decreases routes.len(),
{
    if routes.len() > 0 {
        let rest = routes.drop_first();
        assert(!route_applies(routes[0], m, path));
        assert forall|k: int| 0 <= k < rest.len() implies !route_applies(#[trigger] rest[k], m, path) by {
            assert(rest[k] == routes[k + 1]);
        }
        lemma_no_match(rest, m, path);
    }
}

/// The position `first_match` gives is that of a route that applies.
pub proof fn lemma_first_match_applies<H>(routes: Seq<RouteView<H>>, m: MethodView, path: Seq<char>)
    ensures
        first_match(routes, m, path) matches Some(i) ==> 0 <= i < routes.len() && route_applies(
            routes[i],
            m,
            path,
        ),
    decreases routes.len(),
{
    if routes.len() > 0 && !route_applies(routes[0], m, path) {
        lemma_first_match_applies(routes.drop_first(), m, path);
    }
}

/// A route added after the others is found exactly where none of them applies.
pub proof fn lemma_first_match_push<H>(
    routes: Seq<RouteView<H>>,
    route: RouteView<H>,
    m: MethodView,
    path: Seq<char>,
)
    ensures
        first_match(routes.push(route), m, path) == (match first_match(routes, m, path) {
            Some(i) => Some(i),
            None => if route_applies(route, m, path) {
                Some(routes.len() as int)
            } else {
                None
            },
        }),
    decreases routes.len(),
{
    let pushed = routes.push(route);
    if routes.len() == 0 {
        assert(pushed.drop_first() =~= Seq::<RouteView<H>>::empty());
    } else {
        assert(pushed[0] == routes[0]);
        assert(pushed.drop_first() =~= routes.drop_first().push(route));
        lemma_first_match_push(routes.drop_first(), route, m, path);
    }
}

/// Whether a path holds a `:` and is therefore registered as a pattern.
pub open spec fn is_dynamic_path(path: Seq<char>) -> bool {
    path.contains(':')
}

/// The router: routes registered under an exact path, looked up first, and
/// routes registered under a pattern, tried in order of registration.
pub struct Router<H> {
    routes: Vec<(Method, String, H)>,
    dynamic_routes: Vec<(Method, String, H)>,
}

impl<H> Router<H> {
    /// No two exact routes have the same method and path, and no exact
    /// path holds a `:`.
    #[verifier::type_invariant]
    spec fn keys_unique(self) -> bool {
        &&& forall|i: int, j: int|
            0 <= i < self.routes@.len() && 0 <= j < self.routes@.len() && i != j ==> ((
            #[trigger] self.routes@[i]).0@, self.routes@[i].1@) != ((#[trigger] self.routes@[j]).0@,
            self.routes@[j].1@)
        &&& forall|i: int|
            0 <= i < self.routes@.len() ==> !is_dynamic_path((#[trigger] self.routes@[i]).1@)
    }

    spec fn has_key_at(self, key: (MethodView, Seq<char>), i: int) -> bool {
        0 <= i < self.routes@.len() && (self.routes@[i].0@, self.routes@[i].1@) == key
    }

    /// The routes registered under an exact path, by method and path.
    pub closed spec fn static_routes(self) -> Map<(MethodView, Seq<char>), H> {
        Map::new(
            |key: (MethodView, Seq<char>)| exists|i: int| self.has_key_at(key, i),
            |key: (MethodView, Seq<char>)| self.routes@[choose|i: int| self.has_key_at(key, i)].2,
        )
    }

    /// The routes registered under a pattern, in order of registration.
    pub closed spec fn dynamic_routes(self) -> Seq<RouteView<H>> {
        self.dynamic_routes@.map_values(|e: (Method, String, H)| (e.0@, e.1@, e.2))
    }

    /// The handler that a request with method `m` and path `path` reaches:
    /// the exact route for both if there is one, else the first pattern
    /// route that applies.
    pub open spec fn lookup(self, m: MethodView, path: Seq<char>) -> Option<H> {
        if self.static_routes().contains_key((m, path)) {
            Some(self.static_routes()[(m, path)])
        } else {
            match first_match(self.dynamic_routes(), m, path) {
                Some(i) => Some(self.dynamic_routes()[i].2),
                None => None,
            }
        }
    }

    /// The parameters a request holds after resolution: those captured by
    /// the pattern route that it reaches, or the ones it had.
    pub open spec fn lookup_params(
        self,
        m: MethodView,
        path: Seq<char>,
        before: Map<Seq<char>, Seq<char>>,
    ) -> Map<Seq<char>, Seq<char>> {
        if self.static_routes().contains_key((m, path)) {
            before
        } else {
            match first_match(self.dynamic_routes(), m, path) {
                Some(i) => path_params(self.dynamic_routes()[i].1, path),
                None => before,
            }
        }
    }

    proof fn lemma_static_at(self, i: int)
        requires
            self.keys_unique(),
            0 <= i < self.routes@.len(),
        ensures
            self.static_routes().contains_key((self.routes@[i].0@, self.routes@[i].1@)),
            self.static_routes()[(self.routes@[i].0@, self.routes@[i].1@)] == self.routes@[i].2,
    {
        let key = (self.routes@[i].0@, self.routes@[i].1@);
        assert(self.has_key_at(key, i));
        let j = choose|j: int| self.has_key_at(key, j);
        if j != i {
            assert(self.routes@[i].0@ != self.routes@[j].0@ || self.routes@[i].1@
                != self.routes@[j].1@);
        }
    }

    /// An empty router.
    pub fn new() -> (r: Router<H>)
        ensures
            r.static_routes() == Map::<(MethodView, Seq<char>), H>::empty(),
            r.dynamic_routes() == Seq::<RouteView<H>>::empty(),
    {
        let r = Router { routes: Vec::new(), dynamic_routes: Vec::new() };
        assert(r.static_routes() =~= Map::<(MethodView, Seq<char>), H>::empty());
        assert(r.dynamic_routes() =~= Seq::<RouteView<H>>::empty());
        r
    }

    /// Registers `handler` for requests with method `method` and a path
    /// that `path` gives. A path that holds a `:` is a pattern, tried after
    /// the exact routes and after the patterns registered before it;
    /// another path is an exact route, which replaces any exact route of
    /// the same method and path.
    pub fn add(&mut self, method: Method, path: &str, handler: H)
        ensures
            is_dynamic_path(path@) ==> {
                &&& final(self).dynamic_routes() == old(self).dynamic_routes().push(
                    (method@, path@, handler),
                )
                &&& final(self).static_routes() == old(self).static_routes()
            },
            !is_dynamic_path(path@) ==> {
                &&& final(self).static_routes() == old(self).static_routes().insert(
                    (method@, path@),
                    handler,
                )
                &&& final(self).dynamic_routes() == old(self).dynamic_routes()
            },
    {
        proof {
            use_type_invariant(&*self);
        }
        let ghost m = method@;
        let ghost p = path@;
        let ghost h = handler;
        if has_colon(path) {
            let mut dynamic_routes: Vec<(Method, String, H)> = Vec::new();
            std::mem::swap(&mut dynamic_routes, &mut self.dynamic_routes);
            dynamic_routes.push((method, path.to_owned(), handler));
            self.dynamic_routes = dynamic_routes;
            assert(self.dynamic_routes() =~= old(self).dynamic_routes().push((m, p, h)));
            assert(self.routes@ == old(self).routes@);
            assert forall|q: (MethodView, Seq<char>)| #[trigger]
                self.static_routes().contains_key(q) == old(self).static_routes().contains_key(q) by {
                if self.static_routes().contains_key(q) {
                    let j = choose|j: int| self.has_key_at(q, j);
                    assert((*old(self)).has_key_at(q, j));
                }
                if old(self).static_routes().contains_key(q) {
                    let j = choose|j: int| (*old(self)).has_key_at(q, j);
                    assert(self.has_key_at(q, j));
                }
            }
            assert(self.static_routes() =~= old(self).static_routes());
        } else {
            let owned = path.to_owned();
            let found = self.static_position(&method, &owned);
            let ghost old_routes = self.routes@;
            let ghost old_map = old(self).static_routes();
            let mut routes: Vec<(Method, String, H)> = Vec::new();
            std::mem::swap(&mut routes, &mut self.routes);
            match found {
                Some(i) => {
                    routes.set(i, (method, owned, handler));
                    proof {
                        assert forall|a: int, b: int|
                            0 <= a < routes@.len() && 0 <= b < routes@.len() && a != b implies ((
                        #[trigger] routes@[a]).0@, routes@[a].1@) != ((#[trigger] routes@[b]).0@,
                        routes@[b].1@) by {
                            assert((old_routes[a].0@, old_routes[a].1@) != (old_routes[b].0@,
                            old_routes[b].1@));
                        }
                    }
                },
                None => {
                    proof {
                        assert forall|j: int| 0 <= j < old_routes.len() implies (
                        old_routes[j].0@, old_routes[j].1@) != (m, p) by {
                            if (old_routes[j].0@, old_routes[j].1@) == (m, p) {
                                assert((*old(self)).has_key_at((m, p), j));
                            }
                        }
                    }
                    routes.push((method, owned, handler));
                },
            }
            let ghost at: int = match found {
                Some(i) => i as int,
                None => old_routes.len() as int,
            };
            assert((routes@[at].0@, routes@[at].1@) == (m, p) && routes@[at].2 == h);
            self.routes = routes;
            proof {
                use_type_invariant(&*self);
                let n = self.routes@;
                let target = old_map.insert((m, p), h);
                assert forall|q: (MethodView, Seq<char>)| #[trigger]
                    self.static_routes().contains_key(q) == target.contains_key(q) by {
                    if self.static_routes().contains_key(q) {
                        let j = choose|j: int| self.has_key_at(q, j);
                        if q != (m, p) {
                            assert((*old(self)).has_key_at(q, j));
                        }
                    }
                    if target.contains_key(q) {
                        if q == (m, p) {
                            assert(self.has_key_at(q, at));
                        } else {
                            let j = choose|j: int| (*old(self)).has_key_at(q, j);
                            assert(self.has_key_at(q, j));
                        }
                    }
                }
                assert forall|q: (MethodView, Seq<char>)| self.static_routes().contains_key(q)
                    implies #[trigger] self.static_routes()[q] == target[q] by {
                    let j = choose|j: int| self.has_key_at(q, j);
                    self.lemma_static_at(j);
                    if q != (m, p) {
                        assert(old_routes[j] == n[j]);
                        (*old(self)).lemma_static_at(j);
                    }
                }
                assert(self.static_routes() =~= target);
                assert(self.dynamic_routes() =~= old(self).dynamic_routes());
            }
        }
    }

    /// Finds the handler for `req`: the exact route for its method and path
    /// if there is one, else the first pattern route of its method whose
    /// pattern matches its path, in which case the parameters the pattern
    /// captured replace those of `req`. A request that reaches nothing, or
    /// an exact route, keeps its parameters.
    pub fn resolve(&self, req: &mut Request) -> (r: Option<&H>)
        ensures
            r is Some <==> self.lookup(old(req).method@, old(req).path@) is Some,
            r matches Some(h) ==> *h == self.lookup(old(req).method@, old(req).path@)->0,
            final(req).method == old(req).method,
            final(req).path == old(req).path,
            final(req).params@ == self.lookup_params(
                old(req).method@,
                old(req).path@,
                old(req).params@,
            ),
    {
        proof {
            use_type_invariant(self);
        }
        match self.static_position(&req.method, &req.path) {
            Some(i) => {
                proof {
                    self.lemma_static_at(i as int);
                }
                return Some(&self.routes[i].2);
            },
            None => {},
        }
        let ghost dyn_view = self.dynamic_routes();
        let ghost m = req.method@;
        let ghost p = req.path@;
        let mut i: usize = 0;
        while i < self.dynamic_routes.len()
            invariant
                i <= self.dynamic_routes@.len(),
                dyn_view == self.dynamic_routes(),
                dyn_view.len() == self.dynamic_routes@.len(),
                m == req.method@,
                p == req.path@,
                req.method == old(req).method,
                req.path == old(req).path,
                req.params == old(req).params,
                !self.static_routes().contains_key((m, p)),
                forall|k: int| 0 <= k < i ==> !route_applies(#[trigger] dyn_view[k], m, p),
            decreases self.dynamic_routes@.len() - i,
        {
            let entry = &self.dynamic_routes[i];
            assert(dyn_view[i as int] == (entry.0@, entry.1@, entry.2));
            if entry.0.same_as(&req.method) {
                match match_pattern(entry.1.as_str(), req.path.as_str()) {
                    Some(params) => {
                        proof {
                            lemma_first_match(dyn_view, m, p, i as int);
                        }
                        req.params = params;
                        return Some(&entry.2);
                    },
                    None => {},
                }
            }
            i = i + 1;
        }
        proof {
            lemma_no_match(dyn_view, m, p);
        }
        None
    }

    /// The position of the exact route for `method` and `path`, if any.
    fn static_position(&self, method: &Method, path: &String) -> (r: Option<usize>)
        ensures
            match r {
                Some(i) => i < self.routes@.len() && self.routes@[i as int].0@ == method@
                    && self.routes@[i as int].1@ == path@,
                None => !self.static_routes().contains_key((method@, path@)),
            },
    {
        let mut i: usize = 0;
        while i < self.routes.len()
            invariant
                i <= self.routes@.len(),
                forall|j: int|
                    0 <= j < i ==> ((#[trigger] self.routes@[j]).0@, self.routes@[j].1@) != (
                    method@,
                    path@,
                    ),
            decreases self.routes@.len() - i,
        {
            if self.routes[i].0.same_as(method) && self.routes[i].1 == *path {
                return Some(i);
            }
            i = i + 1;
        }
        proof {
            if self.static_routes().contains_key((method@, path@)) {
                let j = choose|j: int| self.has_key_at((method@, path@), j);
                assert(((self.routes@[j]).0@, self.routes@[j].1@) == (method@, path@));
            }
        }
        None
    }
}

impl<H> Default for Router<H> {
    fn default() -> (r: Router<H>)
        ensures
            r.static_routes() == Map::<(MethodView, Seq<char>), H>::empty(),
            r.dynamic_routes() == Seq::<RouteView<H>>::empty(),
    {
        Router::new()
    }
}

/// What a write gives to a read, for exact routes: once `h` is registered
/// for method `m` and the path `p` (which holds no `:`), a request with that
/// method and path reaches `h` and keeps its parameters, whatever patterns
/// the router holds.
pub proof fn law_exact_route_reached<H>(
    before: Router<H>,
    after: Router<H>,
    m: MethodView,
    p: Seq<char>,
    h: H,
    params: Map<Seq<char>, Seq<char>>,
)
    requires
        !is_dynamic_path(p),
        after.static_routes() == before.static_routes().insert((m, p), h),
        after.dynamic_routes() == before.dynamic_routes(),
    ensures
        after.lookup(m, p) == Some(h),
        after.lookup_params(m, p, params) == params,
{
}

/// What a write gives to a read, for patterns: once `h` is registered for
/// method `m` and the pattern `pattern`, a request with that method whose
/// path the pattern matches, and which reached no route before, reaches `h`
/// and holds the parameters the pattern captured from its path.
pub proof fn law_pattern_route_reached<H>(
    before: Router<H>,
    after: Router<H>,
    m: MethodView,
    pattern: Seq<char>,
    h: H,
    path: Seq<char>,
    params: Map<Seq<char>, Seq<char>>,
)
    requires
        is_dynamic_path(pattern),
        after.dynamic_routes() == before.dynamic_routes().push((m, pattern, h)),
        after.static_routes() == before.static_routes(),
        pattern_matches(pattern, path),
        before.lookup(m, path) is None,
    ensures
        after.lookup(m, path) == Some(h),
        after.lookup_params(m, path, params) == path_params(pattern, path),
{
    lemma_first_match_push(before.dynamic_routes(), (m, pattern, h), m, path);
}

/// Patterns are tried in order of registration: registering a pattern
/// changes nothing for a request that already reached a route.
pub proof fn law_later_pattern_does_not_shadow<H>(
    before: Router<H>,
    after: Router<H>,
    m: MethodView,
    pattern: Seq<char>,
    h: H,
    m2: MethodView,
    path: Seq<char>,
    params: Map<Seq<char>, Seq<char>>,
)
    requires
        after.dynamic_routes() == before.dynamic_routes().push((m, pattern, h)),
        after.static_routes() == before.static_routes(),
        before.lookup(m2, path) is Some,
    ensures
        after.lookup(m2, path) == before.lookup(m2, path),
        after.lookup_params(m2, path, params) == before.lookup_params(m2, path, params),
{
    lemma_first_match_push(before.dynamic_routes(), (m, pattern, h), m2, path);
    if !before.static_routes().contains_key((m2, path)) {
        lemma_first_match_applies(before.dynamic_routes(), m2, path);
        let i = first_match(before.dynamic_routes(), m2, path)->0;
        assert(after.dynamic_routes()[i] == before.dynamic_routes()[i]);
    }
}

/// An exact route is preferred to every pattern: a request whose method
/// and path have an exact route reaches it, and keeps its parameters.
pub proof fn law_exact_route_first<H>(
    r: Router<H>,
    m: MethodView,
    path: Seq<char>,
    params: Map<Seq<char>, Seq<char>>,
)
    requires
        r.static_routes().contains_key((m, path)),
    ensures
        r.lookup(m, path) == Some(r.static_routes()[(m, path)]),
        r.lookup_params(m, path, params) == params,
{
}

/// An empty router reaches nothing.
pub proof fn law_empty_router_reaches_nothing<H>(r: Router<H>, m: MethodView, path: Seq<char>)
    requires
        r.static_routes() == Map::<(MethodView, Seq<char>), H>::empty(),
        r.dynamic_routes() == Seq::<RouteView<H>>::empty(),
    ensures
        r.lookup(m, path) is None,
{
}

} // verus!
