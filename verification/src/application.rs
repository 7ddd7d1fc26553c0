use vstd::prelude::*;
use vstd::string::StringExecFns;

use crate::error::AppError;
use crate::method::{Method, MethodView};
use crate::path::chars_of;
use crate::router::{Request, RouteView, Router};

verus! {

/// The full path of a route registered in a group: the group's prefix for
/// the path `/`, else the prefix followed by the path.
pub open spec fn group_path(prefix: Seq<char>, path: Seq<char>) -> Seq<char> {
    if path == seq!['/'] {
        prefix
    } else {
        prefix + path
    }
}

/// A group route's full path is the prefix followed by the path as it is
/// written, every character of it kept, unless the path is `/` alone, which
/// stands for the bare prefix.
pub proof fn law_group_path(prefix: Seq<char>, path: Seq<char>)
    ensures
        path == seq!['/'] ==> group_path(prefix, path) == prefix,
        path != seq!['/'] ==> {
            &&& group_path(prefix, path).len() == prefix.len() + path.len()
            &&& group_path(prefix, path).subrange(0, prefix.len() as int) == prefix
            &&& group_path(prefix, path).subrange(prefix.len() as int, (prefix.len() + path.len()) as int) == path
        },
{
    if path != seq!['/'] {
        let g = group_path(prefix, path);
        assert(g.subrange(0, prefix.len() as int) =~= prefix);
        assert(g.subrange(prefix.len() as int, (prefix.len() + path.len()) as int) =~= path);
    }
}

/// Computes `group_path` for a prefix and a path.
pub fn join_group_path(prefix: &String, path: &str) -> (r: String)
    ensures
        r@ == group_path(prefix@, path@),
        path@ == seq!['/'] ==> r@ == prefix@,
        path@ != seq!['/'] ==> r@ == prefix@ + path@,
{
    let c = chars_of(path);
    if c.len() == 1 && c[0] == '/' {
        assert(path@ =~= seq!['/']);
        prefix.clone()
    } else {
        assert(path@ != seq!['/']) by {
            if path@ == seq!['/'] {
                assert(c@.len() == 1 && c@[0] == '/');
            }
        }
        prefix.clone().concat(path)
    }
}

/// `hs` is the chain of handlers that `wrap` builds around `final_handler`
/// from `mws`: `hs[i]` is what `wrap` made of middleware `i` and `hs[i + 1]`,
/// and the last handler of the chain is `final_handler`. A request thus
/// goes through the middleware in order, the final handler last.
pub open spec fn is_chain<M, H, F: Fn(&M, H) -> H>(
    hs: Seq<H>,
    mws: Seq<M>,
    wrap: F,
    final_handler: H,
) -> bool {
    &&& hs.len() == mws.len() + 1
    &&& hs[mws.len() as int] == final_handler
    &&& forall|i: int| 0 <= i < mws.len() ==> call_ensures(wrap, (&mws[i], hs[i + 1]), #[trigger] hs[i])
}

/// Wraps `final_handler` in the middleware, the first middleware
/// outermost: the result runs `middlewares[0]` first, which hands on to the
/// chain built from the rest, and so on down to `final_handler`.
pub fn chain_middleware<M, H, F: Fn(&M, H) -> H>(middlewares: &[M], final_handler: H, wrap: F) -> (r:
    H)
    requires
        forall|i: int, h: H| 0 <= i < middlewares@.len() ==> call_requires(wrap, (&middlewares@[i], h)),
    ensures
        exists|hs: Seq<H>| is_chain(hs, middlewares@, wrap, final_handler) && hs[0] == r,
{
    let ghost mws = middlewares@;
    let ghost fin = final_handler;
    let mut cur = final_handler;
    let ghost mut hs: Seq<H> = seq![fin];
    let mut i = middlewares.len();
    while i > 0
        invariant
            mws == middlewares@,
            i <= mws.len(),
            forall|k: int, h: H| 0 <= k < mws.len() ==> call_requires(wrap, (&mws[k], h)),
            hs.len() == mws.len() - i + 1,
            hs[0] == cur,
            hs[hs.len() - 1] == fin,
            forall|j: int|
                0 <= j < hs.len() - 1 ==> call_ensures(wrap, (&mws[i + j], hs[j + 1]), #[trigger] hs[j]),
        decreases i,
    {
        i = i - 1;
        let ghost prev = hs;
        let next = wrap(&middlewares[i], cur);
        proof {
            hs = seq![next].add(prev);
            assert forall|j: int| 0 <= j < hs.len() - 1 implies call_ensures(
                wrap,
                (&mws[i + j], hs[j + 1]),
                #[trigger] hs[j],
            ) by {
                if j > 0 {
                    assert(hs[j] == prev[j - 1]);
                    assert(hs[j + 1] == prev[j]);
                    assert(mws[i + j] == mws[(i + 1) + (j - 1)]);
                }
            }
        }
        cur = next;
    }
    assert(is_chain(hs, mws, wrap, fin));
    cur
}

/// Middleware runs in the order in which it was added: in a chain built
/// from the middleware with `mw` added last, `mw` wraps the final handler
/// directly, and the outermost layer, which a request meets first, is built
/// from the middleware added first.
pub proof fn law_middleware_order<M, H, F: Fn(&M, H) -> H>(
    mws: Seq<M>,
    mw: M,
    hs: Seq<H>,
    wrap: F,
    final_handler: H,
)
    requires
        is_chain(hs, mws.push(mw), wrap, final_handler),
    ensures
        call_ensures(wrap, (&mw, final_handler), hs[mws.len() as int]),
        mws.len() > 0 ==> call_ensures(wrap, (&mws[0], hs[1]), hs[0]),
{
    let all = mws.push(mw);
    assert(all[mws.len() as int] == mw);
    assert(hs[mws.len() + 1int] == final_handler);
    if mws.len() > 0 {
        assert(all[0] == mws[0]);
    }
}

/// Chaining is associative over the middleware list: a chain built from
/// `ms1` followed by `ms2` is a chain built from `ms2` around the final
/// handler, with a chain built from `ms1` around that.
pub proof fn law_chain_splits<M, H, F: Fn(&M, H) -> H>(
    ms1: Seq<M>,
    ms2: Seq<M>,
    hs: Seq<H>,
    wrap: F,
    final_handler: H,
)
    requires
        is_chain(hs, ms1 + ms2, wrap, final_handler),
    ensures
        is_chain(hs.subrange(ms1.len() as int, hs.len() as int), ms2, wrap, final_handler),
        is_chain(hs.subrange(0, ms1.len() + 1int), ms1, wrap, hs[ms1.len() as int]),
{
    let all = ms1 + ms2;
    let n1 = ms1.len() as int;
    let inner = hs.subrange(n1, hs.len() as int);
    let outer = hs.subrange(0, n1 + 1);
    assert forall|i: int| 0 <= i < ms2.len() implies call_ensures(
        wrap,
        (&ms2[i], inner[i + 1]),
        #[trigger] inner[i],
    ) by {
        assert(all[n1 + i] == ms2[i]);
        assert(inner[i] == hs[n1 + i]);
        assert(inner[i + 1] == hs[n1 + i + 1]);
    }
    assert forall|i: int| 0 <= i < ms1.len() implies call_ensures(
        wrap,
        (&ms1[i], outer[i + 1]),
        #[trigger] outer[i],
    ) by {
        assert(all[i] == ms1[i]);
        assert(outer[i] == hs[i]);
        assert(outer[i + 1] == hs[i + 1]);
    }
}

/// The other way round: a chain built from `ms1` around the outermost
/// handler of a chain built from `ms2` makes, together with it, a chain
/// built from `ms1` followed by `ms2`.
pub proof fn law_chain_nests<M, H, F: Fn(&M, H) -> H>(
    ms1: Seq<M>,
    ms2: Seq<M>,
    hs1: Seq<H>,
    hs2: Seq<H>,
    wrap: F,
    final_handler: H,
)
    requires
        is_chain(hs2, ms2, wrap, final_handler),
        is_chain(hs1, ms1, wrap, hs2[0]),
    ensures
        is_chain(hs1.take(ms1.len() as int) + hs2, ms1 + ms2, wrap, final_handler),
{
    let all = ms1 + ms2;
    let n1 = ms1.len() as int;
    let hs = hs1.take(n1) + hs2;
    assert forall|i: int| 0 <= i < all.len() implies call_ensures(
        wrap,
        (&all[i], hs[i + 1]),
        #[trigger] hs[i],
    ) by {
        if i < n1 {
            assert(all[i] == ms1[i]);
            assert(hs[i] == hs1[i]);
            if i + 1 < n1 {
                assert(hs[i + 1] == hs1[i + 1]);
            } else {
                assert(hs[i + 1] == hs2[0]);
            }
        } else {
            assert(all[i] == ms2[i - n1]);
            assert(hs[i] == hs2[i - n1]);
            assert(hs[i + 1] == hs2[i - n1 + 1]);
        }
    }
    assert(hs[all.len() as int] == hs2[ms2.len() as int]);
}

/// The handler a request goes to, or `AppError::NotFound` when no route
/// reached it.
pub fn handler_or_not_found<'a, H>(found: Option<&'a H>) -> (r: Result<&'a H, AppError>)
    ensures
        match found {
            Some(h) => r == Ok::<&'a H, AppError>(h),
            None => r matches Err(AppError::NotFound),
        },
{
    match found {
        Some(h) => Ok(h),
        None => Err(AppError::NotFound),
    }
}

/// The application: a router and the middleware that wraps every handler,
/// in the order in which it was added.
pub struct App<H, M> {
    router: Router<H>,
    middlewares: Vec<M>,
}

impl<H, M> App<H, M> {
    /// The router of the application.
    pub closed spec fn router_view(self) -> Router<H> {
        self.router
    }

    /// The middleware of the application, in the order it was added.
    pub closed spec fn middleware_seq(self) -> Seq<M> {
        self.middlewares@
    }

    /// An application with no route and no middleware.
    pub fn new() -> (a: App<H, M>)
        ensures
            a.router_view().static_routes() == Map::<(MethodView, Seq<char>), H>::empty(),
            a.router_view().dynamic_routes() == Seq::<RouteView<H>>::empty(),
            a.middleware_seq() == Seq::<M>::empty(),
    {
        App { router: Router::new(), middlewares: Vec::new() }
    }

    /// Adds a middleware after those already added.
    pub fn with_middleware(self, mw: M) -> (a: App<H, M>)
        ensures
            a.middleware_seq() == self.middleware_seq().push(mw),
            a.router_view() == self.router_view(),
    {
        let mut s = self;
        s.middlewares.push(mw);
        s
    }

    /// Registers a route with the application's router, as `Router::add` does.
    pub fn route(&mut self, method: Method, path: &str, handler: H)
        ensures
            crate::router::is_dynamic_path(path@) ==> {
                &&& final(self).router_view().dynamic_routes() == old(
                    self,
                ).router_view().dynamic_routes().push((method@, path@, handler))
                &&& final(self).router_view().static_routes() == old(
                    self,
                ).router_view().static_routes()
            },
            !crate::router::is_dynamic_path(path@) ==> {
                &&& final(self).router_view().static_routes() == old(
                    self,
                ).router_view().static_routes().insert((method@, path@), handler)
                &&& final(self).router_view().dynamic_routes() == old(
                    self,
                ).router_view().dynamic_routes()
            },
            final(self).middleware_seq() == old(self).middleware_seq(),
    {
        self.router.add(method, path, handler);
    }

    /// A group of routes whose paths all begin with `prefix`. The group
    /// borrows the application: what its routes do to `target()` is what
    /// the application holds once the group is done with
    /// (`RouteGroup::lemma_group_released`, for a caller's proof).
    pub fn group(&mut self, prefix: &str) -> (g: RouteGroup<'_, H, M>)
        ensures
            g.prefix_text() == prefix@,
            *g.target() == *old(self),
            *final(self) == *final(g.target()),
    {
        RouteGroup { prefix: prefix.to_owned(), app: self }
    }

    /// The router.
    pub fn router(&self) -> (r: &Router<H>)
        ensures
            *r == self.router_view(),
    {
        &self.router
    }

    /// The middleware, in the order it was added.
    pub fn middlewares(&self) -> (m: &[M])
        ensures
            m@ == self.middleware_seq(),
    {
        self.middlewares.as_slice()
    }

    /// Finds the handler for a request as the server does: through the
    /// application's router, and when that finds none, through the router
    /// of static files, if there is one.
    pub fn find_handler<'a>(&'a self, static_router: Option<&'a Router<H>>, req: &mut Request) -> (r:
        Option<&'a H>)
        ensures
            r is Some <==> (self.router_view().lookup(old(req).method@, old(req).path@) is Some || (
            static_router matches Some(s) && s.lookup(old(req).method@, old(req).path@) is Some)),
            r matches Some(h) ==> *h == (if self.router_view().lookup(
                old(req).method@,
                old(req).path@,
            ) is Some {
                self.router_view().lookup(old(req).method@, old(req).path@)->0
            } else {
                static_router->0.lookup(old(req).method@, old(req).path@)->0
            }),
            final(req).method == old(req).method,
            final(req).path == old(req).path,
            final(req).params@ == (if self.router_view().lookup(old(req).method@, old(req).path@) is Some
                || static_router is None {
                self.router_view().lookup_params(
                    old(req).method@,
                    old(req).path@,
                    old(req).params@,
                )
            } else {
                static_router->0.lookup_params(
                    old(req).method@,
                    old(req).path@,
                    old(req).params@,
                )
            }),
    {
        match self.router.resolve(req) {
            Some(h) => Some(h),
            None => match static_router {
                Some(s) => s.resolve(req),
                None => None,
            },
        }
    }
}

impl<H, M> Default for App<H, M> {
    fn default() -> (a: App<H, M>)
        ensures
            a.router_view().static_routes() == Map::<(MethodView, Seq<char>), H>::empty(),
            a.router_view().dynamic_routes() == Seq::<RouteView<H>>::empty(),
            a.middleware_seq() == Seq::<M>::empty(),
    {
        App::new()
    }
}

/// Routes registered under a common path prefix.
pub struct RouteGroup<'a, H, M> {
    prefix: String,
    app: &'a mut App<H, M>,
}

impl<'a, H, M> RouteGroup<'a, H, M> {
    /// The prefix of the group's paths.
    pub closed spec fn prefix_text(self) -> Seq<char> {
        self.prefix@
    }

    /// The application the group registers its routes with.
    pub closed spec fn target(self) -> &'a mut App<H, M> {
        self.app
    }

    /// When a group is done with, so is its borrow of the application: the
    /// application's final value is the one the group leaves it with.
    pub broadcast proof fn lemma_group_released(self)
        requires
            #[trigger] has_resolved(self),
        ensures
            *self.target() == *final(self.target()),
    {
    }

    /// Registers a route of the group: its path is `group_path` of the
    /// group's prefix and `path`. Returns the group, for chaining.
    pub fn route(&mut self, method: Method, path: &str, handler: H) -> (r: &mut Self)
        ensures
            crate::router::is_dynamic_path(group_path(old(self).prefix_text(), path@)) ==> {
                &&& (*r).target().router_view().dynamic_routes() == old(self).target().router_view().dynamic_routes().push(
                    (method@, group_path(old(self).prefix_text(), path@), handler),
                )
                &&& (*r).target().router_view().static_routes() == old(self).target().router_view().static_routes()
            },
            !crate::router::is_dynamic_path(group_path(old(self).prefix_text(), path@)) ==> {
                &&& (*r).target().router_view().static_routes() == old(self).target().router_view().static_routes().insert(
                    (method@, group_path(old(self).prefix_text(), path@)),
                    handler,
                )
                &&& (*r).target().router_view().dynamic_routes() == old(self).target().router_view().dynamic_routes()
            },
            (*r).target().middleware_seq() == old(self).target().middleware_seq(),
            (*r).prefix_text() == old(self).prefix_text(),
            *final((*r).target()) == *final(old(self).target()),
            *final(self) == *final(r),
    {
        let full = join_group_path(&self.prefix, path);
        self.app.route(method, full.as_str(), handler);
        self
    }
}

} // verus!
