//! The router: route patterns with their method bindings and the middleware
//! that was in force when each was first bound.

use vstd::prelude::*;
use path_table::PathTable;
use crate::params::{bound, RouteMatch, RouteMatchView};
use crate::pattern::{
    coherent, joins, key_is_plain, keys_compatible, lemma_compatible_symmetric,
    lemma_joins_admits, lemma_trie_plain, lemma_trie_values, lemma_unshadowed, overshadowed,
    position, same_key, trie_of,
};
use crate::table::{
    captured, hit_view, spells, table_new, table_nodes, table_put, table_route, table_walk,
    walk_facts,
};
use crate::text::{rows_view, same_text, segments_of, split_segments};

verus! {

/// The number under which the application keeps an endpoint.
#[derive(Clone, Copy, PartialEq, Eq, Structural, Debug)]
pub struct EndpointId(pub usize);

/// The number under which the application keeps a middleware.
#[derive(Clone, Copy, PartialEq, Eq, Structural, Debug)]
pub struct MiddlewareId(pub usize);

/// One route as mathematics: its pattern as first written, the endpoint
/// bound to each method, and the middleware that runs before them.
pub struct RouteView {
    pub pattern: Seq<char>,
    pub bindings: Seq<(Seq<char>, EndpointId)>,
    pub middleware: Seq<MiddlewareId>,
}

/// A router as mathematics: its routes in the order in which their patterns
/// first appeared, and the middleware added so far.
pub struct RouterView {
    pub routes: Seq<RouteView>,
    pub stack: Seq<MiddlewareId>,
}

/// The answer to a successful lookup, as mathematics.
pub struct RouteResultView {
    pub endpoint: EndpointId,
    pub params: RouteMatchView,
    pub middleware: Seq<MiddlewareId>,
}

/// The segments of each route's pattern.
pub open spec fn keys(routes: Seq<RouteView>) -> Seq<Seq<Seq<char>>> {
    routes.map_values(|r: RouteView| split_segments(r.pattern))
}

/// `at` is the first place in `bindings` that binds `method`.
pub open spec fn is_first(bindings: Seq<(Seq<char>, EndpointId)>, method: Seq<char>, at: int) -> bool {
    &&& 0 <= at < bindings.len()
    &&& bindings[at].0 == method
    &&& forall|k: int| 0 <= k < at ==> (#[trigger] bindings[k]).0 != method
}

/// The first place in `bindings` that binds `method`, if any does.
pub open spec fn binding_index(bindings: Seq<(Seq<char>, EndpointId)>, method: Seq<char>) -> Option<
    int,
> {
    if exists|at: int| is_first(bindings, method, at) {
        Some(choose|at: int| is_first(bindings, method, at))
    } else {
        None
    }
}

/// The endpoint that `bindings` give for `method`, if any.
pub open spec fn endpoint_for(bindings: Seq<(Seq<char>, EndpointId)>, method: Seq<char>) -> Option<
    EndpointId,
> {
    match binding_index(bindings, method) {
        Some(at) => Some(bindings[at].1),
        None => None,
    }
}

/// `bindings` with `method` bound to `endpoint`: in place of the earlier
/// binding of that method, or at the end where there was none.
pub open spec fn rebind(
    bindings: Seq<(Seq<char>, EndpointId)>,
    method: Seq<char>,
    endpoint: EndpointId,
) -> Seq<(Seq<char>, EndpointId)> {
    match binding_index(bindings, method) {
        Some(at) => bindings.update(at, (method, endpoint)),
        None => bindings.push((method, endpoint)),
    }
}

/// A route after `method` has been bound to `endpoint` while `stack` was in
/// force: the first binding of a route fixes its middleware.
pub open spec fn bound_route(
    route: RouteView,
    stack: Seq<MiddlewareId>,
    method: Seq<char>,
    endpoint: EndpointId,
) -> RouteView {
    RouteView {
        pattern: route.pattern,
        bindings: rebind(route.bindings, method, endpoint),
        middleware: if route.bindings.len() == 0 {
            stack
        } else {
            route.middleware
        },
    }
}

/// The route that a pattern starts as: nothing bound, no middleware.
pub open spec fn fresh_route(pattern: Seq<char>) -> RouteView {
    RouteView { pattern, bindings: Seq::empty(), middleware: Seq::empty() }
}

/// The routes after `pattern` has been asked for: as before where a route
/// has the same segments, with a fresh route at the end otherwise.
pub open spec fn routes_with(routes: Seq<RouteView>, pattern: Seq<char>) -> Seq<RouteView> {
    match position(keys(routes), split_segments(pattern)) {
        Some(_) => routes,
        None => routes.push(fresh_route(pattern)),
    }
}

/// Where the route for `pattern` stands once it has been asked for.
pub open spec fn index_of(routes: Seq<RouteView>, pattern: Seq<char>) -> int {
    match position(keys(routes), split_segments(pattern)) {
        Some(at) => at,
        None => routes.len() as int,
    }
}

/// The router after `endpoint` has been registered for `method` under
/// `pattern`: the route for the pattern is there, and binds the method to
/// the endpoint.
pub open spec fn registered(
    router: RouterView,
    pattern: Seq<char>,
    method: Seq<char>,
    endpoint: EndpointId,
) -> RouterView {
    let with = routes_with(router.routes, pattern);
    let at = index_of(router.routes, pattern);
    RouterView {
        routes: with.update(at, bound_route(with[at], router.stack, method, endpoint)),
        stack: router.stack,
    }
}

/// The pattern of a nested route: the outer pattern, a `/`, the inner one.
pub open spec fn joined(prefix: Seq<char>, inner: Seq<char>) -> Seq<char> {
    prefix + seq!['/'] + inner
}

/// A route of a nested router as it stands in the outer one: under
/// `pattern`, with the outer router's middleware before its own.
pub open spec fn nested_route(pattern: Seq<char>, stack: Seq<MiddlewareId>, inner: RouteView) -> RouteView {
    RouteView { pattern, bindings: inner.bindings, middleware: stack + inner.middleware }
}

/// The routes after the first `n` routes of a nested router have been put
/// under `prefix`, one after the other: each takes the place of the route
/// with the same segments, or goes to the end where there is none.
pub open spec fn mounted(
    routes: Seq<RouteView>,
    stack: Seq<MiddlewareId>,
    prefix: Seq<char>,
    inner: Seq<RouteView>,
    n: int,
) -> Seq<RouteView>
    decreases n,
{
    if n <= 0 {
        routes
    } else {
        let before = mounted(routes, stack, prefix, inner, n - 1);
        let pattern = joined(prefix, inner[n - 1].pattern);
        let with = routes_with(before, pattern);
        let at = index_of(before, pattern);
        with.update(at, nested_route(with[at].pattern, stack, inner[n - 1]))
    }
}

/// `key` is one of `olds`, or one of the first `n` of `news` put under
/// `head`.
pub open spec fn stems_from(
    key: Seq<Seq<char>>,
    olds: Seq<Seq<Seq<char>>>,
    head: Seq<Seq<char>>,
    news: Seq<Seq<Seq<char>>>,
    n: int,
) -> bool {
    ||| exists|m: int| 0 <= m < olds.len() && #[trigger] olds[m] == key
    ||| exists|i: int| 0 <= i < n && i < news.len() && head + #[trigger] news[i] == key
}

/// Every route of a nested router can be asked for under `prefix`.
pub open spec fn mountable(routes: Seq<RouteView>, prefix: Seq<char>, inner: Seq<RouteView>) -> bool {
    forall|j: int|
        0 <= j < inner.len() ==> joins(
            keys(routes),
            split_segments(joined(prefix, (#[trigger] inner[j]).pattern)),
        )
}

/// The route's pattern fits the path: as many segments, and each segment of
/// the pattern either captures or equals the path's.
pub open spec fn fits(route: RouteView, path: Seq<char>) -> bool {
    spells(split_segments(route.pattern), split_segments(path))
}

/// What a route answers to `method` on a path that it fits: the endpoint
/// bound to the method, the segments that stand where the pattern captures,
/// in order, and the route's middleware; nothing where the method is not
/// bound.
pub open spec fn answer(route: RouteView, path: Seq<char>, method: Seq<char>) -> Option<
    RouteResultView,
> {
    match endpoint_for(route.bindings, method) {
        Some(endpoint) => Some(
            RouteResultView {
                endpoint,
                params: bound(
                    split_segments(route.pattern),
                    captured(split_segments(route.pattern), split_segments(path)),
                ),
                middleware: route.middleware,
            },
        ),
        None => None,
    }
}

/// What the router makes of a table lookup's outcome.
pub open spec fn resolved(
    routes: Seq<RouteView>,
    hit: Option<(usize, Seq<Seq<char>>)>,
    method: Seq<char>,
) -> Option<RouteResultView> {
    match hit {
        Some((at, caps)) => if at < routes.len() {
            match endpoint_for(routes[at as int].bindings, method) {
                Some(endpoint) => Some(
                    RouteResultView {
                        endpoint,
                        params: bound(split_segments(routes[at as int].pattern), caps),
                        middleware: routes[at as int].middleware,
                    },
                ),
                None => None,
            }
        } else {
            None
        },
        None => None,
    }
}

/// Another route's literal segment draws lookups of `path` away from the
/// route at `at`.
pub open spec fn shadowed(routes: Seq<RouteView>, at: int, path: Seq<char>) -> bool {
    overshadowed(keys(routes), at, split_segments(path))
}

/// Binding a method anew replaces what was bound to it and leaves the other
/// methods as they were.
pub proof fn lemma_rebind(
    bindings: Seq<(Seq<char>, EndpointId)>,
    method: Seq<char>,
    endpoint: EndpointId,
    other: Seq<char>,
)
    ensures
        endpoint_for(rebind(bindings, method, endpoint), method) == Some(endpoint),
        other != method ==> endpoint_for(rebind(bindings, method, endpoint), other) == endpoint_for(
            bindings,
            other,
        ),
{
    let after = rebind(bindings, method, endpoint);
    match binding_index(bindings, method) {
        Some(at) => {
            assert(is_first(bindings, method, at));
            assert(is_first(after, method, at)) by {
                assert forall|k: int| 0 <= k < at implies (#[trigger] after[k]).0 != method by {
                    assert(bindings[k].0 != method);
                }
            }
            let chosen = choose|c: int| is_first(after, method, c);
            assert(chosen == at) by {
                if chosen < at {
                    assert(after[chosen].0 != method);
                }
                if at < chosen {
                    assert(after[at].0 != method);
                }
            }
        },
        None => {
            let at = bindings.len() as int;
            assert(is_first(after, method, at)) by {
                assert forall|k: int| 0 <= k < at implies (#[trigger] after[k]).0 != method by {
                    if bindings[k].0 == method {
                        lemma_some_first(bindings, method, k);
                    }
                }
            }
            let chosen = choose|c: int| is_first(after, method, c);
            assert(chosen == at) by {
                if chosen < at {
                    assert(after[chosen].0 != method);
                }
                if at < chosen {
                    assert(after[at].0 != method);
                }
            }
        },
    }
    if other != method {
        assert forall|c: int| is_first(after, other, c) <==> is_first(bindings, other, c) by {
            if is_first(after, other, c) {
                assert(c < bindings.len()) by {
                    if c >= bindings.len() {
                        assert(after[c].0 == method);
                    }
                }
                assert(after[c].0 == bindings[c].0);
                assert forall|k: int| 0 <= k < c implies (#[trigger] bindings[k]).0 != other by {
                    assert(after[k].0 != other);
                    if bindings[k].0 != after[k].0 {
                    }
                }
            }
            if is_first(bindings, other, c) {
                assert(after[c] == bindings[c]) by {
                    if after[c] != bindings[c] {
                        assert(bindings[c].0 == method);
                    }
                }
                assert forall|k: int| 0 <= k < c implies (#[trigger] after[k]).0 != other by {
                    assert(bindings[k].0 != other);
                }
            }
        }
        if exists|c: int| is_first(bindings, other, c) {
            let c = choose|c: int| is_first(bindings, other, c);
            assert(is_first(after, other, c));
            let d = choose|d: int| is_first(after, other, d);
            assert(is_first(bindings, other, d));
            assert(c == d) by {
                if c < d {
                    assert(bindings[c].0 != other);
                }
                if d < c {
                    assert(bindings[d].0 != other);
                }
            }
            assert(after[c] == bindings[c]) by {
                if after[c] != bindings[c] {
                    assert(bindings[c].0 == method);
                }
            }
        } else {
            assert forall|c: int| !is_first(after, other, c) by {
                if is_first(after, other, c) {
                    assert(is_first(bindings, other, c));
                }
            }
        }
    }
}

/// What has been registered is there: the route for the pattern fits the
/// paths that the pattern fits, binds the method to the endpoint, and runs
/// the middleware that was in force when the route was first bound.
pub proof fn lemma_registered_answers(
    router: RouterView,
    pattern: Seq<char>,
    method: Seq<char>,
    endpoint: EndpointId,
    path: Seq<char>,
)
    ensures
        ({
            let at = index_of(router.routes, pattern);
            let after = registered(router, pattern, method, endpoint).routes;
            &&& 0 <= at < after.len()
            &&& fits(after[at], path) == spells(split_segments(pattern), split_segments(path))
            &&& endpoint_for(after[at].bindings, method) == Some(endpoint)
            &&& after[at].middleware == if at < router.routes.len()
                && router.routes[at].bindings.len() > 0 {
                router.routes[at].middleware
            } else {
                router.stack
            }
        }),
{
    let with = routes_with(router.routes, pattern);
    let at = index_of(router.routes, pattern);
    match position(keys(router.routes), split_segments(pattern)) {
        Some(found) => {
            assert(keys(router.routes)[found] == split_segments(pattern));
        },
        None => {},
    }
    lemma_rebind(with[at].bindings, method, endpoint, method);
}

/// Where a method is bound at all, it is bound at a first place.
pub proof fn lemma_some_first(bindings: Seq<(Seq<char>, EndpointId)>, method: Seq<char>, at: int)
    requires
        0 <= at < bindings.len(),
        bindings[at].0 == method,
    ensures
        exists|c: int| is_first(bindings, method, c),
    decreases at,
{
    if exists|k: int| 0 <= k < at && (#[trigger] bindings[k]).0 == method {
        let k = choose|k: int| 0 <= k < at && (#[trigger] bindings[k]).0 == method;
        lemma_some_first(bindings, method, k);
    } else {
        assert(is_first(bindings, method, at));
    }
}

/// Every route of a nested router stands in the outer router afterwards:
/// under the outer pattern's segments followed by its own, with its own
/// bindings, and with the outer router's middleware before its own.
pub proof fn lemma_mounted_holds(
    routes: Seq<RouteView>,
    stack: Seq<MiddlewareId>,
    prefix: Seq<char>,
    inner: Seq<RouteView>,
    n: int,
    j: int,
)
    requires
        0 <= j < n <= inner.len(),
        forall|a: int, b: int|
            0 <= a < inner.len() && 0 <= b < inner.len() && a != b ==> #[trigger] keys(inner)[a]
                != #[trigger] keys(inner)[b],
    ensures
        exists|k: int|
            0 <= k < mounted(routes, stack, prefix, inner, n).len() && split_segments(
                (#[trigger] mounted(routes, stack, prefix, inner, n)[k]).pattern,
            ) == split_segments(prefix) + split_segments(inner[j].pattern) && mounted(
                routes,
                stack,
                prefix,
                inner,
                n,
            )[k].bindings == inner[j].bindings && mounted(routes, stack, prefix, inner, n)[k].middleware
                == stack + inner[j].middleware,
    decreases n,
{
    let before = mounted(routes, stack, prefix, inner, n - 1);
    let after = mounted(routes, stack, prefix, inner, n);
    let pattern = joined(prefix, inner[n - 1].pattern);
    let with = routes_with(before, pattern);
    let at = index_of(before, pattern);
    let head = split_segments(prefix);
    crate::text::lemma_split_join(prefix, inner[n - 1].pattern);
    assert(0 <= at < with.len() && split_segments(with[at].pattern) == split_segments(pattern)) by {
        match position(keys(before), split_segments(pattern)) {
            Some(found) => {
                assert(keys(before)[found] == split_segments(pattern));
            },
            None => {},
        }
    }
    if j == n - 1 {
        assert(after[at].bindings == inner[j].bindings);
    } else {
        lemma_mounted_holds(routes, stack, prefix, inner, n - 1, j);
        let k = choose|k: int|
            0 <= k < before.len() && split_segments((#[trigger] before[k]).pattern) == head
                + split_segments(inner[j].pattern) && before[k].bindings == inner[j].bindings
                && before[k].middleware == stack + inner[j].middleware;
        assert(with[k] == before[k]);
        if at == k {
            crate::text::lemma_split_join(prefix, inner[j].pattern);
            let a = split_segments(inner[j].pattern);
            let b = split_segments(inner[n - 1].pattern);
            assert(head + a == head + b);
            assert(a =~= b) by {
                assert((head + a).len() == head.len() + a.len());
                assert((head + b).len() == head.len() + b.len());
                assert forall|m: int| 0 <= m < a.len() implies a[m] == b[m] by {
                    assert((head + a)[head.len() + m] == (head + b)[head.len() + m]);
                }
            }
            assert(keys(inner)[j] == keys(inner)[n - 1]);
        }
        assert(after[k] == before[k]);
    }
}

/// One route: a pattern, its segments, the endpoint bound to each method and
/// the middleware that runs before them.
pub struct Route {
    pub pattern: String,
    pub segments: Vec<Vec<char>>,
    pub bindings: Vec<(String, EndpointId)>,
    pub middleware: Vec<MiddlewareId>,
}

/// Bindings with their methods as sequences of characters.
pub open spec fn bindings_view(bindings: Seq<(String, EndpointId)>) -> Seq<(Seq<char>, EndpointId)> {
    bindings.map_values(|b: (String, EndpointId)| (b.0@, b.1))
}

impl View for Route {
    type V = RouteView;

    open spec fn view(&self) -> RouteView {
        RouteView {
            pattern: self.pattern@,
            bindings: bindings_view(self.bindings@),
            middleware: self.middleware@,
        }
    }
}

/// Routes as mathematics.
pub open spec fn routes_view(routes: Seq<Route>) -> Seq<RouteView> {
    routes.map_values(|r: Route| r@)
}

/// The answer to a successful lookup: the endpoint to run, what the pattern
/// captured, and the middleware to run first, outermost first.
pub struct RouteResult {
    pub endpoint: EndpointId,
    pub params: RouteMatch,
    pub middleware: Vec<MiddlewareId>,
}

impl View for RouteResult {
    type V = RouteResultView;

    open spec fn view(&self) -> RouteResultView {
        RouteResultView {
            endpoint: self.endpoint,
            params: self.params@,
            middleware: self.middleware@,
        }
    }
}

/// An optional answer as mathematics.
pub open spec fn answer_view(found: Option<RouteResult>) -> Option<RouteResultView> {
    match found {
        Some(result) => Some(result@),
        None => None,
    }
}

/// The middleware numbers of `source`, copied.
pub fn copy_ids(source: &Vec<MiddlewareId>) -> (copy: Vec<MiddlewareId>)
    ensures
        copy@ == source@,
{
    let mut copy: Vec<MiddlewareId> = Vec::new();
    let mut i: usize = 0;
    while i < source.len()
        invariant
            i <= source.len(),
            copy@ == source@.take(i as int),
        decreases source.len() - i,
    {
        copy.push(source[i]);
        i = i + 1;
    }
    assert(source@.take(source@.len() as int) =~= source@);
    copy
}

/// The place of the first binding of `method`, if there is one.
pub fn find_binding(bindings: &Vec<(String, EndpointId)>, method: &str) -> (found: Option<usize>)
    ensures
        match found {
            Some(at) => binding_index(bindings_view(bindings@), method@) == Some(at as int)
                && at < bindings.len(),
            None => binding_index(bindings_view(bindings@), method@) is None,
        },
{
    let ghost view = bindings_view(bindings@);
    let mut i: usize = 0;
    while i < bindings.len()
        invariant
            i <= bindings.len(),
            view == bindings_view(bindings@),
            forall|k: int| 0 <= k < i ==> (#[trigger] view[k]).0 != method@,
        decreases bindings.len() - i,
    {
        if same_text(bindings[i].0.as_str(), method) {
            assert(is_first(view, method@, i as int));
            let ghost chosen = choose|at: int| is_first(view, method@, at);
            assert(chosen == i) by {
                if chosen < i {
                    assert(view[chosen].0 != method@);
                }
                if i < chosen {
                    assert(view[i as int].0 != method@);
                }
            }
            return Some(i);
        }
        assert(view[i as int].0 != method@);
        i = i + 1;
    }
    assert forall|at: int| !is_first(view, method@, at) by {
        if 0 <= at < view.len() {
            assert(view[at].0 != method@);
        }
    }
    None
}

/// A table of route patterns, each with the endpoints bound to its methods,
/// and the middleware added so far.
pub struct Router {
    table: PathTable<usize>,
    routes: Vec<Route>,
    stack: Vec<MiddlewareId>,
}

impl View for Router {
    type V = RouterView;

    closed spec fn view(&self) -> RouterView {
        RouterView { routes: routes_view(self.routes@), stack: self.stack@ }
    }
}

impl Router {
    /// The router is in order: its table holds exactly its routes' patterns,
    /// which are coherent.
    pub closed spec fn wf(&self) -> bool {
        &&& table_nodes(self.table) == trie_of(keys(self@.routes))
        &&& coherent(keys(self@.routes))
        &&& forall|i: int|
            0 <= i < self.routes.len() ==> rows_view((#[trigger] self.routes[i]).segments@)
                == split_segments(self.routes[i].pattern@)
    }

    /// A router without routes or middleware.
    pub fn new() -> (router: Router)
        ensures
            router.wf(),
            router@ == (RouterView { routes: Seq::empty(), stack: Seq::empty() }),
    {
        let router = Router { table: table_new(), routes: Vec::new(), stack: Vec::new() };
        assert(router@.routes =~= Seq::empty());
        assert(keys(router@.routes) =~= Seq::empty());
        router
    }

    /// Adds `middleware` after the middleware already there. Routes that get
    /// their first binding from now on run it; those bound before do not.
    pub fn middleware(&mut self, middleware: MiddlewareId) -> (router: &mut Self)
        requires
            old(self).wf(),
        ensures
            router.wf(),
            router@ == (RouterView {
                routes: old(self)@.routes,
                stack: old(self)@.stack.push(middleware),
            }),
            *final(self) == *final(router),
    {
        self.stack.push(middleware);
        self
    }

    /// Whether `pattern` can be asked for: it has no catch-all segment, and
    /// where it captures it does not part ways with a route that captures
    /// under another name.
    pub fn accepts(&self, pattern: &str) -> (ok: bool)
        requires
            self.wf(),
        ensures
            ok == joins(keys(self@.routes), split_segments(pattern@)),
    {
        let key = segments_of(pattern);
        if !key_is_plain(&key) {
            return false;
        }
        let ghost all = keys(self@.routes);
        let mut i: usize = 0;
        while i < self.routes.len()
            invariant
                self.wf(),
                all == keys(self@.routes),
                i <= self.routes.len(),
                rows_view(key@) == split_segments(pattern@),
                forall|k: int|
                    0 <= k < i ==> crate::pattern::compatible(#[trigger] all[k], rows_view(key@)),
            decreases self.routes.len() - i,
        {
            assert(all[i as int] == rows_view(self.routes[i as int].segments@));
            if !keys_compatible(&self.routes[i].segments, &key) {
                return false;
            }
            i = i + 1;
        }
        true
    }

    /// The place of the route whose pattern has the segments `key`.
    fn find(&self, key: &Vec<Vec<char>>) -> (found: Option<usize>)
        requires
            self.wf(),
        ensures
            match found {
                Some(at) => position(keys(self@.routes), rows_view(key@)) == Some(at as int)
                    && at < self.routes.len(),
                None => position(keys(self@.routes), rows_view(key@)) is None,
            },
    {
        let ghost all = keys(self@.routes);
        let mut i: usize = 0;
        while i < self.routes.len()
            invariant
                self.wf(),
                all == keys(self@.routes),
                i <= self.routes.len(),
                forall|k: int| 0 <= k < i ==> #[trigger] all[k] != rows_view(key@),
            decreases self.routes.len() - i,
        {
            assert(all[i as int] == rows_view(self.routes[i as int].segments@));
            if same_key(&self.routes[i].segments, key) {
                let ghost chosen = choose|at: int| 0 <= at < all.len() && all[at] == rows_view(key@);
                assert(chosen == i) by {
                    if chosen != i {
                        assert(all[chosen] != all[i as int]);
                    }
                }
                return Some(i);
            }
            i = i + 1;
        }
        None
    }

    /// The route for `pattern`, made if there was none with the same
    /// segments.
    pub fn at<'a>(&'a mut self, pattern: &str) -> (resource: Resource<'a>)
        requires
            old(self).wf(),
            joins(keys(old(self)@.routes), split_segments(pattern@)),
        ensures
            resource.router.wf(),
            resource.router@ == (RouterView {
                routes: routes_with(old(self)@.routes, pattern@),
                stack: old(self)@.stack,
            }),
            resource.index == index_of(old(self)@.routes, pattern@),
            resource.index < resource.router@.routes.len(),
            *final(self) == *final(resource.router),
    {
        let key = segments_of(pattern);
        match self.find(&key) {
            Some(at) => Resource { router: self, index: at },
            None => {
                let ghost before = keys(self@.routes);
                let ghost old_routes = self@.routes;
                let at = self.routes.len();
                proof {
                    lemma_joins_admits(before, rows_view(key@));
                }
                table_put(&mut self.table, pattern, at);
                let route = Route {
                    pattern: pattern.to_owned(),
                    segments: key,
                    bindings: Vec::new(),
                    middleware: Vec::new(),
                };
                assert(route@.bindings =~= Seq::empty());
                assert(route@ == fresh_route(pattern@));
                self.routes.push(route);
                proof {
                    let after = keys(self@.routes);
                    assert(self@.routes =~= old_routes.push(fresh_route(pattern@)));
                    assert(after =~= before.push(split_segments(pattern@)));
                    assert(after.drop_last() =~= before);
                    assert forall|i: int, j: int|
                        0 <= i < after.len() && 0 <= j < after.len() implies crate::pattern::compatible(
                        #[trigger] after[i],
                        #[trigger] after[j],
                    ) by {
                        if i < before.len() && j < before.len() {
                            assert(after[i] == before[i] && after[j] == before[j]);
                        } else if i < before.len() {
                            assert(after[i] == before[i]);
                        } else if j < before.len() {
                            assert(after[j] == before[j]);
                            lemma_compatible_symmetric(before[j], after[i]);
                        }
                    }
                    assert forall|i: int, j: int|
                        0 <= i < after.len() && 0 <= j < after.len() && i != j implies #[trigger] after[i]
                        != #[trigger] after[j] by {
                        if i < before.len() && j < before.len() {
                            assert(after[i] == before[i] && after[j] == before[j]);
                        } else if i < before.len() {
                            assert(after[i] == before[i]);
                        } else {
                            assert(after[j] == before[j]);
                        }
                    }
                    assert forall|i: int| 0 <= i < after.len() implies crate::table::plain_key(
                        #[trigger] after[i],
                    ) by {
                        if i < before.len() {
                            assert(after[i] == before[i]);
                        }
                    }
                }
                Resource { router: self, index: at }
            },
        }
    }
}

impl Router {
    /// Binds `method` to `endpoint` on the route at `at`. A method bound
    /// before is bound anew; the first binding of a route fixes the route's
    /// middleware to what the router has now.
    pub fn bind(&mut self, at: usize, method: &str, endpoint: EndpointId)
        requires
            old(self).wf(),
            at < old(self)@.routes.len(),
        ensures
            final(self).wf(),
            final(self)@ == (RouterView {
                routes: old(self)@.routes.update(
                    at as int,
                    bound_route(old(self)@.routes[at as int], old(self)@.stack, method@, endpoint),
                ),
                stack: old(self)@.stack,
            }),
    {
        let ghost before = self@.routes;
        let ghost old_keys = keys(before);
        let ghost old_rows = self.routes@;
        let found = find_binding(&self.routes[at].bindings, method);
        let first = self.routes[at].bindings.len() == 0;
        let ghost b = bindings_view(self.routes[at as int].bindings@);
        match found {
            Some(place) => {
                self.routes[at].bindings[place] = (method.to_owned(), endpoint);
                assert(bindings_view(self.routes[at as int].bindings@) =~= b.update(
                    place as int,
                    (method@, endpoint),
                ));
            },
            None => {
                self.routes[at].bindings.push((method.to_owned(), endpoint));
                assert(bindings_view(self.routes[at as int].bindings@) =~= b.push(
                    (method@, endpoint),
                ));
            },
        }
        if first {
            let stack = copy_ids(&self.stack);
            self.routes[at].middleware = stack;
        }
        proof {
            assert(self@.routes =~= before.update(
                at as int,
                bound_route(before[at as int], old(self)@.stack, method@, endpoint),
            ));
            assert(keys(self@.routes) =~= old_keys);
            assert forall|i: int| 0 <= i < self.routes.len() implies rows_view(
                (#[trigger] self.routes[i]).segments@,
            ) == split_segments(self.routes[i].pattern@) by {
                if i != at {
                    assert(self.routes[i] == old_rows[i]);
                }
            }
        }
    }

    /// Registers `endpoint` for `method` under `pattern`: the route for the
    /// pattern is made if there was none with the same segments, and binds
    /// the method to the endpoint from now on.
    pub fn register(&mut self, pattern: &str, method: &str, endpoint: EndpointId)
        requires
            old(self).wf(),
            joins(keys(old(self)@.routes), split_segments(pattern@)),
        ensures
            final(self).wf(),
            final(self)@ == registered(old(self)@, pattern@, method@, endpoint),
    {
        let at = self.at(pattern).index;
        self.bind(at, method, endpoint);
    }

    /// Registers `endpoint` for `method` under `pattern` where the router
    /// accepts the pattern, and says whether it did; where it does not, the
    /// router stays as it is.
    pub fn try_register(&mut self, pattern: &str, method: &str, endpoint: EndpointId) -> (done: bool)
        requires
            old(self).wf(),
        ensures
            final(self).wf(),
            done == joins(keys(old(self)@.routes), split_segments(pattern@)),
            final(self)@ == if done {
                registered(old(self)@, pattern@, method@, endpoint)
            } else {
                old(self)@
            },
    {
        if self.accepts(pattern) {
            self.register(pattern, method, endpoint);
            true
        } else {
            false
        }
    }

    /// The route for `pattern` where the router accepts the pattern, and
    /// nothing, with the router unchanged, where it does not.
    pub fn try_at<'a>(&'a mut self, pattern: &str) -> (resource: Option<Resource<'a>>)
        requires
            old(self).wf(),
        ensures
            resource is Some == joins(keys(old(self)@.routes), split_segments(pattern@)),
            match resource {
                Some(r) => {
                    &&& r.router.wf()
                    &&& r.router@ == (RouterView {
                        routes: routes_with(old(self)@.routes, pattern@),
                        stack: old(self)@.stack,
                    })
                    &&& r.index == index_of(old(self)@.routes, pattern@)
                    &&& r.index < r.router@.routes.len()
                    &&& *final(self) == *final(r.router)
                },
                None => *final(self) == *old(self),
            },
    {
        if self.accepts(pattern) {
            Some(self.at(pattern))
        } else {
            None
        }
    }

    /// Puts `bindings` and `middleware` in the place of those of the route
    /// at `at`.
    fn install(
        &mut self,
        at: usize,
        bindings: Vec<(String, EndpointId)>,
        middleware: Vec<MiddlewareId>,
    )
        requires
            old(self).wf(),
            at < old(self)@.routes.len(),
        ensures
            final(self).wf(),
            final(self)@ == (RouterView {
                routes: old(self)@.routes.update(
                    at as int,
                    RouteView {
                        pattern: old(self)@.routes[at as int].pattern,
                        bindings: bindings_view(bindings@),
                        middleware: middleware@,
                    },
                ),
                stack: old(self)@.stack,
            }),
    {
        let ghost before = self@.routes;
        let ghost old_keys = keys(before);
        let ghost old_rows = self.routes@;
        self.routes[at].bindings = bindings;
        self.routes[at].middleware = middleware;
        proof {
            assert(self@.routes =~= before.update(
                at as int,
                RouteView {
                    pattern: before[at as int].pattern,
                    bindings: bindings_view(bindings@),
                    middleware: middleware@,
                },
            ));
            assert(keys(self@.routes) =~= old_keys);
            assert forall|i: int| 0 <= i < self.routes.len() implies rows_view(
                (#[trigger] self.routes[i]).segments@,
            ) == split_segments(self.routes[i].pattern@) by {
                if i != at {
                    assert(self.routes[i] == old_rows[i]);
                }
            }
        }
    }

    /// Whether every route of `inner` can be asked for under `prefix`.
    pub fn can_mount(&self, prefix: &str, inner: &Router) -> (ok: bool)
        requires
            self.wf(),
            inner.wf(),
        ensures
            ok == mountable(self@.routes, prefix@, inner@.routes),
    {
        let mut j: usize = 0;
        while j < inner.routes.len()
            invariant
                self.wf(),
                j <= inner.routes.len(),
                forall|k: int|
                    0 <= k < j ==> joins(
                        keys(self@.routes),
                        split_segments(joined(prefix@, (#[trigger] inner@.routes[k]).pattern)),
                    ),
            decreases inner.routes.len() - j,
        {
            let mut full = prefix.to_owned();
            full.append("/");
            full.append(inner.routes[j].pattern.as_str());
            proof {
                reveal_strlit("/");
                assert("/"@ =~= seq!['/']);
                assert(full@ == joined(prefix@, inner@.routes[j as int].pattern));
            }
            if !self.accepts(full.as_str()) {
                return false;
            }
            j = j + 1;
        }
        true
    }

    /// Puts the routes of `inner` under `prefix`, in their order: each
    /// under the pattern made of `prefix`, a `/` and its own, with its
    /// bindings, and with this router's middleware before its own. A nested
    /// route takes the place of a route with the same segments.
    pub fn mount(&mut self, prefix: &str, inner: Router)
        requires
            old(self).wf(),
            inner.wf(),
            mountable(old(self)@.routes, prefix@, inner@.routes),
        ensures
            final(self).wf(),
            final(self)@ == (RouterView {
                routes: mounted(
                    old(self)@.routes,
                    old(self)@.stack,
                    prefix@,
                    inner@.routes,
                    inner@.routes.len() as int,
                ),
                stack: old(self)@.stack,
            }),
    {
        let ghost start = self@.routes;
        let ghost outer = self@.stack;
        let ghost nested = inner@.routes;
        let ghost head = split_segments(prefix@);
        let stack = copy_ids(&self.stack);
        let rows = inner.routes;
        for route in it: rows
            invariant
                self.wf(),
                self@.stack == outer,
                stack@ == outer,
                routes_view(it.seq()) == nested,
                head == split_segments(prefix@),
                coherent(keys(nested)),
                mountable(start, prefix@, nested),
                self@.routes == mounted(start, outer, prefix@, nested, it.index() as int),
                forall|k: int|
                    0 <= k < self@.routes.len() ==> stems_from(
                        #[trigger] keys(self@.routes)[k],
                        keys(start),
                        head,
                        keys(nested),
                        it.index() as int,
                    ),
        {
            let ghost j = it.index() as int;
            let ghost before = self@.routes;
            assert(route@ == nested[j]);
            let mut full = prefix.to_owned();
            full.append("/");
            full.append(route.pattern.as_str());
            proof {
                reveal_strlit("/");
                assert("/"@ =~= seq!['/']);
                assert(full@ == joined(prefix@, nested[j].pattern));
                crate::text::lemma_split_join(prefix@, nested[j].pattern);
                let key = split_segments(full@);
                assert(key == head + keys(nested)[j]);
                assert(joins(keys(start), key));
                assert forall|k: int| 0 <= k < keys(before).len() implies crate::pattern::compatible(
                    #[trigger] keys(before)[k],
                    key,
                ) by {
                    let known = keys(before)[k];
                    assert(stems_from(known, keys(start), head, keys(nested), j));
                    if exists|m: int| 0 <= m < keys(start).len() && #[trigger] keys(start)[m] == known {
                    } else {
                        let i = choose|i: int|
                            0 <= i < j && i < keys(nested).len() && head + #[trigger] keys(
                                nested,
                            )[i] == known;
                        crate::pattern::lemma_compatible_under(
                            head,
                            keys(nested)[i],
                            keys(nested)[j],
                        );
                    }
                }
            }
            let at = self.at(full.as_str()).index;
            let ghost with = self@.routes;
            let mut chain = copy_ids(&stack);
            let mut tail = route.middleware;
            chain.append(&mut tail);
            self.install(at, route.bindings, chain);
            proof {
                assert(self@.routes == with.update(
                    at as int,
                    nested_route(with[at as int].pattern, outer, nested[j]),
                ));
                assert(keys(self@.routes) =~= keys(with));
                assert forall|k: int| 0 <= k < self@.routes.len() implies stems_from(
                    #[trigger] keys(self@.routes)[k],
                    keys(start),
                    head,
                    keys(nested),
                    j + 1,
                ) by {
                    if k < before.len() {
                        assert(keys(with)[k] == keys(before)[k]);
                        let known = keys(before)[k];
                        assert(stems_from(known, keys(start), head, keys(nested), j));
                        if exists|m: int|
                            0 <= m < keys(start).len() && #[trigger] keys(start)[m] == known {
                        } else {
                            let i = choose|i: int|
                                0 <= i < j && i < keys(nested).len() && head + #[trigger] keys(
                                    nested,
                                )[i] == known;
                            assert(head + keys(nested)[i] == keys(self@.routes)[k]);
                        }
                    } else {
                        assert(head + keys(nested)[j] == keys(self@.routes)[k]);
                    }
                }
            }
        }
    }

    /// What the router answers once the table has been consulted: `hit` is
    /// the table's outcome for the path, `method` the request's.
    pub fn resolve(&self, hit: Option<(usize, Vec<String>)>, method: &str) -> (found: Option<
        RouteResult,
    >)
        requires
            self.wf(),
        ensures
            answer_view(found) == resolved(self@.routes, hit_view(hit), method@),
    {
        match hit {
            None => None,
            Some((at, caps)) => {
                if at >= self.routes.len() {
                    return None;
                }
                let route = &self.routes[at];
                match find_binding(&route.bindings, method) {
                    None => None,
                    Some(place) => {
                        let endpoint = route.bindings[place].1;
                        let params = RouteMatch::bind(&route.segments, caps);
                        let middleware = copy_ids(&route.middleware);
                        Some(RouteResult { endpoint, params, middleware })
                    },
                }
            },
        }
    }

    /// Finds the route for `path` and the endpoint that it binds to
    /// `method`.
    ///
    /// The path is matched segment by segment against the patterns; where a
    /// literal and a capture both lead on, the literal is followed, and no
    /// other way is tried afterwards. A path whose route does not bind the
    /// method finds nothing, like a path that no pattern fits.
    pub fn route(&self, path: &str, method: &str) -> (found: Option<RouteResult>)
        requires
            self.wf(),
        ensures
            answer_view(found) == resolved(
                self@.routes,
                table_walk(trie_of(keys(self@.routes)), path@),
                method@,
            ),
            found is Some ==> exists|at: int|
                0 <= at < self@.routes.len() && fits(#[trigger] self@.routes[at], path@)
                    && answer_view(found) == answer(self@.routes[at], path@, method@),
            (forall|at: int| 0 <= at < self@.routes.len() ==> !fits(#[trigger] self@.routes[at], path@))
                ==> found is None,
            forall|at: int|
                0 <= at < self@.routes.len() && fits(#[trigger] self@.routes[at], path@) && !shadowed(
                    self@.routes,
                    at,
                    path@,
                ) ==> answer_view(found) == answer(self@.routes[at], path@, method@),
    {
        let ghost all = keys(self@.routes);
        let ghost segs = split_segments(path@);
        let count = self.routes.len();
        proof {
            lemma_trie_plain(all);
            assert(all.len() == count);
        }
        let hit = table_route(&self.table, path);
        let found = self.resolve(hit, method);
        proof {
            let nodes = trie_of(all);
            let walk = hit_view(hit);
            assert(walk_facts(nodes, segs, walk));
            if let Some((value, caps)) = walk {
                let key = choose|key: Seq<Seq<char>>|
                    #![trigger nodes.contains_key(key)]
                    nodes.contains_key(key) && nodes[key] == Some(value) && spells(key, segs)
                        && caps == captured(key, segs);
                lemma_trie_values(all, key);
                assert(all[value as int] == key);
                assert(fits(self@.routes[value as int], path@));
                assert(answer_view(found) == answer(self@.routes[value as int], path@, method@));
            }
            assert forall|at: int|
                0 <= at < self@.routes.len() && fits(#[trigger] self@.routes[at], path@) && !shadowed(
                    self@.routes,
                    at,
                    path@,
                ) implies answer_view(found) == answer(self@.routes[at], path@, method@) by {
                let key = all[at];
                lemma_unshadowed(all, at, segs);
                crate::pattern::lemma_trie_nodes(all, key);
                assert(key.is_prefix_of(all[at]));
                lemma_trie_values(all, key);
                assert(nodes.contains_key(key));
                match nodes[key] {
                    Some(v) => {
                        assert(all[v as int] == key);
                        assert(v == at) by {
                            if v != at {
                                assert(all[v as int] != all[at]);
                            }
                        }
                    },
                    None => {
                        assert(all[at] != key);
                    },
                }
                assert(walk == Some((at as usize, captured(key, segs))));
            }
        }
        found
    }

    /// The routes, in the order in which their patterns first appeared.
    pub fn routes(&self) -> (routes: &Vec<Route>)
        ensures
            routes_view(routes@) == self@.routes,
    {
        &self.routes
    }

    /// The middleware added so far, in order.
    pub fn stack(&self) -> (stack: &Vec<MiddlewareId>)
        ensures
            stack@ == self@.stack,
    {
        &self.stack
    }
}

/// A route of a router, held while endpoints are bound to its methods.
pub struct Resource<'a> {
    pub router: &'a mut Router,
    pub index: usize,
}

impl<'a> Resource<'a> {
    /// Binds `method` to `endpoint` on this route.
    pub fn method(&mut self, method: &str, endpoint: EndpointId)
        requires
            old(self).router.wf(),
            old(self).index < old(self).router@.routes.len(),
        ensures
            final(self).router.wf(),
            final(self).index == old(self).index,
            final(self).router@ == (RouterView {
                routes: old(self).router@.routes.update(
                    old(self).index as int,
                    bound_route(
                        old(self).router@.routes[old(self).index as int],
                        old(self).router@.stack,
                        method@,
                        endpoint,
                    ),
                ),
                stack: old(self).router@.stack,
            }),
            *final(final(self).router) == *final(old(self).router),
    {
        self.router.bind(self.index, method, endpoint);
    }

    /// Puts the routes of `inner` under this route's pattern; see
    /// `Router::mount`.
    pub fn nest(self, inner: Router)
        requires
            self.router.wf(),
            self.index < self.router@.routes.len(),
            inner.wf(),
            mountable(
                self.router@.routes,
                self.router@.routes[self.index as int].pattern,
                inner@.routes,
            ),
        ensures
            final(self.router).wf(),
            final(self.router)@ == (RouterView {
                routes: mounted(
                    old(self.router)@.routes,
                    old(self.router)@.stack,
                    old(self.router)@.routes[self.index as int].pattern,
                    inner@.routes,
                    inner@.routes.len() as int,
                ),
                stack: old(self.router)@.stack,
            }),
    {
        let prefix = self.router.routes[self.index].pattern.clone();
        self.router.mount(prefix.as_str(), inner);
    }

    /// Binds `GET` to `endpoint` on this route.
    pub fn get(&mut self, endpoint: EndpointId)
        requires
            old(self).router.wf(),
            old(self).index < old(self).router@.routes.len(),
        ensures
            final(self).router.wf(),
            final(self).index == old(self).index,
            final(self).router@ == (RouterView {
                routes: old(self).router@.routes.update(
                    old(self).index as int,
                    bound_route(
                        old(self).router@.routes[old(self).index as int],
                        old(self).router@.stack,
                        "GET"@,
                        endpoint,
                    ),
                ),
                stack: old(self).router@.stack,
            }),
            *final(final(self).router) == *final(old(self).router),
    {
        self.method("GET", endpoint);
    }

    /// Binds `HEAD` to `endpoint` on this route.
    pub fn head(&mut self, endpoint: EndpointId)
        requires
            old(self).router.wf(),
            old(self).index < old(self).router@.routes.len(),
        ensures
            final(self).router.wf(),
            final(self).index == old(self).index,
            final(self).router@ == (RouterView {
                routes: old(self).router@.routes.update(
                    old(self).index as int,
                    bound_route(
                        old(self).router@.routes[old(self).index as int],
                        old(self).router@.stack,
                        "HEAD"@,
                        endpoint,
                    ),
                ),
                stack: old(self).router@.stack,
            }),
            *final(final(self).router) == *final(old(self).router),
    {
        self.method("HEAD", endpoint);
    }

    /// Binds `PUT` to `endpoint` on this route.
    pub fn put(&mut self, endpoint: EndpointId)
        requires
            old(self).router.wf(),
            old(self).index < old(self).router@.routes.len(),
        ensures
            final(self).router.wf(),
            final(self).index == old(self).index,
            final(self).router@ == (RouterView {
                routes: old(self).router@.routes.update(
                    old(self).index as int,
                    bound_route(
                        old(self).router@.routes[old(self).index as int],
                        old(self).router@.stack,
                        "PUT"@,
                        endpoint,
                    ),
                ),
                stack: old(self).router@.stack,
            }),
            *final(final(self).router) == *final(old(self).router),
    {
        self.method("PUT", endpoint);
    }

    /// Binds `POST` to `endpoint` on this route.
    pub fn post(&mut self, endpoint: EndpointId)
        requires
            old(self).router.wf(),
            old(self).index < old(self).router@.routes.len(),
        ensures
            final(self).router.wf(),
            final(self).index == old(self).index,
            final(self).router@ == (RouterView {
                routes: old(self).router@.routes.update(
                    old(self).index as int,
                    bound_route(
                        old(self).router@.routes[old(self).index as int],
                        old(self).router@.stack,
                        "POST"@,
                        endpoint,
                    ),
                ),
                stack: old(self).router@.stack,
            }),
            *final(final(self).router) == *final(old(self).router),
    {
        self.method("POST", endpoint);
    }

    /// Binds `DELETE` to `endpoint` on this route.
    pub fn delete(&mut self, endpoint: EndpointId)
        requires
            old(self).router.wf(),
            old(self).index < old(self).router@.routes.len(),
        ensures
            final(self).router.wf(),
            final(self).index == old(self).index,
            final(self).router@ == (RouterView {
                routes: old(self).router@.routes.update(
                    old(self).index as int,
                    bound_route(
                        old(self).router@.routes[old(self).index as int],
                        old(self).router@.stack,
                        "DELETE"@,
                        endpoint,
                    ),
                ),
                stack: old(self).router@.stack,
            }),
            *final(final(self).router) == *final(old(self).router),
    {
        self.method("DELETE", endpoint);
    }

    /// Binds `OPTIONS` to `endpoint` on this route.
    pub fn options(&mut self, endpoint: EndpointId)
        requires
            old(self).router.wf(),
            old(self).index < old(self).router@.routes.len(),
        ensures
            final(self).router.wf(),
            final(self).index == old(self).index,
            final(self).router@ == (RouterView {
                routes: old(self).router@.routes.update(
                    old(self).index as int,
                    bound_route(
                        old(self).router@.routes[old(self).index as int],
                        old(self).router@.stack,
                        "OPTIONS"@,
                        endpoint,
                    ),
                ),
                stack: old(self).router@.stack,
            }),
            *final(final(self).router) == *final(old(self).router),
    {
        self.method("OPTIONS", endpoint);
    }

    /// Binds `CONNECT` to `endpoint` on this route.
    pub fn connect(&mut self, endpoint: EndpointId)
        requires
            old(self).router.wf(),
            old(self).index < old(self).router@.routes.len(),
        ensures
            final(self).router.wf(),
            final(self).index == old(self).index,
            final(self).router@ == (RouterView {
                routes: old(self).router@.routes.update(
                    old(self).index as int,
                    bound_route(
                        old(self).router@.routes[old(self).index as int],
                        old(self).router@.stack,
                        "CONNECT"@,
                        endpoint,
                    ),
                ),
                stack: old(self).router@.stack,
            }),
            *final(final(self).router) == *final(old(self).router),
    {
        self.method("CONNECT", endpoint);
    }

    /// Binds `PATCH` to `endpoint` on this route.
    pub fn patch(&mut self, endpoint: EndpointId)
        requires
            old(self).router.wf(),
            old(self).index < old(self).router@.routes.len(),
        ensures
            final(self).router.wf(),
            final(self).index == old(self).index,
            final(self).router@ == (RouterView {
                routes: old(self).router@.routes.update(
                    old(self).index as int,
                    bound_route(
                        old(self).router@.routes[old(self).index as int],
                        old(self).router@.stack,
                        "PATCH"@,
                        endpoint,
                    ),
                ),
                stack: old(self).router@.stack,
            }),
            *final(final(self).router) == *final(old(self).router),
    {
        self.method("PATCH", endpoint);
    }

    /// Binds `TRACE` to `endpoint` on this route.
    pub fn trace(&mut self, endpoint: EndpointId)
        requires
            old(self).router.wf(),
            old(self).index < old(self).router@.routes.len(),
        ensures
            final(self).router.wf(),
            final(self).index == old(self).index,
            final(self).router@ == (RouterView {
                routes: old(self).router@.routes.update(
                    old(self).index as int,
                    bound_route(
                        old(self).router@.routes[old(self).index as int],
                        old(self).router@.stack,
                        "TRACE"@,
                        endpoint,
                    ),
                ),
                stack: old(self).router@.stack,
            }),
            *final(final(self).router) == *final(old(self).router),
    {
        self.method("TRACE", endpoint);
    }
}

} // verus!
