//! The application: its data, its router, and what it does with a request.

use vstd::prelude::*;
use crate::extract::Extract;
use crate::middleware::{fresh, RequestContext};
use crate::params::RouteMatch;
use crate::pattern::{joins, trie_of};
use crate::request::Request;
use crate::response::{bare, Response, NOT_FOUND};
use crate::router::{
    answer, fits, index_of, keys, resolved, routes_with, shadowed, MiddlewareId, Resource,
    RouteResultView, Router, RouterView,
};
use crate::table::table_walk;
use crate::text::split_segments;

verus! {

/// An application while it is set up: the data that its endpoints share and
/// its router.
pub struct ServerBuilder<Data> {
    data: Data,
    router: Router,
}

impl<Data> ServerBuilder<Data> {
    /// The builder is in order.
    pub closed spec fn wf(&self) -> bool {
        self.router.wf()
    }

    /// The router as mathematics.
    pub closed spec fn routing(&self) -> RouterView {
        self.router@
    }

    /// The data that the endpoints share.
    pub closed spec fn shared(&self) -> Data {
        self.data
    }

    /// An application with `data` and neither routes nor middleware.
    pub fn new(data: Data) -> (builder: ServerBuilder<Data>)
        ensures
            builder.wf(),
            builder.shared() == data,
            builder.routing() == (RouterView { routes: Seq::empty(), stack: Seq::empty() }),
    {
        ServerBuilder { data, router: Router::new() }
    }

    /// The router of the application.
    pub fn router(&mut self) -> (router: &mut Router)
        requires
            old(self).wf(),
        ensures
            router.wf(),
            router@ == old(self).routing(),
            final(router).wf() ==> final(self).wf(),
            final(self).routing() == final(router)@,
            final(self).shared() == old(self).shared(),
    {
        &mut self.router
    }

    /// Whether `pattern` can be asked for; see `Router::accepts`.
    pub fn accepts(&self, pattern: &str) -> (ok: bool)
        requires
            self.wf(),
        ensures
            ok == joins(keys(self.routing().routes), split_segments(pattern@)),
    {
        self.router.accepts(pattern)
    }

    /// The route for `pattern`, made if there was none with the same
    /// segments.
    pub fn at<'a>(&'a mut self, pattern: &str) -> (resource: Resource<'a>)
        requires
            old(self).wf(),
            joins(keys(old(self).routing().routes), split_segments(pattern@)),
        ensures
            resource.router.wf(),
            resource.router@ == (RouterView {
                routes: routes_with(old(self).routing().routes, pattern@),
                stack: old(self).routing().stack,
            }),
            resource.index == index_of(old(self).routing().routes, pattern@),
            resource.index < resource.router@.routes.len(),
            final(resource.router).wf() ==> final(self).wf(),
            final(self).routing() == final(resource.router)@,
            final(self).shared() == old(self).shared(),
    {
        self.router.at(pattern)
    }

    /// Adds `middleware` to the whole application. It runs for the routes
    /// that get their first binding afterwards.
    pub fn middleware(&mut self, middleware: MiddlewareId) -> (builder: &mut Self)
        requires
            old(self).wf(),
        ensures
            builder.wf(),
            builder.shared() == old(self).shared(),
            builder.routing() == (RouterView {
                routes: old(self).routing().routes,
                stack: old(self).routing().stack.push(middleware),
            }),
            *final(self) == *final(builder),
    {
        self.router.middleware(middleware);
        self
    }
}

/// An application that is set up: it answers requests and changes no more.
pub struct Server<Data> {
    data: Data,
    router: Router,
}

/// What the server makes of a request.
pub enum Dispatch<Data> {
    /// A route answers: the request is to run through this context's chain.
    Run(RequestContext<Data>),
    /// No route answers: this response is to be sent.
    Reply(Response),
}

impl<Data> vstd::std_specs::convert::FromSpecImpl<ServerBuilder<Data>> for Server<Data> {
    open spec fn obeys_from_spec() -> bool {
        true
    }

    closed spec fn from_spec(builder: ServerBuilder<Data>) -> Server<Data> {
        Server { data: builder.data, router: builder.router }
    }
}

impl<Data> From<ServerBuilder<Data>> for Server<Data> {
    /// The server that a builder has come to.
    fn from(builder: ServerBuilder<Data>) -> (server: Server<Data>)
        ensures
            builder.wf() ==> server.wf(),
            server.routing() == builder.routing(),
            server.shared() == builder.shared(),
    {
        Server { data: builder.data, router: builder.router }
    }
}

impl<Data> Server<Data> {
    /// The server is in order.
    pub closed spec fn wf(&self) -> bool {
        self.router.wf()
    }

    /// The router as mathematics.
    pub closed spec fn routing(&self) -> RouterView {
        self.router@
    }

    /// The data that the endpoints share.
    pub closed spec fn shared(&self) -> Data {
        self.data
    }
}

/// What the server's router finds for a request.
pub open spec fn found_for(routing: RouterView, path: Seq<char>, method: Seq<char>) -> Option<
    RouteResultView,
> {
    resolved(routing.routes, table_walk(trie_of(keys(routing.routes)), path), method)
}

impl<Data: Clone> Server<Data> {
    /// Takes a request in. Where the router finds a route that binds the
    /// request's method, the request gets a context of its own, with a
    /// clone of the application's data, what the route captured, and the
    /// route's middleware around the endpoint, not yet started. Where it
    /// finds none, the answer is status 404 and nothing else.
    pub fn call(&self, req: Request) -> (out: Dispatch<Data>)
        requires
            self.wf(),
        ensures
            match out {
                Dispatch::Run(ctx) => {
                    &&& found_for(self.routing(), req.path@, req.method@) matches Some(found)
                    &&& ctx.req == req
                    &&& ctx.params@ == found.params
                    &&& ctx.chain@ == fresh(found.endpoint, found.middleware)
                    &&& cloned(self.shared(), ctx.app_data)
                    &&& exists|at: int|
                        0 <= at < self.routing().routes.len() && fits(
                            #[trigger] self.routing().routes[at],
                            req.path@,
                        ) && Some(found) == answer(
                            self.routing().routes[at],
                            req.path@,
                            req.method@,
                        )
                },
                Dispatch::Reply(res) => {
                    &&& found_for(self.routing(), req.path@, req.method@) is None
                    &&& res@ == bare(NOT_FOUND)
                },
            },
            (forall|at: int|
                0 <= at < self.routing().routes.len() ==> !fits(
                    #[trigger] self.routing().routes[at],
                    req.path@,
                )) ==> out is Reply,
            forall|at: int|
                0 <= at < self.routing().routes.len() && fits(
                    #[trigger] self.routing().routes[at],
                    req.path@,
                ) && !shadowed(self.routing().routes, at, req.path@) ==> found_for(
                    self.routing(),
                    req.path@,
                    req.method@,
                ) == answer(self.routing().routes[at], req.path@, req.method@),
    {
        let found = self.router.route(req.path.as_str(), req.method.as_str());
        match found {
            Some(found) => {
                let data = self.data.clone();
                Dispatch::Run(RequestContext::new(data, req, found))
            },
            None => Dispatch::Reply(Response::not_found()),
        }
    }
}

/// The application's data as an argument of an endpoint.
pub struct AppData<T>(pub T);

impl<T> std::ops::Deref for AppData<T> {
    type Target = T;

    fn deref(&self) -> (data: &T)
        ensures
            *data == self.0,
    {
        &self.0
    }
}

impl<T> std::ops::DerefMut for AppData<T> {
    fn deref_mut(&mut self) -> (data: &mut T)
        ensures
            *data == old(self).0,
            final(self).0 == *final(data),
    {
        &mut self.0
    }
}

impl<T: Clone> Extract<T> for AppData<T> {
    /// A clone of the application's data. This never fails.
    fn extract(data: &mut T, req: &mut Request, params: &RouteMatch) -> (out: Result<
        Self,
        Response,
    >)
        ensures
            *final(data) == *old(data),
            *final(req) == *old(req),
            out matches Ok(handle) && cloned(*old(data), handle.0),
    {
        Ok(AppData(data.clone()))
    }
}

} // verus!
