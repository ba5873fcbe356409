//! The order in which the middleware of a route and its endpoint get to run.
//!
//! A chain is a small machine. Whoever drives it reports what happened last,
//! that the layer just entered lets the request through or that a response
//! has been produced, and is told what to run next: the next layer's entry,
//! the endpoint, a layer's exit with the response from further in, or
//! nothing more, with the response to send.

use vstd::prelude::*;
use crate::params::RouteMatch;
use crate::request::Request;
use crate::response::Response;
use crate::router::{EndpointId, MiddlewareId, RouteResult};

verus! {

/// How far a chain has come.
pub enum Phase {
    /// So many layers have been entered, outermost first, and none has
    /// produced a response.
    Pending(usize),
    /// Every layer has been entered and the endpoint is running.
    Calling,
    /// A response is on its way out and the layer with this index is
    /// looking at it; the layers before it have yet to.
    Leaving(usize),
    /// The response has been handed over.
    Done,
}

/// What the driver reports.
pub enum Event {
    /// The request goes on inwards.
    Proceed,
    /// This response has been produced.
    Respond(Response),
}

/// What the driver is to do next.
pub enum Action {
    /// Enter this layer.
    Before(MiddlewareId),
    /// Run the endpoint.
    Call(EndpointId),
    /// Let this layer see the response on its way out.
    After(MiddlewareId, Response),
    /// Send the response; the chain is done.
    Finish(Response),
}

/// A chain as mathematics.
pub struct ChainView {
    pub endpoint: EndpointId,
    pub layers: Seq<MiddlewareId>,
    pub phase: Phase,
}

/// A response leaves through the `rest` outermost layers, innermost of them
/// first.
pub open spec fn leave(chain: ChainView, rest: int, response: Response) -> (ChainView, Option<Action>) {
    if 0 < rest <= chain.layers.len() {
        (
            ChainView { phase: Phase::Leaving((rest - 1) as usize), ..chain },
            Some(Action::After(chain.layers[rest - 1], response)),
        )
    } else {
        (ChainView { phase: Phase::Done, ..chain }, Some(Action::Finish(response)))
    }
}

/// The chain after `event`, and what the driver is told. An event that does
/// not fit the phase changes nothing and is answered with nothing.
pub open spec fn transition(chain: ChainView, event: Event) -> (ChainView, Option<Action>) {
    match (chain.phase, event) {
        (Phase::Pending(entered), Event::Proceed) => if entered < chain.layers.len() {
            (
                ChainView { phase: Phase::Pending((entered + 1) as usize), ..chain },
                Some(Action::Before(chain.layers[entered as int])),
            )
        } else {
            (ChainView { phase: Phase::Calling, ..chain }, Some(Action::Call(chain.endpoint)))
        },
        (Phase::Pending(entered), Event::Respond(response)) => if entered > 0 {
            leave(chain, entered - 1, response)
        } else {
            (chain, None)
        },
        (Phase::Calling, Event::Respond(response)) => leave(
            chain,
            chain.layers.len() as int,
            response,
        ),
        (Phase::Leaving(at), Event::Respond(response)) => leave(chain, at as int, response),
        _ => (chain, None),
    }
}

/// The chain after each of `events` in turn, and what the driver was told
/// each time.
pub open spec fn run(chain: ChainView, events: Seq<Event>) -> (ChainView, Seq<Option<Action>>)
    decreases events.len(),
{
    if events.len() == 0 {
        (chain, Seq::empty())
    } else {
        let (before, told) = run(chain, events.drop_last());
        let (after, action) = transition(before, events.last());
        (after, told.push(action))
    }
}

/// A chain that has not started.
pub open spec fn fresh(endpoint: EndpointId, layers: Seq<MiddlewareId>) -> ChainView {
    ChainView { endpoint, layers, phase: Phase::Pending(0) }
}

/// The middleware of one request and its endpoint, with how far they have
/// come.
pub struct Chain {
    endpoint: EndpointId,
    layers: Vec<MiddlewareId>,
    phase: Phase,
}

impl View for Chain {
    type V = ChainView;

    closed spec fn view(&self) -> ChainView {
        ChainView { endpoint: self.endpoint, layers: self.layers@, phase: self.phase }
    }
}

impl Chain {
    /// A chain of `layers`, outermost first, around `endpoint`, not yet
    /// started.
    pub fn new(endpoint: EndpointId, layers: Vec<MiddlewareId>) -> (chain: Chain)
        ensures
            chain@ == fresh(endpoint, layers@),
    {
        Chain { endpoint, layers, phase: Phase::Pending(0) }
    }

    /// Hands a response to the `rest` outermost layers, innermost first.
    fn leave(&mut self, rest: usize, response: Response) -> (action: Option<Action>)
        ensures
            (final(self)@, action) == leave(old(self)@, rest as int, response),
    {
        if 0 < rest && rest <= self.layers.len() {
            self.phase = Phase::Leaving(rest - 1);
            Some(Action::After(self.layers[rest - 1], response))
        } else {
            self.phase = Phase::Done;
            Some(Action::Finish(response))
        }
    }

    /// Takes the chain one step on.
    pub fn step(&mut self, event: Event) -> (action: Option<Action>)
        ensures
            (final(self)@, action) == transition(old(self)@, event),
    {
        match event {
            Event::Proceed => match self.phase {
                Phase::Pending(entered) => {
                    if entered < self.layers.len() {
                        self.phase = Phase::Pending(entered + 1);
                        Some(Action::Before(self.layers[entered]))
                    } else {
                        self.phase = Phase::Calling;
                        Some(Action::Call(self.endpoint))
                    }
                },
                _ => None,
            },
            Event::Respond(response) => match self.phase {
                Phase::Pending(entered) => {
                    if entered > 0 {
                        self.leave(entered - 1, response)
                    } else {
                        None
                    }
                },
                Phase::Calling => {
                    let rest = self.layers.len();
                    self.leave(rest, response)
                },
                Phase::Leaving(at) => self.leave(at, response),
                Phase::Done => None,
            },
        }
    }

    /// Lets the request go on inwards: the next layer is entered, or the
    /// endpoint is called once every layer has been.
    pub fn next(&mut self) -> (action: Option<Action>)
        ensures
            (final(self)@, action) == transition(old(self)@, Event::Proceed),
    {
        self.step(Event::Proceed)
    }

    /// Reports a response: from the layer entered last, which then is not
    /// asked again, from the endpoint, or from the layer that was looking at
    /// the response on its way out.
    pub fn respond(&mut self, response: Response) -> (action: Option<Action>)
        ensures
            (final(self)@, action) == transition(old(self)@, Event::Respond(response)),
    {
        self.step(Event::Respond(response))
    }

    /// Whether the response has been handed over.
    pub fn is_done(&self) -> (done: bool)
        ensures
            done == (self@.phase is Done),
    {
        match self.phase {
            Phase::Done => true,
            _ => false,
        }
    }
}

/// `count` times `Proceed`.
pub open spec fn proceeds(count: nat) -> Seq<Event> {
    Seq::new(count, |i: int| Event::Proceed)
}

/// Each of `responses` reported in turn.
pub open spec fn responds(responses: Seq<Response>) -> Seq<Event> {
    Seq::new(responses.len(), |i: int| Event::Respond(responses[i]))
}

/// Entering the first `count` layers, outermost first.
pub open spec fn entering(layers: Seq<MiddlewareId>, count: nat) -> Seq<Option<Action>> {
    Seq::new(count, |i: int| Some(Action::Before(layers[i])))
}

/// Leaving through the `rest` outermost layers, innermost of them first:
/// each sees the response that the one before it produced, and the last
/// response is sent. `responses` holds one response more than there are
/// layers to leave.
pub open spec fn leaving(layers: Seq<MiddlewareId>, rest: nat, responses: Seq<Response>) -> Seq<
    Option<Action>,
> {
    Seq::new(
        responses.len(),
        |i: int|
            if i < rest {
                Some(Action::After(layers[rest - 1 - i], responses[i]))
            } else {
                Some(Action::Finish(responses[i]))
            },
    )
}

/// Running over one sequence of events after another is running over both.
pub proof fn lemma_run_append(chain: ChainView, first: Seq<Event>, second: Seq<Event>)
    ensures
        run(chain, first + second) == ({
            let (mid, told) = run(chain, first);
            let (end, more) = run(mid, second);
            (end, told + more)
        }),
    decreases second.len(),
{
    let (mid, told) = run(chain, first);
    if second.len() == 0 {
        assert(first + second =~= first);
        assert(told + Seq::<Option<Action>>::empty() =~= told);
    } else {
        lemma_run_append(chain, first, second.drop_last());
        assert((first + second).drop_last() =~= first + second.drop_last());
        assert((first + second).last() == second.last());
        let (before, some) = run(mid, second.drop_last());
        let action = transition(before, second.last()).1;
        assert(told + some.push(action) =~= (told + some).push(action));
    }
}

/// Layers are entered outermost first: as long as each lets the request
/// through, the chain enters them in the order of the route's middleware.
pub proof fn lemma_enters_in_order(endpoint: EndpointId, layers: Seq<MiddlewareId>, count: nat)
    requires
        count <= layers.len(),
        layers.len() <= usize::MAX,
    ensures
        run(fresh(endpoint, layers), proceeds(count)) == (
            ChainView { endpoint, layers, phase: Phase::Pending(count as usize) },
            entering(layers, count),
        ),
    decreases count,
{
    if count == 0 {
        assert(entering(layers, 0) =~= Seq::empty());
    } else {
        lemma_enters_in_order(endpoint, layers, (count - 1) as nat);
        assert(proceeds(count).drop_last() =~= proceeds((count - 1) as nat));
        assert(entering(layers, count) =~= entering(layers, (count - 1) as nat).push(
            Some(Action::Before(layers[count - 1])),
        ));
    }
}

/// A response leaves innermost first: from a chain in which a response is
/// due from inside the `rest` outermost layers, those layers see it in
/// reverse order, each handing on what it made of it, and the last response
/// is the one that is sent.
pub proof fn lemma_leaves_in_reverse(chain: ChainView, rest: nat, responses: Seq<Response>)
    requires
        rest <= chain.layers.len(),
        chain.layers.len() <= usize::MAX,
        responses.len() <= rest + 1,
        responses.len() > 0,
        match chain.phase {
            Phase::Pending(entered) => entered == rest + 1,
            Phase::Calling => rest == chain.layers.len(),
            Phase::Leaving(at) => at == rest,
            Phase::Done => false,
        },
    ensures
        run(chain, responds(responses)) == (
            ChainView {
                phase: if responses.len() == rest + 1 {
                    Phase::Done
                } else {
                    Phase::Leaving((rest - responses.len()) as usize)
                },
                ..chain
            },
            leaving(chain.layers, rest, responses),
        ),
    decreases responses.len(),
{
    let events = responds(responses);
    if responses.len() == 1 {
        assert(events.drop_last() =~= Seq::<Event>::empty());
        assert(run(chain, events.drop_last()) == (chain, Seq::<Option<Action>>::empty()));
        assert(events.last() == Event::Respond(responses[0]));
        assert(leaving(chain.layers, rest, responses) =~= Seq::<Option<Action>>::empty().push(
            transition(chain, events.last()).1,
        ));
    } else {
        let front = responses.drop_last();
        lemma_leaves_in_reverse(chain, rest, front);
        assert(events.drop_last() =~= responds(front));
        assert(events.last() == Event::Respond(responses.last()));
        let before = run(chain, responds(front)).0;
        assert(before.phase == Phase::Leaving((rest - front.len()) as usize));
        assert(leaving(chain.layers, rest, responses) =~= leaving(chain.layers, rest, front).push(
            transition(before, events.last()).1,
        ));
    }
}

/// The whole course of a request where every layer lets it through: the
/// layers are entered outermost first, then the endpoint runs, then the
/// layers see the response innermost first, and one response is sent.
pub proof fn lemma_chain_order(
    endpoint: EndpointId,
    layers: Seq<MiddlewareId>,
    responses: Seq<Response>,
)
    requires
        layers.len() < usize::MAX,
        responses.len() == layers.len() + 1,
    ensures
        run(fresh(endpoint, layers), proceeds(layers.len() + 1) + responds(responses)) == (
            ChainView { endpoint, layers, phase: Phase::Done },
            entering(layers, layers.len()).push(Some(Action::Call(endpoint))) + leaving(
                layers,
                layers.len(),
                responses,
            ),
        ),
{
    let n = layers.len();
    let start = fresh(endpoint, layers);
    lemma_enters_in_order(endpoint, layers, n);
    assert(proceeds(n + 1).drop_last() =~= proceeds(n));
    let called = ChainView { endpoint, layers, phase: Phase::Calling };
    assert(run(start, proceeds(n + 1)) == (
        called,
        entering(layers, n).push(Some(Action::Call(endpoint))),
    ));
    lemma_leaves_in_reverse(called, n, responses);
    lemma_run_append(start, proceeds(n + 1), responds(responses));
}

/// The course of a request that the layer entered as number `count`
/// answers itself: only the layers before it see the response, innermost
/// first, and the endpoint does not run.
pub proof fn lemma_chain_cut_short(
    endpoint: EndpointId,
    layers: Seq<MiddlewareId>,
    count: nat,
    responses: Seq<Response>,
)
    requires
        layers.len() < usize::MAX,
        0 < count <= layers.len(),
        responses.len() == count,
    ensures
        run(fresh(endpoint, layers), proceeds(count) + responds(responses)) == (
            ChainView { endpoint, layers, phase: Phase::Done },
            entering(layers, count) + leaving(layers, (count - 1) as nat, responses),
        ),
{
    let start = fresh(endpoint, layers);
    lemma_enters_in_order(endpoint, layers, count);
    let entered = ChainView { endpoint, layers, phase: Phase::Pending(count as usize) };
    lemma_leaves_in_reverse(entered, (count - 1) as nat, responses);
    lemma_run_append(start, proceeds(count), responds(responses));
}

/// How many times the driver was told to send a response.
pub open spec fn finishes(told: Seq<Option<Action>>) -> nat
    decreases told.len(),
{
    if told.len() == 0 {
        0
    } else if told.last() matches Some(Action::Finish(_)) {
        finishes(told.drop_last()) + 1
    } else {
        finishes(told.drop_last())
    }
}

/// Whatever the driver reports, and in whatever order, it is told to send
/// a response at most once: exactly when the chain comes to be done, and
/// never again after that.
pub proof fn lemma_one_response(chain: ChainView, events: Seq<Event>)
    ensures
        chain.phase is Done ==> run(chain, events).0.phase is Done && finishes(
            run(chain, events).1,
        ) == 0,
        !(chain.phase is Done) ==> finishes(run(chain, events).1) == if run(
            chain,
            events,
        ).0.phase is Done {
            1nat
        } else {
            0nat
        },
        finishes(run(chain, events).1) <= 1,
    decreases events.len(),
{
    if events.len() > 0 {
        lemma_one_response(chain, events.drop_last());
        let (before, told) = run(chain, events.drop_last());
        let action = transition(before, events.last()).1;
        assert(run(chain, events).1.drop_last() =~= told);
        assert(run(chain, events).1.last() == action);
    }
}

/// Once the response has been handed over, nothing more comes of the
/// chain: no event is answered and none changes it.
pub proof fn lemma_done_stays(chain: ChainView, event: Event)
    requires
        chain.phase is Done,
    ensures
        transition(chain, event) == (chain, None::<Action>),
{
}

/// What a handler needs of one request: the application's data, the
/// request, what the route captured, and the chain that the request runs
/// through.
pub struct RequestContext<Data> {
    pub app_data: Data,
    pub req: Request,
    pub params: RouteMatch,
    pub chain: Chain,
}

impl<Data> RequestContext<Data> {
    /// The context of a request that the router found a route for.
    pub fn new(app_data: Data, req: Request, found: RouteResult) -> (ctx: RequestContext<Data>)
        ensures
            ctx.app_data == app_data,
            ctx.req == req,
            ctx.params == found.params,
            ctx.chain@ == fresh(found.endpoint, found.middleware@),
    {
        RequestContext {
            app_data,
            req,
            params: found.params,
            chain: Chain::new(found.endpoint, found.middleware),
        }
    }

    /// Lets the request go on inwards; see `Chain::next`.
    pub fn next(&mut self) -> (action: Option<Action>)
        ensures
            (final(self).chain@, action) == transition(old(self).chain@, Event::Proceed),
            final(self).app_data == old(self).app_data,
            final(self).req == old(self).req,
            final(self).params == old(self).params,
    {
        self.chain.next()
    }

    /// Reports a response; see `Chain::respond`.
    pub fn respond(&mut self, response: Response) -> (action: Option<Action>)
        ensures
            (final(self).chain@, action) == transition(
                old(self).chain@,
                Event::Respond(response),
            ),
            final(self).app_data == old(self).app_data,
            final(self).req == old(self).req,
            final(self).params == old(self).params,
    {
        self.chain.respond(response)
    }
}

} // verus!
