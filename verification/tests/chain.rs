use tide::body::Body;
use tide::middleware::{Action, Chain, Event, RequestContext};
use tide::params::RouteMatch;
use tide::request::{Headers, Request};
use tide::response::{Response, StatusCode};
use tide::router::{EndpointId, MiddlewareId, RouteResult};

fn status(code: u16) -> Response {
    Response::empty(StatusCode(code))
}

fn describe(action: Option<Action>) -> String {
    match action {
        None => "nothing".to_string(),
        Some(Action::Before(m)) => format!("before {}", m.0),
        Some(Action::Call(e)) => format!("call {}", e.0),
        Some(Action::After(m, r)) => format!("after {} with {}", m.0, r.status.0),
        Some(Action::Finish(r)) => format!("finish with {}", r.status.0),
    }
}

#[test]
fn layers_are_entered_in_order_and_left_in_reverse() {
    let a = MiddlewareId(1);
    let b = MiddlewareId(2);
    let mut chain = Chain::new(EndpointId(9), vec![a, b]);
    let mut seen = Vec::new();
    seen.push(describe(chain.next()));
    seen.push(describe(chain.next()));
    seen.push(describe(chain.next()));
    seen.push(describe(chain.respond(status(200))));
    seen.push(describe(chain.respond(status(201))));
    assert!(!chain.is_done());
    seen.push(describe(chain.respond(status(202))));
    assert!(chain.is_done());
    assert_eq!(
        seen,
        vec![
            "before 1",
            "before 2",
            "call 9",
            "after 2 with 200",
            "after 1 with 201",
            "finish with 202",
        ]
    );
}

#[test]
fn a_layer_that_answers_itself_cuts_the_chain_short() {
    let mut chain = Chain::new(EndpointId(9), vec![MiddlewareId(1), MiddlewareId(2), MiddlewareId(3)]);
    let mut seen = Vec::new();
    seen.push(describe(chain.next()));
    seen.push(describe(chain.next()));
    seen.push(describe(chain.respond(status(403))));
    seen.push(describe(chain.respond(status(403))));
    assert!(chain.is_done());
    assert_eq!(seen, vec!["before 1", "before 2", "after 1 with 403", "finish with 403"]);
}

#[test]
fn the_outermost_layer_answering_itself_finishes_at_once() {
    let mut chain = Chain::new(EndpointId(9), vec![MiddlewareId(1)]);
    assert_eq!(describe(chain.next()), "before 1");
    assert_eq!(describe(chain.respond(status(401))), "finish with 401");
    assert!(chain.is_done());
}

#[test]
fn a_chain_without_layers_calls_the_endpoint() {
    let mut chain = Chain::new(EndpointId(4), Vec::new());
    assert_eq!(describe(chain.next()), "call 4");
    assert_eq!(describe(chain.respond(status(200))), "finish with 200");
}

#[test]
fn at_most_one_response_is_handed_over() {
    let mut chain = Chain::new(EndpointId(4), vec![MiddlewareId(1)]);
    chain.next();
    chain.next();
    chain.respond(status(200));
    assert_eq!(describe(chain.respond(status(200))), "finish with 200");
    assert_eq!(describe(chain.respond(status(500))), "nothing");
    assert_eq!(describe(chain.next()), "nothing");
    assert_eq!(describe(chain.step(Event::Proceed)), "nothing");
    assert!(chain.is_done());
}

#[test]
fn events_that_do_not_fit_are_not_answered() {
    let mut chain = Chain::new(EndpointId(4), vec![MiddlewareId(1)]);
    assert_eq!(describe(chain.respond(status(200))), "nothing");
    assert_eq!(describe(chain.next()), "before 1");
    assert_eq!(describe(chain.next()), "call 4");
    assert_eq!(describe(chain.next()), "nothing");
    assert_eq!(describe(chain.respond(status(200))), "after 1 with 200");
    assert_eq!(describe(chain.next()), "nothing");
    assert_eq!(describe(chain.step(Event::Respond(status(204)))), "finish with 204");
}

#[test]
fn a_context_starts_with_the_route_it_was_found_for() {
    let found = RouteResult {
        endpoint: EndpointId(3),
        params: RouteMatch { vec: vec!["x".to_string()], map: Vec::new() },
        middleware: vec![MiddlewareId(8)],
    };
    let req = Request::new("GET".to_string(), "/x".to_string(), Headers::new(), Body::empty());
    let mut ctx = RequestContext::new(5u8, req, found);
    assert_eq!(ctx.app_data, 5);
    assert_eq!(ctx.params.vec, vec!["x".to_string()]);
    assert_eq!(describe(ctx.next()), "before 8");
    assert_eq!(describe(ctx.next()), "call 3");
    assert_eq!(describe(ctx.respond(status(200))), "after 8 with 200");
    assert_eq!(describe(ctx.respond(status(200))), "finish with 200");
    assert_eq!(ctx.req.path, "/x");
}
