use tide::router::{find_binding, EndpointId, MiddlewareId, RouteResult, Router};

fn router_with(patterns: &[(&str, &str, usize)]) -> Router {
    let mut router = Router::new();
    for (pattern, method, endpoint) in patterns {
        assert!(router.accepts(pattern));
        router.at(pattern).method(method, EndpointId(*endpoint));
    }
    router
}

fn captures(found: &RouteResult) -> Vec<&str> {
    found.params.vec.iter().map(|s| s.as_str()).collect()
}

#[test]
fn captures_are_the_segments_at_the_capture_places_in_order() {
    let router = router_with(&[("/users/{}/posts/{}", "GET", 7)]);
    let found = router.route("/users/alice/posts/42", "GET").expect("the pattern fits");
    assert_eq!(found.endpoint, EndpointId(7));
    assert_eq!(captures(&found), vec!["alice", "42"]);
    assert!(found.params.map.is_empty());
}

#[test]
fn named_captures_are_found_by_name() {
    let router = router_with(&[("/users/{user}/posts/{post}", "GET", 1)]);
    let found = router.route("users/bob/posts/9/", "GET").expect("the pattern fits");
    assert_eq!(captures(&found), vec!["bob", "9"]);
    assert_eq!(found.params.get("user").map(|s| s.as_str()), Some("bob"));
    assert_eq!(found.params.get("post").map(|s| s.as_str()), Some("9"));
    assert_eq!(found.params.get("other"), None);
    assert_eq!(found.params.at(1).map(|s| s.as_str()), Some("9"));
    assert_eq!(found.params.at(2), None);
}

#[test]
fn unnamed_and_named_captures_mix() {
    let router = router_with(&[("/{}/{id}", "GET", 1)]);
    let found = router.route("/a/b", "GET").expect("the pattern fits");
    assert_eq!(captures(&found), vec!["a", "b"]);
    assert_eq!(found.params.map.len(), 1);
    assert_eq!(found.params.map[0], ("id".to_string(), "b".to_string()));
}

#[test]
fn a_path_that_no_pattern_fits_finds_nothing() {
    let router = router_with(&[("/message", "POST", 0), ("/message/{}", "GET", 1)]);
    for method in ["GET", "POST", "PUT", "DELETE"] {
        assert!(router.route("/nope", method).is_none());
        assert!(router.route("/message/1/2", method).is_none());
        assert!(router.route("/", method).is_none());
    }
}

#[test]
fn an_empty_router_finds_nothing() {
    let router = Router::new();
    assert!(router.route("/", "GET").is_none());
    assert!(router.route("", "GET").is_none());
    assert!(router.route("/a", "GET").is_none());
}

#[test]
fn the_root_pattern_fits_the_root_path() {
    let router = router_with(&[("/", "GET", 3)]);
    assert_eq!(router.route("/", "GET").map(|f| f.endpoint), Some(EndpointId(3)));
    assert_eq!(router.route("", "GET").map(|f| f.endpoint), Some(EndpointId(3)));
    assert_eq!(router.route("//", "GET").map(|f| f.endpoint), Some(EndpointId(3)));
    assert!(router.route("/a", "GET").is_none());
}

#[test]
fn a_method_that_is_not_bound_finds_nothing() {
    let router = router_with(&[("/message", "POST", 0)]);
    assert!(router.route("/message", "GET").is_none());
    assert!(router.route("/message", "post").is_none());
    assert_eq!(router.route("/message", "POST").map(|f| f.endpoint), Some(EndpointId(0)));
}

#[test]
fn a_literal_is_preferred_to_a_capture() {
    let router = router_with(&[("/files/{}", "GET", 1), ("/files/index", "GET", 2)]);
    let index = router.route("/files/index", "GET").expect("the literal fits");
    assert_eq!(index.endpoint, EndpointId(2));
    assert!(index.params.vec.is_empty());
    let other = router.route("/files/readme", "GET").expect("the capture fits");
    assert_eq!(other.endpoint, EndpointId(1));
    assert_eq!(captures(&other), vec!["readme"]);
}

#[test]
fn a_lookup_does_not_go_back_after_a_literal() {
    let router = router_with(&[("/a/b", "GET", 1), ("/{}/c", "GET", 2)]);
    assert!(router.route("/a/c", "GET").is_none());
    assert_eq!(router.route("/x/c", "GET").map(|f| f.endpoint), Some(EndpointId(2)));
    assert_eq!(router.route("/a/b", "GET").map(|f| f.endpoint), Some(EndpointId(1)));
}

#[test]
fn a_path_segment_in_braces_is_captured() {
    let router = router_with(&[("/{}", "GET", 1)]);
    let found = router.route("/{}", "GET").expect("the capture fits");
    assert_eq!(captures(&found), vec!["{}"]);
}

#[test]
fn one_pattern_holds_several_methods() {
    let router = router_with(&[("/message/{}", "GET", 1), ("/message/{}", "POST", 2)]);
    assert_eq!(router.routes().len(), 1);
    assert_eq!(router.route("/message/0", "GET").map(|f| f.endpoint), Some(EndpointId(1)));
    assert_eq!(router.route("/message/0", "POST").map(|f| f.endpoint), Some(EndpointId(2)));
}

#[test]
fn patterns_with_the_same_segments_are_one_route() {
    let router = router_with(&[("/a/b", "GET", 1), ("a//b/", "POST", 2)]);
    assert_eq!(router.routes().len(), 1);
    assert_eq!(router.routes()[0].pattern, "/a/b");
    assert_eq!(router.route("/a/b", "POST").map(|f| f.endpoint), Some(EndpointId(2)));
}

#[test]
fn binding_a_method_again_overwrites() {
    let router = router_with(&[
        ("/x", "GET", 1),
        ("/x", "POST", 2),
        ("/x", "GET", 3),
    ]);
    assert_eq!(router.route("/x", "GET").map(|f| f.endpoint), Some(EndpointId(3)));
    assert_eq!(router.route("/x", "POST").map(|f| f.endpoint), Some(EndpointId(2)));
    assert_eq!(router.routes()[0].bindings.len(), 2);
    assert_eq!(router.routes()[0].bindings[0], ("GET".to_string(), EndpointId(3)));
}

#[test]
fn the_method_helpers_bind_their_methods() {
    let mut router = Router::new();
    {
        let mut resource = router.at("/r");
        resource.get(EndpointId(1));
        resource.head(EndpointId(2));
        resource.put(EndpointId(3));
        resource.post(EndpointId(4));
        resource.delete(EndpointId(5));
        resource.options(EndpointId(6));
        resource.connect(EndpointId(7));
        resource.patch(EndpointId(8));
        resource.trace(EndpointId(9));
    }
    let methods = ["GET", "HEAD", "PUT", "POST", "DELETE", "OPTIONS", "CONNECT", "PATCH", "TRACE"];
    for (i, method) in methods.iter().enumerate() {
        assert_eq!(router.route("/r", method).map(|f| f.endpoint), Some(EndpointId(i + 1)));
    }
}

#[test]
fn middleware_applies_to_routes_bound_afterwards() {
    let mut router = Router::new();
    router.at("/early").get(EndpointId(0));
    router.middleware(MiddlewareId(10));
    router.at("/middle").get(EndpointId(1));
    router.middleware(MiddlewareId(11));
    router.at("/late").get(EndpointId(2));
    router.at("/middle").post(EndpointId(3));
    assert_eq!(router.route("/early", "GET").unwrap().middleware, vec![]);
    assert_eq!(router.route("/middle", "GET").unwrap().middleware, vec![MiddlewareId(10)]);
    assert_eq!(router.route("/middle", "POST").unwrap().middleware, vec![MiddlewareId(10)]);
    assert_eq!(
        router.route("/late", "GET").unwrap().middleware,
        vec![MiddlewareId(10), MiddlewareId(11)]
    );
    assert_eq!(router.stack(), &vec![MiddlewareId(10), MiddlewareId(11)]);
}

#[test]
fn a_route_asked_for_early_takes_the_middleware_of_its_first_binding() {
    let mut router = Router::new();
    router.at("/x");
    router.middleware(MiddlewareId(1));
    router.at("/x").get(EndpointId(0));
    assert_eq!(router.route("/x", "GET").unwrap().middleware, vec![MiddlewareId(1)]);
}

#[test]
fn a_route_without_bindings_still_shadows() {
    let mut router = Router::new();
    router.at("/{}").get(EndpointId(0));
    router.at("/a");
    assert!(router.route("/a", "GET").is_none());
    assert_eq!(router.route("/b", "GET").map(|f| f.endpoint), Some(EndpointId(0)));
}

#[test]
fn catch_all_patterns_are_not_accepted() {
    let mut router = Router::new();
    assert!(!router.accepts("/files/*"));
    assert!(!router.accepts("/files/{rest}*"));
    assert!(!router.accepts("/{}*/x"));
    assert!(router.try_at("/files/*").is_none());
    assert!(router.accepts("/files/*x"));
    assert!(router.accepts("/files/{"));
    assert_eq!(router.routes().len(), 0);
}

#[test]
fn captures_under_one_node_must_agree() {
    let mut router = Router::new();
    router.at("/foo/{a}").get(EndpointId(0));
    assert!(!router.accepts("/foo/{b}"));
    assert!(!router.accepts("/foo/{}/x"));
    assert!(router.accepts("/foo/{a}/x"));
    assert!(router.accepts("/foo/bar"));
    assert!(router.accepts("/bar/{b}"));
    assert!(router.try_at("/foo/{b}").is_none());
    assert_eq!(router.routes().len(), 1);
    match router.try_at("/foo/{a}/x") {
        Some(mut resource) => resource.get(EndpointId(1)),
        None => panic!("the pattern is accepted"),
    }
    let found = router.route("/foo/1/x", "GET").expect("the pattern fits");
    assert_eq!(found.endpoint, EndpointId(1));
    assert_eq!(found.params.get("a").map(|s| s.as_str()), Some("1"));
}

#[test]
fn resolve_answers_for_each_outcome_of_the_table() {
    let router = router_with(&[("/a/{x}", "GET", 5)]);
    assert!(router.resolve(None, "GET").is_none());
    assert!(router.resolve(Some((1, vec![])), "GET").is_none());
    assert!(router.resolve(Some((0, vec!["v".to_string()])), "PUT").is_none());
    let found = router.resolve(Some((0, vec!["v".to_string()])), "GET").expect("bound");
    assert_eq!(found.endpoint, EndpointId(5));
    assert_eq!(found.params.vec, vec!["v".to_string()]);
    assert_eq!(found.params.map, vec![("x".to_string(), "v".to_string())]);
}

#[test]
fn nested_routes_stand_under_the_outer_pattern() {
    let mut inner = Router::new();
    inner.middleware(MiddlewareId(20));
    inner.at("/list").get(EndpointId(1));
    inner.middleware(MiddlewareId(21));
    inner.at("/{id}").get(EndpointId(2));

    let mut outer = Router::new();
    outer.middleware(MiddlewareId(10));
    outer.at("/plain").get(EndpointId(0));
    assert!(outer.can_mount("/api", &inner));
    outer.at("/api").nest(inner);
    outer.middleware(MiddlewareId(11));
    outer.at("/after").get(EndpointId(3));

    let list = outer.route("/api/list", "GET").expect("nested");
    assert_eq!(list.endpoint, EndpointId(1));
    assert_eq!(list.middleware, vec![MiddlewareId(10), MiddlewareId(20)]);
    let item = outer.route("/api/17", "GET").expect("nested");
    assert_eq!(item.endpoint, EndpointId(2));
    assert_eq!(item.middleware, vec![MiddlewareId(10), MiddlewareId(20), MiddlewareId(21)]);
    assert_eq!(item.params.get("id").map(|s| s.as_str()), Some("17"));
    assert_eq!(outer.route("/plain", "GET").unwrap().middleware, vec![MiddlewareId(10)]);
    assert_eq!(
        outer.route("/after", "GET").unwrap().middleware,
        vec![MiddlewareId(10), MiddlewareId(11)]
    );
    assert!(outer.route("/list", "GET").is_none());
    assert!(outer.route("/api", "GET").is_none());
}

#[test]
fn a_nested_route_takes_the_place_of_one_with_the_same_segments() {
    let mut inner = Router::new();
    inner.at("/x").post(EndpointId(9));
    let mut outer = Router::new();
    outer.middleware(MiddlewareId(1));
    outer.at("/api/x").get(EndpointId(0));
    outer.middleware(MiddlewareId(2));
    outer.mount("/api", inner);
    assert_eq!(outer.routes().len(), 1);
    assert!(outer.route("/api/x", "GET").is_none());
    let found = outer.route("/api/x", "POST").expect("nested");
    assert_eq!(found.endpoint, EndpointId(9));
    assert_eq!(found.middleware, vec![MiddlewareId(1), MiddlewareId(2)]);
}

#[test]
fn nesting_is_refused_where_captures_disagree() {
    let mut inner = Router::new();
    inner.at("/{b}").get(EndpointId(1));
    let mut outer = Router::new();
    outer.at("/api/{a}").get(EndpointId(0));
    assert!(!outer.can_mount("/api", &inner));
    assert!(outer.can_mount("/other", &inner));
}

fn pieces(text: &str) -> Vec<String> {
    text.split('/').filter(|p| !p.is_empty()).map(|p| p.to_string()).collect()
}

fn captures_one(seg: &str) -> bool {
    seg.len() >= 2 && seg.starts_with('{') && seg.ends_with('}')
}

fn swallows(seg: &str) -> bool {
    seg == "*" || (seg.starts_with('{') && seg.ends_with("}*"))
}

fn pattern_fits(pattern: &str, path: &str) -> bool {
    let key = pieces(pattern);
    let segs = pieces(path);
    key.len() == segs.len() && key.iter().zip(segs.iter()).all(|(k, s)| captures_one(k) || k == s)
}

fn pattern_captures(pattern: &str, path: &str) -> Vec<String> {
    let key = pieces(pattern);
    let segs = pieces(path);
    key.iter().zip(segs.iter()).filter(|(k, _)| captures_one(k)).map(|(_, s)| s.clone()).collect()
}

fn pattern_shadowed(patterns: &[String], at: usize, path: &str) -> bool {
    let key = pieces(&patterns[at]);
    let segs = pieces(path);
    (0..key.len().min(segs.len())).any(|i| {
        captures_one(&key[i])
            && !captures_one(&segs[i])
            && !swallows(&segs[i])
            && patterns.iter().any(|other| {
                let other = pieces(other);
                other.len() > i && other[..i] == key[..i] && other[i] == segs[i]
            })
    })
}

fn texts_upto_two(alphabet: &[&str]) -> Vec<String> {
    let mut all = vec!["/".to_string()];
    for a in alphabet {
        all.push(format!("/{}", a));
        for b in alphabet {
            all.push(format!("/{}/{}", a, b));
        }
    }
    all
}

#[test]
fn lookups_agree_with_what_is_promised_of_them() {
    let candidates = texts_upto_two(&["a", "b", "{}", "{x}"]);
    let paths = texts_upto_two(&["a", "b", "c", "{}"]);
    let mut tables = 0;
    let mut hits = 0;
    for first in candidates.iter() {
        for second in candidates.iter() {
            for third in candidates.iter().step_by(2) {
                let mut router = Router::new();
                let mut patterns: Vec<String> = Vec::new();
                for pattern in [first, second, third] {
                    if patterns.iter().any(|p| pieces(p) == pieces(pattern)) {
                        continue;
                    }
                    if !router.accepts(pattern) {
                        continue;
                    }
                    router.at(pattern).get(EndpointId(patterns.len()));
                    patterns.push(pattern.clone());
                }
                tables += 1;
                for path in paths.iter() {
                    let found = router.route(path, "GET");
                    let fitting: Vec<usize> =
                        (0..patterns.len()).filter(|i| pattern_fits(&patterns[*i], path)).collect();
                    match &found {
                        Some(result) => {
                            hits += 1;
                            let at = result.endpoint.0;
                            assert!(fitting.contains(&at), "{:?} {}", patterns, path);
                            assert_eq!(result.params.vec, pattern_captures(&patterns[at], path));
                        }
                        None => {}
                    }
                    if fitting.is_empty() {
                        assert!(found.is_none(), "{:?} {}", patterns, path);
                    }
                    for at in fitting {
                        if !pattern_shadowed(&patterns, at, path) {
                            let result = found.as_ref().expect("an unshadowed fitting route answers");
                            assert_eq!(result.endpoint, EndpointId(at), "{:?} {}", patterns, path);
                            assert_eq!(result.params.vec, pattern_captures(&patterns[at], path));
                        }
                    }
                }
            }
        }
    }
    assert!(tables > 1000 && hits > 1000);
}

#[test]
fn binding_by_place_is_binding_through_the_route() {
    let mut router = Router::new();
    let at = router.at("/x").index;
    router.middleware(MiddlewareId(1));
    router.bind(at, "GET", EndpointId(4));
    router.middleware(MiddlewareId(2));
    router.bind(at, "PUT", EndpointId(5));
    router.bind(at, "GET", EndpointId(6));
    let get = router.route("/x", "GET").expect("bound");
    assert_eq!(get.endpoint, EndpointId(6));
    assert_eq!(get.middleware, vec![MiddlewareId(1)]);
    assert_eq!(router.route("/x", "PUT").map(|f| f.endpoint), Some(EndpointId(5)));
    assert_eq!(router.at("/x").index, at);
    assert_eq!(router.at("/y").index, at + 1);
}

#[test]
fn finding_a_binding_gives_its_first_place() {
    let bindings = vec![
        ("GET".to_string(), EndpointId(0)),
        ("PUT".to_string(), EndpointId(1)),
        ("GET".to_string(), EndpointId(2)),
    ];
    assert_eq!(find_binding(&bindings, "GET"), Some(0));
    assert_eq!(find_binding(&bindings, "PUT"), Some(1));
    assert_eq!(find_binding(&bindings, "POST"), None);
    assert_eq!(find_binding(&Vec::new(), "GET"), None);
}

#[test]
fn registering_makes_the_route_and_binds_the_method() {
    let mut router = Router::new();
    router.middleware(MiddlewareId(1));
    router.register("/message/{}", "GET", EndpointId(1));
    router.middleware(MiddlewareId(2));
    router.register("/message/{}", "POST", EndpointId(2));
    assert!(router.try_register("/message", "POST", EndpointId(0)));
    assert!(!router.try_register("/message/{id}", "GET", EndpointId(9)));
    assert!(!router.try_register("/files/*", "GET", EndpointId(9)));
    assert_eq!(router.routes().len(), 2);
    let get = router.route("/message/4", "GET").expect("registered");
    assert_eq!((get.endpoint, get.middleware), (EndpointId(1), vec![MiddlewareId(1)]));
    let post = router.route("/message/4", "POST").expect("registered");
    assert_eq!((post.endpoint, post.middleware), (EndpointId(2), vec![MiddlewareId(1)]));
    let new = router.route("/message", "POST").expect("registered");
    assert_eq!((new.endpoint, new.middleware), (EndpointId(0), vec![MiddlewareId(1), MiddlewareId(2)]));
}
