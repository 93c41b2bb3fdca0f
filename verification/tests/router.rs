use actus::controller::RouteDef;
use actus::controller::Verb;
use actus::controller::DEFAULT_VERBS;
use actus::middleware::AfterStep;
use actus::middleware::BeforeStep;
use actus::middleware::MiddlewareChain;
use actus::middleware::Outcome;
use actus::middleware::RequestLogger;
use actus::reply::ReplyData;
use actus::request::Request;
use actus::router::mount_point;
use actus::router::Mounted;
use actus::router::RateLimitClass;
use actus::router::Router;
use actus::router::RouterBuilder;
use actus::text::segments;
use actus::error::WebError;
use http::HeaderMap;

fn spy(path: &str) -> Mounted<String> {
    Mounted {
        handle: path.to_string(),
        name: "spy",
        routes: Vec::new(),
        max_body_bytes: None,
        rate_limit: None,
    }
}

fn build(routes: &[&str]) -> Router<String> {
    let mut b = RouterBuilder::new();
    for r in routes {
        b = b.add_route(r, spy(r));
    }
    b.build()
}

fn hit(router: &Router<String>, path: &str) -> Option<(String, String)> {
    router
        .match_controller(&segments(path))
        .map(|m| (m.controller.handle.clone(), m.action.clone()))
}

fn at(path: &str, action: &str) -> Option<(String, String)> {
    Some((path.to_string(), action.to_string()))
}

#[test]
fn longest_prefix_wins_and_passes_the_remainder() {
    let r = build(&["api/users", "api/users/admin"]);
    assert_eq!(hit(&r, "/api/users"), at("api/users", ""));
    assert_eq!(hit(&r, "/api/users/42"), at("api/users", "42"));
    assert_eq!(hit(&r, "/api/users/42/posts"), at("api/users", "42/posts"));
    assert_eq!(hit(&r, "/api/users/admin"), at("api/users/admin", ""));
    assert_eq!(hit(&r, "/api/users/admin/x"), at("api/users/admin", "x"));
    assert_eq!(hit(&r, "/api"), None);
    assert_eq!(hit(&r, "/nope"), None);
    assert_eq!(hit(&r, "/"), None);
}

#[test]
fn trailing_star_is_sugar_for_mounting_at_the_prefix() {
    let star = build(&["api/folder/*"]);
    let plain = build(&["api/folder"]);
    for path in ["/api/folder", "/api/folder/x", "/api/folder/x/y/z"] {
        assert_eq!(
            hit(&star, path).map(|(_, a)| a),
            hit(&plain, path).map(|(_, a)| a),
            "`api/folder/*` and `api/folder` must route `{path}` identically"
        );
    }
    assert_eq!(hit(&star, "/api/folder").unwrap().1, "");
    assert_eq!(hit(&star, "/api/folder/deep/path").unwrap().1, "deep/path");
}

#[test]
fn root_star_is_the_global_fallback() {
    let r = build(&["*", "api/users"]);
    assert_eq!(hit(&r, "/api/users"), at("api/users", ""));
    assert_eq!(hit(&r, "/api/users/9"), at("api/users", "9"));
    assert_eq!(hit(&r, "/"), at("*", ""));
    assert_eq!(hit(&r, "/anything/here"), at("*", "anything/here"));
    assert_eq!(hit(&r, "/api/missing"), at("*", "api/missing"));
    let r2 = build(&["", "api/users"]);
    assert_eq!(hit(&r2, "/whatever"), at("", "whatever"));
    assert_eq!(hit(&r2, "/api/users"), at("api/users", ""));
}

#[test]
fn match_controller_returns_some_for_matched_path_and_none_for_404() {
    let router = RouterBuilder::new()
        .add_route("api/users", spy("users"))
        .add_route("api/users/admin", spy("admin"))
        .build();

    let pp: Vec<String> = vec!["api".into(), "users".into(), "admin".into()];
    let rm = router.match_controller(&pp).expect("matches");
    assert_eq!(rm.action, "");
    assert_eq!(rm.controller.name, "spy");

    let pp: Vec<String> = vec!["api".into(), "users".into(), "42".into()];
    let rm = router.match_controller(&pp).expect("matches");
    assert_eq!(rm.action, "42");

    let pp: Vec<String> = vec!["api".into(), "missing".into()];
    assert!(router.match_controller(&pp).is_none());

    let pp: Vec<String> = vec![];
    assert!(router.match_controller(&pp).is_none());
}

#[test]
fn duplicate_mount_overwrites_earlier_one() {
    let router = RouterBuilder::new()
        .add_route("api/users", spy("first"))
        .add_route("api/users", spy("second"))
        .build();
    let pp: Vec<String> = vec!["api".into(), "users".into()];
    assert_eq!(
        router
            .match_controller(&pp)
            .map(|m| m.controller.handle.as_str()),
        Some("second"),
    );
}

fn route(pattern: &'static str, handler: &'static str, verb: &'static [Verb]) -> RouteDef {
    RouteDef {
        pattern,
        handler_id: "handler_0",
        handler,
        verb,
        params: &[],
        doc: None,
    }
}

#[test]
fn routes_introspection_returns_mount_paths_and_routedefs() {
    let mut users = spy("users");
    users.routes = vec![
        route("", "list", &[Verb::GET]),
        route("{id}", "get", &[Verb::GET]),
    ];
    let mut health = spy("health");
    health.routes = vec![route("", "ping", &DEFAULT_VERBS)];

    let router = RouterBuilder::new()
        .add_route("api/users", users)
        .add_route("health", health)
        .build();

    let pairs = router.routes();
    let mounts: Vec<&str> = pairs.iter().map(|(m, _)| m.as_str()).collect();
    let handlers: Vec<&str> = pairs.iter().map(|(_, r)| r.handler).collect();
    assert_eq!(
        mounts,
        vec!["api/users", "api/users", "health"],
        "DFS sorts child segments alphabetically — 'api' before 'health'",
    );
    assert_eq!(handlers, vec!["list", "get", "ping"]);
}

fn classed(class: &'static str) -> Mounted<String> {
    let mut m = spy(class);
    m.rate_limit = Some(class);
    m
}

#[test]
fn rate_limit_classes_lists_only_classed_controllers_with_mounts() {
    let router = RouterBuilder::new()
        .add_route("api/auth", classed("auth"))
        .add_route("api/health", spy("health"))
        .add_route("api/tasks", classed("tasks"))
        .build();

    assert_eq!(
        router.rate_limit_classes(),
        vec![
            RateLimitClass {
                mount: "api/auth".to_string(),
                class: "auth",
            },
            RateLimitClass {
                mount: "api/tasks".to_string(),
                class: "tasks",
            },
        ],
    );
    assert!(router
        .rate_limit_classes()
        .iter()
        .all(|rlc| rlc.mount != "api/health"),);
}

#[test]
fn star_only_in_last_position() {
    let r = build(&["a/*/b"]);
    assert_eq!(hit(&r, "/a/x/b"), None);
    assert_eq!(hit(&r, "/a/*/b"), None);
}

#[test]
fn mounts_come_in_order_whatever_the_order_of_registration() {
    let r = build(&["b/c", "a", "b", "*"]);
    let mounts: Vec<String> = r.mounts().into_iter().map(|(m, _)| m).collect();
    assert_eq!(mounts, ["", "a", "b", "b/c"]);
}

#[test]
fn mount_points_lose_their_star() {
    assert_eq!(
        mount_point("api/folder/*"),
        Some(vec!["api".to_string(), "folder".to_string()])
    );
    assert_eq!(mount_point("*"), Some(vec![]));
    for path in ["", "/", "//", "api", "/api", "//api/folder"] {
        assert_eq!(mount_point(&format!("{path}/*")), mount_point(path));
    }
    assert_eq!(mount_point("/api/*"), Some(vec!["api".to_string()]));
    assert_eq!(mount_point("//*"), Some(vec![]));
    assert_eq!(mount_point("a/*/b"), None);
}

#[derive(Clone, Copy)]
enum Hook {
    Continues,
    ShortCircuits,
    Fails,
}

fn run_before(
    chain: &MiddlewareChain<Hook>,
    ran: &mut Vec<usize>,
) -> Result<Outcome<(), ()>, WebError> {
    let mut done: usize = 0;
    let mut last: Option<Result<Outcome<(), ()>, WebError>> = None;
    loop {
        match chain.process_request(done, last) {
            BeforeStep::Finished(outcome) => return outcome,
            BeforeStep::Run(i) => {
                ran.push(i);
                last = Some(match chain.get(i) {
                    Hook::Continues => Ok(Outcome::Continue),
                    Hook::ShortCircuits => Ok(Outcome::Respond(ReplyData::Empty)),
                    Hook::Fails => Err(WebError::Forbidden),
                });
                done = done + 1;
            }
        }
    }
}

#[test]
fn before_short_circuit_skips_the_rest() {
    let mut chain = MiddlewareChain::new();
    chain.add(Hook::Continues);
    chain.add(Hook::ShortCircuits);
    chain.add(Hook::Continues);
    let mut ran: Vec<usize> = Vec::new();
    match run_before(&chain, &mut ran) {
        Ok(Outcome::Respond(ReplyData::Empty)) => {}
        other => panic!("expected Respond(Empty), got {other:?}"),
    }
    assert_eq!(
        ran,
        [0, 1],
        "a middleware after the short-circuit still ran"
    );
}

#[test]
fn all_continue_yields_continue() {
    let mut chain = MiddlewareChain::new();
    chain.add(Hook::Continues);
    chain.add(Hook::Continues);
    let mut ran: Vec<usize> = Vec::new();
    assert!(matches!(
        run_before(&chain, &mut ran),
        Ok(Outcome::Continue)
    ));
    assert_eq!(ran, [0, 1]);
}

#[test]
fn an_error_on_the_way_in_skips_the_rest() {
    let mut chain = MiddlewareChain::new();
    chain.add(Hook::Fails);
    chain.add(Hook::Continues);
    let mut ran: Vec<usize> = Vec::new();
    assert!(matches!(
        run_before(&chain, &mut ran),
        Err(WebError::Forbidden)
    ));
    assert_eq!(ran, [0]);
}

fn req() -> Request {
    Request::from_hyper_parts("GET", "/", None, HeaderMap::new())
}

#[test]
fn after_runs_in_reverse_order_and_sees_the_request() {
    let mut chain = MiddlewareChain::new();
    chain.add("A");
    chain.add("B");
    chain.add("C");
    assert_eq!(chain.len(), 3);
    let mut request = req();
    request.path_parts = vec!["api".into(), "users".into()];
    let mut log: Vec<String> = Vec::new();
    let mut done: usize = 0;
    let mut last: Option<Result<(), WebError>> = None;
    loop {
        match chain.process_response(done, last) {
            AfterStep::Finished(outcome) => {
                outcome.unwrap();
                break;
            }
            AfterStep::Run(i) => {
                log.push(format!("{}:{}", chain.get(i), request.path_parts.join("/")));
                last = Some(Ok(()));
                done = done + 1;
            }
        }
    }
    assert_eq!(log, vec!["C:api/users", "B:api/users", "A:api/users"]);
}

#[test]
fn requests_are_reported_by_their_path() {
    let mut request = req();
    assert_eq!(RequestLogger.reported_path(&request), "/");
    request.path_parts = vec!["api".into(), "users".into()];
    assert_eq!(RequestLogger.reported_path(&request), "/api/users");
}
