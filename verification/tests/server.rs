use actus::compression::CompressionLayer;
use actus::controller::ControllerMode;
use actus::controller::ParamDef;
use actus::controller::ParamSource;
use actus::controller::ParamType;
use actus::controller::RouteDef;
use actus::controller::Verb;
use actus::cors::CorsLayer;
use actus::error::WebError;
use actus::finalizer::Body;
use actus::finalizer::ResponseParts;
use actus::middleware::Outcome;
use actus::params::Params;
use actus::reply;
use actus::reply::Reply;
use actus::reply::ReplyData;
use actus::request::reservation;
use actus::request::BodyRead;
use actus::request::Request;
use actus::router::Mounted;
use actus::router::RouterBuilder;
use actus::routing::resolve;
use actus::server::default_drain_deadline;
use actus::server::Server;
use actus::server::Step;
use actus::server::DEFAULT_MAX_BODY_BYTES;
use actus::server::GIB;
use actus::server::KIB;
use actus::server::MIB;
use actus::serving::Phase;
use actus::serving::ServeAction;
use actus::serving::ServeEvent;
use actus::serving::Serving;
use http::HeaderMap;
use http::HeaderName;
use http::HeaderValue;
use serde_json::Value;
use std::time::Duration;

enum Mw {
    StampTraceId,
    ShortCircuit,
    RejectIfHeader,
    LimitClass(&'static str),
    FailsAfter,
}

impl Mw {
    fn before(&self, request: &mut Request) -> Result<Outcome<(), u8>, WebError> {
        match self {
            Mw::ShortCircuit => Ok(Outcome::Respond(reply::json(
                serde_json::from_str(r#"{"short": "circuit"}"#).unwrap(),
            ))),
            Mw::RejectIfHeader if request.headers.contains_key("x-reject") => {
                Err(WebError::Unauthorized)
            }
            Mw::LimitClass(class) if request.rate_limit_class == Some(*class) => {
                Err(WebError::TooManyRequests(Some(Duration::from_secs(7))))
            }
            _ => Ok(Outcome::Continue),
        }
    }

    fn after(&self, request: &Request, data: &mut ReplyData<(), u8>) -> Result<(), WebError> {
        match self {
            Mw::StampTraceId => {
                if let Some(v) = request
                    .headers
                    .get("x-trace-id")
                    .and_then(|v| v.to_str().ok())
                {
                    data.add_header("X-Trace-Id", v);
                }
                Ok(())
            }
            Mw::FailsAfter => Err(WebError::Internal("after".to_string())),
            _ => Ok(()),
        }
    }
}

const DATA: &[ParamDef] = &[ParamDef {
    name: "data",
    ty: ParamType::Json,
    source: ParamSource::Body,
    default: None,
}];

fn route(pattern: &'static str, handler: &'static str, verb: &'static [Verb]) -> RouteDef {
    RouteDef {
        pattern,
        handler_id: handler,
        handler,
        verb,
        params: if handler == "post" { DATA } else { &[] },
        doc: None,
    }
}

fn mounted(name: &'static str, routes: Vec<RouteDef>) -> Mounted<&'static str> {
    Mounted {
        handle: name,
        name,
        routes,
        max_body_bytes: None,
        rate_limit: None,
    }
}

fn new_server() -> Server<&'static str, Mw> {
    let dummy = mounted(
        "dummy",
        vec![
            route("", "hello", &[Verb::GET]),
            route("post", "post", &[Verb::POST]),
            route("ws", "socket", &[Verb::GET]),
            route("big", "big", &[Verb::GET]),
        ],
    );
    let mut tight = mounted("tight", vec![route("", "post", &[Verb::POST])]);
    tight.max_body_bytes = Some(16);
    let mut classified = mounted("classified", vec![route("", "hello", &[Verb::GET])]);
    classified.rate_limit = Some("vip");
    Server::new(
        RouterBuilder::new()
            .add_route("svc", dummy)
            .add_route("tight", tight)
            .add_route("classified", classified)
            .build(),
    )
}

fn dispatch(target: &Mounted<&'static str>, action: &str, params: Params) -> Reply<(), u8> {
    let (route, extracted) = resolve(&target.routes, action, &params, ControllerMode::Strict)?;
    match route.handler {
        "hello" => Ok(reply::json(
            serde_json::from_str(r#"{"hello": "world"}"#).unwrap(),
        )),
        "post" => Ok(reply::json(extracted.get_json_body()?)),
        "socket" => Ok(ReplyData::Upgrade(9)),
        "big" => Ok(reply::bytes("text/plain", vec![b'a'; 5000])),
        other => panic!("no handler {other}"),
    }
}

struct Sent {
    status: u16,
    headers: HeaderMap,
    body: Vec<u8>,
    body_was_read: bool,
    task: Option<u8>,
}

fn sent(response: ResponseParts<()>, body_was_read: bool, task: Option<u8>) -> Sent {
    Sent {
        status: response.status.as_u16(),
        headers: response.headers,
        body: match response.body {
            Body::Full(data) => data,
            Body::Stream(()) => Vec::new(),
        },
        body_was_read,
        task,
    }
}

fn serve(server: &Server<&'static str, Mw>, request: Request, body: &[u8]) -> Sent {
    let mut read = false;
    let mut step: Step<'_, &'static str, (), u8> = server.handle_request(request);
    loop {
        step = match step {
            Step::ReadBody {
                exchange,
                target,
                cap,
            } => {
                read = true;
                let over_budget = match server.max_inflight_body_bytes() {
                    Some(n) => reservation(cap) as usize > n,
                    None => false,
                };
                let outcome = if over_budget {
                    BodyRead::NoBudget
                } else if body.len() > cap {
                    BodyRead::TooLarge
                } else {
                    BodyRead::Complete(body.to_vec())
                };
                server.body_read(exchange, target, outcome)
            }
            Step::Before {
                mut exchange,
                target,
                at,
            } => {
                let outcome = server.middleware(at).before(&mut exchange.request);
                server.before_done(exchange, target, at, outcome)
            }
            Step::Dispatch {
                exchange,
                target,
                params,
            } => {
                let reply = dispatch(target.controller, &target.action, params);
                server.dispatched(exchange, reply)
            }
            Step::After {
                exchange,
                mut data,
                at,
                done,
            } => {
                let outcome = server.middleware(at).after(&exchange.request, &mut data);
                assert!(server.can_send(&data));
                server.after_done(exchange, data, done, outcome)
            }
            Step::Switch { response, task } => return sent(response, read, Some(task)),
            Step::Send(response) => return sent(response, read, None),
        };
    }
}

fn ask(method: &str, target: &str, headers: &[(&'static str, &str)]) -> Request {
    let mut map = HeaderMap::new();
    for (n, v) in headers {
        map.append(
            HeaderName::from_static(n),
            HeaderValue::from_str(v).unwrap(),
        );
    }
    let (path, query) = match target.split_once('?') {
        Some((p, q)) => (p, Some(q)),
        None => (target, None),
    };
    Request::from_hyper_parts(method, path, query, map)
}

fn header(sent: &Sent, name: &str) -> Option<String> {
    sent.headers
        .get(name)
        .and_then(|v| v.to_str().ok())
        .map(|s| s.to_string())
}

#[test]
fn after_hook_runs_on_short_circuit_sees_request_and_can_stamp_headers() {
    let server = new_server()
        .with_middleware(Mw::StampTraceId)
        .with_middleware(Mw::ShortCircuit);
    let r = serve(&server, ask("GET", "/svc", &[("x-trace-id", "abc123")]), b"");
    assert_eq!(r.status, 200);
    let body: Value = serde_json::from_slice(&r.body).unwrap();
    assert_eq!(body["short"], "circuit");
    assert_eq!(header(&r, "x-trace-id").as_deref(), Some("abc123"));
}

#[test]
fn pre_parse_413_carries_cors_headers_and_runs_after_chain() {
    let server = new_server()
        .with_middleware(Mw::StampTraceId)
        .with_max_body_bytes(16)
        .with_cors(CorsLayer::permissive());
    let body = "x".repeat(64);
    let r = serve(
        &server,
        ask(
            "POST",
            "/svc",
            &[
                ("origin", "https://app.example.com"),
                ("x-trace-id", "trace-413"),
                ("content-type", "application/octet-stream"),
            ],
        ),
        body.as_bytes(),
    );
    assert_eq!(r.status, 413);
    assert_eq!(
        header(&r, "access-control-allow-origin").as_deref(),
        Some("https://app.example.com")
    );
    assert_eq!(header(&r, "x-trace-id").as_deref(), Some("trace-413"));
}

#[test]
fn after_runs_on_router_404() {
    let server = new_server().with_middleware(Mw::StampTraceId);
    let r = serve(
        &server,
        ask("GET", "/missing/path", &[("x-trace-id", "trace-404")]),
        b"",
    );
    assert_eq!(r.status, 404);
    assert_eq!(header(&r, "x-trace-id").as_deref(), Some("trace-404"));
}

#[test]
fn after_runs_on_router_405_and_allow_header_survives() {
    let server = new_server().with_middleware(Mw::StampTraceId);
    let r = serve(
        &server,
        ask("DELETE", "/svc", &[("x-trace-id", "trace-405")]),
        b"",
    );
    assert_eq!(r.status, 405);
    assert_eq!(header(&r, "allow").as_deref(), Some("GET"));
    assert_eq!(header(&r, "x-trace-id").as_deref(), Some("trace-405"));
}

#[test]
fn after_runs_on_middleware_err_short_circuit() {
    let server = new_server()
        .with_middleware(Mw::StampTraceId)
        .with_middleware(Mw::RejectIfHeader);
    let r = serve(
        &server,
        ask(
            "GET",
            "/svc",
            &[("x-reject", "yes"), ("x-trace-id", "trace-401")],
        ),
        b"",
    );
    assert_eq!(r.status, 401);
    assert_eq!(header(&r, "x-trace-id").as_deref(), Some("trace-401"));
}

#[test]
fn request_timeout_yields_504_and_skips_the_after_chain() {
    let server = new_server()
        .with_middleware(Mw::StampTraceId)
        .with_request_timeout(Duration::from_millis(100));
    assert_eq!(server.request_timeout(), Some(Duration::from_millis(100)));
    let request = ask("GET", "/svc", &[("x-trace-id", "trace-504")]);
    let response: ResponseParts<()> = server.timed_out::<(), u8>(&request.headers);
    assert_eq!(response.status.as_u16(), 504);
    assert!(response.headers.get("x-trace-id").is_none());
}

#[test]
fn a_timeout_can_be_read_by_an_allowed_origin() {
    let server = new_server().with_cors(CorsLayer::new().allow_origin("https://a.example"));
    let request = ask("GET", "/svc", &[("origin", "https://a.example")]);
    let r = sent(server.timed_out::<(), u8>(&request.headers), false, None);
    assert_eq!(r.status, 504);
    assert_eq!(
        header(&r, "access-control-allow-origin").as_deref(),
        Some("https://a.example")
    );
    assert_eq!(header(&r, "vary").as_deref(), Some("Origin"));
    let other = ask("GET", "/svc", &[("origin", "https://b.example")]);
    let r = sent(server.timed_out::<(), u8>(&other.headers), false, None);
    assert_eq!(r.status, 504);
    assert_eq!(header(&r, "access-control-allow-origin"), None);
}

#[test]
fn errors_on_which_no_hook_runs_are_sent_plain() {
    let long = WebError::Internal("a".repeat(4000));
    let server = new_server()
        .with_middleware(Mw::StampTraceId)
        .with_cors(CorsLayer::new().allow_origin("https://a.example"))
        .with_compression(CompressionLayer::new().prefer_gzip().min_size(0));
    let headers = [
        ("accept-encoding", "gzip"),
        ("origin", "https://a.example"),
    ];
    let request = ask("GET", "/svc", &headers);
    let late = sent(server.timed_out::<(), u8>(&request.headers), false, None);
    assert_eq!(late.status, 504);
    assert_eq!(header(&late, "content-encoding"), None);
    let step: Step<'_, &'static str, (), u8> = server.handle_request(request);
    let exchange = match step {
        Step::ReadBody { exchange, .. } => exchange,
        _ => panic!("the body comes first"),
    };
    let failed = server.after_done(exchange, ReplyData::<(), u8>::Empty, 0, Err(long));
    match failed {
        Step::Send(response) => {
            let r = sent(response, false, None);
            assert_eq!(r.status, 500);
            assert_eq!(header(&r, "content-encoding"), None);
            assert_eq!(
                header(&r, "access-control-allow-origin").as_deref(),
                Some("https://a.example")
            );
            let body: Value = serde_json::from_slice(&r.body).unwrap();
            assert_eq!(body["status"], 500);
        }
        _ => panic!("the response follows"),
    }
}

#[test]
fn controller_max_body_attribute_overrides_server_default() {
    let server = new_server().with_max_body_bytes(1024 * 1024);
    let body = "x".repeat(64);
    let json = [("content-type", "application/json")];
    let r = serve(&server, ask("POST", "/tight", &json), body.as_bytes());
    assert_eq!(r.status, 413);
    let r = serve(&server, ask("POST", "/svc/post", &json), body.as_bytes());
    assert_eq!(r.status, 400);
}

#[test]
fn controller_max_body_allows_small_bodies() {
    let server = new_server();
    let r = serve(
        &server,
        ask("POST", "/tight", &[("content-type", "application/json")]),
        b"{}",
    );
    assert_eq!(r.status, 200);
    let resp: Value = serde_json::from_slice(&r.body).unwrap();
    assert_eq!(resp, Value::Object(serde_json::Map::new()));
}

#[test]
fn nonexistent_path_404s_without_buffering_the_body() {
    let server = new_server().with_max_body_bytes(16);
    let body = "x".repeat(1024);
    let r = serve(
        &server,
        ask(
            "POST",
            "/no-such-route",
            &[("content-type", "application/octet-stream")],
        ),
        body.as_bytes(),
    );
    assert_eq!(r.status, 404);
    assert!(!r.body_was_read);
}

#[test]
fn inflight_body_budget_returns_503_when_exhausted() {
    let server = new_server()
        .with_max_body_bytes(32)
        .with_max_inflight_body_bytes(16);
    let r = serve(
        &server,
        ask("POST", "/svc/post", &[("content-type", "application/json")]),
        b"abcdefgh",
    );
    assert_eq!(r.status, 503);
    let retry = header(&r, "retry-after").expect("Retry-After header present");
    assert!(retry.parse::<u64>().is_ok(), "Retry-After is delta-seconds");
    assert_eq!(retry, "1");
}

#[test]
fn requests_under_timeout_succeed_normally() {
    let server = new_server()
        .with_middleware(Mw::StampTraceId)
        .with_request_timeout(Duration::from_secs(5));
    let r = serve(
        &server,
        ask("GET", "/svc", &[("x-trace-id", "trace-ok")]),
        b"",
    );
    assert_eq!(r.status, 200);
    assert_eq!(header(&r, "x-trace-id").as_deref(), Some("trace-ok"));
}

#[test]
fn after_runs_on_malformed_body_400() {
    let server = new_server().with_middleware(Mw::StampTraceId);
    let r = serve(
        &server,
        ask(
            "POST",
            "/svc/post",
            &[
                ("x-trace-id", "trace-400"),
                ("content-type", "application/json"),
            ],
        ),
        b"{ this is not valid json",
    );
    assert_eq!(r.status, 400);
    assert_eq!(header(&r, "x-trace-id").as_deref(), Some("trace-400"));
}

#[test]
fn rate_limit_class_label_reaches_middleware() {
    let server = new_server().with_middleware(Mw::LimitClass("vip"));
    let r = serve(&server, ask("GET", "/classified", &[]), b"");
    assert_eq!(r.status, 429);
    assert_eq!(header(&r, "retry-after").as_deref(), Some("7"));
    let r = serve(&server, ask("GET", "/svc", &[]), b"");
    assert_eq!(r.status, 200);
}

#[test]
fn an_error_on_the_way_out_is_answered_at_once() {
    let server = new_server()
        .with_middleware(Mw::StampTraceId)
        .with_middleware(Mw::FailsAfter)
        .with_cors(CorsLayer::permissive());
    let r = serve(
        &server,
        ask(
            "GET",
            "/svc",
            &[("x-trace-id", "t"), ("origin", "https://a.example")],
        ),
        b"",
    );
    assert_eq!(r.status, 500);
    assert!(header(&r, "x-trace-id").is_none());
    assert_eq!(
        header(&r, "access-control-allow-origin").as_deref(),
        Some("https://a.example")
    );
}

#[test]
fn preflights_are_answered_before_anything_else() {
    let server = new_server()
        .with_middleware(Mw::FailsAfter)
        .with_cors(CorsLayer::permissive());
    let r = serve(
        &server,
        ask(
            "OPTIONS",
            "/no-such-route",
            &[
                ("origin", "https://a.example"),
                ("access-control-request-method", "POST"),
            ],
        ),
        b"",
    );
    assert_eq!(r.status, 204);
    assert!(header(&r, "access-control-allow-methods").is_some());
    assert!(!r.body_was_read);
}

const HANDSHAKE: [(&str, &str); 4] = [
    ("connection", "Upgrade"),
    ("upgrade", "websocket"),
    ("sec-websocket-key", "dGhlIHNhbXBsZSBub25jZQ=="),
    ("sec-websocket-version", "13"),
];

#[test]
fn handshakes_skip_the_hooks_and_hand_the_connection_over() {
    let server = new_server().with_middleware(Mw::FailsAfter);
    let r = serve(&server, ask("GET", "/svc/ws", &HANDSHAKE), b"");
    assert_eq!(r.status, 101);
    assert_eq!(r.task, Some(9));
    assert_eq!(
        header(&r, "sec-websocket-accept").as_deref(),
        Some("s3pPLMBiTxaQ9kYGzzhZRbK+xOo=")
    );
}

#[test]
fn a_socket_that_was_not_asked_for_is_a_426() {
    let server = new_server().with_middleware(Mw::StampTraceId);
    let r = serve(
        &server,
        ask("GET", "/svc/ws", &[("x-trace-id", "trace-426")]),
        b"",
    );
    assert_eq!(r.status, 426);
    assert_eq!(r.task, None);
    assert_eq!(header(&r, "x-trace-id").as_deref(), Some("trace-426"));
    let body: Value = serde_json::from_slice(&r.body).unwrap();
    assert_eq!(body["title"], "WebSocket Upgrade Required");
}

#[test]
fn compressed_responses_vary_by_encoding_and_origin() {
    let server = new_server()
        .with_compression(CompressionLayer::new())
        .with_cors(CorsLayer::permissive());
    let r = serve(
        &server,
        ask(
            "GET",
            "/svc/big",
            &[
                ("accept-encoding", "gzip"),
                ("origin", "https://a.example"),
            ],
        ),
        b"",
    );
    assert_eq!(r.status, 200);
    assert_eq!(header(&r, "content-encoding").as_deref(), Some("gzip"));
    assert!(r.body.len() < 5000);
    let vary: Vec<&str> = r
        .headers
        .get_all("vary")
        .iter()
        .map(|v| v.to_str().unwrap())
        .collect();
    assert_eq!(vary, ["Origin", "Accept-Encoding"]);
    let r = serve(&server, ask("GET", "/svc/big", &[]), b"");
    assert_eq!(r.body.len(), 5000);
    assert!(header(&r, "vary").is_none());
}

#[test]
fn unexpected_parameters_are_a_400() {
    let server = new_server();
    let r = serve(&server, ask("GET", "/svc?x=1", &[]), b"");
    assert_eq!(r.status, 400);
}

#[test]
fn settings_are_kept() {
    assert_eq!(KIB, 1024);
    assert_eq!(MIB, 1024 * 1024);
    assert_eq!(GIB, 1024 * 1024 * 1024);
    assert_eq!(DEFAULT_MAX_BODY_BYTES, 2 * MIB);
    assert_eq!(default_drain_deadline(), Duration::from_secs(30));
    let server = new_server();
    assert_eq!(server.drain_deadline(), Duration::from_secs(30));
    assert_eq!(server.max_connections(), None);
    assert_eq!(server.max_inflight_body_bytes(), None);
    assert_eq!(server.header_read_timeout(), None);
    let server = server
        .with_drain_deadline(Duration::from_millis(200))
        .with_max_connections(10)
        .with_max_inflight_body_bytes(usize::MAX)
        .with_header_read_timeout(Duration::from_secs(3));
    assert_eq!(server.drain_deadline(), Duration::from_millis(200));
    assert_eq!(server.max_connections(), Some(10));
    assert_eq!(server.max_inflight_body_bytes(), Some(u32::MAX as usize));
    assert_eq!(server.header_read_timeout(), Some(Duration::from_secs(3)));
}

#[test]
fn connections_are_held_to_the_cap() {
    let mut s = Serving::new(Some(2));
    assert!(s.may_accept());
    assert_eq!(s.step(ServeEvent::Accepted), ServeAction::Spawn);
    assert_eq!(s.step(ServeEvent::AcceptFailed), ServeAction::ReportAccept);
    assert_eq!(s.step(ServeEvent::Accepted), ServeAction::Spawn);
    assert!(!s.may_accept());
    assert_eq!(s.open(), 2);
    assert_eq!(s.step(ServeEvent::Closed), ServeAction::Wait);
    assert!(s.may_accept());
    assert_eq!(s.step(ServeEvent::Panicked), ServeAction::ReportPanic);
    assert_eq!(s.open(), 0);
}

#[test]
fn a_server_drains_before_it_stops() {
    let mut s = Serving::new(None);
    s.step(ServeEvent::Accepted);
    s.step(ServeEvent::Accepted);
    assert_eq!(s.step(ServeEvent::Shutdown), ServeAction::StopAccepting);
    assert_eq!(s.phase(), Phase::Draining);
    assert!(!s.may_accept());
    assert_eq!(s.step(ServeEvent::Closed), ServeAction::Wait);
    assert_eq!(s.phase(), Phase::Draining);
    assert_eq!(s.step(ServeEvent::Cancelled), ServeAction::ReportFailure);
    assert_eq!(s.phase(), Phase::Stopped);
}

#[test]
fn the_deadline_aborts_what_is_left() {
    let mut s = Serving::new(None);
    s.step(ServeEvent::Accepted);
    s.step(ServeEvent::Accepted);
    s.step(ServeEvent::Shutdown);
    assert_eq!(s.step(ServeEvent::DrainDeadline), ServeAction::AbortAll(2));
    assert_eq!(s.phase(), Phase::Stopped);
    assert_eq!(s.open(), 0);
}

#[test]
fn an_idle_server_stops_at_once() {
    let mut s = Serving::new(Some(1));
    assert_eq!(s.step(ServeEvent::Shutdown), ServeAction::StopAccepting);
    assert_eq!(s.phase(), Phase::Stopped);
}
