use actus::error::ProblemDetails;
use actus::error::WebError;
use actus::finalizer::Body;
use actus::finalizer::Finalizer;
use actus::finalizer::ResponseParts;
use actus::reply::bytes;
use actus::reply::json;
use actus::reply::ReplyData;
use actus::reply::ReplySpec;
use actus::status::StatusCode;
use actus::strmap::StrMap;
use serde_json::Value;
use std::time::Duration;

fn build_error(error: WebError) -> ResponseParts<()> {
    Finalizer::new().build_error::<(), ()>(error)
}

fn build_response(data: ReplyData<(), ()>) -> ResponseParts<()> {
    Finalizer::new().build_response(data)
}

fn body_bytes(res: ResponseParts<()>) -> Vec<u8> {
    match res.body {
        Body::Full(data) => data,
        Body::Stream(_) => panic!("expected a full body"),
    }
}

fn body_json(res: ResponseParts<()>) -> Value {
    serde_json::from_slice(&body_bytes(res)).unwrap()
}

#[test]
fn method_not_allowed_emits_allow_header_and_lists_methods() {
    let res = build_error(WebError::MethodNotAllowed(vec!["GET", "POST"]));
    assert_eq!(res.status.as_u16(), 405);
    assert_eq!(res.headers.get("allow").unwrap(), "GET, POST");
    let body = body_json(res);
    assert_eq!(body["status"], 405);
    assert_eq!(body["title"], "Method Not Allowed");
    assert_eq!(
        body["allowed_methods"],
        Value::Array(vec![Value::from("GET"), Value::from("POST")])
    );
}

#[test]
fn other_errors_have_no_allow_header() {
    let res = build_error(WebError::NotFound);
    assert_eq!(res.status.as_u16(), 404);
    assert!(res.headers.get("allow").is_none());
}

#[test]
fn too_many_requests_emits_retry_after_header_and_extra_member() {
    let res = build_error(WebError::TooManyRequests(Some(Duration::from_secs(42))));
    assert_eq!(res.status.as_u16(), 429);
    assert_eq!(res.headers.get("Retry-After").unwrap(), "42");
    let body = body_json(res);
    assert_eq!(body["status"], 429);
    assert_eq!(body["title"], "Too Many Requests");
    assert_eq!(body["retry_after_seconds"], 42);

    let res = build_error(WebError::TooManyRequests(Some(Duration::from_millis(500))));
    assert_eq!(res.headers.get("Retry-After").unwrap(), "1");

    let res = build_error(WebError::TooManyRequests(None));
    assert_eq!(res.status.as_u16(), 429);
    assert!(res.headers.get("Retry-After").is_none());
}

#[test]
fn busy_emits_503_with_retry_after() {
    let res = build_error(WebError::Busy(Some(Duration::from_secs(2))));
    assert_eq!(res.status.as_u16(), 503);
    assert_eq!(res.headers.get("Retry-After").unwrap(), "2");
    let body = body_json(res);
    assert_eq!(body["status"], 503);
    assert_eq!(body["title"], "Service Unavailable");
    assert_eq!(body["retry_after_seconds"], 2);

    let res = build_error(WebError::Busy(None));
    assert_eq!(res.status.as_u16(), 503);
    assert!(res.headers.get("Retry-After").is_none());
}

#[test]
fn build_rich_response_drops_invalid_headers_without_panicking() {
    let mut headers: StrMap<String> = StrMap::new();
    headers.insert("X-Bad\nName".to_string(), "value".to_string());
    headers.insert("X-Bad-Value".to_string(), "with\nnewline".to_string());
    headers.insert("X-OK".to_string(), "fine".to_string());

    let spec = ReplySpec {
        payload: ReplyData::Empty,
        status: Some(StatusCode::from_u16(201).unwrap()),
        headers,
    };
    let res = build_response(ReplyData::Rich(Box::new(spec)));
    assert_eq!(res.status.as_u16(), 201);
    assert_eq!(res.headers.get("X-OK").unwrap(), "fine");
    assert!(res.headers.get("X-Bad-Value").is_none());
    assert_eq!(res.headers.len(), 1);
}

#[test]
fn every_error_has_its_status_and_title() {
    let cases: Vec<(WebError, u16, &str)> = vec![
        (WebError::NotFound, 404, "Not Found"),
        (WebError::BadRequest("why".to_string()), 400, "Bad Request"),
        (WebError::PayloadTooLarge, 413, "Payload Too Large"),
        (WebError::Timeout, 504, "Gateway Timeout"),
        (WebError::Unauthorized, 401, "Unauthorized"),
        (WebError::Forbidden, 403, "Forbidden"),
        (
            WebError::Internal("boom".to_string()),
            500,
            "Internal Server Error",
        ),
    ];
    for (error, code, title) in cases {
        let res = build_error(error);
        assert_eq!(res.status.as_u16(), code);
        assert_eq!(
            res.headers.get("content-type").unwrap(),
            "application/problem+json"
        );
        let body = body_json(res);
        assert_eq!(body["status"], code);
        assert_eq!(body["title"], title);
    }
}

#[test]
fn messages_are_told_in_the_detail() {
    let body = body_json(build_error(WebError::Internal("out of luck".to_string())));
    assert_eq!(body["detail"], "out of luck");
    let body = body_json(build_error(WebError::BadRequest("no name".to_string())));
    assert_eq!(body["detail"], "no name");
    let body = body_json(build_error(WebError::Timeout));
    assert_eq!(
        body["detail"],
        "the request did not complete within the configured timeout"
    );
    let body = body_json(build_error(WebError::Busy(None)));
    assert_eq!(body["detail"], "server is overloaded");
    let body = body_json(build_error(WebError::NotFound));
    assert!(body["detail"].is_null());
}

#[test]
fn problems_carry_their_members_and_the_standard_ones_win() {
    let problem = ProblemDetails::new(StatusCode::from_u16(409).unwrap(), "Validation")
        .detail("title is required")
        .extra("field", Value::from("data.title"))
        .extra("status", Value::from("mine"));
    assert_eq!(problem.summary(), "Validation: title is required");
    let res = build_error(WebError::Problem(problem));
    assert_eq!(res.status.as_u16(), 409);
    let body = body_json(res);
    assert_eq!(body["status"], 409);
    assert_eq!(body["title"], "Validation");
    assert_eq!(body["detail"], "title is required");
    assert_eq!(body["field"], "data.title");
    assert_eq!(body.as_object().unwrap().len(), 4);
}

#[test]
fn payloads_have_their_types_and_statuses() {
    let res = build_response(json(Value::from(7)));
    assert_eq!(res.status.as_u16(), 200);
    assert_eq!(res.headers.get("content-type").unwrap(), "application/json");
    assert_eq!(body_bytes(res), b"7");

    let res = build_response(bytes("image/png", vec![1, 2]));
    assert_eq!(res.headers.get("content-type").unwrap(), "image/png");
    assert_eq!(body_bytes(res), [1, 2]);

    let res = build_response(ReplyData::Empty);
    assert_eq!(res.status.as_u16(), 204);
    assert!(res.headers.is_empty());
    assert_eq!(body_bytes(res), b"");

    let res = build_response(ReplyData::Stream(()));
    assert_eq!(res.status.as_u16(), 200);
    assert!(res.headers.is_empty());
    assert!(matches!(res.body, Body::Stream(())));

    let res = build_response(ReplyData::Upgrade(()));
    assert_eq!(res.status.as_u16(), 500);
}

#[test]
fn headers_of_a_reply_replace_those_of_its_payload() {
    let mut data: ReplyData<(), ()> = json(Value::from(7));
    data.add_header("Content-Type", "application/vnd.api+json");
    assert!(Finalizer::new().can_send(&data));
    let res = build_response(data);
    assert_eq!(
        res.headers.get("content-type").unwrap(),
        "application/vnd.api+json"
    );
    assert_eq!(res.headers.len(), 1);
}

#[test]
fn a_content_type_that_is_no_header_cannot_be_sent() {
    let data: ReplyData<(), ()> = bytes("text/\nplain", vec![]);
    assert!(!Finalizer::new().can_send(&data));
}
