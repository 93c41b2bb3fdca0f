use actus::controller::Verb;
use actus::error::WebError;
use actus::headers::check_header_value;
use actus::headers::header_text;
use actus::request::collect_body_capped;
use actus::request::collect_pairs;
use actus::request::is_json_content_type;
use actus::request::method_to_verb;
use actus::request::parse_body;
use actus::request::reservation;
use actus::request::BodyRead;
use actus::request::Request;
use actus::strmap::StrMap;
use actus::websocket::accept_key;
use actus::websocket::complete_upgrade;
use actus::websocket::is_upgrade_request;
use bytes::Bytes;
use futures_util::FutureExt;
use http::HeaderMap;
use http::HeaderName;
use http::HeaderValue;
use http_body_util::BodyExt;
use http_body_util::Full;
use http_body_util::LengthLimitError;
use http_body_util::Limited;
use std::sync::Arc;
use std::time::Duration;
use tokio::sync::Semaphore;

fn req(content_type: Option<&str>, body: &[u8]) -> Request {
    let mut headers = HeaderMap::new();
    if let Some(ct) = content_type {
        headers.insert("content-type", HeaderValue::from_str(ct).unwrap());
    }
    Request {
        method: "POST".to_string(),
        path_parts: vec!["whatever".into()],
        query_params: StrMap::new(),
        body: body.to_vec(),
        headers,
        rate_limit_class: None,
    }
}

#[test]
fn empty_body_no_content_type_is_ok() {
    let params = req(None, b"").to_params().expect("empty + no CT is fine");
    assert!(params.body_bytes().is_empty());
}

#[test]
fn json_body_is_parsed() {
    let params = req(Some("application/json"), br#"{"x":1}"#)
        .to_params()
        .expect("valid JSON");
    let v = params.json_body().expect("body present");
    assert_eq!(v["x"], 1);
    assert_eq!(params.body_bytes(), br#"{"x":1}"#);
}

#[test]
fn json_body_with_charset_param_is_parsed() {
    let params = req(Some("application/json; charset=utf-8"), br#"{"x":1}"#)
        .to_params()
        .expect("valid JSON with charset");
    assert_eq!(params.json_body().unwrap()["x"], 1);
}

#[test]
fn vendor_plus_json_subtype_is_parsed() {
    let params = req(Some("application/vnd.example+json"), br#"{"x":1}"#)
        .to_params()
        .expect("valid +json");
    assert_eq!(params.json_body().unwrap()["x"], 1);
}

#[test]
fn malformed_json_is_a_400() {
    match req(Some("application/json"), b"not json").to_params() {
        Err(WebError::BadRequest(msg)) => assert!(msg.contains("valid JSON"), "msg = {msg:?}"),
        Err(other) => panic!("expected BadRequest, got {other:?}"),
        Ok(_) => panic!("must reject malformed JSON"),
    }
}

#[test]
fn form_body_merges_into_query() {
    let params = req(
        Some("application/x-www-form-urlencoded"),
        b"username=alice&kind=admin",
    )
    .to_params()
    .expect("valid form");
    assert!(params.json_body().is_err());
    assert_eq!(params.body_bytes(), b"username=alice&kind=admin");
    assert_eq!(params.get_optional("username"), Some("alice"));
}

#[test]
fn binary_body_round_trips() {
    let zip_bytes = b"PK\x03\x04\x00\x00fake-zip";
    let params = req(Some("application/zip"), zip_bytes)
        .to_params()
        .expect("opaque CT is fine");
    assert!(params.json_body().is_err());
    assert_eq!(params.body_bytes(), zip_bytes);
}

#[test]
fn non_empty_body_without_content_type_is_a_400() {
    match req(None, b"some payload").to_params() {
        Err(WebError::BadRequest(msg)) => {
            assert!(msg.contains("Content-Type"), "msg = {msg:?}")
        }
        Err(other) => panic!("expected BadRequest, got {other:?}"),
        Ok(_) => panic!("must reject non-empty body without Content-Type"),
    }
}

#[test]
fn collect_pairs_keeps_repeated_keys_in_order() {
    let m = collect_pairs(vec![
        ("tag".into(), "a".into()),
        ("page".into(), "1".into()),
        ("tag".into(), "b".into()),
    ]);
    assert_eq!(m.get("tag").unwrap(), &["a".to_string(), "b".to_string()]);
    assert_eq!(m.get("page").unwrap(), &["1".to_string()]);
}

fn read_body(body: Bytes, max: usize, budget: Option<&Arc<Semaphore>>) -> BodyRead {
    let _permit = match budget {
        Some(sem) => match sem.clone().try_acquire_many_owned(reservation(max)) {
            Ok(p) => Some(p),
            Err(_) => return BodyRead::NoBudget,
        },
        None => None,
    };
    let collected = Limited::new(Full::new(body), max)
        .collect()
        .now_or_never()
        .expect("the body is there");
    match collected {
        Ok(c) => BodyRead::Complete(c.to_bytes().to_vec()),
        Err(e) if e.is::<LengthLimitError>() => BodyRead::TooLarge,
        Err(e) => BodyRead::Failed(e.to_string()),
    }
}

#[test]
fn body_within_limit_round_trips() {
    let read = read_body(Bytes::from_static(b"hello"), 1024, None);
    assert_eq!(collect_body_capped(read).unwrap(), b"hello");
}

#[test]
fn body_over_limit_is_413() {
    let read = read_body(Bytes::from(vec![0u8; 2048]), 1024, None);
    match collect_body_capped(read) {
        Err(WebError::PayloadTooLarge) => {}
        other => panic!("expected PayloadTooLarge, got {other:?}"),
    }
}

#[test]
fn body_refused_when_inflight_budget_exhausted() {
    let budget = Arc::new(Semaphore::new(100));
    let hold = budget.clone().try_acquire_many_owned(80).expect("acquire");
    let read = read_body(Bytes::from_static(b"hello"), 80, Some(&budget));
    match collect_body_capped(read) {
        Err(WebError::Busy(Some(d))) => assert_eq!(d, Duration::from_secs(1)),
        other => panic!("expected Busy, got {other:?}"),
    }
    drop(hold);
    let read = read_body(Bytes::from_static(b"hello"), 80, Some(&budget));
    assert!(collect_body_capped(read).is_ok());
}

#[test]
fn bodies_that_break_off_are_a_400() {
    match collect_body_capped(BodyRead::Failed("reset".to_string())) {
        Err(WebError::BadRequest(text)) => {
            assert_eq!(text, "could not read request body: reset")
        }
        other => panic!("expected BadRequest, got {other:?}"),
    }
}

#[test]
fn reservations_fit_the_semaphore() {
    assert_eq!(reservation(0), 0);
    assert_eq!(reservation(4096), 4096);
    assert_eq!(reservation(usize::MAX), u32::MAX);
}

#[test]
fn duplicate_request_headers_survive_into_params() {
    let mut headers = HeaderMap::new();
    headers.append(
        HeaderName::from_static("forwarded"),
        HeaderValue::from_static("for=1.2.3.4"),
    );
    headers.append(
        HeaderName::from_static("forwarded"),
        HeaderValue::from_static("for=10.0.0.1"),
    );
    let request = Request {
        method: "GET".to_string(),
        path_parts: vec![],
        query_params: StrMap::new(),
        body: Vec::new(),
        headers,
        rate_limit_class: None,
    };
    let params = request.to_params().expect("ok");
    assert_eq!(params.header("Forwarded"), Some("for=1.2.3.4"));
    assert_eq!(
        params.header_all("Forwarded"),
        ["for=1.2.3.4", "for=10.0.0.1"]
    );
}

#[test]
fn form_body_appends_to_query_multimap_instead_of_overwriting() {
    let mut query: StrMap<Vec<String>> = StrMap::new();
    query.insert("tag".to_string(), vec!["from-query".to_string()]);
    let request = Request {
        method: "POST".to_string(),
        path_parts: vec!["whatever".into()],
        query_params: query,
        body: b"tag=from-body&note=hi".to_vec(),
        headers: {
            let mut h = HeaderMap::new();
            h.insert(
                "content-type",
                HeaderValue::from_static("application/x-www-form-urlencoded"),
            );
            h
        },
        rate_limit_class: None,
    };
    let params = request.to_params().expect("valid form");
    assert_eq!(params.get_all("tag").unwrap(), ["from-query", "from-body"]);
    assert_eq!(params.require("tag").unwrap(), "from-query");
    assert_eq!(params.get_all("note").unwrap(), ["hi"]);
}

#[test]
fn heads_are_taken_apart() {
    let request = Request::from_hyper_parts(
        "GET",
        "/api//users/42/",
        Some("tag=a&tag=b&name=J%C3%BCrgen+X"),
        HeaderMap::new(),
    );
    assert_eq!(request.path_parts, ["api", "users", "42"]);
    assert_eq!(
        request.query_params.get("tag").unwrap(),
        &["a".to_string(), "b".to_string()]
    );
    assert_eq!(
        request.query_params.get("name").unwrap(),
        &["J\u{fc}rgen X".to_string()]
    );
    assert!(request.body.is_empty());
    let request = Request::from_hyper_parts("GET", "/", None, HeaderMap::new());
    assert!(request.path_parts.is_empty());
    assert!(request.query_params.is_empty());
}

#[test]
fn bodies_are_collected_into_the_request() {
    let request = Request::from_hyper_parts("POST", "/a", None, HeaderMap::new());
    let request = match request.collect_body(BodyRead::Complete(b"xyz".to_vec())) {
        Ok(r) => r,
        Err(_) => panic!("the body was read"),
    };
    assert_eq!(request.body, b"xyz");
    match request.collect_body(BodyRead::TooLarge) {
        Err((r, WebError::PayloadTooLarge)) => assert_eq!(r.path_parts, ["a"]),
        _ => panic!("expected PayloadTooLarge"),
    }
}

#[test]
fn json_types_are_application_types() {
    assert!(is_json_content_type("application/json"));
    assert!(is_json_content_type("application/problem+json"));
    assert!(!is_json_content_type("text/plain"));
    assert!(!is_json_content_type("application/jsonp"));
}

#[test]
fn methods_that_are_not_known_count_as_get() {
    assert_eq!(method_to_verb("GET"), Verb::GET);
    assert_eq!(method_to_verb("POST"), Verb::POST);
    assert_eq!(method_to_verb("PUT"), Verb::PUT);
    assert_eq!(method_to_verb("DELETE"), Verb::DELETE);
    assert_eq!(method_to_verb("PATCH"), Verb::PATCH);
    assert_eq!(method_to_verb("HEAD"), Verb::HEAD);
    assert_eq!(method_to_verb("OPTIONS"), Verb::OPTIONS);
    assert_eq!(method_to_verb("BREW"), Verb::GET);
    assert_eq!(method_to_verb("get"), Verb::GET);
}

#[test]
fn bodies_are_read_by_their_type() {
    let (json, pairs) = parse_body(Some("application/json"), b"[1]").unwrap();
    assert_eq!(json.unwrap()[0], 1);
    assert!(pairs.is_empty());
    let (json, pairs) =
        parse_body(Some("application/x-www-form-urlencoded"), b"a=1&b=x%20y").unwrap();
    assert!(json.is_none());
    assert_eq!(
        pairs,
        [
            ("a".to_string(), "1".to_string()),
            ("b".to_string(), "x y".to_string())
        ]
    );
}

fn pairs(entries: &[(&'static str, &str)]) -> HeaderMap {
    let mut h = HeaderMap::new();
    for (n, v) in entries {
        h.insert(
            HeaderName::from_static(n),
            HeaderValue::from_str(v).unwrap(),
        );
    }
    h
}

#[test]
fn recognizes_a_valid_handshake() {
    let h = pairs(&[
        ("connection", "keep-alive, Upgrade"),
        ("upgrade", "websocket"),
        ("sec-websocket-key", "dGhlIHNhbXBsZSBub25jZQ=="),
        ("sec-websocket-version", "13"),
    ]);
    assert!(is_upgrade_request("GET", &h));
    assert!(!is_upgrade_request("POST", &h));
    assert!(!is_upgrade_request(
        "GET",
        &pairs(&[("upgrade", "websocket")])
    ));
}

#[test]
fn derives_the_rfc6455_accept_key() {
    let h = pairs(&[("sec-websocket-key", "dGhlIHNhbXBsZSBub25jZQ==")]);
    assert_eq!(accept_key(&h).unwrap(), b"s3pPLMBiTxaQ9kYGzzhZRbK+xOo=");
    assert!(accept_key(&HeaderMap::new()).is_none());
}

#[test]
fn handshakes_are_answered_with_101() {
    let response = complete_upgrade::<()>(b"s3pPLMBiTxaQ9kYGzzhZRbK+xOo=");
    assert_eq!(response.status.as_u16(), 101);
    assert_eq!(response.headers.get("upgrade").unwrap(), "websocket");
    assert_eq!(response.headers.get("connection").unwrap(), "upgrade");
    assert_eq!(
        response.headers.get("sec-websocket-accept").unwrap(),
        "s3pPLMBiTxaQ9kYGzzhZRbK+xOo="
    );
}

#[test]
fn header_values_are_checked() {
    assert!(check_header_value(b"fine"));
    assert!(!check_header_value(b"not\nfine"));
    let h = pairs(&[("x-one", "1")]);
    assert_eq!(header_text(&h, "x-one"), Some("1".to_string()));
    assert_eq!(header_text(&h, "x-two"), None);
}
