use actus::controller::Verb;
use actus::cors::CorsLayer;
use actus::headers::has_room_for;
use http::HeaderMap;
use http::HeaderName;
use http::HeaderValue;
use std::time::Duration;

fn headers(pairs: &[(&'static str, &str)]) -> HeaderMap {
    let mut h = HeaderMap::new();
    for (name, value) in pairs {
        h.insert(
            HeaderName::from_static(name),
            HeaderValue::from_str(value).unwrap(),
        );
    }
    h
}

fn names(pairs: &[(&'static str, Vec<u8>)], name: &str) -> Vec<String> {
    pairs
        .iter()
        .filter(|(n, _)| *n == name)
        .map(|(_, v)| String::from_utf8(v.clone()).unwrap())
        .collect()
}

#[test]
fn no_origin_header_is_a_noop() {
    assert!(CorsLayer::permissive()
        .response_headers(&HeaderMap::new())
        .is_empty());
    assert!(CorsLayer::permissive()
        .preflight_headers(&HeaderMap::new())
        .is_empty());
}

#[test]
fn permissive_echoes_any_origin_with_vary() {
    let out =
        CorsLayer::permissive().response_headers(&headers(&[("origin", "https://x.example")]));
    assert_eq!(
        names(&out, "access-control-allow-origin"),
        ["https://x.example"]
    );
    assert_eq!(names(&out, "vary"), ["Origin"]);
    assert!(names(&out, "access-control-allow-credentials").is_empty());
}

#[test]
fn allow_list_rejects_unlisted_origin() {
    let cors = CorsLayer::new().allow_origin("https://app.example");
    assert!(cors
        .response_headers(&headers(&[("origin", "https://evil.example")]))
        .is_empty());
    assert_eq!(
        names(
            &cors.response_headers(&headers(&[("origin", "https://app.example")])),
            "access-control-allow-origin"
        ),
        ["https://app.example"]
    );
}

#[test]
fn preflight_advertises_methods_mirrored_headers_and_max_age() {
    let out = CorsLayer::permissive().preflight_headers(&headers(&[
        ("origin", "https://x.example"),
        ("access-control-request-method", "POST"),
        (
            "access-control-request-headers",
            "content-type, authorization",
        ),
    ]));
    let methods = &names(&out, "access-control-allow-methods")[0];
    assert!(methods.contains("POST") && methods.contains("DELETE"));
    assert_eq!(
        names(&out, "access-control-allow-headers"),
        ["content-type, authorization"]
    );
    assert_eq!(names(&out, "access-control-max-age"), ["86400"]);
}

#[test]
fn credentials_never_sends_star() {
    let cors = CorsLayer::permissive().allow_credentials(true);
    let out = cors.response_headers(&headers(&[("origin", "https://x.example")]));
    assert_eq!(
        names(&out, "access-control-allow-origin"),
        ["https://x.example"]
    );
    assert_eq!(names(&out, "access-control-allow-credentials"), ["true"]);
}

#[test]
fn apply_appends_vary_but_replaces_acao() {
    let cors = CorsLayer::permissive();
    let mut into = HeaderMap::new();
    into.insert("vary", HeaderValue::from_static("Accept-Encoding"));
    assert!(has_room_for(&into, 6));
    cors.apply(
        &headers(&[("origin", "https://x.example")]),
        &mut into,
        false,
    );
    let vary: Vec<String> = into
        .get_all("vary")
        .iter()
        .map(|v| v.to_str().unwrap().to_string())
        .collect();
    assert_eq!(vary, ["Accept-Encoding", "Origin"]);
    assert_eq!(
        into.get("access-control-allow-origin").unwrap(),
        "https://x.example"
    );
}

#[test]
fn settings_show_in_the_headers() {
    let cors = CorsLayer::new()
        .allow_origin("https://a.example")
        .allow_origin("https://b.example")
        .allow_methods(vec![Verb::GET, Verb::PUT])
        .allow_headers(vec!["x-one".to_string(), "x-two".to_string()])
        .expose_headers(vec!["x-three".to_string()])
        .max_age(Duration::from_secs(60));
    let request = headers(&[
        ("origin", "https://b.example"),
        ("access-control-request-method", "PUT"),
        ("access-control-request-headers", "x-other"),
    ]);
    let out = cors.preflight_headers(&request);
    assert_eq!(names(&out, "access-control-allow-methods"), ["GET, PUT"]);
    assert_eq!(names(&out, "access-control-allow-headers"), ["x-one, x-two"]);
    assert_eq!(names(&out, "access-control-max-age"), ["60"]);
    let out = cors.response_headers(&request);
    assert_eq!(names(&out, "access-control-expose-headers"), ["x-three"]);
}

#[test]
fn preflights_are_told_apart() {
    let both = headers(&[
        ("origin", "https://x.example"),
        ("access-control-request-method", "POST"),
    ]);
    assert!(CorsLayer::is_preflight("OPTIONS", &both));
    assert!(!CorsLayer::is_preflight("GET", &both));
    assert!(!CorsLayer::is_preflight(
        "OPTIONS",
        &headers(&[("origin", "https://x.example")])
    ));
}

#[test]
fn any_origin_undoes_a_list() {
    let cors = CorsLayer::new()
        .allow_origin("https://a.example")
        .allow_any_origin();
    let out = cors.response_headers(&headers(&[("origin", "https://z.example")]));
    assert_eq!(
        names(&out, "access-control-allow-origin"),
        ["https://z.example"]
    );
}

#[test]
fn a_copy_of_a_policy_answers_like_the_policy() {
    let policy = CorsLayer::new()
        .allow_origin("https://a.example")
        .allow_methods(vec![Verb::PUT])
        .allow_headers(vec!["x-one".to_string()])
        .expose_headers(vec!["x-two".to_string()])
        .allow_credentials(true)
        .max_age(Duration::from_secs(5));
    let request = headers(&[("origin", "https://a.example")]);
    let copy = policy.clone();
    assert_eq!(
        copy.preflight_headers(&request),
        policy.preflight_headers(&request)
    );
    assert_eq!(
        copy.response_headers(&request),
        policy.response_headers(&request)
    );
    assert_eq!(copy.preflight_headers(&request).len(), 6);
}

#[test]
fn any_header_is_mirrored() {
    let policy = CorsLayer::new().allow_any_origin().allow_any_header();
    let request = headers(&[
        ("origin", "https://a.example"),
        ("access-control-request-headers", "x-one, x-two"),
    ]);
    assert_eq!(
        names(
            &policy.preflight_headers(&request),
            "access-control-allow-headers"
        ),
        vec!["x-one, x-two".to_string()]
    );
}
