use actus::arguments::bool_argument;
use actus::arguments::i64_argument;
use actus::arguments::string_argument;
use actus::arguments::u32_argument;
use actus::arguments::u64_argument;
use actus::controller::ControllerMode;
use actus::controller::ParamDef;
use actus::controller::ParamDefault;
use actus::controller::ParamSource;
use actus::controller::ParamType;
use actus::controller::RouteDef;
use actus::controller::Verb;
use actus::controller::DEFAULT_VERBS;
use actus::error::WebError;
use actus::params::ExtractedParams;
use actus::params::Params;
use actus::routing::match_fixed_segment;
use actus::routing::match_pattern;
use actus::routing::resolve;
use actus::routing::rest_token_name;
use actus::strmap::StrMap;

fn cap(pattern: &str, path: &str) -> Option<Vec<(String, String)>> {
    match_pattern(pattern, path).map(|m| {
        let mut v: Vec<(String, String)> = m
            .keys()
            .into_iter()
            .map(|k| {
                let value = m.get(&k).unwrap().clone();
                (k, value)
            })
            .collect();
        v.sort();
        v
    })
}

fn pair(k: &str, v: &str) -> (String, String) {
    (k.to_string(), v.to_string())
}

#[test]
fn fixed_patterns_still_work() {
    assert_eq!(cap("", ""), Some(vec![]));
    assert_eq!(cap("{id}", "42"), Some(vec![pair("id", "42")]));
    assert_eq!(
        cap("posts/{id}/comments", "posts/3/comments"),
        Some(vec![pair("id", "3")])
    );
    assert_eq!(cap("a/b", "a/b/c"), None);
    assert_eq!(cap("a/b/c", "a/b"), None);
    assert_eq!(cap("posts/{id}", "users/3"), None);
}

#[test]
fn required_segments_dont_match_the_empty_action() {
    assert_eq!(cap("{id}", ""), None);
    assert_eq!(cap("posts", ""), None);
    assert_eq!(cap("{a}/{b}", "x"), None);
    assert_eq!(cap("", ""), Some(vec![]));
    assert_eq!(cap("", "x"), None);
}

#[test]
fn rest_param_captures_remainder() {
    assert_eq!(
        cap("{folder_id}/{...path}", "abc/x/y/z"),
        Some(vec![pair("folder_id", "abc"), pair("path", "x/y/z")])
    );
    assert_eq!(
        cap("{folder_id}/{...path}", "abc"),
        Some(vec![pair("folder_id", "abc"), pair("path", "")])
    );
    assert_eq!(cap("{folder_id}/{...path}", ""), None);
}

#[test]
fn rest_param_as_sole_token() {
    assert_eq!(cap("{...path}", "a/b/c"), Some(vec![pair("path", "a/b/c")]));
    assert_eq!(cap("{...path}", "a"), Some(vec![pair("path", "a")]));
    assert_eq!(cap("{...path}", ""), Some(vec![pair("path", "")]));
}

#[test]
fn rest_param_after_literal_prefix() {
    assert_eq!(
        cap("files/{...path}", "files/x/y"),
        Some(vec![pair("path", "x/y")])
    );
    assert_eq!(
        cap("files/{...path}", "files"),
        Some(vec![pair("path", "")])
    );
    assert_eq!(cap("files/{...path}", "other/x"), None);
    assert_eq!(cap("a/b/{...path}", "a"), None);
}

#[test]
fn slashes_around_and_between_segments_add_none() {
    assert_eq!(cap("/posts//{id}/", "posts/3"), Some(vec![pair("id", "3")]));
    assert_eq!(cap("posts/{id}", "//posts/3/"), Some(vec![pair("id", "3")]));
}

#[test]
fn segments_of_a_pattern_are_read_one_by_one() {
    assert_eq!(rest_token_name("{...path}"), Some("path".to_string()));
    assert_eq!(rest_token_name("{...}"), None);
    assert_eq!(rest_token_name("{path}"), None);
    assert_eq!(rest_token_name("path"), None);
    let mut params: StrMap<String> = StrMap::new();
    assert!(match_fixed_segment("posts", "posts", &mut params));
    assert!(!match_fixed_segment("posts", "users", &mut params));
    assert!(params.is_empty());
    assert!(match_fixed_segment("{id}", "7", &mut params));
    assert_eq!(params.get("id"), Some(&"7".to_string()));
}

fn strings(values: &[&str]) -> Vec<String> {
    values.iter().map(|s| s.to_string()).collect()
}

fn query(entries: &[(&str, &[&str])]) -> StrMap<Vec<String>> {
    let mut q: StrMap<Vec<String>> = StrMap::new();
    for (name, values) in entries {
        q.insert(name.to_string(), strings(values));
    }
    q
}

fn params_with(verb: Verb, query: StrMap<Vec<String>>) -> Params {
    Params::new(verb, query, None, Vec::new(), StrMap::new())
}

fn plain_route(pattern: &'static str, handler: &'static str, verb: &'static [Verb]) -> RouteDef {
    RouteDef {
        pattern,
        handler_id: handler,
        handler,
        verb,
        params: &[],
        doc: None,
    }
}

#[test]
fn headers_are_a_multimap_first_value_wins_for_scalar_access() {
    let headers = query(&[
        ("forwarded", &["for=1.2.3.4", "for=10.0.0.1"]),
        ("x-trace-id", &["abc-123"]),
    ]);
    let p = Params::new(Verb::GET, StrMap::new(), None, Vec::new(), headers);

    assert_eq!(p.header("Forwarded"), Some("for=1.2.3.4"));
    assert_eq!(p.header("FORWARDED"), Some("for=1.2.3.4"));
    assert_eq!(p.header_all("Forwarded"), ["for=1.2.3.4", "for=10.0.0.1"]);

    assert_eq!(p.header("X-Trace-Id"), Some("abc-123"));
    assert_eq!(p.header_all("X-Trace-Id"), ["abc-123"]);

    assert_eq!(p.header("Authorization"), None);
    assert!(p.header_all("Authorization").is_empty());
}

#[test]
fn params_query_exposes_the_whole_multimap() {
    let q = query(&[("a", &["1", "2"]), ("b", &["3"])]);
    let p = params_with(Verb::GET, q);
    assert_eq!(p.query().len(), 2);
    assert_eq!(
        p.query().get("a").unwrap(),
        &["1".to_string(), "2".to_string()]
    );
    assert_eq!(p.get_optional("a"), Some("1"));
}

#[test]
fn verb_mismatch_yields_405_with_sorted_deduped_allow_list() {
    let routes = [
        plain_route("", "create", &[Verb::POST]),
        plain_route("", "list", &[Verb::GET]),
    ];
    match resolve(
        &routes,
        "",
        &params_with(Verb::PUT, StrMap::new()),
        ControllerMode::Strict,
    ) {
        Err(WebError::MethodNotAllowed(methods)) => assert_eq!(methods, ["GET", "POST"]),
        other => panic!("expected 405, got {other:?}"),
    }
    assert!(resolve(
        &routes,
        "",
        &params_with(Verb::GET, StrMap::new()),
        ControllerMode::Strict
    )
    .is_ok());
}

#[test]
fn no_pattern_match_is_404_not_405() {
    let routes = [plain_route("items", "h", &[Verb::GET])];
    match resolve(
        &routes,
        "other",
        &params_with(Verb::DELETE, StrMap::new()),
        ControllerMode::Strict,
    ) {
        Err(WebError::NotFound) => {}
        other => panic!("expected 404, got {other:?}"),
    }
}

const TAGS: &[ParamDef] = &[ParamDef {
    name: "tags",
    ty: ParamType::StringArray,
    source: ParamSource::Query,
    default: None,
}];

#[test]
fn vec_string_query_param_collects_all_values() {
    let routes = [RouteDef {
        pattern: "",
        handler_id: "h",
        handler: "h",
        verb: &[Verb::GET],
        params: TAGS,
        doc: None,
    }];

    let (_, extracted) = resolve(
        &routes,
        "",
        &params_with(Verb::GET, query(&[("tags", &["a", "b", "c"])])),
        ControllerMode::Strict,
    )
    .expect("route matches");
    assert_eq!(extracted.get_string_array("tags").unwrap(), ["a", "b", "c"]);

    let (_, e1) = resolve(
        &routes,
        "",
        &params_with(Verb::GET, query(&[("tags", &["solo"])])),
        ControllerMode::Strict,
    )
    .expect("route matches");
    assert_eq!(e1.get_string_array("tags").unwrap(), ["solo"]);
    assert_eq!(e1.get_string("tags").unwrap(), "solo");

    let (_, e2) = resolve(
        &routes,
        "",
        &params_with(Verb::GET, StrMap::new()),
        ControllerMode::Strict,
    )
    .expect("route matches with no query");
    assert!(e2.get_string_array("tags").unwrap().is_empty());
}

const TYPED: &[ParamDef] = &[
    ParamDef {
        name: "id",
        ty: ParamType::U64,
        source: ParamSource::Path,
        default: None,
    },
    ParamDef {
        name: "page",
        ty: ParamType::U32,
        source: ParamSource::Query,
        default: Some(ParamDefault::U32(1)),
    },
    ParamDef {
        name: "q",
        ty: ParamType::String,
        source: ParamSource::Query,
        default: None,
    },
];

fn typed_route() -> RouteDef {
    RouteDef {
        pattern: "{id}",
        handler_id: "handler_0",
        handler: "show",
        verb: &DEFAULT_VERBS,
        params: TYPED,
        doc: None,
    }
}

fn bad_request_text(e: WebError) -> String {
    match e {
        WebError::BadRequest(text) => text,
        other => panic!("expected a bad request, got {other:?}"),
    }
}

#[test]
fn a_required_query_parameter_may_not_be_missing() {
    let routes = [typed_route()];
    let outcome = resolve(
        &routes,
        "42",
        &params_with(Verb::GET, StrMap::new()),
        ControllerMode::Strict,
    );
    match outcome {
        Err(e) => assert_eq!(bad_request_text(e), "Missing required parameter: q"),
        Ok(_) => panic!("expected an error"),
    }
}

#[test]
fn strict_controllers_reject_what_was_not_declared_and_lax_ones_pass_it() {
    let routes = [typed_route()];
    let asked = || params_with(Verb::GET, query(&[("q", &["x"]), ("zzz", &["1"])]));
    match resolve(&routes, "42", &asked(), ControllerMode::Strict) {
        Err(e) => assert_eq!(bad_request_text(e), "Unexpected parameters: zzz"),
        Ok(_) => panic!("expected an error"),
    }
    let (route, e) = resolve(&routes, "42", &asked(), ControllerMode::Lax).unwrap();
    assert_eq!(route.handler, "show");
    assert_eq!(e.get_u64("id").unwrap(), 42);
    assert_eq!(e.get_string("q").unwrap(), "x");
    assert!(e.get_string("zzz").is_err());
}

fn extracted(entries: &[(&str, &[&str])]) -> ExtractedParams {
    let routes = [typed_route()];
    let mut all: Vec<(&str, &[&str])> = vec![("q", &["x"])];
    all.extend(entries.iter().copied());
    resolve(
        &routes,
        "42",
        &params_with(Verb::GET, query(&all)),
        ControllerMode::Lax,
    )
    .unwrap()
    .1
}

#[test]
fn arguments_fall_back_to_their_defaults() {
    let absent = extracted(&[]);
    assert_eq!(u32_argument(&absent, "page", Some(1)).unwrap(), 1);
    assert_eq!(i64_argument(&absent, "page", Some(-5)).unwrap(), -5);
    assert_eq!(u64_argument(&absent, "page", Some(9)).unwrap(), 9);
    assert_eq!(
        string_argument(&absent, "page", Some("one")).unwrap(),
        "one"
    );
    assert!(bool_argument(&absent, "page", Some(true)));
    assert!(!bool_argument(&absent, "page", None));
    assert_eq!(
        bad_request_text(u32_argument(&absent, "page", None).unwrap_err()),
        "Missing parameter: page"
    );

    let present = extracted(&[("page", &["7"])]);
    assert_eq!(u32_argument(&present, "page", Some(1)).unwrap(), 7);
    assert_eq!(i64_argument(&present, "page", None).unwrap(), 7);
    assert_eq!(u64_argument(&present, "id", None).unwrap(), 42);
    assert_eq!(string_argument(&present, "page", Some("one")).unwrap(), "7");
    assert!(bool_argument(&present, "page", Some(false)));

    let odd = extracted(&[("page", &["seven"])]);
    assert_eq!(u32_argument(&odd, "page", Some(1)).unwrap(), 1);
    assert_eq!(
        bad_request_text(u32_argument(&odd, "page", None).unwrap_err()),
        "Invalid u32: page"
    );
    assert_eq!(
        bad_request_text(u64_argument(&odd, "page", None).unwrap_err()),
        "Invalid u64: page"
    );
    assert_eq!(
        bad_request_text(i64_argument(&odd, "page", None).unwrap_err()),
        "Invalid integer: page"
    );

    let off = extracted(&[("page", &["0"])]);
    assert!(!bool_argument(&off, "page", Some(true)));
}

#[test]
fn scalar_getters_of_params_say_what_is_wrong() {
    let p = params_with(
        Verb::GET,
        query(&[("n", &["12", "13"]), ("bad", &["x1"]), ("flag", &["false"])]),
    );
    assert_eq!(p.get_int("n").unwrap(), 12);
    assert_eq!(p.get_u64("n").unwrap(), 12);
    assert_eq!(p.get_u32("n").unwrap(), 12);
    assert_eq!(p.get_int_optional("none").unwrap(), None);
    assert_eq!(p.get_u64_optional("n").unwrap(), Some(12));
    assert_eq!(p.get_u32_optional("none").unwrap(), None);
    assert_eq!(p.require("n").unwrap(), "12");
    assert_eq!(
        bad_request_text(p.require("none").unwrap_err()),
        "Missing required parameter: none"
    );
    assert_eq!(
        bad_request_text(p.get_int("bad").unwrap_err()),
        "Invalid integer: bad"
    );
    assert_eq!(
        bad_request_text(p.get_u64("bad").unwrap_err()),
        "Invalid u64: bad"
    );
    assert_eq!(
        bad_request_text(p.get_u32("bad").unwrap_err()),
        "Invalid u32: bad"
    );
    assert!(!p.get_bool("flag"));
    assert!(p.get_bool("n"));
    assert_eq!(p.get_bool_optional("none"), None);
    assert_eq!(p.get_all("n").unwrap(), ["12", "13"]);
    assert!(p.get_all("none").unwrap().is_empty());
    assert_eq!(p.get_all_optional("none"), None);
    assert_eq!(
        bad_request_text(p.json_body().unwrap_err()),
        "Missing JSON body"
    );
    assert_eq!(p.check_unexpected(&["n", "bad", "flag"]), None);
    assert_eq!(
        p.check_unexpected(&["n"]),
        Some(strings(&["bad", "flag"]))
    );
}

#[test]
fn bearer_tokens_come_without_their_prefix() {
    let with = |value: &str| {
        Params::new(
            Verb::GET,
            StrMap::new(),
            None,
            Vec::new(),
            query(&[("authorization", &[value])]),
        )
    };
    assert_eq!(with("Bearer abc").bearer_token(), Some("abc".to_string()));
    assert_eq!(with("bearer abc").bearer_token(), None);
    assert_eq!(with("Basic abc").bearer_token(), None);
    assert_eq!(params_with(Verb::GET, StrMap::new()).bearer_token(), None);
}

#[test]
fn bodies_are_kept_beside_the_query() {
    let p = Params::new(
        Verb::POST,
        StrMap::new(),
        Some(serde_json::Value::from(5)),
        b"5".to_vec(),
        StrMap::new(),
    );
    assert_eq!(p.json_body().unwrap(), serde_json::Value::from(5));
    assert_eq!(p.body_bytes(), b"5");
    let routes = [plain_route("", "h", &[Verb::POST])];
    let (_, e) = resolve(&routes, "", &p, ControllerMode::Strict).unwrap();
    assert_eq!(e.get_json_body().unwrap(), serde_json::Value::from(5));
    assert_eq!(e.get_body_bytes(), b"5");
}

#[test]
fn the_first_declared_route_that_fits_is_taken() {
    let routes = [
        plain_route("{id}", "by_id", &[Verb::GET]),
        plain_route("special", "special", &[Verb::GET]),
        plain_route("special", "remove", &[Verb::DELETE]),
    ];
    let handler = |verb: Verb| {
        resolve(
            &routes,
            "special",
            &params_with(verb, StrMap::new()),
            ControllerMode::Strict,
        )
        .unwrap()
        .0
        .handler
    };
    assert_eq!(handler(Verb::GET), "by_id");
    assert_eq!(handler(Verb::DELETE), "remove");
}
