use actus::controller::ParamDef;
use actus::controller::ParamDefault;
use actus::controller::ParamSource;
use actus::controller::ParamType;
use actus::controller::RouteDef;
use actus::controller::Verb;
use actus::controller::DEFAULT_VERBS;
use actus::openapi::compose_path;
use actus::openapi::generate;
use actus::openapi::operation_id;
use actus::openapi::to_string_pretty;
use actus::openapi::verb_method;
use actus::openapi::Options;
use actus::router::Mounted;
use actus::router::Router;
use actus::router::RouterBuilder;
use serde_json::Value;

fn stub(routes: &[RouteDef]) -> Mounted<()> {
    Mounted {
        handle: (),
        name: "stub",
        routes: routes.to_vec(),
        max_body_bytes: None,
        rate_limit: None,
    }
}

fn build_router(mounts: &[(&str, &[RouteDef])]) -> Router<()> {
    let mut b = RouterBuilder::new();
    for (mount, routes) in mounts {
        b = b.add_route(mount, stub(routes));
    }
    b.build()
}

fn route(pattern: &'static str, handler: &'static str, verb: &'static [Verb]) -> RouteDef {
    RouteDef {
        pattern,
        handler_id: "handler_0",
        handler,
        verb,
        params: &[],
        doc: None,
    }
}

fn with_params(route: RouteDef, params: &'static [ParamDef]) -> RouteDef {
    RouteDef { params, ..route }
}

fn opts() -> Options {
    Options::new("Test API", "1.0.0")
}

#[test]
fn shape_basics() {
    let router = build_router(&[("api/users", &[route("", "list", &[Verb::GET])])]);
    let spec = generate(&router, &opts(), |_| true);

    assert_eq!(spec["openapi"], "3.1.0");
    assert_eq!(spec["info"]["title"], "Test API");
    assert_eq!(spec["info"]["version"], "1.0.0");
    assert!(spec["paths"]["/api/users"]["get"].is_object());
    assert_eq!(
        spec["paths"]["/api/users"]["get"]["operationId"],
        "api_users_list_get"
    );
    assert!(spec["paths"]["/api/users"]["get"]["responses"]["default"].is_object());
}

#[test]
fn mount_filter_excludes_non_matching_controllers() {
    let r = [route("", "h", &[Verb::GET])];
    let router = build_router(&[("api/users", &r), ("internal/debug", &r)]);
    let spec = generate(&router, &opts(), |mount| mount.starts_with("api/"));

    assert!(spec["paths"]["/api/users"].is_object());
    assert!(
        spec["paths"]["/internal/debug"].is_null(),
        "filter excluded"
    );
}

#[test]
fn default_verbs_route_emits_both_get_and_post() {
    let router = build_router(&[("api/things", &[route("", "either", &DEFAULT_VERBS)])]);
    let spec = generate(&router, &opts(), |_| true);

    assert!(spec["paths"]["/api/things"]["get"].is_object());
    assert!(spec["paths"]["/api/things"]["post"].is_object());
}

const USER_PARAMS: &[ParamDef] = &[
    ParamDef {
        name: "id",
        ty: ParamType::U64,
        source: ParamSource::Path,
        default: None,
    },
    ParamDef {
        name: "expand",
        ty: ParamType::Bool,
        source: ParamSource::Query,
        default: Some(ParamDefault::Bool(false)),
    },
    ParamDef {
        name: "fields",
        ty: ParamType::StringArray,
        source: ParamSource::Query,
        default: None,
    },
];

#[test]
fn path_param_marked_required_and_query_default_marked_optional() {
    let r = [with_params(route("{id}", "get", &[Verb::GET]), USER_PARAMS)];
    let router = build_router(&[("api/users", &r)]);
    let spec = generate(&router, &opts(), |_| true);

    let params = spec["paths"]["/api/users/{id}"]["get"]["parameters"]
        .as_array()
        .expect("parameters array");
    let id = &params[0];
    assert_eq!(id["name"], "id");
    assert_eq!(id["in"], "path");
    assert_eq!(id["required"], true);
    assert_eq!(id["schema"]["type"], "integer");
    assert_eq!(id["schema"]["format"], "int64");
    assert_eq!(id["schema"]["minimum"], 0);

    let expand = &params[1];
    assert_eq!(expand["name"], "expand");
    assert_eq!(expand["in"], "query");
    assert_eq!(expand["required"], false);
    assert_eq!(expand["schema"]["type"], "boolean");
    assert_eq!(expand["schema"]["default"], false);

    let fields = &params[2];
    assert_eq!(fields["required"], false);
    assert_eq!(fields["schema"]["type"], "array");
    assert_eq!(fields["schema"]["items"]["type"], "string");
}

const FILE_PARAMS: &[ParamDef] = &[
    ParamDef {
        name: "drive",
        ty: ParamType::String,
        source: ParamSource::Path,
        default: None,
    },
    ParamDef {
        name: "path",
        ty: ParamType::String,
        source: ParamSource::Path,
        default: None,
    },
];

#[test]
fn rest_param_is_marked_with_extension() {
    let r = [with_params(
        route("{drive}/{...path}", "read", &[Verb::GET]),
        FILE_PARAMS,
    )];
    let router = build_router(&[("files", &r)]);
    let spec = generate(&router, &opts(), |_| true);

    let op = &spec["paths"]["/files/{drive}/{path}"]["get"];
    assert!(
        op.is_object(),
        "rest token stripped to /files/{{drive}}/{{path}}"
    );

    let params = op["parameters"].as_array().unwrap();
    let drive = &params[0];
    let path = &params[1];
    assert!(drive["x-actus-rest-param"].is_null());
    assert_eq!(path["x-actus-rest-param"], true);
    assert!(path["description"]
        .as_str()
        .unwrap_or("")
        .contains("trailing path"),);
}

const JSON_BODY: &[ParamDef] = &[ParamDef {
    name: "data",
    ty: ParamType::Json,
    source: ParamSource::Body,
    default: None,
}];

const BYTES_BODY: &[ParamDef] = &[ParamDef {
    name: "body",
    ty: ParamType::Bytes,
    source: ParamSource::Body,
    default: None,
}];

#[test]
fn body_params_become_request_body() {
    let r = [with_params(route("", "create", &[Verb::POST]), JSON_BODY)];
    let router = build_router(&[("api/users", &r)]);
    let spec = generate(&router, &opts(), |_| true);

    let body = &spec["paths"]["/api/users"]["post"]["requestBody"];
    assert!(body.is_object());
    assert_eq!(body["required"], true);
    assert!(body["content"]["application/json"]["schema"].is_object());

    let r2 = [with_params(
        route("upload", "upload", &[Verb::POST]),
        BYTES_BODY,
    )];
    let router = build_router(&[("api/files", &r2)]);
    let spec = generate(&router, &opts(), |_| true);
    let body = &spec["paths"]["/api/files/upload"]["post"]["requestBody"];
    assert!(body["content"]["application/octet-stream"]["schema"]["format"] == "binary");
}

#[test]
fn doc_becomes_summary_first_line_and_description_full() {
    let r = [RouteDef {
        doc: Some(
            " List items.\n\nThe long form: paginated, sorted by creation time.\nUse `?page=`.",
        ),
        ..route("", "list", &[Verb::GET])
    }];
    let router = build_router(&[("api/items", &r)]);
    let spec = generate(&router, &opts(), |_| true);
    let op = &spec["paths"]["/api/items"]["get"];
    assert_eq!(op["summary"], "List items.");
    let desc = op["description"].as_str().unwrap();
    assert!(desc.starts_with("List items."));
    assert!(desc.contains("paginated"));
}

#[test]
fn options_servers_and_description_round_trip() {
    let router = build_router(&[("api", &[route("", "h", &[Verb::GET])])]);
    let options = Options::new("My API", "2.1.0")
        .description("Awesome")
        .server("https://api.example.com", Some("prod"))
        .server("https://staging.api.example.com", None);
    let spec = generate(&router, &options, |_| true);

    assert_eq!(spec["info"]["description"], "Awesome");
    let servers = spec["servers"].as_array().unwrap();
    assert_eq!(servers.len(), 2);
    assert_eq!(servers[0]["url"], "https://api.example.com");
    assert_eq!(servers[0]["description"], "prod");
    assert!(servers[1]["description"].is_null());
}

#[test]
fn to_string_pretty_is_deterministic_json() {
    let router = build_router(&[("api", &[route("", "h", &[Verb::GET])])]);
    let spec = generate(&router, &opts(), |_| true);
    let pretty = to_string_pretty(&spec);
    assert!(pretty.starts_with("{\n"));
    assert!(pretty.contains("\"openapi\": \"3.1.0\""));
}

#[test]
fn paths_are_composed_of_mount_and_pattern() {
    assert_eq!(compose_path("", ""), "/");
    assert_eq!(compose_path("", "a/{id}"), "/a/{id}");
    assert_eq!(compose_path("api", ""), "/api");
    assert_eq!(compose_path("/api/", "/a/{...rest}/"), "/api/a/{rest}");
}

#[test]
fn ids_name_path_handler_and_method() {
    assert_eq!(operation_id("/", "get", "index"), "index_get");
    assert_eq!(
        operation_id("/api/users/{id}", "put", "save"),
        "api_users_(id)_save_put"
    );
    assert_eq!(
        operation_id("/user_groups", "get", "list_all"),
        "user~groups__list_all_get"
    );
    assert_eq!(operation_id("/a", "get", "b_c"), "a__b_c_get");
    assert_eq!(operation_id("/a/b", "get", "c"), "a_b_c_get");
    assert_eq!(operation_id("/", "get", "b_c"), "_b_c_get");
    assert_eq!(operation_id("/v1.0/~x", "get", "h"), "v1.0_!~x_h_get");
    assert_eq!(operation_id("/a//b", "get", "h"), "a_!_b_h_get");
}

#[test]
fn operations_of_one_document_have_ids_of_their_own() {
    let r = [
        route("a/b", "h", &[Verb::GET]),
        route("a_b", "h", &[Verb::GET]),
        route("a/{b}", "h", &[Verb::GET]),
        route("a//b", "h", &[Verb::GET]),
        route("a", "b_c", &[Verb::GET]),
        route("a/b/c", "h", &[Verb::GET, Verb::POST]),
        route("a/b.c", "h", &[Verb::GET]),
        route("a/b~c", "h", &[Verb::GET]),
        route("a/b_c", "h", &[Verb::GET]),
        route("a/!/b", "h", &[Verb::GET]),
        route("", "h", &[Verb::GET]),
    ];
    let router = build_router(&[("", &r)]);
    let spec = generate(&router, &opts(), |_| true);
    let mut ids: Vec<String> = Vec::new();
    for item in spec["paths"].as_object().unwrap().values() {
        for operation in item.as_object().unwrap().values() {
            ids.push(operation["operationId"].as_str().unwrap().to_string());
        }
    }
    let count = ids.len();
    ids.sort();
    ids.dedup();
    assert_eq!(count, 12);
    assert_eq!(ids.len(), count);
    assert_ne!(
        operation_id("/a", "get", "b_c"),
        operation_id("/a/b", "get", "c")
    );
}

#[test]
fn methods_are_written_in_lower_case() {
    assert_eq!(verb_method(&Verb::GET), "get");
    assert_eq!(verb_method(&Verb::POST), "post");
    assert_eq!(verb_method(&Verb::PUT), "put");
    assert_eq!(verb_method(&Verb::DELETE), "delete");
    assert_eq!(verb_method(&Verb::PATCH), "patch");
    assert_eq!(verb_method(&Verb::HEAD), "head");
    assert_eq!(verb_method(&Verb::OPTIONS), "options");
}

#[test]
fn the_later_of_two_routes_for_one_operation_is_listed() {
    let r = [
        route("x", "first", &[Verb::GET, Verb::POST]),
        route("x", "second", &[Verb::GET]),
    ];
    let router = build_router(&[("", &r)]);
    let spec = generate(&router, &opts(), |_| true);
    assert_eq!(spec["paths"]["/x"]["get"]["operationId"], "x_second_get");
    assert_eq!(spec["paths"]["/x"]["post"]["operationId"], "x_first_post");
}

fn default_params() -> &'static [ParamDef] {
    let half = serde_json::Number::from_f64(0.5).unwrap();
    let query = |name, ty, default| ParamDef {
        name,
        ty,
        source: ParamSource::Query,
        default: Some(default),
    };
    Box::leak(Box::new([
        query("s", ParamType::String, ParamDefault::String("x")),
        query("i", ParamType::Int, ParamDefault::Int(-3)),
        query("u", ParamType::U64, ParamDefault::U64(u64::MAX)),
        query("w", ParamType::U32, ParamDefault::U32(7)),
        query("f", ParamType::F64, ParamDefault::F64(half)),
        query("b", ParamType::Bool, ParamDefault::Bool(true)),
    ]))
}

#[test]
fn defaults_show_in_the_schemas() {
    let r = [with_params(route("", "h", &[Verb::GET]), default_params())];
    let router = build_router(&[("api", &r)]);
    let spec = generate(&router, &opts(), |_| true);
    let params = spec["paths"]["/api"]["get"]["parameters"].as_array().unwrap();
    let default = |i: usize| params[i]["schema"]["default"].clone();
    assert_eq!(default(0), Value::from("x"));
    assert_eq!(default(1), Value::from(-3));
    assert_eq!(default(2), Value::from(u64::MAX));
    assert_eq!(default(3), Value::from(7));
    assert_eq!(default(4), Value::from(0.5));
    assert_eq!(default(5), Value::from(true));
    assert_eq!(params[1]["schema"]["format"], "int64");
    assert_eq!(params[3]["schema"]["format"], "int32");
    assert_eq!(params[4]["schema"]["type"], "number");
    assert!(params.iter().all(|p| p["required"] == false));
}

#[test]
fn blank_docs_add_nothing() {
    let r = [RouteDef {
        doc: Some("  \n "),
        ..route("", "h", &[Verb::GET])
    }];
    let router = build_router(&[("api", &r)]);
    let spec = generate(&router, &opts(), |_| true);
    assert!(spec["paths"]["/api"]["get"]["summary"].is_null());
    assert!(spec["paths"]["/api"]["get"]["description"].is_null());
    assert!(spec["servers"].is_null());
}
