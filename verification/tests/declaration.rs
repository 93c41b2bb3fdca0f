use actus::construction::is_bare_ident;
use actus::construction::rewrite_construction;
use actus::construction::Construction;
use actus::construction::ExprShape;
use actus::construction::FieldInit;
use actus::construction::SourceExpr;
use actus::controller::ControllerMode;
use actus::controller::ParamSource;
use actus::controller::ParamType;
use actus::controller::Verb;
use actus::declaration::parse_app;
use actus::declaration::parse_attrs;
use actus::declaration::parse_routes;
use actus::declaration::verb_from_word;
use actus::declaration::Delim;
use actus::declaration::Fault;
use actus::declaration::ParamDecl;
use actus::declaration::RouteDecl;
use actus::declaration::Sign;
use actus::declaration::Token;
use actus::declaration::Wanted;
use actus::pattern::extract_path_params;
use actus::pattern::rest_param_name;
use actus::pattern::validate_pattern;
use actus::plan::bind_param;
use actus::plan::collect_method_docs;
use actus::plan::plan_controller;
use actus::plan::type_to_string;
use actus::plan::Binding;
use actus::routing::match_pattern;
use actus::strmap::StrMap;

fn w(s: &str) -> Token {
    Token::Word(s.to_string())
}

fn t(s: &str) -> Token {
    Token::Text(s.to_string())
}

fn ty(s: &str) -> Token {
    Token::Type(s.to_string())
}

fn ex(s: &str) -> Token {
    Token::Expr(s.to_string())
}

const ARROW: Token = Token::Sign(Sign::Arrow);
const COLON: Token = Token::Sign(Sign::Colon);
const EQUALS: Token = Token::Sign(Sign::Equals);
const COMMA: Token = Token::Sign(Sign::Comma);

fn open(d: Delim) -> Token {
    Token::Open(d)
}

fn close(d: Delim) -> Token {
    Token::Close(d)
}

#[test]
fn routes_are_read_with_and_without_verbs() {
    let tokens = vec![
        w("GET"),
        t("users/{id}"),
        ARROW,
        w("show"),
        open(Delim::Paren),
        w("id"),
        COLON,
        ty("u64"),
        COMMA,
        w("expand"),
        COLON,
        ty("bool"),
        EQUALS,
        ex("false"),
        COMMA,
        close(Delim::Paren),
        COMMA,
        t(""),
        ARROW,
        w("index"),
        open(Delim::Paren),
        close(Delim::Paren),
    ];
    let routes = parse_routes(&tokens).unwrap();
    assert_eq!(routes.len(), 2);
    assert_eq!(routes[0].verb, Some(Verb::GET));
    assert_eq!(routes[0].pattern, "users/{id}");
    assert_eq!(routes[0].handler, "show");
    assert_eq!(routes[0].params.len(), 2);
    assert_eq!(routes[0].params[0].name, "id");
    assert_eq!(routes[0].params[0].default, None);
    assert_eq!(routes[0].params[1].ty, "bool");
    assert_eq!(routes[0].params[1].default, Some("false".to_string()));
    assert_eq!(routes[1].verb, None);
    assert_eq!(routes[1].pattern, "");
    assert!(routes[1].params.is_empty());
}

fn fault(tokens: &[Token]) -> (usize, Fault, String) {
    let e = parse_routes(tokens).unwrap_err();
    let text = e.message();
    (e.at, e.fault, text)
}

#[test]
fn faults_of_routes_are_told_with_their_place() {
    let (at, f, text) = fault(&[w("FETCH"), t("x"), ARROW]);
    assert_eq!(at, 0);
    assert!(matches!(f, Fault::UnknownVerb(_)));
    assert_eq!(
        text,
        "Unknown HTTP verb: FETCH. Expected GET, POST, PUT, DELETE, PATCH, HEAD, or OPTIONS"
    );

    let (at, f, text) = fault(&[open(Delim::Bracket)]);
    assert_eq!(at, 0);
    assert!(matches!(f, Fault::AccessSection));
    assert!(text.contains("[Access::*]"));

    let (at, f, text) = fault(&[w("show")]);
    assert_eq!(at, 0);
    assert!(matches!(f, Fault::Expected(Wanted::Text)));
    assert_eq!(text, "expected string literal");

    let (at, f, _) = fault(&[t("x"), COMMA]);
    assert_eq!(at, 1);
    assert!(matches!(f, Fault::Expected(Wanted::Sign(Sign::Arrow))));

    let (at, f, _) = fault(&[t("x"), ARROW, w("h")]);
    assert_eq!(at, 3);
    assert!(matches!(f, Fault::Expected(Wanted::Open(Delim::Paren))));

    let (at, f, _) = fault(&[
        t("x"),
        ARROW,
        w("h"),
        open(Delim::Paren),
        w("a"),
        COLON,
        ex("1"),
    ]);
    assert_eq!(at, 6);
    assert!(matches!(f, Fault::Expected(Wanted::Type)));

    let (at, f, text) = fault(&[t("{...a}/b"), ARROW]);
    assert_eq!(at, 0);
    assert!(matches!(f, Fault::BadPattern(_)));
    assert_eq!(
        text,
        "rest parameter `{...a}` must be the last segment of route pattern `{...a}/b` (it captures the entire remaining path)"
    );
}

#[test]
fn options_of_controllers_are_read() {
    let attrs = parse_attrs(&[]).unwrap();
    assert_eq!(attrs.mode, ControllerMode::Strict);
    assert_eq!(attrs.prepare, None);

    let attrs = parse_attrs(&[
        w("lax"),
        COMMA,
        w("prepare"),
        EQUALS,
        ex("Self::check"),
        COMMA,
        w("max_body_bytes"),
        EQUALS,
        ex("4 * 1024"),
        w("rate_limit"),
        EQUALS,
        ex("\"auth\""),
    ])
    .unwrap();
    assert_eq!(attrs.mode, ControllerMode::Lax);
    assert_eq!(attrs.prepare, Some("Self::check".to_string()));
    assert_eq!(attrs.max_body_bytes, Some("4 * 1024".to_string()));
    assert_eq!(attrs.rate_limit, Some("\"auth\"".to_string()));

    let e = parse_attrs(&[w("loose")]).unwrap_err();
    assert!(matches!(e.fault, Fault::UnknownOption));
    assert_eq!(
        e.message(),
        "Expected 'strict', 'lax', 'prepare = <fn>', 'max_body_bytes = <expr>', or 'rate_limit = <expr>'"
    );
    let e = parse_attrs(&[w("prepare"), ex("x")]).unwrap_err();
    assert_eq!(e.at, 1);
    assert!(matches!(
        e.fault,
        Fault::Expected(Wanted::Sign(Sign::Equals))
    ));
}

#[test]
fn applications_are_read_block_by_block() {
    let app = parse_app(&[
        w("deps"),
        open(Delim::Paren),
        w("store"),
        COLON,
        ty("Arc < Store >"),
        close(Delim::Paren),
        open(Delim::Brace),
        w("cache"),
        EQUALS,
        ex("Cache :: new ()"),
        COMMA,
        close(Delim::Brace),
        w("routes"),
        open(Delim::Brace),
        t("api"),
        ARROW,
        ex("Api { store }"),
        COMMA,
        t("*"),
        ARROW,
        ex("Spa"),
        close(Delim::Brace),
    ])
    .unwrap();
    let pair = |a: &str, b: &str| (a.to_string(), b.to_string());
    assert_eq!(app.inputs, [pair("store", "Arc < Store >")]);
    assert_eq!(app.deps, [pair("cache", "Cache :: new ()")]);
    assert_eq!(app.routes, [pair("api", "Api { store }"), pair("*", "Spa")]);

    let e = parse_app(&[w("deps"), open(Delim::Brace), close(Delim::Brace)]).unwrap_err();
    assert!(matches!(e.fault, Fault::NoRoutes));
    assert_eq!(e.message(), "app_routes! requires a 'routes { ... }' block");
    let e = parse_app(&[w("rotues")]).unwrap_err();
    assert_eq!(e.message(), "expected 'deps' or 'routes', got 'rotues'");
    let e = parse_app(&[
        w("routes"),
        open(Delim::Brace),
        t("a"),
        ARROW,
        ex("A"),
        t("b"),
    ])
    .unwrap_err();
    assert_eq!(e.at, 5);
    assert_eq!(e.message(), "expected `,`");
}

#[test]
fn later_routes_replace_earlier_ones_and_inputs_add_up() {
    let one = |path: &str| {
        vec![
            w("routes"),
            open(Delim::Brace),
            t(path),
            ARROW,
            ex("A"),
            close(Delim::Brace),
        ]
    };
    let deps = |name: &str| {
        vec![
            w("deps"),
            open(Delim::Brace),
            w(name),
            EQUALS,
            ex("1"),
            close(Delim::Brace),
        ]
    };
    let mut tokens = one("a");
    tokens.extend(deps("x"));
    tokens.extend(one("b"));
    tokens.extend(deps("y"));
    let app = parse_app(&tokens).unwrap();
    assert_eq!(app.routes[0].0, "b");
    assert_eq!(app.deps.len(), 2);
}

#[test]
fn words_name_verbs() {
    assert_eq!(verb_from_word("GET"), Some(Verb::GET));
    assert_eq!(verb_from_word("OPTIONS"), Some(Verb::OPTIONS));
    assert_eq!(verb_from_word("get"), None);
}

#[test]
fn patterns_name_their_parameters() {
    assert_eq!(extract_path_params("a/{id}/b/{...rest}"), ["id", "rest"]);
    assert_eq!(extract_path_params("{a}{b}"), ["a", "b"]);
    assert_eq!(extract_path_params("{}/{...}/plain"), Vec::<String>::new());
    assert_eq!(extract_path_params("{open"), ["open"]);
    assert_eq!(rest_param_name("{...rest}"), Some("rest".to_string()));
    assert_eq!(rest_param_name("{rest}"), None);
}

#[test]
fn a_match_captures_exactly_the_named_parameters() {
    let pattern = "a/{id}/b/{...rest}";
    let captured = match_pattern(pattern, "a/7/b/x/y").unwrap();
    assert_eq!(captured.keys(), extract_path_params(pattern));
    assert_eq!(captured.get("id").unwrap(), "7");
    assert_eq!(captured.get("rest").unwrap(), "x/y");
}

#[test]
fn patterns_are_refused_for_their_rest_parameter_only() {
    assert!(validate_pattern("").is_ok());
    assert!(validate_pattern("a/{id}/{...rest}").is_ok());
    assert!(validate_pattern("{a/b}").is_ok());
    assert_eq!(
        validate_pattern("a/{..rest}").unwrap_err(),
        "malformed rest parameter `{..rest}` in route pattern `a/{..rest}`; write it as `{...name}` (three dots, then a non-empty name)"
    );
    assert_eq!(
        validate_pattern("{...}").unwrap_err(),
        "malformed rest parameter `{...}` in route pattern `{...}`; write it as `{...name}` (three dots, then a non-empty name)"
    );
    assert!(validate_pattern("{...a}/{...b}").is_err());
}

fn param(name: &str, ty: &str, default: Option<&str>) -> ParamDecl {
    ParamDecl {
        name: name.to_string(),
        ty: ty.to_string(),
        default: default.map(|s| s.to_string()),
    }
}

fn declared(b: Binding) -> (String, ParamType, ParamSource, Option<String>) {
    match b {
        Binding::Declared(p) => (p.name, p.ty, p.source, p.default),
        other => panic!("expected a declared parameter, got {other:?}"),
    }
}

#[test]
fn parameters_are_bound_to_their_source() {
    let pattern = "{id}/{...path}";
    assert_eq!(
        declared(bind_param(&param("id", "u64", None), pattern)),
        ("id".to_string(), ParamType::U64, ParamSource::Path, None)
    );
    assert_eq!(
        declared(bind_param(&param("path", "String", None), pattern)),
        (
            "path".to_string(),
            ParamType::String,
            ParamSource::Path,
            None
        )
    );
    assert_eq!(
        declared(bind_param(
            &param("r#type", "Vec < String >", Some("x")),
            pattern
        )),
        (
            "type".to_string(),
            ParamType::StringArray,
            ParamSource::Query,
            None
        )
    );
    assert_eq!(
        declared(bind_param(&param("n", "f64", Some("0.5")), pattern)),
        (
            "n".to_string(),
            ParamType::F64,
            ParamSource::Query,
            Some("0.5".to_string())
        )
    );
    assert_eq!(
        declared(bind_param(&param("data", "JsonValue", None), pattern)).2,
        ParamSource::Body
    );
    assert_eq!(
        declared(bind_param(&param("data", "Bytes", None), pattern)).2,
        ParamSource::Body
    );
    assert!(matches!(
        bind_param(&param("p", "& Params", None), pattern),
        Binding::Request
    ));
}

#[test]
fn parameters_that_cannot_be_had_are_refused() {
    let text = |b: Binding| match b {
        Binding::Refused(text) => text,
        other => panic!("expected a refusal, got {other:?}"),
    };
    assert_eq!(
        text(bind_param(&param("x", "i8", None), "")),
        "Unsupported type: i8"
    );
    assert_eq!(
        text(bind_param(&param("path", "u64", None), "{...path}")),
        "rest parameter `{...path}` must be typed `String` (it holds the joined remaining path); found `u64`"
    );
    assert_eq!(type_to_string("Vec < String >"), "Vec<String>");
}

#[test]
fn tables_of_routes_have_ids_verbs_and_docs() {
    let strings = |v: &[&str]| -> Vec<String> { v.iter().map(|s| s.to_string()).collect() };
    let docs: StrMap<String> = collect_method_docs(&[
        ("list".to_string(), strings(&[" Lists.", "", " All of them."])),
        ("show".to_string(), strings(&["  "])),
    ]);
    assert_eq!(
        docs.get("list"),
        Some(&" Lists.\n\n All of them.".to_string())
    );
    assert_eq!(docs.get("show"), None);

    let routes = [
        RouteDecl {
            verb: None,
            pattern: String::new(),
            handler: "list".to_string(),
            params: vec![],
        },
        RouteDecl {
            verb: Some(Verb::DELETE),
            pattern: "{id}".to_string(),
            handler: "show".to_string(),
            params: vec![param("id", "u32", None)],
        },
    ];
    let plans = plan_controller(&routes, &docs);
    assert_eq!(plans[0].handler_id, "handler_0");
    assert_eq!(plans[0].verbs, [Verb::GET, Verb::POST]);
    assert_eq!(plans[0].doc, Some(" Lists.\n\n All of them.".to_string()));
    assert_eq!(plans[1].handler_id, "handler_1");
    assert_eq!(plans[1].verbs, [Verb::DELETE]);
    assert_eq!(plans[1].doc, None);
    assert_eq!(plans[1].arguments.len(), 1);
    assert_eq!(plans[1].arguments[0].0, "id");
}

const NAME: ExprShape = ExprShape::Path {
    qualified: false,
    rooted: false,
    segments: 1,
    arguments: false,
};

fn field(member: &str, value: Option<(&str, ExprShape)>) -> FieldInit {
    FieldInit {
        member: member.to_string(),
        value: value.map(|(text, shape)| SourceExpr {
            text: text.to_string(),
            shape,
        }),
    }
}

#[test]
fn names_in_struct_literals_are_cloned() {
    let c = Construction::Literal {
        path: "Foo".to_string(),
        fields: vec![
            field("db", None),
            field("svc", Some(("store", NAME))),
            field("n", Some(("make()", ExprShape::Other))),
        ],
        rest: Some(SourceExpr {
            text: "base".to_string(),
            shape: NAME,
        }),
    };
    assert_eq!(
        rewrite_construction(&c),
        "Foo { db: db.clone(), svc: store.clone(), n: make(), ..(base).clone() }"
    );
    let c = Construction::Literal {
        path: "Foo".to_string(),
        fields: vec![],
        rest: Some(SourceExpr {
            text: "base.clone()".to_string(),
            shape: ExprShape::Other,
        }),
    };
    assert_eq!(rewrite_construction(&c), "Foo { ..base.clone() }");
    assert_eq!(
        rewrite_construction(&Construction::Other("Health".to_string())),
        "Health"
    );
}

#[test]
fn only_a_single_plain_segment_is_a_name() {
    let path = |qualified, rooted, segments, arguments| ExprShape::Path {
        qualified,
        rooted,
        segments,
        arguments,
    };
    assert!(is_bare_ident(&NAME));
    assert!(!is_bare_ident(&path(true, false, 1, false)));
    assert!(!is_bare_ident(&path(false, true, 1, false)));
    assert!(!is_bare_ident(&path(false, false, 2, false)));
    assert!(!is_bare_ident(&path(false, false, 1, true)));
    assert!(!is_bare_ident(&ExprShape::Other));
}
