//! What declared routes come to: the table of a controller's routes, and where
//! each argument of a handler is taken from.

use crate::controller::ParamSource;
use crate::controller::ParamType;
use crate::controller::Verb;
use crate::declaration::param_decl_views;
use crate::declaration::route_decl_views;
use crate::declaration::ParamDecl;
use crate::declaration::ParamDeclView;
use crate::declaration::RouteDecl;
use crate::declaration::RouteDeclView;
use crate::error::text_option;
use crate::numbers::decimal;
use crate::numbers::digits_value;
use crate::numbers::law_decimal_reads_back;
use crate::numbers::u64_to_string;
use crate::pattern::extract_path_params;
use crate::pattern::path_param_names;
use crate::pattern::rest_param_name;
use crate::routing::rest_name;
use crate::strmap::single;
use crate::strmap::StrMap;
use crate::text::join;
use crate::text::join_strings;
use crate::text::push_text;
use crate::text::replace;
use crate::text::replace_str;
use crate::text::split;
use crate::text::split_str;
use crate::text::starts_with;
use crate::text::str_eq;
use crate::text::strip_prefix;
use crate::text::trim;
use crate::text::trim_str;
use crate::text::views;
use vstd::prelude::*;

verus! {

// ---------------------------------------------------------------------------
// Arguments
// ---------------------------------------------------------------------------

/// A parameter that is read from the request.
#[derive(Debug)]
pub struct PlannedParam {
    /// The name in the request.
    pub name: String,
    /// The type.
    pub ty: ParamType,
    /// Where it is read from.
    pub source: ParamSource,
    /// The expression of the default.
    pub default: Option<String>,
}

/// Where an argument of a handler is taken from.
#[derive(Debug)]
pub enum Binding {
    /// It is the parameters of the request as a whole.
    Request,
    /// It is read from the request.
    Declared(PlannedParam),
    /// It cannot be had, for the reason given.
    Refused(String),
}

/// What a binding holds.
pub enum BindingView {
    Request,
    Declared {
        name: Seq<char>,
        ty: ParamType,
        source: ParamSource,
        default: Option<Seq<char>>,
    },
    Refused(Seq<char>),
}

impl View for Binding {
    type V = BindingView;

    open spec fn view(&self) -> BindingView {
        match self {
            Binding::Request => BindingView::Request,
            Binding::Declared(p) => BindingView::Declared {
                name: p.name@,
                ty: p.ty,
                source: p.source,
                default: text_option(p.default),
            },
            Binding::Refused(text) => BindingView::Refused(text@),
        }
    }
}

/// The text of a type, without spaces.
pub open spec fn compact_type(ty: Seq<char>) -> Seq<char> {
    replace(ty, " "@, ""@)
}

/// The text of a type, without spaces.
pub fn type_to_string(ty: &str) -> (r: String)
    ensures
        r@ == compact_type(ty@),
{
    proof {
        reveal_strlit(" ");
    }
    replace_str(ty, " ", "")
}

/// The name of a parameter in a request: that of a raw identifier comes
/// without its mark.
pub open spec fn wire_name(name: Seq<char>) -> Seq<char> {
    if starts_with(name, "r#"@) {
        name.skip(2)
    } else {
        name
    }
}

fn unraw(name: &str) -> (r: String)
    ensures
        r@ == wire_name(name@),
{
    proof {
        reveal_strlit("r#");
    }
    match strip_prefix(name, "r#") {
        Some(bare) => bare,
        None => name.to_owned(),
    }
}

/// The parameter type that a type in a declaration stands for.
pub open spec fn type_named(ty: Seq<char>) -> Option<ParamType> {
    if ty == "String"@ {
        Some(ParamType::String)
    } else if ty == "i64"@ {
        Some(ParamType::Int)
    } else if ty == "u64"@ {
        Some(ParamType::U64)
    } else if ty == "u32"@ {
        Some(ParamType::U32)
    } else if ty == "f64"@ {
        Some(ParamType::F64)
    } else if ty == "bool"@ {
        Some(ParamType::Bool)
    } else if ty == "Vec<String>"@ {
        Some(ParamType::StringArray)
    } else if ty == "JsonValue"@ {
        Some(ParamType::Json)
    } else if ty == "Bytes"@ {
        Some(ParamType::Bytes)
    } else {
        None
    }
}

/// The parameter type that a type in a declaration stands for.
pub fn param_type(ty: &str) -> (r: Option<ParamType>)
    ensures
        r == type_named(ty@),
{
    if str_eq(ty, "String") {
        Some(ParamType::String)
    } else if str_eq(ty, "i64") {
        Some(ParamType::Int)
    } else if str_eq(ty, "u64") {
        Some(ParamType::U64)
    } else if str_eq(ty, "u32") {
        Some(ParamType::U32)
    } else if str_eq(ty, "f64") {
        Some(ParamType::F64)
    } else if str_eq(ty, "bool") {
        Some(ParamType::Bool)
    } else if str_eq(ty, "Vec<String>") {
        Some(ParamType::StringArray)
    } else if str_eq(ty, "JsonValue") {
        Some(ParamType::Json)
    } else if str_eq(ty, "Bytes") {
        Some(ParamType::Bytes)
    } else {
        None
    }
}

/// Whether a parameter of a type can have a default.
pub open spec fn takes_default(ty: ParamType) -> bool {
    !(ty is StringArray || ty is Json || ty is Bytes)
}

/// Where a parameter is read from: from the path where the pattern names it,
/// else from the body where its type is that of a body, else from the query.
pub open spec fn source_of(name: Seq<char>, ty: ParamType, pattern: Seq<char>) -> ParamSource {
    if path_param_names(pattern).contains(name) {
        ParamSource::Path
    } else if ty is Json || ty is Bytes {
        ParamSource::Body
    } else {
        ParamSource::Query
    }
}

/// The name of the first rest parameter among segments, from `i` on.
pub open spec fn first_rest(parts: Seq<Seq<char>>, i: int) -> Option<Seq<char>>
    decreases parts.len() - i,
{
    if i >= parts.len() {
        None
    } else if rest_name(parts[i]) is Some {
        rest_name(parts[i])
    } else {
        first_rest(parts, i + 1)
    }
}

/// The name of the parameter that takes the rest of the path.
pub open spec fn rest_of(pattern: Seq<char>) -> Option<Seq<char>> {
    first_rest(split(pattern, '/'), 0)
}

/// What is said of a rest parameter that is no text.
pub open spec fn rest_type_text(name: Seq<char>, ty: Seq<char>) -> Seq<char> {
    "rest parameter `{..."@ + name
        + "}` must be typed `String` (it holds the joined remaining path); found `"@ + ty + "`"@
}

/// Where an argument of a handler is taken from.
pub open spec fn binding_of(p: ParamDeclView, pattern: Seq<char>) -> BindingView {
    let name = wire_name(p.name);
    let ty = compact_type(p.ty);
    if ty == "&Params"@ {
        BindingView::Request
    } else if rest_of(pattern) == Some(name) && ty != "String"@ {
        BindingView::Refused(rest_type_text(name, ty))
    } else {
        match type_named(ty) {
            None => BindingView::Refused("Unsupported type: "@ + ty),
            Some(t) => BindingView::Declared {
                name,
                ty: t,
                source: source_of(name, t, pattern),
                default: if takes_default(t) {
                    p.default
                } else {
                    None
                },
            },
        }
    }
}

fn find_rest(pattern: &str) -> (r: Option<String>)
    ensures
        text_option(r) == rest_of(pattern@),
{
    let parts = split_str(pattern, '/');
    let mut i: usize = 0;
    while i < parts.len()
        invariant
            views(parts@) == split(pattern@, '/'),
            i <= parts@.len(),
            rest_of(pattern@) == first_rest(views(parts@), i as int),
        decreases parts.len() - i,
    {
        assert(views(parts@)[i as int] == parts@[i as int]@);
        let found = rest_param_name(&parts[i]);
        if found.is_some() {
            return found;
        }
        i = i + 1;
    }
    None
}

fn contains_name(names: &[String], name: &str) -> (r: bool)
    ensures
        r == views(names@).contains(name@),
{
    let mut i: usize = 0;
    while i < names.len()
        invariant
            i <= names@.len(),
            forall|k: int| 0 <= k < i ==> (#[trigger] views(names@)[k]) != name@,
        decreases names.len() - i,
    {
        if str_eq(&names[i], name) {
            assert(views(names@)[i as int] == name@);
            return true;
        }
        i = i + 1;
    }
    false
}

fn prefixed(front: &str, middle: &str) -> (r: String)
    ensures
        r@ == front@ + middle@,
{
    let mut out = front.to_owned();
    push_text(&mut out, middle);
    out
}

/// Says where an argument of a handler is taken from.
pub fn bind_param(p: &ParamDecl, pattern: &str) -> (r: Binding)
    ensures
        r@ == binding_of(p@, pattern@),
{
    let name = unraw(&p.name);
    let ty = type_to_string(&p.ty);
    if str_eq(&ty, "&Params") {
        return Binding::Request;
    }
    let is_rest = match find_rest(pattern) {
        Some(rest) => str_eq(&rest, &name),
        None => false,
    };
    if is_rest && !str_eq(&ty, "String") {
        let mut text = prefixed("rest parameter `{...", &name);
        push_text(
            &mut text,
            "}` must be typed `String` (it holds the joined remaining path); found `",
        );
        push_text(&mut text, &ty);
        push_text(&mut text, "`");
        return Binding::Refused(text);
    }
    match param_type(&ty) {
        None => Binding::Refused(prefixed("Unsupported type: ", &ty)),
        Some(t) => {
            let of_body = matches!(t, ParamType::Json | ParamType::Bytes);
            let source = if contains_name(&extract_path_params(pattern), &name) {
                ParamSource::Path
            } else if of_body {
                ParamSource::Body
            } else {
                ParamSource::Query
            };
            let default = if of_body || matches!(t, ParamType::StringArray) {
                None
            } else {
                match &p.default {
                    Some(d) => Some(d.clone()),
                    None => None,
                }
            };
            Binding::Declared(PlannedParam { name, ty: t, source, default })
        },
    }
}

// ---------------------------------------------------------------------------
// Documentation
// ---------------------------------------------------------------------------

/// What the methods of a controller document: the lines of each, joined with
/// line feeds, unless they are blank.
pub open spec fn documented_methods(methods: Seq<(Seq<char>, Seq<Seq<char>>)>) -> Map<
    Seq<char>,
    Seq<char>,
>
    decreases methods.len(),
{
    if methods.len() == 0 {
        Map::empty()
    } else {
        let before = documented_methods(methods.drop_last());
        let doc = join(methods.last().1, "\n"@);
        if trim(doc).len() == 0 {
            before
        } else {
            before.insert(methods.last().0, doc)
        }
    }
}

/// The names and lines of methods.
pub open spec fn method_views(methods: Seq<(String, Vec<String>)>) -> Seq<
    (Seq<char>, Seq<Seq<char>>),
> {
    Seq::new(methods.len(), |i: int| (methods[i].0@, views(methods[i].1@)))
}

/// Collects what the methods of a controller document.
pub fn collect_method_docs(methods: &[(String, Vec<String>)]) -> (r: StrMap<String>)
    ensures
        single(r@) == documented_methods(method_views(methods@)),
{
    let ghost all = method_views(methods@);
    let mut docs: StrMap<String> = StrMap::new();
    let mut i: usize = 0;
    assert(all.take(0) =~= Seq::<(Seq<char>, Seq<Seq<char>>)>::empty());
    assert(single(docs@) =~= Map::<Seq<char>, Seq<char>>::empty());
    while i < methods.len()
        invariant
            all == method_views(methods@),
            i <= methods@.len(),
            single(docs@) == documented_methods(all.take(i as int)),
        decreases methods.len() - i,
    {
        let doc = join_strings(&methods[i].1, "\n");
        let ghost before = docs@;
        assert(all.take(i + 1).drop_last() =~= all.take(i as int));
        assert(all.take(i + 1).last() == (methods@[i as int].0@, views(methods@[i as int].1@)));
        if trim_str(&doc).as_str().unicode_len() > 0 {
            docs.insert(methods[i].0.clone(), doc);
            assert(single(docs@) =~= single(before).insert(methods@[i as int].0@, doc@));
        }
        i = i + 1;
    }
    assert(all.take(all.len() as int) =~= all);
    docs
}

// ---------------------------------------------------------------------------
// Routes
// ---------------------------------------------------------------------------

/// An entry in the table of a controller's routes.
#[derive(Debug)]
pub struct RoutePlan {
    /// The pattern.
    pub pattern: String,
    /// The token by which dispatch finds the handler.
    pub handler_id: String,
    /// The handler method.
    pub handler: String,
    /// The verbs that the route takes.
    pub verbs: Vec<Verb>,
    /// The arguments of the handler: the identifier and where it comes from.
    pub arguments: Vec<(String, Binding)>,
    /// The documentation of the handler.
    pub doc: Option<String>,
}

/// What an entry in the table holds.
pub struct RoutePlanView {
    pub pattern: Seq<char>,
    pub handler_id: Seq<char>,
    pub handler: Seq<char>,
    pub verbs: Seq<Verb>,
    pub arguments: Seq<(Seq<char>, BindingView)>,
    pub doc: Option<Seq<char>>,
}

/// The identifiers of arguments and where they come from.
pub open spec fn argument_views(arguments: Seq<(String, Binding)>) -> Seq<(Seq<char>, BindingView)> {
    Seq::new(arguments.len(), |i: int| (arguments[i].0@, arguments[i].1@))
}

impl View for RoutePlan {
    type V = RoutePlanView;

    open spec fn view(&self) -> RoutePlanView {
        RoutePlanView {
            pattern: self.pattern@,
            handler_id: self.handler_id@,
            handler: self.handler@,
            verbs: self.verbs@,
            arguments: argument_views(self.arguments@),
            doc: text_option(self.doc),
        }
    }
}

/// The token of the handler of the route with a number.
pub open spec fn handler_token(index: nat) -> Seq<char> {
    "handler_"@ + decimal(index)
}

/// The verbs of a route: the declared one, or those that a form can send.
pub open spec fn planned_verbs(verb: Option<Verb>) -> Seq<Verb> {
    match verb {
        Some(v) => seq![v],
        None => seq![Verb::GET, Verb::POST],
    }
}

/// The documentation of a handler.
pub open spec fn planned_doc(docs: Map<Seq<char>, Seq<char>>, handler: Seq<char>) -> Option<
    Seq<char>,
> {
    if docs.contains_key(handler) && docs[handler].len() > 0 {
        Some(docs[handler])
    } else {
        None
    }
}

/// What a declared route comes to.
pub open spec fn planned_route(
    route: RouteDeclView,
    index: nat,
    docs: Map<Seq<char>, Seq<char>>,
) -> RoutePlanView {
    RoutePlanView {
        pattern: route.pattern,
        handler_id: handler_token(index),
        handler: route.handler,
        verbs: planned_verbs(route.verb),
        arguments: route.params.map_values(
            |p: ParamDeclView| (p.name, binding_of(p, route.pattern)),
        ),
        doc: planned_doc(docs, route.handler),
    }
}

/// What declared routes come to, in order.
pub open spec fn planned_routes(
    routes: Seq<RouteDeclView>,
    docs: Map<Seq<char>, Seq<char>>,
) -> Seq<RoutePlanView> {
    Seq::new(routes.len(), |i: int| planned_route(routes[i], i as nat, docs))
}

/// What a table of routes holds.
pub open spec fn route_plan_views(plans: Seq<RoutePlan>) -> Seq<RoutePlanView> {
    Seq::new(plans.len(), |i: int| plans[i]@)
}

fn bind_params(params: &[ParamDecl], pattern: &str) -> (r: Vec<(String, Binding)>)
    ensures
        argument_views(r@) == param_decl_views(params@).map_values(
            |p: ParamDeclView| (p.name, binding_of(p, pattern@)),
        ),
{
    let mut out: Vec<(String, Binding)> = Vec::new();
    let mut i: usize = 0;
    while i < params.len()
        invariant
            i <= params@.len(),
            out@.len() == i,
            forall|k: int|
                0 <= k < i ==> (#[trigger] out@[k]).0@ == params@[k].name@ && out@[k].1@
                    == binding_of(params@[k]@, pattern@),
        decreases params.len() - i,
    {
        out.push((params[i].name.clone(), bind_param(&params[i], pattern)));
        i = i + 1;
    }
    assert(argument_views(out@) =~= param_decl_views(params@).map_values(
        |p: ParamDeclView| (p.name, binding_of(p, pattern@)),
    ));
    out
}

fn plan_route(route: &RouteDecl, index: usize, docs: &StrMap<String>) -> (r: RoutePlan)
    ensures
        r@ == planned_route(route@, index as nat, single(docs@)),
{
    let handler_id = prefixed("handler_", &u64_to_string(index as u64));
    let verbs = match route.verb {
        Some(v) => vec![v],
        None => vec![Verb::GET, Verb::POST],
    };
    assert(verbs@ =~= planned_verbs(route.verb));
    let doc = match docs.get(&route.handler) {
        Some(text) => if text.as_str().unicode_len() > 0 {
            Some(text.clone())
        } else {
            None
        },
        None => None,
    };
    RoutePlan {
        pattern: route.pattern.clone(),
        handler_id,
        handler: route.handler.clone(),
        verbs,
        arguments: bind_params(&route.params, &route.pattern),
        doc,
    }
}

/// Makes the table of a controller's routes.
pub fn plan_controller(routes: &[RouteDecl], docs: &StrMap<String>) -> (r: Vec<RoutePlan>)
    ensures
        route_plan_views(r@) == planned_routes(route_decl_views(routes@), single(docs@)),
{
    let mut out: Vec<RoutePlan> = Vec::new();
    let mut i: usize = 0;
    while i < routes.len()
        invariant
            i <= routes@.len(),
            out@.len() == i,
            forall|k: int|
                0 <= k < i ==> (#[trigger] out@[k])@ == planned_route(
                    routes@[k]@,
                    k as nat,
                    single(docs@),
                ),
        decreases routes.len() - i,
    {
        out.push(plan_route(&routes[i], i, docs));
        i = i + 1;
    }
    assert(route_plan_views(out@) =~= planned_routes(route_decl_views(routes@), single(docs@)));
    out
}

// ---------------------------------------------------------------------------
// Laws
// ---------------------------------------------------------------------------

/// Every route has a token of its own, so dispatch finds one handler for each
/// route of the table, and no other.
pub proof fn law_handler_tokens_tell_routes_apart(
    routes: Seq<RouteDeclView>,
    docs: Map<Seq<char>, Seq<char>>,
    i: int,
    j: int,
)
    requires
        0 <= i < routes.len(),
        0 <= j < routes.len(),
        planned_routes(routes, docs)[i].handler_id == planned_routes(routes, docs)[j].handler_id,
    ensures
        i == j,
{
    let front = "handler_"@;
    let a = handler_token(i as nat);
    let b = handler_token(j as nat);
    assert(a.skip(front.len() as int) =~= decimal(i as nat));
    assert(b.skip(front.len() as int) =~= decimal(j as nat));
    law_decimal_reads_back(i as nat);
    law_decimal_reads_back(j as nat);
    assert(digits_value(decimal(i as nat)) == i);
}

/// An argument that the pattern names is read from the path, and no other is.
pub proof fn law_named_parameters_come_from_the_path(p: ParamDeclView, pattern: Seq<char>)
    ensures
        binding_of(p, pattern) matches BindingView::Declared { name, source, .. } ==> (source
            == ParamSource::Path <==> path_param_names(pattern).contains(name)),
{
}

/// A parameter that takes the rest of the path is a text.
pub proof fn law_rest_parameters_are_texts(p: ParamDeclView, pattern: Seq<char>)
    ensures
        binding_of(p, pattern) matches BindingView::Declared { name, ty, .. } ==> (rest_of(pattern)
            == Some(name) ==> ty == ParamType::String),
{
}

/// The blanks of a type do not count: its text is what is left without them, in
/// order.
pub proof fn law_blanks_in_types_count_nothing(ty: Seq<char>)
    ensures
        compact_type(ty) == ty.filter(|c: char| c != ' '),
    decreases ty.len(),
{
    reveal_strlit(" ");
    reveal_strlit("");
    let blank = seq![' '];
    let none = Seq::<char>::empty();
    assert(" "@ =~= blank);
    assert(""@ =~= none);
    let kept = |c: char| c != ' ';
    if ty.len() == 0 {
        reveal(Seq::filter);
        assert(compact_type(ty) =~= ty.filter(kept));
    } else {
        let rest = ty.skip(1);
        law_blanks_in_types_count_nothing(rest);
        assert(ty =~= seq![ty[0]] + rest);
        Seq::filter_distributes_over_add(seq![ty[0]], rest, kept);
        assert(seq![ty[0]].filter(kept) == if ty[0] != ' ' {
            seq![ty[0]]
        } else {
            none
        }) by {
            reveal(Seq::filter);
            assert(seq![ty[0]].drop_last() =~= none);
            assert(none.filter(kept) =~= none);
        }
        if starts_with(ty, blank) {
            assert(ty.take(1)[0] == ty[0]);
            assert(none + replace(rest, blank, none) =~= replace(rest, blank, none));
            assert(none + rest.filter(kept) =~= rest.filter(kept));
        } else {
            if ty[0] == ' ' {
                assert(ty.take(1) =~= blank);
            }
        }
    }
}

/// The mark of a raw identifier is no part of the name in a request, and every
/// other name stays.
pub proof fn law_raw_names_lose_their_mark(name: Seq<char>)
    ensures
        wire_name(seq!['r', '#'] + name) == name,
        !(name.len() >= 2 && name[0] == 'r' && name[1] == '#') ==> wire_name(name) == name,
{
    reveal_strlit("r#");
    let mark = seq!['r', '#'];
    assert("r#"@ =~= mark);
    let whole = mark + name;
    assert(whole.take(2) =~= mark);
    assert(whole.skip(2) =~= name);
    if starts_with(name, mark) {
        assert(name.take(2)[0] == name[0] && name.take(2)[1] == name[1]);
    }
}

/// Where an argument comes from and what it is. Its type is one of nine, by
/// its text, and any other is refused; it is read from the path where the
/// pattern names it, a JSON value and bytes otherwise from the body, and
/// everything else from the query; and its default is kept where its type is
/// that of a single value.
pub proof fn law_where_arguments_come_from(p: ParamDeclView, pattern: Seq<char>)
    requires
        compact_type(p.ty) != "&Params"@,
        rest_of(pattern) != Some(wire_name(p.name)),
    ensures
        ({
            let ty = compact_type(p.ty);
            let known = type_named(ty);
            &&& binding_of(p, pattern) is Refused <==> known is None
            &&& known is None ==> binding_of(p, pattern) == BindingView::Refused(
                "Unsupported type: "@ + ty,
            )
            &&& binding_of(p, pattern) matches BindingView::Declared {
                name,
                ty: t,
                source,
                default,
            } ==> {
                &&& name == wire_name(p.name)
                &&& known == Some(t)
                &&& path_param_names(pattern).contains(name) ==> source == ParamSource::Path
                &&& !path_param_names(pattern).contains(name) && (t == ParamType::Json || t
                    == ParamType::Bytes) ==> source == ParamSource::Body
                &&& !path_param_names(pattern).contains(name) && t != ParamType::Json && t
                    != ParamType::Bytes ==> source == ParamSource::Query
                &&& t == ParamType::Json || t == ParamType::Bytes || t == ParamType::StringArray
                    ==> default is None
                &&& t != ParamType::Json && t != ParamType::Bytes && t != ParamType::StringArray
                    ==> default == p.default
            }
        }),
{
}

/// The types that an argument can have, by their text: each of the nine stands
/// for a type of its own.
pub proof fn law_types_by_their_text(a: Seq<char>, b: Seq<char>)
    ensures
        type_named(a) is Some && type_named(a) == type_named(b) ==> a == b,
        type_named("String"@) == Some(ParamType::String),
        type_named("i64"@) == Some(ParamType::Int),
        type_named("u64"@) == Some(ParamType::U64),
        type_named("u32"@) == Some(ParamType::U32),
        type_named("f64"@) == Some(ParamType::F64),
        type_named("bool"@) == Some(ParamType::Bool),
        type_named("Vec<String>"@) == Some(ParamType::StringArray),
        type_named("JsonValue"@) == Some(ParamType::Json),
        type_named("Bytes"@) == Some(ParamType::Bytes),
{
    reveal_strlit("String");
    reveal_strlit("i64");
    reveal_strlit("u64");
    reveal_strlit("u32");
    reveal_strlit("f64");
    reveal_strlit("bool");
    reveal_strlit("Vec<String>");
    reveal_strlit("JsonValue");
    reveal_strlit("Bytes");
    assert("String"@.len() == 6 && "i64"@.len() == 3 && "u64"@.len() == 3 && "u32"@.len() == 3
        && "f64"@.len() == 3 && "bool"@.len() == 4 && "Vec<String>"@.len() == 11
        && "JsonValue"@.len() == 9 && "Bytes"@.len() == 5);
    assert("i64"@[0] == 'i' && "u64"@[0] == 'u' && "u32"@[0] == 'u' && "f64"@[0] == 'f');
    assert("u64"@[1] == '6' && "u32"@[1] == '3');
}

/// A route of the table keeps what was declared: the pattern, the handler, the
/// arguments in their order, and the verb, or those of a form where none is
/// declared; and it has the documentation of its handler.
pub proof fn law_plans_keep_what_is_declared(
    routes: Seq<RouteDeclView>,
    docs: Map<Seq<char>, Seq<char>>,
    i: int,
)
    requires
        0 <= i < routes.len(),
    ensures
        planned_routes(routes, docs).len() == routes.len(),
        ({
            let plan = planned_routes(routes, docs)[i];
            &&& plan.pattern == routes[i].pattern
            &&& plan.handler == routes[i].handler
            &&& plan.arguments.len() == routes[i].params.len()
            &&& forall|k: int|
                0 <= k < plan.arguments.len() ==> (#[trigger] plan.arguments[k]).0
                    == routes[i].params[k].name && plan.arguments[k].1 == binding_of(
                    routes[i].params[k],
                    routes[i].pattern,
                )
            &&& routes[i].verb matches Some(v) ==> plan.verbs == seq![v]
            &&& routes[i].verb is None ==> plan.verbs == seq![Verb::GET, Verb::POST]
            &&& docs.contains_key(routes[i].handler) && docs[routes[i].handler].len() > 0
                ==> plan.doc == Some(docs[routes[i].handler])
            &&& !docs.contains_key(routes[i].handler) || docs[routes[i].handler].len() == 0
                ==> plan.doc is None
        }),
{
}

/// The documentation of a method is its lines, with line feeds between them,
/// and a blank one is none.
pub proof fn law_methods_are_documented(methods: Seq<(Seq<char>, Seq<Seq<char>>)>, k: int)
    requires
        0 <= k < methods.len(),
        forall|j: int|
            0 <= j < methods.len() && j != k ==> (#[trigger] methods[j]).0 != methods[k].0,
    ensures
        ({
            let doc = join(methods[k].1, seq!['\n']);
            &&& documented_methods(methods).contains_key(methods[k].0) <==> trim(doc).len() > 0
            &&& trim(doc).len() > 0 ==> documented_methods(methods)[methods[k].0] == doc
        }),
    decreases methods.len(),
{
    reveal_strlit("\n");
    assert("\n"@ =~= seq!['\n']);
    let front = methods.drop_last();
    if k < methods.len() - 1 {
        assert(front[k] == methods[k]);
        assert forall|j: int| 0 <= j < front.len() && j != k implies (#[trigger] front[j]).0
            != front[k].0 by {
            assert(front[j] == methods[j]);
        }
        assert(methods[methods.len() - 1].0 != methods[k].0);
        law_methods_are_documented(front, k);
    } else {
        assert forall|j: int| 0 <= j < front.len() implies (#[trigger] front[j]).0
            != methods[k].0 by {
            assert(front[j] == methods[j]);
        }
        lemma_not_documented(front, methods[k].0);
    }
}

proof fn lemma_not_documented(methods: Seq<(Seq<char>, Seq<Seq<char>>)>, name: Seq<char>)
    requires
        forall|j: int| 0 <= j < methods.len() ==> (#[trigger] methods[j]).0 != name,
    ensures
        !documented_methods(methods).contains_key(name),
    decreases methods.len(),
{
    if methods.len() > 0 {
        let front = methods.drop_last();
        assert forall|j: int| 0 <= j < front.len() implies (#[trigger] front[j]).0 != name by {
            assert(front[j] == methods[j]);
        }
        assert(methods[methods.len() - 1].0 != name);
        lemma_not_documented(front, name);
    }
}

/// An argument that is the request as a whole is not read from it, and one that
/// takes the rest of the path is refused unless it is a text.
pub proof fn law_requests_and_rests(p: ParamDeclView, pattern: Seq<char>)
    ensures
        binding_of(p, pattern) is Request <==> compact_type(p.ty) == "&Params"@,
        rest_of(pattern) == Some(wire_name(p.name)) && compact_type(p.ty) != "&Params"@ ==> (
        binding_of(p, pattern) is Declared <==> compact_type(p.ty) == "String"@),
{
    reveal_strlit("&Params");
    reveal_strlit("String");
    assert("&Params"@.len() != "String"@.len());
}

proof fn lemma_first_rest(parts: Seq<Seq<char>>, i: int, n: int)
    requires
        0 <= i <= n <= parts.len(),
        forall|k: int| i <= k < n ==> rest_name(#[trigger] parts[k]) is None,
    ensures
        first_rest(parts, i) == first_rest(parts, n),
    decreases n - i,
{
    if i < n {
        lemma_first_rest(parts, i + 1, n);
    }
}

/// The parameter that takes the rest of the path is the one that a pattern
/// names behind three dots, and a pattern without such a segment has none.
pub proof fn law_rests_are_found(before: Seq<char>, name: Seq<char>)
    requires
        name.len() > 0,
        !name.contains('/'),
        forall|k: int|
            0 <= k < split(before, '/').len() ==> !starts_with(
                #[trigger] split(before, '/')[k],
                "{..."@,
            ),
    ensures
        rest_of(before) is None,
        rest_of(before.push('/') + (seq!['{', '.', '.', '.'] + name).push('}')) == Some(name),
{
    reveal_strlit("{...");
    let segment = (seq!['{', '.', '.', '.'] + name).push('}');
    let front = split(before, '/');
    lemma_first_rest(front, 0, front.len() as int);
    assert(!segment.contains('/')) by {
        if segment.contains('/') {
            let k = segment.index_of('/');
            assert(4 <= k < segment.len() - 1 && name[k - 4] == '/');
        }
    }
    crate::text::lemma_split_without(segment, '/');
    crate::text::lemma_split_concat(before, segment, '/');
    let parts = split(before.push('/') + segment, '/');
    assert(parts == front + seq![segment]);
    assert forall|k: int| 0 <= k < front.len() implies rest_name(#[trigger] parts[k]) is None by {
        assert(parts[k] == front[k]);
    }
    lemma_first_rest(parts, 0, front.len() as int);
    assert(segment.take(4) =~= "{..."@);
    assert(segment.subrange(4, segment.len() - 1) =~= name);
    assert(parts[front.len() as int] == segment);
}

/// An argument that takes the rest of the path and is no text is refused, and
/// what is said of it tells its name and its type.
pub proof fn law_other_rests_are_refused(p: ParamDeclView, pattern: Seq<char>)
    requires
        rest_of(pattern) == Some(wire_name(p.name)),
        compact_type(p.ty) != "&Params"@,
        compact_type(p.ty) != "String"@,
    ensures
        binding_of(p, pattern) == BindingView::Refused(
            "rest parameter `{..."@ + wire_name(p.name)
                + "}` must be typed `String` (it holds the joined remaining path); found `"@
                + compact_type(p.ty) + "`"@,
        ),
{
}

} // verus!
