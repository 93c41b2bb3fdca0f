//! OpenAPI documents: the routes of a router, described in JSON.

use crate::controller::verb_token;
use crate::controller::ControllerMode;
use crate::controller::ParamDef;
use crate::controller::ParamDefault;
use crate::controller::ParamSource;
use crate::controller::ParamType;
use crate::controller::RouteDef;
use crate::controller::Verb;
use crate::error::text_option;
use crate::json::json_array;
use crate::json::json_bool;
use crate::json::json_i64;
use crate::json::json_members;
use crate::json::json_number;
use crate::json::json_object;
use crate::json::json_option;
use crate::json::json_pretty;
use crate::json::json_string;
use crate::json::json_to_pretty;
use crate::json::json_tree;
use crate::json::json_trees;
use crate::json::json_u64;
use crate::json::map_insert;
use crate::json::map_new;
use crate::json::map_remove;
use crate::json::no_members;
use crate::json::number_clone;
use crate::json::number_tree;
use crate::json::object_members;
use crate::json::JsonTree;
use crate::params::str_option;
use crate::params::ParamsView;
use crate::router::lists_mounts;
use crate::router::route_row_views;
use crate::router::route_rows;
use crate::router::Router;
use crate::routing::extracted;
use crate::routing::is_missing;
use crate::routing::law_what_a_route_refuses;
use crate::routing::owed;
use crate::text::chars_of;
use crate::text::contains_text;
use crate::text::ends_with;
use crate::text::is_space;
use crate::text::join;
use crate::text::join_strings;
use crate::text::law_join_of_split;
use crate::text::law_nothing_else_is_replaced;
use crate::text::law_occurrences_are_replaced;
use crate::text::law_slash_separates;
use crate::text::law_split_of_join;
use crate::text::law_texts_between_texts;
use crate::text::law_texts_have_two_sides;
use crate::text::law_trim_char_takes_copies_only;
use crate::text::lemma_split_concat;
use crate::text::lemma_split_non_empty;
use crate::text::lemma_split_pieces;
use crate::text::lemma_split_without;
use crate::text::lower;
use crate::text::push_text;
use crate::text::replace;
use crate::text::replace_str;
use crate::text::segments_of;
use crate::text::split;
use crate::text::split_str;
use crate::text::starts_with;
use crate::text::str_contains;
use crate::text::string_of;
use crate::text::sub_chars;
use crate::text::trim;
use crate::text::trim_char;
use crate::text::trim_char_chars;
use crate::text::trim_char_end;
use crate::text::trim_char_start;
use crate::text::trim_end;
use crate::text::trim_start;
use crate::text::trim_str;
use crate::text::views;
use vstd::prelude::*;

verus! {

// ---------------------------------------------------------------------------
// Paths and names
// ---------------------------------------------------------------------------

/// The path of an operation: the mount and the pattern, without the slashes
/// around them, each behind a slash. A rest parameter is written like one that
/// takes a single segment.
pub open spec fn composed_path(mount: Seq<char>, pattern: Seq<char>) -> Seq<char> {
    let m = trim_char(mount, '/');
    let p = replace(trim_char(pattern, '/'), "{..."@, "{"@);
    if m.len() == 0 && p.len() == 0 {
        "/"@
    } else if m.len() == 0 {
        "/"@ + p
    } else if p.len() == 0 {
        "/"@ + m
    } else {
        "/"@ + m + "/"@ + p
    }
}

/// The path of an operation.
pub fn compose_path(mount: &str, pattern: &str) -> (r: String)
    ensures
        r@ == composed_path(mount@, pattern@),
{
    let m = string_of(&trim_char_chars(&chars_of(mount), '/'));
    proof {
        reveal_strlit("{...");
    }
    let p = replace_str(&string_of(&trim_char_chars(&chars_of(pattern), '/')), "{...", "{");
    let mount_len: usize = m.as_str().unicode_len();
    let pattern_len: usize = p.as_str().unicode_len();
    let mut out = "/".to_owned();
    if mount_len > 0 {
        push_text(&mut out, &m);
        if pattern_len > 0 {
            push_text(&mut out, "/");
        }
    }
    if pattern_len > 0 {
        push_text(&mut out, &p);
    }
    out
}

/// The name of an operation's method.
pub open spec fn method_name(v: Verb) -> Seq<char> {
    match v {
        Verb::GET => "get"@,
        Verb::POST => "post"@,
        Verb::PUT => "put"@,
        Verb::DELETE => "delete"@,
        Verb::PATCH => "patch"@,
        Verb::HEAD => "head"@,
        Verb::OPTIONS => "options"@,
    }
}

/// The name of an operation's method.
pub fn verb_method(v: &Verb) -> (r: &'static str)
    ensures
        r@ == method_name(*v),
{
    match v {
        Verb::GET => "get",
        Verb::POST => "post",
        Verb::PUT => "put",
        Verb::DELETE => "delete",
        Verb::PATCH => "patch",
        Verb::HEAD => "head",
        Verb::OPTIONS => "options",
    }
}

/// A character of a path, as an id has it. No underscore stands for one, as
/// underscores part the words of an id, and no brace; an exclamation mark goes
/// before the characters that otherwise stand for others.
pub open spec fn id_char(c: char) -> Seq<char> {
    if c == '_' {
        seq!['~']
    } else if c == '{' {
        seq!['(']
    } else if c == '}' {
        seq![')']
    } else if c == '~' || c == '(' || c == ')' || c == '!' {
        seq!['!', c]
    } else {
        seq![c]
    }
}

/// The characters of a word, as an id has them.
pub open spec fn id_word(s: Seq<char>) -> Seq<char>
    decreases s.len(),
{
    if s.len() == 0 {
        Seq::empty()
    } else {
        id_char(s[0]) + id_word(s.skip(1))
    }
}

/// The words of a path: what stands between its slashes.
pub open spec fn path_words(path: Seq<char>) -> Seq<Seq<char>> {
    let rest = if path.len() > 0 && path[0] == '/' {
        path.skip(1)
    } else {
        path
    };
    if rest.len() == 0 {
        Seq::empty()
    } else {
        split(rest, '/')
    }
}

/// A word of a path, as an id has it. An empty word leaves a mark.
pub open spec fn path_id(word: Seq<char>) -> Seq<char> {
    if word.len() == 0 {
        seq!['!']
    } else {
        id_word(word)
    }
}

/// A handler, as an id has it: as it is, and with an underscore in front that
/// marks where it begins if it holds underscores itself.
pub open spec fn bordered(handler: Seq<char>) -> Seq<char> {
    if handler.contains('_') {
        seq!['_'] + handler
    } else {
        handler
    }
}

/// The id of an operation: the words of the path, the handler and the method,
/// with underscores between them.
pub open spec fn operation_name(path: Seq<char>, method: Seq<char>, handler: Seq<char>) -> Seq<
    char,
> {
    let words = path_words(path).map_values(|w: Seq<char>| path_id(w));
    join(words.push(bordered(handler)).push(method), "_"@)
}

fn sanitize(word: &str) -> (r: String)
    ensures
        r@ == path_id(word@),
{
    let chars = chars_of(word);
    let mut out = String::new();
    if chars.len() == 0 {
        out.push('!');
        assert(out@ =~= seq!['!']);
        return out;
    }
    let mut i: usize = 0;
    assert(chars@.skip(0) =~= chars@);
    while i < chars.len()
        invariant
            chars@ == word@,
            i <= chars@.len(),
            out@ + id_word(chars@.skip(i as int)) == id_word(word@),
        decreases chars.len() - i,
    {
        let c = chars[i];
        let ghost before = out@;
        assert(chars@.skip(i as int)[0] == c);
        assert(chars@.skip(i as int).skip(1) =~= chars@.skip(i + 1));
        if c == '_' {
            out.push('~');
        } else if c == '{' {
            out.push('(');
        } else if c == '}' {
            out.push(')');
        } else {
            if c == '~' || c == '(' || c == ')' || c == '!' {
                out.push('!');
            }
            out.push(c);
        }
        assert(out@ =~= before + id_char(c));
        assert(out@ + id_word(chars@.skip(i + 1)) =~= before + (id_char(c) + id_word(
            chars@.skip(i + 1),
        )));
        i = i + 1;
    }
    assert(out@ + Seq::<char>::empty() =~= out@);
    out
}

fn with_border(handler: &str) -> (r: String)
    ensures
        r@ == bordered(handler@),
{
    let chars = chars_of(handler);
    let mut i: usize = 0;
    while i < chars.len() && chars[i] != '_'
        invariant
            i <= chars@.len(),
            forall|k: int| 0 <= k < i ==> chars@[k] != '_',
        decreases chars.len() - i,
    {
        i = i + 1;
    }
    let mut out = String::new();
    if i < chars.len() {
        assert(handler@.contains(chars@[i as int]));
        out.push('_');
    }
    push_text(&mut out, handler);
    assert(out@ =~= bordered(handler@));
    out
}

/// The id of an operation.
pub fn operation_id(path: &str, method: &str, handler: &str) -> (r: String)
    ensures
        r@ == operation_name(path@, method@, handler@),
{
    let chars = chars_of(path);
    let from: usize = if chars.len() > 0 && chars[0] == '/' {
        1
    } else {
        0
    };
    assert(path@.skip(0) =~= path@);
    assert(path@.subrange(from as int, path@.len() as int) =~= path@.skip(from as int));
    let rest = string_of(&sub_chars(&chars, from, chars.len()));
    let mut words: Vec<String> = Vec::new();
    if from < chars.len() {
        words = split_str(&rest, '/');
    }
    assert(views(words@) =~= path_words(path@));
    let mut ids: Vec<String> = Vec::new();
    let mut i: usize = 0;
    while i < words.len()
        invariant
            i <= words@.len(),
            ids@.len() == i,
            forall|k: int| 0 <= k < i ==> (#[trigger] ids@[k])@ == path_id(words@[k]@),
        decreases words.len() - i,
    {
        ids.push(sanitize(&words[i]));
        i = i + 1;
    }
    ids.push(with_border(handler));
    ids.push(method.to_owned());
    proof {
        let parts = path_words(path@).map_values(|w: Seq<char>| path_id(w));
        assert forall|k: int| 0 <= k < words@.len() implies path_words(path@)[k] == (
        #[trigger] words@[k])@ by {
            assert(views(words@)[k] == words@[k]@);
        }
        assert(views(ids@) =~= parts.push(bordered(handler@)).push(method@));
    }
    join_strings(&ids, "_")
}

// ---------------------------------------------------------------------------
// Parameters and bodies
// ---------------------------------------------------------------------------

/// The schema of a type, without a default.
pub open spec fn base_members(ty: ParamType) -> Map<Seq<char>, JsonTree> {
    match ty {
        ParamType::String => map!["type"@ => JsonTree::Str("string"@)],
        ParamType::Int => map![
            "type"@ => JsonTree::Str("integer"@),
            "format"@ => JsonTree::Str("int64"@)
        ],
        ParamType::U64 => map![
            "type"@ => JsonTree::Str("integer"@),
            "format"@ => JsonTree::Str("int64"@),
            "minimum"@ => JsonTree::Int(0)
        ],
        ParamType::U32 => map![
            "type"@ => JsonTree::Str("integer"@),
            "format"@ => JsonTree::Str("int32"@),
            "minimum"@ => JsonTree::Int(0)
        ],
        ParamType::F64 => map!["type"@ => JsonTree::Str("number"@)],
        ParamType::Bool => map!["type"@ => JsonTree::Str("boolean"@)],
        ParamType::StringArray => map![
            "type"@ => JsonTree::Str("array"@),
            "items"@ => JsonTree::Object(map!["type"@ => JsonTree::Str("string"@)])
        ],
        ParamType::Json => no_members(),
        ParamType::Bytes => map![
            "type"@ => JsonTree::Str("string"@),
            "format"@ => JsonTree::Str("binary"@)
        ],
    }
}

/// A default, in JSON.
pub open spec fn default_tree(d: ParamDefault) -> JsonTree {
    match d {
        ParamDefault::String(s) => JsonTree::Str(s@),
        ParamDefault::Int(n) => JsonTree::Int(n as int),
        ParamDefault::U64(n) => JsonTree::Int(n as int),
        ParamDefault::U32(n) => JsonTree::Int(n as int),
        ParamDefault::F64(n) => number_tree(n),
        ParamDefault::Bool(b) => JsonTree::Bool(b),
    }
}

/// The schema of a type, with the default where there is one.
pub open spec fn schema_tree(ty: ParamType, default: Option<ParamDefault>) -> JsonTree {
    match default {
        Some(d) => JsonTree::Object(base_members(ty).insert("default"@, default_tree(d))),
        None => JsonTree::Object(base_members(ty)),
    }
}

fn put_text(m: &mut serde_json::Map<String, serde_json::Value>, name: &str, text: &str)
    ensures
        json_members(*final(m)) == json_members(*old(m)).insert(name@, JsonTree::Str(text@)),
{
    map_insert(m, name.to_owned(), json_string(text.to_owned()));
}

fn put_bool(m: &mut serde_json::Map<String, serde_json::Value>, name: &str, b: bool)
    ensures
        json_members(*final(m)) == json_members(*old(m)).insert(name@, JsonTree::Bool(b)),
{
    map_insert(m, name.to_owned(), json_bool(b));
}

fn base_schema(ty: ParamType) -> (r: serde_json::Map<String, serde_json::Value>)
    ensures
        json_members(r) == base_members(ty),
{
    let mut m = map_new();
    match ty {
        ParamType::String => {
            put_text(&mut m, "type", "string");
        },
        ParamType::Int => {
            put_text(&mut m, "type", "integer");
            put_text(&mut m, "format", "int64");
        },
        ParamType::U64 => {
            put_text(&mut m, "type", "integer");
            put_text(&mut m, "format", "int64");
            map_insert(&mut m, "minimum".to_owned(), json_u64(0));
        },
        ParamType::U32 => {
            put_text(&mut m, "type", "integer");
            put_text(&mut m, "format", "int32");
            map_insert(&mut m, "minimum".to_owned(), json_u64(0));
        },
        ParamType::F64 => {
            put_text(&mut m, "type", "number");
        },
        ParamType::Bool => {
            put_text(&mut m, "type", "boolean");
        },
        ParamType::StringArray => {
            put_text(&mut m, "type", "array");
            let mut items = map_new();
            put_text(&mut items, "type", "string");
            map_insert(&mut m, "items".to_owned(), json_object(items));
        },
        ParamType::Json => {},
        ParamType::Bytes => {
            put_text(&mut m, "type", "string");
            put_text(&mut m, "format", "binary");
        },
    }
    m
}

fn default_to_value(d: &ParamDefault) -> (r: serde_json::Value)
    ensures
        json_tree(r) == default_tree(*d),
{
    match d {
        ParamDefault::String(s) => json_string((*s).to_owned()),
        ParamDefault::Int(n) => json_i64(*n),
        ParamDefault::U64(n) => json_u64(*n),
        ParamDefault::U32(n) => json_u64(*n as u64),
        ParamDefault::F64(n) => json_number(number_clone(n)),
        ParamDefault::Bool(b) => json_bool(*b),
    }
}

fn schema_for(ty: ParamType, default: &Option<ParamDefault>) -> (r: serde_json::Value)
    ensures
        json_tree(r) == schema_tree(ty, *default),
{
    let mut m = base_schema(ty);
    if let Some(d) = default {
        map_insert(&mut m, "default".to_owned(), default_to_value(d));
    }
    json_object(m)
}

/// What is said of a parameter that takes the rest of the path.
pub open spec fn rest_note() -> Seq<char> {
    "Captures the trailing path (slashes included). Not natively representable in OpenAPI path templating; treated as a single segment here."@
}

/// Whether a parameter takes the rest of the path.
pub open spec fn is_rest_param(pattern: Seq<char>, p: ParamDef) -> bool {
    p.ty == ParamType::String && contains_text(pattern, "{..."@ + p.name@ + "}"@)
}

/// A parameter of the path.
pub open spec fn path_param(pattern: Seq<char>, p: ParamDef) -> JsonTree {
    let plain = map![
        "name"@ => JsonTree::Str(p.name@),
        "in"@ => JsonTree::Str("path"@),
        "required"@ => JsonTree::Bool(true),
        "schema"@ => schema_tree(p.ty, p.default)
    ];
    if is_rest_param(pattern, p) {
        JsonTree::Object(
            plain.insert("x-actus-rest-param"@, JsonTree::Bool(true)).insert(
                "description"@,
                JsonTree::Str(rest_note()),
            ),
        )
    } else {
        JsonTree::Object(plain)
    }
}

/// A parameter of the query. It is required where it has no default, unless it
/// is a list, which may be empty.
pub open spec fn query_param(p: ParamDef) -> JsonTree {
    JsonTree::Object(
        map![
            "name"@ => JsonTree::Str(p.name@),
            "in"@ => JsonTree::Str("query"@),
            "required"@ => JsonTree::Bool(p.ty != ParamType::StringArray && p.default is None),
            "schema"@ => schema_tree(p.ty, p.default)
        ],
    )
}

/// The parameters of the path and the query, in order.
pub open spec fn parameter_trees(pattern: Seq<char>, params: Seq<ParamDef>) -> Seq<JsonTree>
    decreases params.len(),
{
    if params.len() == 0 {
        Seq::empty()
    } else {
        let before = parameter_trees(pattern, params.drop_last());
        let p = params.last();
        match p.source {
            ParamSource::Path => before.push(path_param(pattern, p)),
            ParamSource::Query => before.push(query_param(p)),
            ParamSource::Body => before,
        }
    }
}

/// The body that a parameter asks for.
pub open spec fn body_tree(p: ParamDef) -> Option<JsonTree> {
    if p.source != ParamSource::Body {
        None
    } else {
        match p.ty {
            ParamType::Json => Some(content_tree("application/json"@, p.ty)),
            ParamType::Bytes => Some(content_tree("application/octet-stream"@, p.ty)),
            _ => None,
        }
    }
}

/// A body of one type.
pub open spec fn content_tree(content_type: Seq<char>, ty: ParamType) -> JsonTree {
    let media = JsonTree::Object(map!["schema"@ => JsonTree::Object(base_members(ty))]);
    JsonTree::Object(
        map![
            "required"@ => JsonTree::Bool(true),
            "content"@ => JsonTree::Object(map![content_type => media])
        ],
    )
}

/// The body that a route asks for: that of the last parameter which asks for
/// one.
pub open spec fn request_body(params: Seq<ParamDef>) -> Option<JsonTree>
    decreases params.len(),
{
    if params.len() == 0 {
        None
    } else if body_tree(params.last()) is Some {
        body_tree(params.last())
    } else {
        request_body(params.drop_last())
    }
}

fn path_entry(pattern: &str, p: &ParamDef) -> (r: serde_json::Value)
    ensures
        json_tree(r) == path_param(pattern@, *p),
{
    let mut entry = map_new();
    put_text(&mut entry, "name", p.name);
    put_text(&mut entry, "in", "path");
    put_bool(&mut entry, "required", true);
    map_insert(&mut entry, "schema".to_owned(), schema_for(p.ty, &p.default));
    let mut mark = "{...".to_owned();
    push_text(&mut mark, p.name);
    push_text(&mut mark, "}");
    if p.ty == ParamType::String && str_contains(pattern, &mark) {
        put_bool(&mut entry, "x-actus-rest-param", true);
        put_text(
            &mut entry,
            "description",
            "Captures the trailing path (slashes included). Not natively representable in OpenAPI path templating; treated as a single segment here.",
        );
    }
    json_object(entry)
}

fn query_entry(p: &ParamDef) -> (r: serde_json::Value)
    ensures
        json_tree(r) == query_param(*p),
{
    let mut entry = map_new();
    put_text(&mut entry, "name", p.name);
    put_text(&mut entry, "in", "query");
    put_bool(&mut entry, "required", p.ty != ParamType::StringArray && p.default.is_none());
    map_insert(&mut entry, "schema".to_owned(), schema_for(p.ty, &p.default));
    json_object(entry)
}

fn body_entry(content_type: &str, ty: ParamType) -> (r: serde_json::Value)
    ensures
        json_tree(r) == content_tree(content_type@, ty),
{
    let mut media = map_new();
    map_insert(&mut media, "schema".to_owned(), json_object(base_schema(ty)));
    let mut content = map_new();
    map_insert(&mut content, content_type.to_owned(), json_object(media));
    let mut body = map_new();
    put_bool(&mut body, "required", true);
    map_insert(&mut body, "content".to_owned(), json_object(content));
    json_object(body)
}

fn split_params(route: &RouteDef) -> (r: (Vec<serde_json::Value>, Option<serde_json::Value>))
    ensures
        json_trees(r.0@) == parameter_trees(route.pattern@, route.params@),
        json_option(r.1) == request_body(route.params@),
{
    let mut params: Vec<serde_json::Value> = Vec::new();
    let mut body: Option<serde_json::Value> = None;
    let mut i: usize = 0;
    let all = route.params;
    assert(all@.take(0) =~= Seq::<ParamDef>::empty());
    assert(json_trees(params@) =~= Seq::<JsonTree>::empty());
    while i < all.len()
        invariant
            all@ == route.params@,
            i <= all@.len(),
            json_trees(params@) == parameter_trees(route.pattern@, all@.take(i as int)),
            json_option(body) == request_body(all@.take(i as int)),
        decreases all.len() - i,
    {
        let p = &all[i];
        let ghost before = params@;
        assert(all@.take(i + 1).drop_last() =~= all@.take(i as int));
        assert(all@.take(i + 1).last() == *p);
        match p.source {
            ParamSource::Path => {
                params.push(path_entry(route.pattern, p));
                assert(json_trees(params@) =~= json_trees(before).push(
                    path_param(route.pattern@, *p),
                ));
            },
            ParamSource::Query => {
                params.push(query_entry(p));
                assert(json_trees(params@) =~= json_trees(before).push(query_param(*p)));
            },
            ParamSource::Body => {
                if p.ty == ParamType::Json {
                    body = Some(body_entry("application/json", ParamType::Json));
                } else if p.ty == ParamType::Bytes {
                    body = Some(body_entry("application/octet-stream", ParamType::Bytes));
                }
            },
        }
        i = i + 1;
    }
    assert(all@.take(all@.len() as int) =~= all@);
    (params, body)
}

// ---------------------------------------------------------------------------
// Operations
// ---------------------------------------------------------------------------

/// The summary of a documentation: its first line.
pub open spec fn summary_of(doc: Seq<char>) -> Seq<char> {
    trim(split(doc, '\n')[0])
}

/// What the documentation of a handler adds to its operation.
pub open spec fn documented(
    members: Map<Seq<char>, JsonTree>,
    doc: Option<&str>,
) -> Map<Seq<char>, JsonTree> {
    match doc {
        Some(doc) => if trim(doc@).len() == 0 {
            members
        } else {
            members.insert("summary"@, JsonTree::Str(summary_of(trim(doc@)))).insert(
                "description"@,
                JsonTree::Str(trim(doc@)),
            )
        },
        None => members,
    }
}

/// What the parameters of a route add to its operation.
pub open spec fn parametrized(
    members: Map<Seq<char>, JsonTree>,
    pattern: Seq<char>,
    params: Seq<ParamDef>,
) -> Map<Seq<char>, JsonTree> {
    let list = parameter_trees(pattern, params);
    let listed = if list.len() == 0 {
        members
    } else {
        members.insert("parameters"@, JsonTree::Array(list))
    };
    match request_body(params) {
        Some(body) => listed.insert("requestBody"@, body),
        None => listed,
    }
}

/// The responses of an operation: nothing is known of them.
pub open spec fn any_response() -> JsonTree {
    JsonTree::Object(
        map![
            "default"@ => JsonTree::Object(
                map!["description"@ => JsonTree::Str("Response from the handler."@)],
            )
        ],
    )
}

/// The operation of a route on one method.
pub open spec fn operation_tree(path: Seq<char>, method: Seq<char>, route: RouteDef) -> JsonTree {
    let id = map!["operationId"@ => JsonTree::Str(operation_name(path, method, route.handler@))];
    JsonTree::Object(
        parametrized(documented(id, route.doc), route.pattern@, route.params@).insert(
            "responses"@,
            any_response(),
        ),
    )
}

fn build_operation(path: &str, method: &str, route: &RouteDef) -> (r: serde_json::Value)
    ensures
        json_tree(r) == operation_tree(path@, method@, *route),
{
    let mut op = map_new();
    put_text(&mut op, "operationId", &operation_id(path, method, route.handler));
    if let Some(doc) = route.doc {
        let trimmed = trim_str(doc);
        if trimmed.as_str().unicode_len() > 0 {
            let lines = split_str(&trimmed, '\n');
            proof {
                lemma_split_non_empty(trimmed@, '\n');
                assert(lines@[0]@ == views(lines@)[0]);
            }
            put_text(&mut op, "summary", &trim_str(&lines[0]));
            put_text(&mut op, "description", &trimmed);
        }
    }
    let (parameters, body) = split_params(route);
    assert(json_trees(parameters@).len() == parameters@.len());
    if parameters.len() > 0 {
        map_insert(&mut op, "parameters".to_owned(), json_array(parameters));
    }
    if let Some(b) = body {
        map_insert(&mut op, "requestBody".to_owned(), b);
    }
    let mut default = map_new();
    put_text(&mut default, "description", "Response from the handler.");
    let mut responses = map_new();
    map_insert(&mut responses, "default".to_owned(), json_object(default));
    map_insert(&mut op, "responses".to_owned(), json_object(responses));
    json_object(op)
}

// ---------------------------------------------------------------------------
// Documents
// ---------------------------------------------------------------------------

/// What a document says of the interface as a whole.
#[derive(Clone, Debug)]
pub struct Options {
    /// The title.
    pub title: String,
    /// The version.
    pub version: String,
    /// A description.
    pub description: Option<String>,
    /// Where the interface is served.
    pub servers: Vec<ServerInfo>,
}

/// One place where the interface is served.
#[derive(Clone, Debug)]
pub struct ServerInfo {
    /// The address that the paths are relative to.
    pub url: String,
    /// A description.
    pub description: Option<String>,
}

impl Options {
    /// Options with a title and a version.
    pub fn new(title: &str, version: &str) -> (r: Self)
        ensures
            r.title@ == title@,
            r.version@ == version@,
            r.description is None,
            r.servers@.len() == 0,
    {
        Options {
            title: title.to_owned(),
            version: version.to_owned(),
            description: None,
            servers: Vec::new(),
        }
    }

    /// Sets the description.
    pub fn description(self, description: &str) -> (r: Self)
        ensures
            r.title == self.title,
            r.version == self.version,
            text_option(r.description) == Some(description@),
            r.servers == self.servers,
    {
        let mut out = self;
        out.description = Some(description.to_owned());
        out
    }

    /// Adds a place where the interface is served.
    pub fn server(self, url: &str, description: Option<&str>) -> (r: Self)
        ensures
            r.title == self.title,
            r.version == self.version,
            r.description == self.description,
            r.servers@.len() == self.servers@.len() + 1,
            r.servers@.drop_last() == self.servers@,
            r.servers@.last().url@ == url@,
            text_option(r.servers@.last().description) == str_option(description),
    {
        let mut out = self;
        let description = match description {
            Some(text) => Some(text.to_owned()),
            None => None,
        };
        out.servers.push(ServerInfo { url: url.to_owned(), description });
        assert(out.servers@.drop_last() =~= self.servers@);
        out
    }
}

/// What a description adds to an object.
pub open spec fn described(
    members: Map<Seq<char>, JsonTree>,
    description: Option<String>,
) -> Map<Seq<char>, JsonTree> {
    match description {
        Some(text) => members.insert("description"@, JsonTree::Str(text@)),
        None => members,
    }
}

/// One place where the interface is served, in JSON.
pub open spec fn server_tree(server: ServerInfo) -> JsonTree {
    JsonTree::Object(
        described(map!["url"@ => JsonTree::Str(server.url@)], server.description),
    )
}

/// The operations on one path, by method.
pub type Operations = Map<Seq<char>, JsonTree>;

/// The operations on a path with those of the first `n` verbs of a route.
pub open spec fn with_verbs(ops: Operations, path: Seq<char>, route: RouteDef, n: nat) -> Operations
    decreases n,
{
    if n == 0 {
        ops
    } else {
        let method = method_name(route.verb@[n - 1]);
        with_verbs(ops, path, route, (n - 1) as nat).insert(
            method,
            operation_tree(path, method, route),
        )
    }
}

/// The path of a route in a document.
pub open spec fn row_path(row: (Seq<char>, RouteDef)) -> Seq<char> {
    composed_path(row.0, row.1.pattern@)
}

/// The operations that are listed under a path so far.
pub open spec fn listed_at(items: Map<Seq<char>, Operations>, path: Seq<char>) -> Operations {
    if items.contains_key(path) {
        items[path]
    } else {
        Map::empty()
    }
}

/// The operations of the routes that are kept, by path. Where two routes give
/// one operation, the later one counts.
pub open spec fn path_items(rows: Seq<(Seq<char>, RouteDef)>, kept: Seq<bool>) -> Map<
    Seq<char>,
    Operations,
>
    decreases rows.len(),
{
    if rows.len() == 0 {
        Map::empty()
    } else {
        let before = path_items(rows.drop_last(), kept.drop_last());
        if kept.last() {
            let path = row_path(rows.last());
            let route = rows.last().1;
            before.insert(
                path,
                with_verbs(listed_at(before, path), path, route, route.verb@.len()),
            )
        } else {
            before
        }
    }
}

/// Operations by path, in JSON.
pub open spec fn items_members(items: Map<Seq<char>, Operations>) -> Map<Seq<char>, JsonTree> {
    items.map_values(|ops: Operations| JsonTree::Object(ops))
}

/// The document of some options and operations.
pub open spec fn document(options: Options, items: Map<Seq<char>, Operations>) -> JsonTree {
    let info = described(
        map![
            "title"@ => JsonTree::Str(options.title@),
            "version"@ => JsonTree::Str(options.version@)
        ],
        options.description,
    );
    let head = map!["openapi"@ => JsonTree::Str("3.1.0"@), "info"@ => JsonTree::Object(info)];
    let served = if options.servers@.len() == 0 {
        head
    } else {
        head.insert(
            "servers"@,
            JsonTree::Array(options.servers@.map_values(|s: ServerInfo| server_tree(s))),
        )
    };
    JsonTree::Object(served.insert("paths"@, JsonTree::Object(items_members(items))))
}

/// Whether a predicate says `kept` of a mount.
pub open spec fn says<F: Fn(&str) -> bool>(filter: F, mount: Seq<char>, kept: bool) -> bool {
    exists|s: &str| s@ == mount && #[trigger] call_ensures(filter, (s,), kept)
}

/// Whether `kept` is what a predicate says of each route's mount.
pub open spec fn selects<F: Fn(&str) -> bool>(
    filter: F,
    rows: Seq<(Seq<char>, RouteDef)>,
    kept: Seq<bool>,
) -> bool {
    &&& kept.len() == rows.len()
    &&& forall|i: int| 0 <= i < rows.len() ==> says(filter, (#[trigger] rows[i]).0, kept[i])
}

fn put_operations(
    entry: &mut serde_json::Map<String, serde_json::Value>,
    path: &str,
    route: &RouteDef,
)
    ensures
        json_members(*final(entry)) == with_verbs(
            json_members(*old(entry)),
            path@,
            *route,
            route.verb@.len(),
        ),
{
    let ghost before = json_members(*entry);
    let verbs = route.verb;
    let mut i: usize = 0;
    while i < verbs.len()
        invariant
            verbs@ == route.verb@,
            i <= verbs@.len(),
            json_members(*entry) == with_verbs(before, path@, *route, i as nat),
        decreases verbs.len() - i,
    {
        let method = verb_method(&verbs[i]);
        map_insert(entry, method.to_owned(), build_operation(path, method, route));
        i = i + 1;
    }
}

fn server_entry(server: &ServerInfo) -> (r: serde_json::Value)
    ensures
        json_tree(r) == server_tree(*server),
{
    let mut m = map_new();
    put_text(&mut m, "url", &server.url);
    if let Some(text) = &server.description {
        put_text(&mut m, "description", text);
    }
    json_object(m)
}

fn server_list(servers: &[ServerInfo]) -> (r: serde_json::Value)
    ensures
        json_tree(r) == JsonTree::Array(servers@.map_values(|s: ServerInfo| server_tree(s))),
{
    let mut out: Vec<serde_json::Value> = Vec::new();
    let mut i: usize = 0;
    while i < servers.len()
        invariant
            i <= servers@.len(),
            out@.len() == i,
            forall|k: int| 0 <= k < i ==> json_tree(#[trigger] out@[k]) == server_tree(servers@[k]),
        decreases servers.len() - i,
    {
        out.push(server_entry(&servers[i]));
        i = i + 1;
    }
    assert(json_trees(out@) =~= servers@.map_values(|s: ServerInfo| server_tree(s)));
    json_array(out)
}

/// The document of a router's routes. A route is in it if `filter` holds of
/// the path of its mount, which has no slash in front or behind.
pub fn generate<C, F: Fn(&str) -> bool>(
    router: &Router<C>,
    options: &Options,
    filter: F,
) -> (r: serde_json::Value)
    requires
        forall|s: &str| #[trigger] call_requires(filter, (s,)),
    ensures
        lists_mounts(router.mount_order(), router@),
        exists|kept: Seq<bool>|
            {
                &&& #[trigger] selects(filter, route_rows(router.mount_order(), router@), kept)
                &&& json_tree(r) == document(
                    *options,
                    path_items(route_rows(router.mount_order(), router@), kept),
                )
            },
{
    let mut paths = map_new();
    let routes = router.routes();
    let ghost rows = route_row_views(routes@);
    let ghost mut kept: Seq<bool> = Seq::empty();
    let mut i: usize = 0;
    proof {
        assert(rows.take(0) =~= Seq::<(Seq<char>, RouteDef)>::empty());
        assert(no_members() =~= items_members(path_items(rows.take(0), kept)));
    }
    while i < routes.len()
        invariant
            rows == route_row_views(routes@),
            i <= routes@.len(),
            forall|s: &str| #[trigger] call_requires(filter, (s,)),
            kept.len() == i,
            forall|k: int| 0 <= k < i ==> says(filter, (#[trigger] rows[k]).0, kept[k]),
            json_members(paths) == items_members(path_items(rows.take(i as int), kept)),
        decreases routes.len() - i,
    {
        let mount = routes[i].0.as_str();
        let route = &routes[i].1;
        let keep = filter(mount);
        let ghost items = path_items(rows.take(i as int), kept);
        proof {
            assert(says(filter, mount@, keep));
            assert(rows[i as int] == (mount@, *route));
            assert(rows.take(i + 1).drop_last() =~= rows.take(i as int));
            assert(kept.push(keep).drop_last() =~= kept);
            kept = kept.push(keep);
        }
        if keep {
            let path = compose_path(mount, route.pattern);
            let found = map_remove(&mut paths, &path);
            let mut entry = match found {
                Some(v) => match object_members(v) {
                    Some(m) => m,
                    None => map_new(),
                },
                None => map_new(),
            };
            assert(json_members(entry) =~= listed_at(items, path@));
            put_operations(&mut entry, &path, route);
            let ghost ops = json_members(entry);
            map_insert(&mut paths, path, json_object(entry));
            assert(items_members(items).remove(path@).insert(path@, JsonTree::Object(ops))
                =~= items_members(items.insert(path@, ops)));
        }
        i = i + 1;
    }
    assert(rows.take(rows.len() as int) =~= rows);
    assert(selects(filter, rows, kept));
    let mut info = map_new();
    put_text(&mut info, "title", &options.title);
    put_text(&mut info, "version", &options.version);
    if let Some(text) = &options.description {
        put_text(&mut info, "description", text);
    }
    let mut spec_members = map_new();
    put_text(&mut spec_members, "openapi", "3.1.0");
    map_insert(&mut spec_members, "info".to_owned(), json_object(info));
    if options.servers.len() > 0 {
        map_insert(&mut spec_members, "servers".to_owned(), server_list(&options.servers));
    }
    map_insert(&mut spec_members, "paths".to_owned(), json_object(paths));
    json_object(spec_members)
}

/// A document as text, indented.
pub fn to_string_pretty(value: &serde_json::Value) -> (r: String)
    ensures
        r@ == json_pretty(json_tree(*value)),
{
    json_to_pretty(value)
}

// ---------------------------------------------------------------------------
// Laws
// ---------------------------------------------------------------------------

/// Whether a route takes a method.
pub open spec fn offers(route: RouteDef, method: Seq<char>) -> bool {
    exists|j: int| 0 <= j < route.verb@.len() && #[trigger] method_name(route.verb@[j]) == method
}

/// Whether a route is kept, lies at a path, and takes a method.
pub open spec fn gives(
    rows: Seq<(Seq<char>, RouteDef)>,
    kept: Seq<bool>,
    i: int,
    path: Seq<char>,
    method: Seq<char>,
) -> bool {
    kept[i] && row_path(rows[i]) == path && offers(rows[i].1, method)
}

proof fn lemma_with_verbs(
    ops: Operations,
    path: Seq<char>,
    route: RouteDef,
    n: nat,
    method: Seq<char>,
)
    requires
        n <= route.verb@.len(),
    ensures
        with_verbs(ops, path, route, n).contains_key(method) <==> (ops.contains_key(method)
            || exists|j: int| 0 <= j < n && #[trigger] method_name(route.verb@[j]) == method),
        (exists|j: int| 0 <= j < n && #[trigger] method_name(route.verb@[j]) == method)
            ==> with_verbs(ops, path, route, n)[method] == operation_tree(path, method, route),
        !(exists|j: int| 0 <= j < n && #[trigger] method_name(route.verb@[j]) == method)
            ==> with_verbs(ops, path, route, n)[method] == ops[method],
    decreases n,
{
    if n > 0 {
        lemma_with_verbs(ops, path, route, (n - 1) as nat, method);
        let last = method_name(route.verb@[n - 1]);
    }
}

/// A document lists what was kept: a path is in it if and only if a route that
/// is kept lies there, and a method under that path if and only if such a
/// route takes it.
pub proof fn law_documents_list_kept_routes(
    rows: Seq<(Seq<char>, RouteDef)>,
    kept: Seq<bool>,
    path: Seq<char>,
    method: Seq<char>,
)
    requires
        kept.len() == rows.len(),
    ensures
        path_items(rows, kept).contains_key(path) <==> exists|i: int|
            0 <= i < rows.len() && kept[i] && #[trigger] row_path(rows[i]) == path,
        listed_at(path_items(rows, kept), path).contains_key(method) <==> exists|i: int|
            0 <= i < rows.len() && #[trigger] gives(rows, kept, i, path, method),
    decreases rows.len(),
{
    if rows.len() > 0 {
        let n = rows.len() - 1;
        let front = rows.drop_last();
        let front_kept = kept.drop_last();
        law_documents_list_kept_routes(front, front_kept, path, method);
        let before = path_items(front, front_kept);
        let route = rows[n].1;
        lemma_with_verbs(listed_at(before, path), path, route, route.verb@.len(), method);
        assert forall|i: int| 0 <= i < front.len() implies front[i] == rows[i] && front_kept[i]
            == kept[i] && gives(front, front_kept, i, path, method) == #[trigger] gives(
            rows,
            kept,
            i,
            path,
            method,
        ) by {}
        if exists|i: int| 0 <= i < front.len() && front_kept[i] && #[trigger] row_path(front[i]) == path {
            let i = choose|i: int|
                0 <= i < front.len() && front_kept[i] && #[trigger] row_path(front[i]) == path;
            assert(row_path(rows[i]) == path);
        }
        if exists|i: int|
            0 <= i < rows.len() && kept[i] && #[trigger] row_path(rows[i]) == path {
            let i = choose|i: int|
                0 <= i < rows.len() && kept[i] && #[trigger] row_path(rows[i]) == path;
            if i < n {
                assert(row_path(front[i]) == path);
            }
        }
        if exists|i: int| 0 <= i < front.len() && #[trigger] gives(front, front_kept, i, path, method) {
            let i = choose|i: int|
                0 <= i < front.len() && #[trigger] gives(front, front_kept, i, path, method);
            assert(gives(rows, kept, i, path, method));
        }
        if exists|i: int| 0 <= i < rows.len() && #[trigger] gives(rows, kept, i, path, method) {
            let i = choose|i: int| 0 <= i < rows.len() && #[trigger] gives(rows, kept, i, path, method);
            if i < n {
                assert(gives(front, front_kept, i, path, method));
            }
        }
        assert(gives(rows, kept, n, path, method) == (kept.last() && row_path(rows.last()) == path
            && offers(rows.last().1, method)));
    }
}

/// Of several routes that give one operation, the document has the last.
pub proof fn law_the_last_route_counts(
    rows: Seq<(Seq<char>, RouteDef)>,
    kept: Seq<bool>,
    i: int,
    path: Seq<char>,
    method: Seq<char>,
)
    requires
        kept.len() == rows.len(),
        0 <= i < rows.len(),
        gives(rows, kept, i, path, method),
        forall|k: int| i < k < rows.len() ==> !#[trigger] gives(rows, kept, k, path, method),
    ensures
        path_items(rows, kept)[path][method] == operation_tree(path, method, rows[i].1),
    decreases rows.len(),
{
    let n = rows.len() - 1;
    let front = rows.drop_last();
    let front_kept = kept.drop_last();
    let before = path_items(front, front_kept);
    let route = rows[n].1;
    lemma_with_verbs(listed_at(before, path), path, route, route.verb@.len(), method);
    if i < n {
        assert(gives(front, front_kept, i, path, method));
        assert forall|k: int| i < k < front.len() implies !#[trigger] gives(
            front,
            front_kept,
            k,
            path,
            method,
        ) by {
            assert(gives(rows, kept, k, path, method) == gives(front, front_kept, k, path, method));
        }
        law_the_last_route_counts(front, front_kept, i, path, method);
        law_documents_list_kept_routes(front, front_kept, path, method);
        assert(!gives(rows, kept, n, path, method));
    }
}

proof fn lemma_id_word(a: Seq<char>, b: Seq<char>)
    ensures
        !id_word(a).contains('_'),
        id_word(a) == id_word(b) ==> a == b,
    decreases a.len(),
{
    let x = id_word(a);
    let y = id_word(b);
    if a.len() > 0 {
        lemma_id_word(a.skip(1), b.skip(1));
        let code = id_char(a[0]);
        assert forall|i: int| 0 <= i < x.len() implies x[i] != '_' by {
            if i >= code.len() {
                let rest = id_word(a.skip(1));
                assert(rest.contains(rest[i - code.len()]));
            }
        }
    }
    if x == y {
        if a.len() == 0 || b.len() == 0 {
            assert(a.len() > 0 ==> x.len() >= id_char(a[0]).len());
            assert(b.len() > 0 ==> y.len() >= id_char(b[0]).len());
            assert(a =~= b);
        } else {
            let p = id_char(a[0]);
            let q = id_char(b[0]);
            assert(x[0] == p[0] && y[0] == q[0]);
            assert(p.len() == 2 ==> x[1] == p[1]);
            assert(q.len() == 2 ==> y[1] == q[1]);
            assert(p =~= q);
            assert(a[0] == b[0]);
            assert(x.skip(p.len() as int) =~= id_word(a.skip(1)));
            assert(y.skip(q.len() as int) =~= id_word(b.skip(1)));
            assert(a =~= seq![a[0]] + a.skip(1));
            assert(b =~= seq![b[0]] + b.skip(1));
        }
    }
}

proof fn lemma_path_words(a: Seq<char>, b: Seq<char>)
    requires
        starts_with(a, "/"@),
        starts_with(b, "/"@),
        path_words(a) == path_words(b),
    ensures
        a == b,
{
    reveal_strlit("/");
    assert(a.take(1)[0] == a[0] && b.take(1)[0] == b[0]);
    lemma_split_non_empty(a.skip(1), '/');
    lemma_split_non_empty(b.skip(1), '/');
    law_join_of_split(a.skip(1), '/');
    law_join_of_split(b.skip(1), '/');
    assert(a =~= seq!['/'] + a.skip(1));
    assert(b =~= seq!['/'] + b.skip(1));
    if a.skip(1).len() == 0 || b.skip(1).len() == 0 {
        assert(a.skip(1) =~= b.skip(1));
    }
}

proof fn lemma_path_id(a: Seq<char>, b: Seq<char>)
    ensures
        path_id(a).len() > 0,
        !path_id(a).contains('_'),
        path_id(a) == path_id(b) ==> a == b,
{
    lemma_id_word(a, b);
    assert(a.len() > 0 ==> id_word(a)[0] == id_char(a[0])[0] && id_word(a).len() >= id_char(
        a[0],
    ).len());
    assert(b.len() > 0 ==> id_word(b)[0] == id_char(b[0])[0] && id_word(b).len() >= id_char(
        b[0],
    ).len());
    if path_id(a) == path_id(b) && (a.len() == 0 || b.len() == 0) {
        assert(path_id(a)[0] == '!' && path_id(a).len() == 1);
        assert(a =~= b);
    }
}

proof fn lemma_bordered(handler: Seq<char>)
    ensures
        handler.contains('_') ==> split(bordered(handler), '_') == seq![Seq::<char>::empty()]
            + split(handler, '_') && split(handler, '_').len() >= 2,
        !handler.contains('_') ==> split(bordered(handler), '_') == seq![handler],
{
    let parts = split(handler, '_');
    if handler.contains('_') {
        let none = Seq::<char>::empty();
        lemma_split_concat(none, handler, '_');
        lemma_split_without(none, '_');
        assert(none.push('_') + handler =~= seq!['_'] + handler);
        lemma_split_pieces(handler, '_');
        law_join_of_split(handler, '_');
        if parts.len() == 1 {
            assert(!parts[0].contains('_'));
        }
    } else {
        lemma_split_without(handler, '_');
    }
}

/// What stands between the underscores of an id.
proof fn lemma_id_parts(path: Seq<char>, method: Seq<char>, handler: Seq<char>)
    requires
        !method.contains('_'),
    ensures
        split(operation_name(path, method, handler), '_') == (path_words(path).map_values(
            |w: Seq<char>| path_id(w),
        ) + split(bordered(handler), '_')).push(method),
{
    reveal_strlit("_");
    let sep = "_"@;
    assert(sep =~= seq!['_']);
    let given = path_words(path);
    let words = given.map_values(|w: Seq<char>| path_id(w));
    let last = bordered(handler);
    let front = words.push(last);
    assert forall|i: int| 0 <= i < words.len() implies !(#[trigger] words[i]).contains('_') by {
        lemma_path_id(given[i], given[i]);
    }
    let start = join(front, sep);
    assert(front.drop_last() =~= words);
    if words.len() > 0 {
        law_split_of_join(words, '_');
        lemma_split_concat(join(words, sep), last, '_');
        assert(start =~= join(words, sep).push('_') + last);
    } else {
        assert(start == last);
        assert(words + split(last, '_') =~= split(last, '_'));
    }
    assert(split(start, '_') == words + split(last, '_'));
    lemma_split_concat(start, method, '_');
    lemma_split_without(method, '_');
    assert(front.push(method).drop_last() =~= front);
    assert(operation_name(path, method, handler) =~= start.push('_') + method);
    assert(split(start, '_') + seq![method] =~= split(start, '_').push(method));
}

/// An id tells its operation: operations with one id have one path, one method
/// and one handler. The names of methods hold no underscore.
pub proof fn law_ids_tell_operations_apart(
    path1: Seq<char>,
    method1: Seq<char>,
    handler1: Seq<char>,
    path2: Seq<char>,
    method2: Seq<char>,
    handler2: Seq<char>,
)
    requires
        starts_with(path1, "/"@),
        starts_with(path2, "/"@),
        !method1.contains('_'),
        !method2.contains('_'),
        operation_name(path1, method1, handler1) == operation_name(path2, method2, handler2),
    ensures
        path1 == path2,
        method1 == method2,
        handler1 == handler2,
{
    let a = path_words(path1);
    let b = path_words(path2);
    let x = a.map_values(|w: Seq<char>| path_id(w));
    let y = b.map_values(|w: Seq<char>| path_id(w));
    let s = split(bordered(handler1), '_');
    let t = split(bordered(handler2), '_');
    lemma_id_parts(path1, method1, handler1);
    lemma_id_parts(path2, method2, handler2);
    lemma_bordered(handler1);
    lemma_bordered(handler2);
    let one = (x + s).push(method1);
    let two = (y + t).push(method2);
    assert(one == two);
    assert(one.last() == method1 && two.last() == method2);
    assert(one.drop_last() =~= x + s);
    assert(two.drop_last() =~= y + t);
    let whole = x + s;
    assert(whole == y + t);
    assert forall|i: int| 0 <= i < x.len() implies (#[trigger] whole[i]).len() > 0 by {
        lemma_path_id(a[i], a[i]);
        assert(whole[i] == x[i]);
    }
    assert forall|i: int| 0 <= i < y.len() implies (#[trigger] whole[i]).len() > 0 by {
        lemma_path_id(b[i], b[i]);
        assert(whole[i] == y[i]);
    }
    assert(whole[x.len() as int] == s[0] && whole[y.len() as int] == t[0]);
    assert(x.len() == y.len());
    assert(x =~= whole.take(x.len() as int));
    assert(y =~= whole.take(x.len() as int));
    assert(s =~= whole.skip(x.len() as int));
    assert(t =~= whole.skip(x.len() as int));
    assert forall|i: int| 0 <= i < a.len() implies a[i] == b[i] by {
        assert(x[i] == path_id(a[i]) && y[i] == path_id(b[i]));
        lemma_path_id(a[i], b[i]);
    }
    assert(a =~= b);
    lemma_path_words(path1, path2);
    if handler1.contains('_') {
        law_join_of_split(handler1, '_');
        law_join_of_split(handler2, '_');
        assert(split(handler1, '_') =~= s.skip(1));
        assert(split(handler2, '_') =~= t.skip(1));
    } else {
        assert(s[0] == handler1 && t[0] == handler2);
    }
}

/// The id that an operation has in a document.
pub open spec fn id_in(items: Map<Seq<char>, Operations>, path: Seq<char>, method: Seq<char>) -> JsonTree {
    listed_at(items, path)[method]->Object_0["operationId"@]
}

spec fn id_for(id: JsonTree, path: Seq<char>, method: Seq<char>, handler: Seq<char>) -> bool {
    id == JsonTree::Str(operation_name(path, method, handler))
}

proof fn lemma_operation_id(path: Seq<char>, method: Seq<char>, route: RouteDef)
    ensures
        operation_tree(path, method, route)->Object_0["operationId"@] == JsonTree::Str(
            operation_name(path, method, route.handler@),
        ),
{
    reveal_strlit("operationId");
    reveal_strlit("summary");
    reveal_strlit("description");
    reveal_strlit("parameters");
    reveal_strlit("requestBody");
    reveal_strlit("responses");
    assert("operationId"@[0] == 'o' && "summary"@[0] == 's' && "description"@[0] == 'd'
        && "parameters"@[0] == 'p' && "requestBody"@[0] == 'r' && "responses"@[0] == 'r');
}

proof fn lemma_method_is_a_word(v: Verb)
    ensures
        !method_name(v).contains('_'),
{
    reveal_strlit("get");
    reveal_strlit("post");
    reveal_strlit("put");
    reveal_strlit("delete");
    reveal_strlit("patch");
    reveal_strlit("head");
    reveal_strlit("options");
}

proof fn lemma_listed_id(
    rows: Seq<(Seq<char>, RouteDef)>,
    kept: Seq<bool>,
    path: Seq<char>,
    method: Seq<char>,
)
    requires
        kept.len() == rows.len(),
        listed_at(path_items(rows, kept), path).contains_key(method),
    ensures
        starts_with(path, "/"@),
        !method.contains('_'),
        exists|handler: Seq<char>| #[trigger]
            id_for(id_in(path_items(rows, kept), path, method), path, method, handler),
    decreases rows.len(),
{
    if rows.len() > 0 {
        let front = rows.drop_last();
        let front_kept = kept.drop_last();
        let before = path_items(front, front_kept);
        let items = path_items(rows, kept);
        let route = rows.last().1;
        if kept.last() && row_path(rows.last()) == path {
            reveal_strlit("/");
            assert(path.take(1) =~= "/"@);
            lemma_with_verbs(listed_at(before, path), path, route, route.verb@.len(), method);
            if exists|j: int|
                0 <= j < route.verb@.len() && #[trigger] method_name(route.verb@[j]) == method {
                let j = choose|j: int|
                    0 <= j < route.verb@.len() && #[trigger] method_name(route.verb@[j]) == method;
                lemma_method_is_a_word(route.verb@[j]);
                lemma_operation_id(path, method, route);
                assert(id_for(id_in(items, path, method), path, method, route.handler@));
            } else {
                lemma_listed_id(front, front_kept, path, method);
                let handler = choose|handler: Seq<char>| #[trigger]
                    id_for(id_in(before, path, method), path, method, handler);
                assert(id_for(id_in(items, path, method), path, method, handler));
            }
        } else {
            assert(listed_at(items, path) == listed_at(before, path));
            lemma_listed_id(front, front_kept, path, method);
            let handler = choose|handler: Seq<char>| #[trigger]
                id_for(id_in(before, path, method), path, method, handler);
            assert(id_for(id_in(items, path, method), path, method, handler));
        }
    }
}

/// No two operations of a document have one id.
pub proof fn law_ids_are_unique_in_a_document(
    rows: Seq<(Seq<char>, RouteDef)>,
    kept: Seq<bool>,
    path1: Seq<char>,
    method1: Seq<char>,
    path2: Seq<char>,
    method2: Seq<char>,
)
    requires
        kept.len() == rows.len(),
        listed_at(path_items(rows, kept), path1).contains_key(method1),
        listed_at(path_items(rows, kept), path2).contains_key(method2),
        (path1, method1) != (path2, method2),
    ensures
        id_in(path_items(rows, kept), path1, method1) != id_in(
            path_items(rows, kept),
            path2,
            method2,
        ),
{
    let items = path_items(rows, kept);
    lemma_listed_id(rows, kept, path1, method1);
    lemma_listed_id(rows, kept, path2, method2);
    let h1 = choose|h: Seq<char>| #[trigger] id_for(id_in(items, path1, method1), path1, method1, h);
    let h2 = choose|h: Seq<char>| #[trigger] id_for(id_in(items, path2, method2), path2, method2, h);
    if operation_name(path1, method1, h1) == operation_name(path2, method2, h2) {
        law_ids_tell_operations_apart(path1, method1, h1, path2, method2, h2);
    }
}

proof fn lemma_trim_start_first(s: Seq<char>)
    ensures
        trim_start(s).len() > 0 ==> !is_space(trim_start(s)[0]),
    decreases s.len(),
{
    if s.len() > 0 && is_space(s[0]) {
        lemma_trim_start_first(s.skip(1));
    }
}

proof fn lemma_trim_end_keeps_first(s: Seq<char>)
    requires
        s.len() > 0,
        !is_space(s[0]),
    ensures
        trim_end(s).len() > 0,
        trim_end(s)[0] == s[0],
    decreases s.len(),
{
    if is_space(s.last()) {
        lemma_trim_end_keeps_first(s.drop_last());
    }
}

proof fn lemma_split_keeps_first(s: Seq<char>, sep: char)
    requires
        s.len() > 0,
        s[0] != sep,
    ensures
        split(s, sep)[0].len() > 0,
        split(s, sep)[0][0] == s[0],
    decreases s.len(),
{
    let t = s.drop_last();
    lemma_split_non_empty(t, sep);
    if t.len() > 0 {
        lemma_split_keeps_first(t, sep);
    } else {
        assert(t =~= Seq::<char>::empty());
        assert(split(t, sep) =~= seq![Seq::<char>::empty()]);
    }
}

/// The summary of a documentation that says anything is not blank.
pub proof fn law_summaries_are_not_blank(doc: Seq<char>)
    requires
        trim(doc).len() > 0,
    ensures
        summary_of(trim(doc)).len() > 0,
{
    let start = trim_start(doc);
    lemma_trim_start_first(doc);
    if start.len() == 0 {
        assert(trim(doc).len() == 0);
    }
    lemma_trim_end_keeps_first(start);
    let text = trim(doc);
    lemma_split_keeps_first(text, '\n');
    let line = split(text, '\n')[0];
    assert(trim_start(line) == line);
    lemma_trim_end_keeps_first(line);
}

/// A document marks a parameter of the query as required exactly where a
/// request without it is refused.
pub proof fn law_required_parameters_are_asked_for(
    p: ParamDef,
    route: RouteDef,
    action: Seq<char>,
    params: ParamsView,
)
    requires
        p.source == ParamSource::Query,
        route.params@ == seq![p],
        !params.query.contains_key(p.name@),
    ensures
        query_param(p) matches JsonTree::Object(m) && m.contains_key("required"@) && m["required"@]
            == JsonTree::Bool(extracted(route, action, params, ControllerMode::Lax) is Err),
        query_param(p) matches JsonTree::Object(m) && m["required"@] == JsonTree::Bool(
            is_missing(p, Map::empty()),
        ),
        query_param(p) matches JsonTree::Object(m) && m["required"@] == JsonTree::Bool(
            owed(p, Map::empty()),
        ),
{
    lemma_entry_names();
    law_what_a_route_refuses(route, action, params, ControllerMode::Lax);
    assert(route.params@[0] == p);
}

proof fn lemma_entry_names()
    ensures
        "x-actus-rest-param"@.len() == 18,
        "description"@.len() == 11,
        "name"@.len() == 4,
        "in"@.len() == 2,
        "required"@.len() == 8,
        "schema"@.len() == 6,
{
    reveal_strlit("name");
    reveal_strlit("in");
    reveal_strlit("required");
    reveal_strlit("schema");
    reveal_strlit("description");
    reveal_strlit("x-actus-rest-param");
}

/// Whether JSON describes a parameter: by its name, by where it is, path or
/// query, by whether it is required, and by its schema.
pub open spec fn describes(tree: JsonTree, p: ParamDef) -> bool {
    &&& tree matches JsonTree::Object(m)
    &&& m.contains_key("name"@) && m["name"@] == JsonTree::Str(p.name@)
    &&& m.contains_key("in"@) && m["in"@] == JsonTree::Str(
        if p.source == ParamSource::Path {
            "path"@
        } else {
            "query"@
        },
    )
    &&& m.contains_key("required"@) && m["required"@] == JsonTree::Bool(
        p.source == ParamSource::Path || owed(p, Map::empty()),
    )
    &&& m.contains_key("schema"@) && m["schema"@] == schema_tree(p.ty, p.default)
}

/// The parameters of the path and the query are described one by one, in the
/// order of their declaration; those of the body are not among them.
pub proof fn law_parameters_are_described(pattern: Seq<char>, params: Seq<ParamDef>)
    ensures
        ({
            let shown = params.filter(|p: ParamDef| p.source != ParamSource::Body);
            let list = parameter_trees(pattern, params);
            &&& list.len() == shown.len()
            &&& forall|i: int| 0 <= i < list.len() ==> describes(#[trigger] list[i], shown[i])
        }),
    decreases params.len(),
{
    reveal(Seq::filter);
    let other = |p: ParamDef| p.source != ParamSource::Body;
    let list = parameter_trees(pattern, params);
    let shown = params.filter(other);
    if params.len() > 0 {
        let front = params.drop_last();
        law_parameters_are_described(pattern, front);
        lemma_entry_names();
        let before = parameter_trees(pattern, front);
        assert forall|i: int| 0 <= i < list.len() implies describes(#[trigger] list[i], shown[i]) by {
            if i < before.len() {
                assert(list[i] == before[i]);
                assert(shown[i] == front.filter(other)[i]);
            } else {
                assert(shown[i] == params.last());
            }
        }
    }
}

/// A parameter of the path is marked as one that takes the rest of it exactly
/// where it is a text and the pattern has it behind three dots.
pub proof fn law_rest_parameters_are_marked(pattern: Seq<char>, p: ParamDef)
    ensures
        ({
            let mark = seq!['{', '.', '.', '.'] + p.name@ + seq!['}'];
            path_param(pattern, p) matches JsonTree::Object(m) && (m.contains_key(
                "x-actus-rest-param"@,
            ) <==> p.ty == ParamType::String && exists|a: Seq<char>, b: Seq<char>|
                pattern == #[trigger] ((a + mark) + b))
        }),
        path_param(pattern, p) matches JsonTree::Object(m) && (m.contains_key(
            "x-actus-rest-param"@,
        ) ==> m["x-actus-rest-param"@] == JsonTree::Bool(true) && m.contains_key("description"@)
            && m["description"@] == JsonTree::Str(
            "Captures the trailing path (slashes included). Not natively representable in OpenAPI path templating; treated as a single segment here."@,
        )),
{
    lemma_entry_names();
    reveal_strlit("{...");
    reveal_strlit("}");
    assert("{..."@ =~= seq!['{', '.', '.', '.']);
    assert("}"@ =~= seq!['}']);
    let mark = seq!['{', '.', '.', '.'] + p.name@ + seq!['}'];
    if contains_text(pattern, mark) {
        law_texts_have_two_sides(pattern, mark);
    }
    assert forall|a: Seq<char>, b: Seq<char>| pattern == #[trigger] ((a + mark) + b) implies contains_text(
        pattern,
        mark,
    ) by {
        law_texts_between_texts(a, mark, b);
    }
}

/// A schema has a default exactly where the parameter has one, and the same.
pub proof fn law_defaults_are_shown(ty: ParamType, default: Option<ParamDefault>)
    ensures
        schema_tree(ty, default) matches JsonTree::Object(m) && (m.contains_key("default"@)
            <==> default is Some),
        default matches Some(ParamDefault::String(s)) ==> schema_tree(ty, default) matches JsonTree::Object(
            m,
        ) && m["default"@] == JsonTree::Str(s@),
        default matches Some(ParamDefault::Int(n)) ==> schema_tree(ty, default) matches JsonTree::Object(
            m,
        ) && m["default"@] == JsonTree::Int(n as int),
        default matches Some(ParamDefault::U64(n)) ==> schema_tree(ty, default) matches JsonTree::Object(
            m,
        ) && m["default"@] == JsonTree::Int(n as int),
        default matches Some(ParamDefault::U32(n)) ==> schema_tree(ty, default) matches JsonTree::Object(
            m,
        ) && m["default"@] == JsonTree::Int(n as int),
        default matches Some(ParamDefault::Bool(b)) ==> schema_tree(ty, default) matches JsonTree::Object(
            m,
        ) && m["default"@] == JsonTree::Bool(b),
        default matches Some(ParamDefault::F64(n)) ==> schema_tree(ty, default) matches JsonTree::Object(
            m,
        ) && m["default"@] == number_tree(n),
{
    lemma_schema_names();
}

proof fn lemma_schema_names()
    ensures
        "type"@.len() == 4,
        "format"@.len() == 6,
        "minimum"@.len() == 7,
        "items"@.len() == 5,
        "default"@.len() == 7,
        "default"@ != "minimum"@,
{
    reveal_strlit("type");
    reveal_strlit("format");
    reveal_strlit("minimum");
    reveal_strlit("items");
    reveal_strlit("default");
    assert("default"@[0] == 'd' && "minimum"@[0] == 'm');
}

/// The JSON type that a member of an object names.
pub open spec fn names_type(tree: JsonTree, ty: Seq<char>) -> bool {
    tree matches JsonTree::Object(m) && m.contains_key("type"@) && m["type"@] == JsonTree::Str(ty)
}

/// A schema tells what a parameter may be: a text, a whole number of so many
/// bits, from nothing on where it has no sign, a number, a truth value or a
/// list of texts; of a JSON body it says nothing.
pub proof fn law_schemas_tell_types(ty: ParamType, default: Option<ParamDefault>)
    ensures
        ({
            let s = schema_tree(ty, default);
            let number = ty == ParamType::Int || ty == ParamType::U64 || ty == ParamType::U32;
            &&& names_type(s, "string"@) <==> ty == ParamType::String || ty == ParamType::Bytes
            &&& names_type(s, "integer"@) <==> number
            &&& names_type(s, "number"@) <==> ty == ParamType::F64
            &&& names_type(s, "boolean"@) <==> ty == ParamType::Bool
            &&& names_type(s, "array"@) <==> ty == ParamType::StringArray
            &&& s matches JsonTree::Object(m) && (m.contains_key("type"@) <==> ty
                != ParamType::Json)
            &&& s matches JsonTree::Object(m) && (m.contains_key("minimum"@) <==> ty
                == ParamType::U64 || ty == ParamType::U32)
            &&& s matches JsonTree::Object(m) && (m.contains_key("minimum"@) ==> m["minimum"@]
                == JsonTree::Int(0))
            &&& s matches JsonTree::Object(m) && (m.contains_key("format"@) <==> number || ty
                == ParamType::Bytes)
            &&& s matches JsonTree::Object(m) && (m.contains_key("format"@) ==> m["format"@]
                == JsonTree::Str(
                if ty == ParamType::U32 {
                    "int32"@
                } else if ty == ParamType::Bytes {
                    "binary"@
                } else {
                    "int64"@
                },
            ))
            &&& s matches JsonTree::Object(m) && (m.contains_key("items"@) <==> ty
                == ParamType::StringArray)
            &&& s matches JsonTree::Object(m) && (m.contains_key("items"@) ==> names_type(
                m["items"@],
                "string"@,
            ))
        }),
{
    lemma_schema_names();
    reveal_strlit("string");
    reveal_strlit("integer");
    reveal_strlit("number");
    reveal_strlit("boolean");
    reveal_strlit("array");
    assert("string"@[0] == 's' && "integer"@[0] == 'i' && "number"@[0] == 'n' && "boolean"@[0] == 'b'
        && "array"@[0] == 'a');
}

/// An operation asks for a body exactly where a parameter is read from it: as
/// JSON, or as the bytes that it is.
pub proof fn law_bodies_are_asked_for(params: Seq<ParamDef>, k: int)
    requires
        0 <= k < params.len(),
        forall|j: int|
            0 <= j < params.len() && j != k ==> (#[trigger] params[j]).source != ParamSource::Body,
    ensures
        params[k].source == ParamSource::Body && params[k].ty == ParamType::Json ==> asks_for(
            request_body(params),
            "application/json"@,
        ),
        params[k].source == ParamSource::Body && params[k].ty == ParamType::Bytes ==> asks_for(
            request_body(params),
            "application/octet-stream"@,
        ),
        params[k].source != ParamSource::Body ==> request_body(params) is None,
    decreases params.len(),
{
    reveal_strlit("required");
    reveal_strlit("content");
    assert("required"@.len() != "content"@.len());
    let front = params.drop_last();
    let n = params.len() - 1;
    assert(params[n] == params.last());
    assert forall|j: int| 0 <= j < front.len() && j != k implies (#[trigger] front[j]).source
        != ParamSource::Body by {
        assert(front[j] == params[j]);
    }
    if k < n {
        assert(front[k] == params[k]);
        law_bodies_are_asked_for(front, k);
    } else if params[k].source != ParamSource::Body && n > 0 {
        assert(front[0] == params[0]);
        law_bodies_are_asked_for(front, 0);
    }
}

/// Whether a body of one content type is asked for, and has to be there.
pub open spec fn asks_for(body: Option<JsonTree>, content_type: Seq<char>) -> bool {
    &&& body matches Some(JsonTree::Object(m))
    &&& m.contains_key("required"@) && m["required"@] == JsonTree::Bool(true)
    &&& m.contains_key("content"@) && (m["content"@] matches JsonTree::Object(c) && c.dom() =~= set![
        content_type,
    ])
}

proof fn lemma_operation_names()
    ensures
        "operationId"@[0] == 'o',
        "summary"@[0] == 's',
        "description"@[0] == 'd',
        "parameters"@[0] == 'p',
        "requestBody"@[0] == 'r',
        "responses"@[0] == 'r',
        "requestBody"@[2] == 'q',
        "responses"@[2] == 's',
{
    reveal_strlit("operationId");
    reveal_strlit("summary");
    reveal_strlit("description");
    reveal_strlit("parameters");
    reveal_strlit("requestBody");
    reveal_strlit("responses");
}

/// An operation tells all that its route declares: its id, the parameters and
/// the body where there are any, and the documentation of the handler with the
/// first line of it as a summary. Blanks around that do not count, and blank
/// documentation is none.
pub proof fn law_operations_tell_their_route(path: Seq<char>, method: Seq<char>, route: RouteDef)
    ensures
        ({
            let list = parameter_trees(route.pattern@, route.params@);
            let body = request_body(route.params@);
            let said = match route.doc {
                Some(doc) => trim(doc@),
                None => Seq::empty(),
            };
            &&& operation_tree(path, method, route) matches JsonTree::Object(m)
            &&& m.contains_key("operationId"@) && m["operationId"@] == JsonTree::Str(
                operation_name(path, method, route.handler@),
            )
            &&& m.contains_key("parameters"@) <==> list.len() > 0
            &&& list.len() > 0 ==> m["parameters"@] == JsonTree::Array(list)
            &&& m.contains_key("requestBody"@) <==> body is Some
            &&& body matches Some(b) ==> m["requestBody"@] == b
            &&& m.contains_key("description"@) <==> said.len() > 0
            &&& said.len() > 0 ==> m["description"@] == JsonTree::Str(said)
            &&& m.contains_key("summary"@) <==> said.len() > 0
            &&& said.len() > 0 ==> m["summary"@] == JsonTree::Str(trim(split(said, '\n')[0]))
            &&& m.contains_key("responses"@) && (m["responses"@] matches JsonTree::Object(any)
                && any.contains_key("default"@) && (any["default"@] matches JsonTree::Object(one)
                && one.contains_key("description"@) && one["description"@] is Str))
        }),
{
    lemma_operation_names();
}

proof fn lemma_segments_trimmed(s: Seq<char>)
    ensures
        segments_of(trim_char(s, '/')) == segments_of(s),
{
    lemma_segments_start(s);
    lemma_segments_end(trim_char_start(s, '/'));
}

proof fn lemma_segments_start(s: Seq<char>)
    ensures
        segments_of(trim_char_start(s, '/')) == segments_of(s),
    decreases s.len(),
{
    if s.len() > 0 && s[0] == '/' {
        lemma_segments_start(s.skip(1));
        law_slash_separates(s, s.skip(1));
        assert(seq!['/'] + s.skip(1) =~= s);
    }
}

proof fn lemma_segments_end(s: Seq<char>)
    ensures
        segments_of(trim_char_end(s, '/')) == segments_of(s),
    decreases s.len(),
{
    if s.len() > 0 && s.last() == '/' {
        lemma_segments_end(s.drop_last());
        law_slash_separates(s.drop_last(), s);
        assert(s.drop_last().push('/') =~= s);
    }
}

/// The path of an operation begins with a slash; its segments are those of the
/// mount and then those of the pattern.
pub proof fn law_paths_join_mount_and_pattern(mount: Seq<char>, pattern: Seq<char>)
    requires
        !pattern.contains('.'),
    ensures
        composed_path(mount, pattern).len() > 0,
        composed_path(mount, pattern)[0] == '/',
        segments_of(composed_path(mount, pattern)) == segments_of(mount) + segments_of(pattern),
{
    reveal_strlit("/");
    reveal_strlit("{...");
    let slash = seq!['/'];
    assert("/"@ =~= slash);
    let m = trim_char(mount, '/');
    let t = trim_char(pattern, '/');
    let p = replace(t, "{..."@, "{"@);
    law_trim_char_takes_copies_only(pattern, '/');
    let (i, j) = choose|i: int, j: int|
        {
            &&& 0 <= i <= j <= pattern.len()
            &&& #[trigger] pattern.subrange(i, j) == t
            &&& forall|k: int| 0 <= k < i || j <= k < pattern.len() ==> #[trigger] pattern[k] == '/'
        };
    assert forall|k: int| 0 <= k < t.len() implies !starts_with(#[trigger] t.skip(k), "{..."@) by {
        if starts_with(t.skip(k), "{..."@) {
            assert(t.skip(k).take(4)[1] == t[k + 1]);
            assert(pattern[i + k + 1] == t[k + 1]);
            assert(pattern.contains(pattern[i + k + 1]));
        }
    }
    law_nothing_else_is_replaced(t, "{..."@, "{"@);
    assert(p == t);
    lemma_segments_trimmed(mount);
    lemma_segments_trimmed(pattern);
    let none = Seq::<char>::empty();
    law_slash_separates(none, none);
    assert(segments_of(none) =~= Seq::<Seq<char>>::empty()) by {
        crate::text::law_segments_of_joined(Seq::<Seq<char>>::empty());
    }
    assert(m.len() == 0 ==> m =~= none);
    assert(p.len() == 0 ==> p =~= none);
    law_slash_separates(m, p);
    law_slash_separates(p, p);
    law_slash_separates(p, m);
    law_slash_separates(m, m.push('/') + p);
    assert(slash + none =~= slash);
    assert("/"@ + m + "/"@ + p =~= slash + (m.push('/') + p));
    assert(segments_of(mount) + segments_of(pattern) =~= segments_of(m) + segments_of(p));
    if m.len() == 0 {
        assert(segments_of(m) + segments_of(p) =~= segments_of(p));
    }
    if p.len() == 0 {
        assert(segments_of(m) + segments_of(p) =~= segments_of(m));
    }
}

/// A parameter that takes the rest of the path stands in the path of an
/// operation like any other, without its dots.
pub proof fn law_rest_parameters_lose_their_dots(mount: Seq<char>, a: Seq<char>, name: Seq<char>)
    requires
        !a.contains('{'),
        !a.contains('.'),
        a.len() > 0 ==> a[0] != '/',
        !name.contains('{'),
    ensures
        composed_path(mount, a + seq!['{', '.', '.', '.'] + name + seq!['}']) == {
            let m = trim_char(mount, '/');
            let tail = a + seq!['{'] + name + seq!['}'];
            if m.len() == 0 {
                seq!['/'] + tail
            } else {
                seq!['/'] + m + seq!['/'] + tail
            }
        },
{
    reveal_strlit("/");
    reveal_strlit("{...");
    reveal_strlit("{");
    let dots = seq!['{', '.', '.', '.'];
    let brace = seq!['{'];
    assert("/"@ =~= seq!['/']);
    assert("{..."@ =~= dots);
    assert("{"@ =~= brace);
    let end = name + seq!['}'];
    let pattern = a + dots + name + seq!['}'];
    assert(pattern =~= a + dots + end);
    assert(pattern[0] != '/') by {
        if a.len() == 0 {
            assert(pattern[0] == dots[0]);
        } else {
            assert(pattern[0] == a[0]);
        }
    }
    assert(pattern.last() == '}');
    assert(trim_char(pattern, '/') == pattern);
    let whole = a + dots + end;
    assert forall|i: int| 0 <= i < a.len() implies !starts_with(#[trigger] whole.skip(i), dots) by {
        if starts_with(whole.skip(i), dots) {
            assert(whole.skip(i).take(4)[0] == a[i]);
            assert(a.contains(a[i]));
        }
    }
    law_occurrences_are_replaced(a, end, dots, brace);
    assert forall|i: int| 0 <= i < end.len() implies !starts_with(#[trigger] end.skip(i), dots) by {
        if starts_with(end.skip(i), dots) {
            assert(end.skip(i).take(4)[0] == end[i]);
            if i < name.len() {
                assert(name.contains(name[i]));
            }
        }
    }
    law_nothing_else_is_replaced(end, dots, brace);
    let tail = a + brace + name + seq!['}'];
    assert(a + brace + end =~= tail);
}

/// The name of a method in a document is its token in lower case.
pub proof fn law_methods_are_lower_tokens(v: Verb)
    ensures
        method_name(v) == lower(verb_token(v)),
{
    reveal_strlit("get");
    reveal_strlit("post");
    reveal_strlit("put");
    reveal_strlit("delete");
    reveal_strlit("patch");
    reveal_strlit("head");
    reveal_strlit("options");
    reveal_strlit("GET");
    reveal_strlit("POST");
    reveal_strlit("PUT");
    reveal_strlit("DELETE");
    reveal_strlit("PATCH");
    reveal_strlit("HEAD");
    reveal_strlit("OPTIONS");
    assert(method_name(v) =~= lower(verb_token(v)));
}

/// A document has the title, the version and the description of its options,
/// the places where the interface is served, in order, and the operations by
/// path.
pub proof fn law_documents_tell_their_options(options: Options, items: Map<Seq<char>, Operations>)
    ensures
        ({
            &&& document(options, items) matches JsonTree::Object(m)
            &&& m.contains_key("openapi"@) && m["openapi"@] == JsonTree::Str("3.1.0"@)
            &&& m.contains_key("info"@) && (m["info"@] matches JsonTree::Object(info) && {
                &&& info.contains_key("title"@) && info["title"@] == JsonTree::Str(options.title@)
                &&& info.contains_key("version"@) && info["version"@] == JsonTree::Str(
                    options.version@,
                )
                &&& info.contains_key("description"@) <==> options.description is Some
                &&& options.description matches Some(text) ==> info["description"@]
                    == JsonTree::Str(text@)
            })
            &&& m.contains_key("servers"@) <==> options.servers@.len() > 0
            &&& options.servers@.len() > 0 ==> (m["servers"@] matches JsonTree::Array(list) && {
                &&& list.len() == options.servers@.len()
                &&& forall|i: int|
                    0 <= i < list.len() ==> (#[trigger] list[i] matches JsonTree::Object(s) && {
                        &&& s.contains_key("url"@) && s["url"@] == JsonTree::Str(
                            options.servers@[i].url@,
                        )
                        &&& s.contains_key("description"@)
                            <==> options.servers@[i].description is Some
                        &&& options.servers@[i].description matches Some(text)
                            ==> s["description"@] == JsonTree::Str(text@)
                    })
            })
            &&& m.contains_key("paths"@) && (m["paths"@] matches JsonTree::Object(paths) && {
                &&& paths.dom() =~= items.dom()
                &&& forall|path: Seq<char>| #[trigger]
                    items.contains_key(path) ==> paths[path] == JsonTree::Object(items[path])
            })
        }),
{
    reveal_strlit("openapi");
    reveal_strlit("info");
    reveal_strlit("servers");
    reveal_strlit("paths");
    reveal_strlit("title");
    reveal_strlit("version");
    reveal_strlit("description");
    reveal_strlit("url");
    assert("openapi"@[0] == 'o' && "info"@[0] == 'i' && "servers"@[0] == 's' && "paths"@[0] == 'p');
    assert("title"@[0] == 't' && "version"@[0] == 'v' && "description"@[0] == 'd' && "url"@[0] == 'u');
}

proof fn lemma_plain_word(w: Seq<char>)
    requires
        forall|i: int|
            0 <= i < w.len() ==> 'a' <= #[trigger] w[i] <= 'z' || 'A' <= w[i] <= 'Z' || '0' <= w[i]
                <= '9' || w[i] == '-' || w[i] == '.',
    ensures
        id_word(w) == w,
    decreases w.len(),
{
    if w.len() > 0 {
        let rest = w.skip(1);
        assert forall|i: int| 0 <= i < rest.len() implies 'a' <= #[trigger] rest[i] <= 'z' || 'A'
            <= rest[i] <= 'Z' || '0' <= rest[i] <= '9' || rest[i] == '-' || rest[i] == '.' by {
            assert(rest[i] == w[i + 1]);
        }
        lemma_plain_word(rest);
        assert(seq![w[0]] + rest =~= w);
    }
}

/// An id ends with the handler and the method as they are. In front of them
/// stand the segments of the path, as they are too where they are made of
/// letters and digits, with underscores in the place of the slashes.
pub proof fn law_ids_can_be_read(
    words: Seq<Seq<char>>,
    path: Seq<char>,
    method: Seq<char>,
    handler: Seq<char>,
)
    requires
        words.len() > 0,
        forall|k: int| 0 <= k < words.len() ==> (#[trigger] words[k]).len() > 0,
        forall|k: int, i: int|
            0 <= k < words.len() && 0 <= i < words[k].len() ==> 'a' <= #[trigger] words[k][i] <= 'z'
                || 'A' <= words[k][i] <= 'Z' || '0' <= words[k][i] <= '9' || words[k][i] == '-'
                || words[k][i] == '.',
    ensures
        ends_with(operation_name(path, method, handler), handler + seq!['_'] + method),
        !handler.contains('_') ==> operation_name(
            seq!['/'] + join(words, seq!['/']),
            method,
            handler,
        ) == join(words, seq!['_']) + seq!['_'] + handler + seq!['_'] + method,
{
    reveal_strlit("_");
    let sep = "_"@;
    assert(sep =~= seq!['_']);
    let ids = path_words(path).map_values(|w: Seq<char>| path_id(w));
    let front = ids.push(bordered(handler));
    assert(front.drop_last() =~= ids);
    assert(front.push(method).drop_last() =~= front);
    let start = join(front, sep);
    let name = operation_name(path, method, handler);
    assert(name == start + sep + method);
    let tail = handler + seq!['_'] + method;
    let n = start.len() - handler.len();
    assert(start.skip(n) =~= handler);
    assert(name.skip(n) =~= tail);
    if !handler.contains('_') {
        let text = join(words, seq!['/']);
        let whole = seq!['/'] + text;
        assert(whole.skip(1) =~= text);
        assert forall|k: int| 0 <= k < words.len() implies !(#[trigger] words[k]).contains('/') by {
            if words[k].contains('/') {
                let i = words[k].index_of('/');
                assert(words[k][i] == '/');
            }
        }
        law_split_of_join(words, '/');
        assert(text.len() > 0) by {
            assert(words[words.len() - 1].len() > 0);
        }
        let shown = path_words(whole).map_values(|w: Seq<char>| path_id(w));
        assert forall|k: int| 0 <= k < words.len() implies shown[k] == words[k] by {
            lemma_plain_word(words[k]);
        }
        assert(shown =~= words);
        let all = words.push(handler);
        assert(all.drop_last() =~= words);
        assert(all.push(method).drop_last() =~= all);
        assert(bordered(handler) == handler);
        assert(all.last() == handler && all.push(method).last() == method);
        assert(join(all, sep) == join(words, sep) + sep + handler);
        assert(join(all.push(method), sep) == join(all, sep) + sep + method);
    }
}

proof fn lemma_id_word_concat(a: Seq<char>, b: Seq<char>)
    ensures
        id_word(a + b) == id_word(a) + id_word(b),
    decreases a.len(),
{
    if a.len() == 0 {
        assert(a + b =~= b);
        assert(id_word(a) + id_word(b) =~= id_word(b));
    } else {
        lemma_id_word_concat(a.skip(1), b);
        assert((a + b).skip(1) =~= a.skip(1) + b);
        assert(id_char(a[0]) + (id_word(a.skip(1)) + id_word(b)) =~= (id_char(a[0]) + id_word(
            a.skip(1),
        )) + id_word(b));
    }
}

/// The characters of a word of a path stand in an id one after the other: a
/// tilde for an underscore, round brackets for braces, and every other one as
/// it is, with an exclamation mark in front of the tildes, the round brackets
/// and the exclamation marks that the path itself has.
pub proof fn law_characters_of_ids(a: Seq<char>, b: Seq<char>, c: char)
    ensures
        a.len() > 0 && b.len() > 0 ==> path_id(a + b) == path_id(a) + path_id(b),
        c == '_' ==> path_id(seq![c]) == seq!['~'],
        c == '{' ==> path_id(seq![c]) == seq!['('],
        c == '}' ==> path_id(seq![c]) == seq![')'],
        c == '~' || c == '(' || c == ')' || c == '!' ==> path_id(seq![c]) == seq!['!', c],
        c != '_' && c != '{' && c != '}' && c != '~' && c != '(' && c != ')' && c != '!' ==> path_id(
            seq![c],
        ) == seq![c],
        path_id(Seq::empty()) == seq!['!'],
{
    lemma_id_word_concat(a, b);
    let one = seq![c];
    reveal_with_fuel(id_word, 2);
    assert(one.skip(1) =~= Seq::<char>::empty());
    assert(id_word(one) =~= id_char(c));
}

/// A filter that goes by the path of a mount chooses the routes of the mounts
/// it keeps, all of them, and no others.
pub proof fn law_filters_choose_mounts<F: Fn(&str) -> bool>(
    filter: F,
    keeps: spec_fn(Seq<char>) -> bool,
    rows: Seq<(Seq<char>, RouteDef)>,
    kept: Seq<bool>,
    i: int,
)
    requires
        selects(filter, rows, kept),
        forall|s: &str, b: bool| #[trigger] call_ensures(filter, (s,), b) ==> b == keeps(s@),
        0 <= i < rows.len(),
    ensures
        kept.len() == rows.len(),
        kept[i] == keeps(rows[i].0),
{
    assert(says(filter, rows[i].0, kept[i]));
}

} // verus!
