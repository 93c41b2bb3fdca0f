//! A request as it arrives, and the parameters that it comes to.

use crate::compression::media_type;
use crate::compression::media_type_of;
use crate::controller::verb_token;
use crate::controller::Verb;
use crate::durations::duration_nanos;
use crate::error::bad_request;
use crate::error::ErrorView;
use crate::error::WebError;
use crate::finalizer::utf8;
use crate::headers::all_values;
use crate::headers::first_text;
use crate::headers::header_contents;
use crate::headers::header_pairs;
use crate::headers::header_text;
use crate::headers::pair_values;
use crate::headers::text_of_value;
use crate::headers::value_text;
use crate::headers::Contents;
use crate::json::json_from_slice;
use crate::json::json_option;
use crate::json::json_parsed;
use crate::json::JsonTree;
use crate::params::clone_bytes;
use crate::params::str_option;
use crate::params::Params;
use crate::params::ParamsView;
use crate::strmap::folded;
use crate::strmap::lists_keys;
use crate::strmap::multi;
use crate::strmap::names_with;
use crate::strmap::pair_views;
use crate::strmap::values_named;
use crate::strmap::values_under;
use crate::strmap::StrMap;
use crate::text::ends_with;
use crate::text::lower;
use crate::text::segments;
use crate::text::segments_of;
use crate::text::starts_with;
use crate::text::str_ends_with;
use crate::text::str_eq;
use crate::text::str_starts_with;
use crate::text::views;
use std::time::Duration;
use vstd::prelude::*;

verus! {

/// A request: what it asks for, and its body once that was read.
#[derive(Debug)]
pub struct Request {
    /// The token of the method.
    pub method: String,
    /// The segments of the path.
    pub path_parts: Vec<String>,
    /// The parameters of the query, each name with its values in order.
    pub query_params: StrMap<Vec<String>>,
    /// The bytes of the body.
    pub body: Vec<u8>,
    /// The headers.
    pub headers: http::HeaderMap,
    /// The rate-limit class of the controller that the request reached.
    pub rate_limit_class: Option<&'static str>,
}

/// What a request holds.
pub struct RequestView {
    pub method: Seq<char>,
    pub path_parts: Seq<Seq<char>>,
    pub query_params: Map<Seq<char>, Seq<Seq<char>>>,
    pub query_names: Seq<Seq<char>>,
    pub body: Seq<u8>,
    pub headers: Contents,
    pub rate_limit_class: Option<Seq<char>>,
}

impl View for Request {
    type V = RequestView;

    open spec fn view(&self) -> RequestView {
        RequestView {
            method: self.method@,
            path_parts: views(self.path_parts@),
            query_params: multi(self.query_params@),
            query_names: self.query_params.names(),
            body: self.body@,
            headers: header_contents(self.headers),
            rate_limit_class: str_option(self.rate_limit_class),
        }
    }
}

// ---------------------------------------------------------------------------
// Forms
// ---------------------------------------------------------------------------

/// What `serde_urlencoded::from_bytes` reads as a list of pairs, or the text
/// of its error.
pub uninterp spec fn form_parsed(bytes: Seq<u8>) -> Result<Seq<(Seq<char>, Seq<char>)>, Seq<char>>;

/// What a list of pairs or the text of an error holds.
pub open spec fn form_outcome(r: Result<Vec<(String, String)>, String>) -> Result<
    Seq<(Seq<char>, Seq<char>)>,
    Seq<char>,
> {
    match r {
        Ok(pairs) => Ok(pair_views(pairs@)),
        Err(text) => Err(text@),
    }
}

/// `serde_urlencoded::from_bytes`, read as a list of pairs.
#[verifier::external_body]
fn form_from_bytes(bytes: &[u8]) -> (r: Result<Vec<(String, String)>, String>)
    ensures
        form_outcome(r) == form_parsed(bytes@),
{
    match serde_urlencoded::from_bytes::<Vec<(String, String)>>(bytes) {
        Ok(pairs) => Ok(pairs),
        Err(e) => Err(e.to_string()),
    }
}

/// Pairs as a multimap, the values of one name in the order of the pairs.
pub fn collect_pairs(pairs: Vec<(String, String)>) -> (r: StrMap<Vec<String>>)
    ensures
        multi(r@) == folded(Map::empty(), pair_views(pairs@)),
        r.names() == names_with(Seq::empty(), pair_views(pairs@)),
{
    let mut map: StrMap<Vec<String>> = StrMap::new();
    assert(multi(map@) =~= Map::<Seq<char>, Seq<Seq<char>>>::empty());
    map.append_pairs(pairs);
    map
}

/// The pairs that a query writes; none where it writes no pairs.
pub open spec fn query_pairs(query: Option<Seq<char>>) -> Seq<(Seq<char>, Seq<char>)> {
    match query {
        Some(q) => match form_parsed(utf8(q)) {
            Ok(pairs) => pairs,
            Err(_) => Seq::empty(),
        },
        None => Seq::empty(),
    }
}

// ---------------------------------------------------------------------------
// Reading a body
// ---------------------------------------------------------------------------

/// How the reading of a body ended.
pub enum BodyRead {
    /// The whole body.
    Complete(Vec<u8>),
    /// The body is larger than the cap.
    TooLarge,
    /// The server holds as many bytes as it may.
    NoBudget,
    /// The body could not be read, for the reason given.
    Failed(String),
}

/// The error that the reading of a body ends in.
pub open spec fn is_read_error(read: BodyRead, e: ErrorView) -> bool {
    match read {
        BodyRead::Complete(_) => false,
        BodyRead::TooLarge => e == ErrorView::PayloadTooLarge,
        BodyRead::NoBudget => e matches ErrorView::Busy(Some(d)) && duration_nanos(d)
            == 1_000_000_000,
        BodyRead::Failed(reason) => e == ErrorView::BadRequest(
            "could not read request body: "@ + reason@,
        ),
    }
}

/// How many bytes a request reserves of the server's budget before its body
/// is read: the cap, as far as the budget can count.
pub fn reservation(max_bytes: usize) -> (r: u32)
    ensures
        r == if max_bytes <= u32::MAX {
            max_bytes as int
        } else {
            u32::MAX as int
        },
{
    if max_bytes <= u32::MAX as usize {
        max_bytes as u32
    } else {
        u32::MAX
    }
}

/// What comes of reading a body under a cap: its bytes, or an error.
pub fn collect_body_capped(read: BodyRead) -> (r: Result<Vec<u8>, WebError>)
    ensures
        match r {
            Ok(bytes) => read matches BodyRead::Complete(b) && b@ == bytes@,
            Err(e) => is_read_error(read, e@),
        },
{
    match read {
        BodyRead::Complete(bytes) => Ok(bytes),
        BodyRead::TooLarge => Err(WebError::PayloadTooLarge),
        BodyRead::NoBudget => Err(WebError::Busy(Some(Duration::from_secs(1)))),
        BodyRead::Failed(reason) => Err(
            bad_request("could not read request body: ", reason.as_str()),
        ),
    }
}

// ---------------------------------------------------------------------------
// Parameters
// ---------------------------------------------------------------------------

/// Whether a media type is JSON: `application/json`, or one of the family
/// `application/...+json`.
pub open spec fn is_json_type(ct: Seq<char>) -> bool {
    ct == "application/json"@ || (starts_with(ct, "application/"@) && ends_with(ct, "+json"@))
}

/// The verb of a method token; `GET` for a method that is none of them.
pub open spec fn verb_of(method: Seq<char>) -> Verb {
    if method == verb_token(Verb::POST) {
        Verb::POST
    } else if method == verb_token(Verb::PUT) {
        Verb::PUT
    } else if method == verb_token(Verb::DELETE) {
        Verb::DELETE
    } else if method == verb_token(Verb::PATCH) {
        Verb::PATCH
    } else if method == verb_token(Verb::HEAD) {
        Verb::HEAD
    } else if method == verb_token(Verb::OPTIONS) {
        Verb::OPTIONS
    } else {
        Verb::GET
    }
}

/// The media type of a request.
pub open spec fn request_type(headers: Contents) -> Option<Seq<char>> {
    match first_text(headers, "content-type"@) {
        Some(text) => Some(media_type(text)),
        None => None,
    }
}

/// What a body comes to: its JSON value where it is JSON, and the pairs of a
/// form. An empty body comes to nothing, whatever its type; one that is not
/// empty needs a type.
pub open spec fn body_parsed(content_type: Option<Seq<char>>, body: Seq<u8>) -> Result<
    (Option<JsonTree>, Seq<(Seq<char>, Seq<char>)>),
    ErrorView,
> {
    if body.len() == 0 {
        Ok((None, Seq::empty()))
    } else {
        match content_type {
            None => Err(
                ErrorView::BadRequest("non-empty request body requires a Content-Type header"@),
            ),
            Some(ct) => if is_json_type(ct) {
                match json_parsed(body) {
                    Ok(tree) => Ok((Some(tree), Seq::empty())),
                    Err(text) => Err(
                        ErrorView::BadRequest("body is not valid JSON: "@ + text),
                    ),
                }
            } else if ct == "application/x-www-form-urlencoded"@ {
                match form_parsed(body) {
                    Ok(pairs) => Ok((None, pairs)),
                    Err(text) => Err(
                        ErrorView::BadRequest("body is not valid form-urlencoded: "@ + text),
                    ),
                }
            } else {
                Ok((None, Seq::empty()))
            },
        }
    }
}

/// The texts of values, in order; a value that is no text is left out.
pub open spec fn value_texts(values: Seq<Seq<u8>>) -> Seq<Seq<char>>
    decreases values.len(),
{
    if values.len() == 0 {
        Seq::empty()
    } else {
        match value_text(values.last()) {
            Some(t) => value_texts(values.drop_last()).push(t),
            None => value_texts(values.drop_last()),
        }
    }
}

/// Whether a multimap holds under each name the texts of the header, in order,
/// and no name without any.
pub open spec fn holds_headers(m: Map<Seq<char>, Seq<Seq<char>>>, headers: Contents) -> bool {
    forall|name: Seq<char>| #[trigger]
        values_under(m, name) == value_texts(all_values(headers, name)) && (m.contains_key(name)
            ==> m[name].len() > 0)
}

/// Whether parameters are those of a request whose body came to a value and
/// pairs.
pub open spec fn params_of(
    p: ParamsView,
    request: RequestView,
    json: Option<JsonTree>,
    pairs: Seq<(Seq<char>, Seq<char>)>,
) -> bool {
    &&& p.verb == verb_of(request.method)
    &&& p.query == folded(request.query_params, pairs)
    &&& p.query_names == names_with(request.query_names, pairs)
    &&& lists_keys(p.query_names, p.query)
    &&& p.body == json
    &&& p.raw_body == request.body
    &&& holds_headers(p.headers, request.headers)
}

/// Whether a media type is JSON.
pub fn is_json_content_type(ct: &str) -> (r: bool)
    ensures
        r == is_json_type(ct@),
{
    str_eq(ct, "application/json") || (str_starts_with(ct, "application/") && str_ends_with(
        ct,
        "+json",
    ))
}

/// The verb of a method token.
pub fn method_to_verb(method: &str) -> (r: Verb)
    ensures
        r == verb_of(method@),
{
    if str_eq(method, "POST") {
        Verb::POST
    } else if str_eq(method, "PUT") {
        Verb::PUT
    } else if str_eq(method, "DELETE") {
        Verb::DELETE
    } else if str_eq(method, "PATCH") {
        Verb::PATCH
    } else if str_eq(method, "HEAD") {
        Verb::HEAD
    } else if str_eq(method, "OPTIONS") {
        Verb::OPTIONS
    } else {
        Verb::GET
    }
}

/// What a body comes to.
pub fn parse_body(content_type: Option<&str>, body: &[u8]) -> (r: Result<
    (Option<serde_json::Value>, Vec<(String, String)>),
    WebError,
>)
    ensures
        match r {
            Ok((json, pairs)) => body_parsed(str_option(content_type), body@) == Ok::<
                (Option<JsonTree>, Seq<(Seq<char>, Seq<char>)>),
                ErrorView,
            >((json_option(json), pair_views(pairs@))),
            Err(e) => body_parsed(str_option(content_type), body@) == Err::<
                (Option<JsonTree>, Seq<(Seq<char>, Seq<char>)>),
                ErrorView,
            >(e@),
        },
{
    let none: Vec<(String, String)> = Vec::new();
    assert(pair_views(none@) =~= Seq::<(Seq<char>, Seq<char>)>::empty());
    if body.len() == 0 {
        return Ok((None, none));
    }
    match content_type {
        None => Err(
            WebError::BadRequest(
                "non-empty request body requires a Content-Type header".to_owned(),
            ),
        ),
        Some(ct) => if is_json_content_type(ct) {
            match json_from_slice(body) {
                Ok(v) => Ok((Some(v), none)),
                Err(text) => Err(bad_request("body is not valid JSON: ", text.as_str())),
            }
        } else if str_eq(ct, "application/x-www-form-urlencoded") {
            match form_from_bytes(body) {
                Ok(pairs) => Ok((None, pairs)),
                Err(text) => Err(
                    bad_request("body is not valid form-urlencoded: ", text.as_str()),
                ),
            }
        } else {
            Ok((None, none))
        },
    }
}

/// The texts of the headers under each lower-case name.
#[verifier::spinoff_prover]
fn header_multimap(headers: &http::HeaderMap) -> (r: StrMap<Vec<String>>)
    ensures
        holds_headers(multi(r@), header_contents(*headers)),
{
    let pairs = header_pairs(headers);
    let ghost all = pairs@;
    let mut out: StrMap<Vec<String>> = StrMap::new();
    let mut i: usize = 0;
    assert(all.take(0) =~= Seq::<(String, Vec<u8>)>::empty());
    while i < pairs.len()
        invariant
            i <= pairs@.len(),
            all == pairs@,
            forall|name: Seq<char>| #[trigger]
                values_under(multi(out@), name) == value_texts(
                    pair_values(all.take(i as int), name),
                ) && (multi(out@).contains_key(name) ==> multi(out@)[name].len() > 0),
        decreases pairs.len() - i,
    {
        let ghost before = multi(out@);
        let ghost key = all[i as int].0@;
        let ghost value = all[i as int].1@;
        assert(all.take(i as int + 1).drop_last() =~= all.take(i as int));
        assert(all.take(i as int + 1).last() == all[i as int]);
        let text = text_of_value(&pairs[i].1);
        if let Some(t) = text {
            out.append(pairs[i].0.clone(), t);
        }
        assert forall|name: Seq<char>| #[trigger]
            values_under(multi(out@), name) == value_texts(
                pair_values(all.take(i as int + 1), name),
            ) && (multi(out@).contains_key(name) ==> multi(out@)[name].len() > 0) by {
            let prev = pair_values(all.take(i as int), name);
            assert(values_under(before, name) == value_texts(prev));
            if name == key {
                assert(pair_values(all.take(i as int + 1), name) == prev.push(value));
                assert(prev.push(value).drop_last() =~= prev);
            } else {
                assert(pair_values(all.take(i as int + 1), name) == prev);
                assert(values_under(multi(out@), name) == values_under(before, name));
            }
        }
        i = i + 1;
    }
    assert(all.take(all.len() as int) =~= all);
    assert forall|name: Seq<char>| #[trigger]
        values_under(multi(out@), name) == value_texts(
            all_values(header_contents(*headers), name),
        ) && (multi(out@).contains_key(name) ==> multi(out@)[name].len() > 0) by {
        assert(pair_values(all, name) == all_values(header_contents(*headers), name));
    }
    out
}

impl Request {
    /// A request without its body: the method, the target split at its
    /// question mark, and the headers.
    pub fn from_hyper_parts(
        method: &str,
        path: &str,
        query: Option<&str>,
        headers: http::HeaderMap,
    ) -> (r: Self)
        ensures
            r@.method == method@,
            r@.path_parts == segments_of(path@),
            r@.query_params == folded(Map::empty(), query_pairs(str_option(query))),
            r@.query_names == names_with(Seq::empty(), query_pairs(str_option(query))),
            r@.body == Seq::<u8>::empty(),
            r@.headers == header_contents(headers),
            r@.rate_limit_class is None,
    {
        let pairs: Vec<(String, String)> = match query {
            Some(q) => match form_from_bytes(q.as_bytes()) {
                Ok(pairs) => pairs,
                Err(_) => Vec::new(),
            },
            None => Vec::new(),
        };
        assert(pair_views(pairs@) =~= query_pairs(str_option(query)));
        Request {
            method: method.to_owned(),
            path_parts: segments(path),
            query_params: collect_pairs(pairs),
            body: Vec::new(),
            headers,
            rate_limit_class: None,
        }
    }

    /// The request with its body, or the request as it is with the error that
    /// the reading ended in.
    pub fn collect_body(self, read: BodyRead) -> (r: Result<Self, (Self, WebError)>)
        ensures
            match r {
                Ok(request) => read matches BodyRead::Complete(b) && request@ == (RequestView {
                    body: b@,
                    ..self@
                }),
                Err((request, e)) => request == self && is_read_error(read, e@),
            },
    {
        match collect_body_capped(read) {
            Ok(bytes) => Ok(
                Request {
                    method: self.method,
                    path_parts: self.path_parts,
                    query_params: self.query_params,
                    body: bytes,
                    headers: self.headers,
                    rate_limit_class: self.rate_limit_class,
                },
            ),
            Err(e) => Err((self, e)),
        }
    }

    /// The parameters of the request, or the error where its body is not what
    /// its type says.
    pub fn to_params(&self) -> (r: Result<Params, WebError>)
        ensures
            match r {
                Ok(p) => body_parsed(request_type(self@.headers), self@.body) matches Ok(
                    (json, pairs),
                ) && params_of(p@, self@, json, pairs),
                Err(e) => body_parsed(request_type(self@.headers), self@.body) == Err::<
                    (Option<JsonTree>, Seq<(Seq<char>, Seq<char>)>),
                    ErrorView,
                >(e@),
            },
    {
        proof {
            reveal_strlit("content-type");
            assert(lower("content-type"@) =~= "content-type"@);
        }
        let content_type = match header_text(&self.headers, "content-type") {
            Some(text) => Some(media_type_of(text.as_str())),
            None => None,
        };
        let ct: Option<&str> = match &content_type {
            Some(s) => Some(s.as_str()),
            None => None,
        };
        match parse_body(ct, &self.body) {
            Ok((json, pairs)) => {
                let mut query = self.query_params.duplicate();
                query.append_pairs(pairs);
                Ok(
                    Params::new(
                        method_to_verb(self.method.as_str()),
                        query,
                        json,
                        clone_bytes(&self.body),
                        header_multimap(&self.headers),
                    ),
                )
            },
            Err(e) => Err(e),
        }
    }
}

// ---------------------------------------------------------------------------
// Laws
// ---------------------------------------------------------------------------

/// A form field is appended to the values of the query under its name, and
/// replaces none.
pub proof fn law_form_fields_are_appended(
    p: ParamsView,
    request: RequestView,
    json: Option<JsonTree>,
    pairs: Seq<(Seq<char>, Seq<char>)>,
    name: Seq<char>,
)
    requires
        params_of(p, request, json, pairs),
    ensures
        values_under(p.query, name) == values_under(request.query_params, name) + values_named(
            pairs,
            name,
        ),
{
    crate::strmap::law_repeated_names_accumulate(request.query_params, pairs, name);
}

/// An empty body is taken whatever the type says, and a body that is not empty
/// only under a type.
pub proof fn law_bodies_need_a_type(content_type: Option<Seq<char>>, body: Seq<u8>)
    ensures
        body.len() == 0 ==> body_parsed(content_type, body) is Ok,
        body.len() > 0 && content_type is None ==> body_parsed(content_type, body) is Err,
{
}

/// A body that is neither JSON nor a form is handed on as it is.
pub proof fn law_other_bodies_pass(content_type: Seq<char>, body: Seq<u8>)
    requires
        !is_json_type(content_type),
        content_type != "application/x-www-form-urlencoded"@,
    ensures
        body_parsed(Some(content_type), body) == Ok::<
            (Option<JsonTree>, Seq<(Seq<char>, Seq<char>)>),
            ErrorView,
        >((None, Seq::empty())),
{
}

/// A method is read as the verb with that token, and as `GET` where no verb
/// has it; case counts.
pub proof fn law_methods_are_read(v: Verb, method: Seq<char>)
    ensures
        verb_of(verb_token(v)) == v,
        verb_of(method) != Verb::GET ==> method == verb_token(verb_of(method)),
        (forall|w: Verb| method != #[trigger] verb_token(w)) ==> verb_of(method) == Verb::GET,
{
    crate::controller::law_tokens_tell_verbs_apart(v, Verb::GET);
    crate::controller::law_tokens_tell_verbs_apart(v, Verb::POST);
    crate::controller::law_tokens_tell_verbs_apart(v, Verb::PUT);
    crate::controller::law_tokens_tell_verbs_apart(v, Verb::DELETE);
    crate::controller::law_tokens_tell_verbs_apart(v, Verb::PATCH);
    crate::controller::law_tokens_tell_verbs_apart(v, Verb::HEAD);
    crate::controller::law_tokens_tell_verbs_apart(v, Verb::OPTIONS);
}

/// JSON is `application/json` and every type that lies between `application/`
/// and `+json`, and nothing outside of `application/`.
pub proof fn law_what_is_json(x: Seq<char>, ct: Seq<char>)
    ensures
        is_json_type("application/json"@),
        is_json_type("application/"@ + x + "+json"@),
        !starts_with(ct, "application/"@) ==> !is_json_type(ct),
        !ends_with(ct, "json"@) ==> !is_json_type(ct),
        ends_with(ct, "json"@) && is_json_type(ct) ==> ct == "application/json"@ || (ct.len() > 5
            && ct[ct.len() - 5] == '+'),
{
    reveal_strlit("application/json");
    reveal_strlit("application/");
    reveal_strlit("+json");
    reveal_strlit("json");
    let head = "application/"@;
    let tail = "+json"@;
    let plain = "application/json"@;
    assert(head.len() == 12 && tail.len() == 5 && plain.len() == 16);
    assert(is_json_type(head + x + tail)) by {
        let whole = head + x + tail;
        assert(whole.take(12) =~= head);
        assert(whole.skip(whole.len() - 5) =~= tail);
    }
    assert(starts_with(plain, head)) by {
        assert(plain.take(12) =~= head);
    }
    assert(ends_with(plain, "json"@)) by {
        assert(plain.skip(12) =~= "json"@);
    }
    if ends_with(ct, tail) {
        assert(ends_with(ct, "json"@) && ct[ct.len() - 5] == '+') by {
            let end = ct.skip(ct.len() - 5);
            assert(end[0] == ct[ct.len() - 5]);
            assert(ct.skip(ct.len() - 4) =~= end.skip(1));
            assert(tail.skip(1) =~= "json"@);
        }
    }
}

/// What a body comes to. One of JSON comes to the value that it writes and adds
/// nothing to the query; a form adds its fields and has no value; a body that
/// is not what its type says is refused, with the reason; and the type of an
/// empty body does not count.
pub proof fn law_what_a_body_comes_to(content_type: Seq<char>, body: Seq<u8>)
    requires
        body.len() > 0,
    ensures
        is_json_type(content_type) ==> match json_parsed(body) {
            Ok(tree) => body_parsed(Some(content_type), body) matches Ok((json, pairs)) && json
                == Some(tree) && pairs.len() == 0,
            Err(text) => body_parsed(Some(content_type), body) == Err::<
                (Option<JsonTree>, Seq<(Seq<char>, Seq<char>)>),
                ErrorView,
            >(ErrorView::BadRequest("body is not valid JSON: "@ + text)),
        },
        content_type == "application/x-www-form-urlencoded"@ ==> match form_parsed(body) {
            Ok(fields) => body_parsed(Some(content_type), body) matches Ok((json, pairs)) && json
                is None && pairs == fields,
            Err(text) => body_parsed(Some(content_type), body) == Err::<
                (Option<JsonTree>, Seq<(Seq<char>, Seq<char>)>),
                ErrorView,
            >(ErrorView::BadRequest("body is not valid form-urlencoded: "@ + text)),
        },
        body_parsed(None, body) == Err::<
            (Option<JsonTree>, Seq<(Seq<char>, Seq<char>)>),
            ErrorView,
        >(ErrorView::BadRequest("non-empty request body requires a Content-Type header"@)),
        body_parsed(Some(content_type), Seq::empty()) matches Ok((json, pairs)) && json is None
            && pairs.len() == 0,
        body_parsed(None, Seq::empty()) matches Ok((json, pairs)) && json is None && pairs.len()
            == 0,
{
    reveal_strlit("application/x-www-form-urlencoded");
    reveal_strlit("application/json");
    reveal_strlit("+json");
    let form = "application/x-www-form-urlencoded"@;
    assert(form.len() == 33 && "application/json"@.len() == 16 && "+json"@.len() == 5);
    if content_type == form && ends_with(form, "+json"@) {
        assert(form.skip(28)[4] == form[32]);
    }
}

/// A body that was not read in full is an error of its own: too large a one a
/// `413`, one that finds no room a `503` after a second, and any other a `400`
/// that tells the reason.
pub proof fn law_bodies_that_are_not_read(reason: String, e: ErrorView, bytes: Vec<u8>)
    ensures
        !is_read_error(BodyRead::Complete(bytes), e),
        is_read_error(BodyRead::TooLarge, e) <==> e == ErrorView::PayloadTooLarge,
        is_read_error(BodyRead::NoBudget, e) ==> crate::finalizer::problem_of(e).status == 503
            && (e matches ErrorView::Busy(Some(d)) && crate::finalizer::retry_seconds(d) == 1),
        is_read_error(BodyRead::Failed(reason), e) <==> e == ErrorView::BadRequest(
            "could not read request body: "@ + reason@,
        ),
{
}

/// The parameters of a request hold all that it says: the verb, every value of
/// the query and then every field of the form, in their order and each under
/// its own name, the body, and every header that is a text.
pub proof fn law_parameters_hold_the_request(
    p: ParamsView,
    request: RequestView,
    json: Option<JsonTree>,
    pairs: Seq<(Seq<char>, Seq<char>)>,
    name: Seq<char>,
)
    requires
        params_of(p, request, json, pairs),
    ensures
        values_under(p.query, name) == values_under(request.query_params, name) + pairs.filter(
            |f: (Seq<char>, Seq<char>)| f.0 == name,
        ).map_values(|f: (Seq<char>, Seq<char>)| f.1),
        p.query.contains_key(name) <==> request.query_params.contains_key(name) || exists|i: int|
            0 <= i < pairs.len() && (#[trigger] pairs[i]).0 == name,
        p.query_names.contains(name) <==> p.query.contains_key(name),
        p.body == json,
        p.raw_body == request.body,
        verb_token(p.verb) == request.method || p.verb == Verb::GET,
        values_under(p.headers, name) == all_values(request.headers, name).filter(
            |v: Seq<u8>| value_text(v) is Some,
        ).map_values(|v: Seq<u8>| value_text(v)->0),
        p.headers.contains_key(name) <==> values_under(p.headers, name).len() > 0,
{
    law_form_fields_are_appended(p, request, json, pairs, name);
    crate::strmap::law_repeated_names_accumulate(request.query_params, pairs, name);
    crate::strmap::law_values_of_a_name(pairs, name);
    lemma_named_somewhere(pairs, name);
    law_methods_are_read(p.verb, request.method);
    lemma_value_texts(all_values(request.headers, name));
    assert(values_under(p.headers, name) == value_texts(all_values(request.headers, name)));
}

proof fn lemma_named_somewhere(pairs: Seq<(Seq<char>, Seq<char>)>, name: Seq<char>)
    ensures
        values_named(pairs, name).len() > 0 <==> exists|i: int|
            0 <= i < pairs.len() && (#[trigger] pairs[i]).0 == name,
    decreases pairs.len(),
{
    if pairs.len() > 0 {
        let front = pairs.drop_last();
        lemma_named_somewhere(front, name);
        assert(pairs[pairs.len() - 1] == pairs.last());
        if exists|i: int| 0 <= i < pairs.len() && (#[trigger] pairs[i]).0 == name {
            let i = choose|i: int| 0 <= i < pairs.len() && (#[trigger] pairs[i]).0 == name;
            if i < front.len() {
                assert(front[i].0 == name);
            }
        }
        if exists|i: int| 0 <= i < front.len() && (#[trigger] front[i]).0 == name {
            let i = choose|i: int| 0 <= i < front.len() && (#[trigger] front[i]).0 == name;
            assert(pairs[i].0 == name);
        }
    }
}

proof fn lemma_value_texts(values: Seq<Seq<u8>>)
    ensures
        value_texts(values) == values.filter(|v: Seq<u8>| value_text(v) is Some).map_values(
            |v: Seq<u8>| value_text(v)->0,
        ),
    decreases values.len(),
{
    let shown = |v: Seq<u8>| value_text(v) is Some;
    let text = |v: Seq<u8>| value_text(v)->0;
    reveal(Seq::filter);
    if values.len() > 0 {
        lemma_value_texts(values.drop_last());
    }
    assert(value_texts(values) =~= values.filter(shown).map_values(text));
}

/// The pairs of a query are those that it writes; a query that cannot be read,
/// and a missing one, has none.
pub proof fn law_queries_are_read(q: Seq<char>)
    ensures
        form_parsed(utf8(q)) matches Ok(pairs) ==> query_pairs(Some(q)) == pairs,
        form_parsed(utf8(q)) is Err ==> query_pairs(Some(q)).len() == 0,
        query_pairs(None).len() == 0,
{
}

/// The type of a request is that of its first `Content-Type`, in lower case and
/// without its parameters.
pub proof fn law_the_type_of_a_request(headers: Contents, t: Seq<char>, params: Seq<char>)
    requires
        crate::text::visible_ends(t),
        !t.contains(';'),
        headers.contains_key("content-type"@),
        headers["content-type"@].len() > 0,
    ensures
        value_text(headers["content-type"@][0]) == Some(t) ==> request_type(headers) == Some(
            lower(t),
        ),
        value_text(headers["content-type"@][0]) == Some(t.push(';') + params) ==> request_type(
            headers,
        ) == Some(lower(t)),
        request_type(headers.remove("content-type"@)) is None,
{
    let none = Seq::<char>::empty();
    crate::compression::law_parameters_change_no_type(none, t, none, params);
    assert(none + t + none =~= t);
}

} // verus!
