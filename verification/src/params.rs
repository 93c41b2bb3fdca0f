//! The parameters of a request, as it arrives and after a route was found.

use crate::controller::Verb;
use crate::error::bad_request;
use crate::error::ErrorView;
use crate::error::WebError;
use crate::json::json_clone;
use crate::json::json_option;
use crate::json::json_tree;
use crate::json::JsonTree;
use crate::numbers::decimal;
use crate::numbers::law_decimal_reads_back;
use crate::numbers::law_only_digits_are_numbers;
use crate::numbers::law_signs_are_read;
use crate::numbers::parse_i64;
use crate::numbers::parse_u32;
use crate::numbers::parse_u64;
use crate::numbers::parsed_int;
use crate::numbers::parsed_nat;
use crate::strmap::clone_strings;
use crate::strmap::multi;
use crate::strmap::single;
use crate::strmap::values_under;
use crate::strmap::StrMap;
use crate::text::lower;
use crate::text::lower_str;
use crate::text::starts_with;
use crate::text::str_eq;
use crate::text::str_views;
use crate::text::strip_prefix;
use crate::text::views;
use vstd::prelude::*;

verus! {

// ---------------------------------------------------------------------------
// How a text is read
// ---------------------------------------------------------------------------

/// The first text under `name`.
pub open spec fn first_under(m: Map<Seq<char>, Seq<Seq<char>>>, name: Seq<char>) -> Option<
    Seq<char>,
> {
    if m.contains_key(name) && m[name].len() > 0 {
        Some(m[name][0])
    } else {
        None
    }
}

/// Whether a text stands for true: not empty, not `false` and not `0`.
pub open spec fn truthy(s: Seq<char>) -> bool {
    s.len() > 0 && s != "false"@ && s != "0"@
}

/// The signed integer that a text gives, or the error where the text is
/// missing or gives none between `lo` and `hi`.
pub open spec fn read_int(
    s: Option<Seq<char>>,
    lo: int,
    hi: int,
    missing: Seq<char>,
    invalid: Seq<char>,
) -> Result<int, ErrorView> {
    match s {
        None => Err(ErrorView::BadRequest(missing)),
        Some(t) => match parsed_int(t) {
            Some(n) => if lo <= n <= hi {
                Ok(n)
            } else {
                Err(ErrorView::BadRequest(invalid))
            },
            None => Err(ErrorView::BadRequest(invalid)),
        },
    }
}

/// The unsigned integer that a text gives, or the error where the text is
/// missing or gives none up to `hi`.
pub open spec fn read_nat(s: Option<Seq<char>>, hi: int, missing: Seq<char>, invalid: Seq<char>) -> Result<
    int,
    ErrorView,
> {
    match s {
        None => Err(ErrorView::BadRequest(missing)),
        Some(t) => match parsed_nat(t) {
            Some(n) => if n <= hi {
                Ok(n as int)
            } else {
                Err(ErrorView::BadRequest(invalid))
            },
            None => Err(ErrorView::BadRequest(invalid)),
        },
    }
}

/// What a reading of a signed integer came to.
pub open spec fn i64_view(r: Result<i64, WebError>) -> Result<int, ErrorView> {
    match r {
        Ok(n) => Ok(n as int),
        Err(e) => Err(e@),
    }
}

/// What a reading of an unsigned integer came to.
pub open spec fn u64_view(r: Result<u64, WebError>) -> Result<int, ErrorView> {
    match r {
        Ok(n) => Ok(n as int),
        Err(e) => Err(e@),
    }
}

/// What a reading of a short unsigned integer came to.
pub open spec fn u32_view(r: Result<u32, WebError>) -> Result<int, ErrorView> {
    match r {
        Ok(n) => Ok(n as int),
        Err(e) => Err(e@),
    }
}

/// What a reading of a text came to.
pub open spec fn text_view(r: Result<String, WebError>) -> Result<Seq<char>, ErrorView> {
    match r {
        Ok(s) => Ok(s@),
        Err(e) => Err(e@),
    }
}

/// What a reading of a JSON value came to.
pub open spec fn json_view(r: Result<serde_json::Value, WebError>) -> Result<JsonTree, ErrorView> {
    match r {
        Ok(v) => Ok(json_tree(v)),
        Err(e) => Err(e@),
    }
}

/// Whether a text stands for true.
pub fn is_truthy(s: &str) -> (r: bool)
    ensures
        r == truthy(s@),
        !r <==> s@ == Seq::<char>::empty() || s@ == "false"@ || s@ == "0"@,
{
    proof {
        law_three_texts_are_false(s@);
        reveal_strlit("");
        assert(s@ == ""@ ==> s@.len() == 0);
        assert(s@.len() == 0 ==> s@ =~= ""@);
    }
    !str_eq(s, "") && !str_eq(s, "false") && !str_eq(s, "0")
}

fn read_i64(text: Option<&str>, missing: &str, invalid: &str, name: &str) -> (r: Result<i64, WebError>)
    ensures
        i64_view(r) == read_int(
            str_option(text),
            i64::MIN as int,
            i64::MAX as int,
            missing@ + name@,
            invalid@ + name@,
        ),
{
    match text {
        None => Err(bad_request(missing, name)),
        Some(s) => match parse_i64(s) {
            Some(n) => Ok(n),
            None => Err(bad_request(invalid, name)),
        },
    }
}

fn read_u64(text: Option<&str>, missing: &str, invalid: &str, name: &str) -> (r: Result<u64, WebError>)
    ensures
        u64_view(r) == read_nat(
            str_option(text),
            u64::MAX as int,
            missing@ + name@,
            invalid@ + name@,
        ),
{
    match text {
        None => Err(bad_request(missing, name)),
        Some(s) => match parse_u64(s) {
            Some(n) => Ok(n),
            None => Err(bad_request(invalid, name)),
        },
    }
}

fn read_u32(text: Option<&str>, missing: &str, invalid: &str, name: &str) -> (r: Result<u32, WebError>)
    ensures
        u32_view(r) == read_nat(
            str_option(text),
            u32::MAX as int,
            missing@ + name@,
            invalid@ + name@,
        ),
{
    match text {
        None => Err(bad_request(missing, name)),
        Some(s) => match parse_u32(s) {
            Some(n) => Ok(n),
            None => Err(bad_request(invalid, name)),
        },
    }
}

/// The text of an optional string slice.
pub open spec fn str_option(s: Option<&str>) -> Option<Seq<char>> {
    match s {
        Some(s) => Some(s@),
        None => None,
    }
}

fn first_of<'a>(m: &'a StrMap<Vec<String>>, name: &str) -> (r: Option<&'a str>)
    ensures
        str_option(r) == first_under(multi(m@), name@),
{
    match m.get(name) {
        Some(values) => {
            assert(multi(m@)[name@] == views(values@));
            if values.len() > 0 {
                Some(values[0].as_str())
            } else {
                None
            }
        },
        None => None,
    }
}

fn all_of(m: &StrMap<Vec<String>>, name: &str) -> (r: Vec<String>)
    ensures
        views(r@) == values_under(multi(m@), name@),
{
    match m.get(name) {
        Some(values) => {
            assert(multi(m@)[name@] == views(values@));
            clone_strings(values)
        },
        None => {
            let none: Vec<String> = Vec::new();
            assert(views(none@) =~= Seq::<Seq<char>>::empty());
            none
        },
    }
}

/// A copy of bytes.
pub fn clone_bytes(v: &[u8]) -> (r: Vec<u8>)
    ensures
        r@ == v@,
{
    let mut out: Vec<u8> = Vec::new();
    let mut i: usize = 0;
    while i < v.len()
        invariant
            i <= v@.len(),
            out@ == v@.take(i as int),
        decreases v.len() - i,
    {
        out.push(v[i]);
        i = i + 1;
    }
    assert(v@.take(v@.len() as int) == v@);
    out
}

fn clone_json(v: &Option<serde_json::Value>) -> (r: Option<serde_json::Value>)
    ensures
        json_option(r) == json_option(*v),
{
    match v {
        Some(v) => Some(json_clone(v)),
        None => None,
    }
}

fn json_or_missing(v: &Option<serde_json::Value>) -> (r: Result<serde_json::Value, WebError>)
    ensures
        json_view(r) == body_or_missing(json_option(*v)),
{
    match v {
        Some(v) => Ok(json_clone(v)),
        None => Err(WebError::BadRequest("Missing JSON body".to_owned())),
    }
}

/// The JSON value of a body, or the error where there is none.
pub open spec fn body_or_missing(body: Option<JsonTree>) -> Result<JsonTree, ErrorView> {
    match body {
        Some(t) => Ok(t),
        None => Err(ErrorView::BadRequest("Missing JSON body"@)),
    }
}

// ---------------------------------------------------------------------------
// Parameters as they arrive
// ---------------------------------------------------------------------------

/// The parameters of a request: the verb, the query with every value of each
/// name in the order of the request, the body as JSON where it is JSON, the
/// bytes of the body, and the headers by lower-case name.
pub struct Params {
    verb: Verb,
    query: StrMap<Vec<String>>,
    body: Option<serde_json::Value>,
    raw_body: Vec<u8>,
    headers: StrMap<Vec<String>>,
}

/// What the parameters of a request hold.
pub struct ParamsView {
    pub verb: Verb,
    pub query: Map<Seq<char>, Seq<Seq<char>>>,
    /// The names of the query, each once.
    pub query_names: Seq<Seq<char>>,
    pub body: Option<JsonTree>,
    pub raw_body: Seq<u8>,
    pub headers: Map<Seq<char>, Seq<Seq<char>>>,
}

impl View for Params {
    type V = ParamsView;

    closed spec fn view(&self) -> ParamsView {
        ParamsView {
            verb: self.verb,
            query: multi(self.query@),
            query_names: self.query.names(),
            body: json_option(self.body),
            raw_body: self.raw_body@,
            headers: multi(self.headers@),
        }
    }
}

/// The names that are not expected, in order.
pub open spec fn unexpected_names(names: Seq<Seq<char>>, expected: Seq<Seq<char>>) -> Seq<Seq<char>>
    decreases names.len(),
{
    if names.len() == 0 {
        Seq::empty()
    } else if expected.contains(names.last()) {
        unexpected_names(names.drop_last(), expected)
    } else {
        unexpected_names(names.drop_last(), expected).push(names.last())
    }
}

/// The token behind a `Bearer ` prefix.
pub open spec fn bearer_of(header: Option<Seq<char>>) -> Option<Seq<char>> {
    match header {
        Some(h) => if starts_with(h, "Bearer "@) {
            Some(h.skip(7))
        } else {
            None
        },
        None => None,
    }
}

impl Params {
    /// The parameters made of their parts.
    pub fn new(
        verb: Verb,
        query: StrMap<Vec<String>>,
        body: Option<serde_json::Value>,
        raw_body: Vec<u8>,
        headers: StrMap<Vec<String>>,
    ) -> (r: Self)
        ensures
            r@ == (ParamsView {
                verb,
                query: multi(query@),
                query_names: query.names(),
                body: json_option(body),
                raw_body: raw_body@,
                headers: multi(headers@),
            }),
    {
        Params { verb, query, body, raw_body, headers }
    }

    /// The whole query.
    pub fn query(&self) -> (r: &StrMap<Vec<String>>)
        ensures
            multi(r@) == self@.query,
            r.names() == self@.query_names,
    {
        &self.query
    }

    /// The bytes of the body, as they arrived.
    pub fn body_bytes(&self) -> (r: &[u8])
        ensures
            r@ == self@.raw_body,
    {
        self.raw_body.as_slice()
    }

    /// The verb of the request.
    pub fn verb(&self) -> (r: Verb)
        ensures
            r == self@.verb,
    {
        self.verb
    }

    /// The first value of a header, whatever the case of its name.
    pub fn header(&self, name: &str) -> (r: Option<&str>)
        ensures
            str_option(r) == first_under(self@.headers, lower(name@)),
    {
        first_of(&self.headers, lower_str(name).as_str())
    }

    /// Every value of a header, in the order of the request.
    pub fn header_all(&self, name: &str) -> (r: &[String])
        ensures
            views(r@) == values_under(self@.headers, lower(name@)),
    {
        match self.headers.get(lower_str(name).as_str()) {
            Some(values) => {
                assert(multi(self.headers@)[lower(name@)] == views(values@));
                values.as_slice()
            },
            None => {
                assert(views(Seq::<String>::empty()) =~= Seq::<Seq<char>>::empty());
                &[]
            },
        }
    }

    /// The token of an `Authorization` header that starts with `Bearer `.
    pub fn bearer_token(&self) -> (r: Option<String>)
        ensures
            crate::error::text_option(r) == bearer_of(
                first_under(self@.headers, "authorization"@),
            ),
    {
        proof {
            reveal_strlit("authorization");
            reveal_strlit("Bearer ");
            assert(lower("authorization"@) =~= "authorization"@);
        }
        match self.header("authorization") {
            Some(auth) => strip_prefix(auth, "Bearer "),
            None => None,
        }
    }

    /// The first value of a query parameter, or a `400` where it is missing.
    pub fn require(&self, name: &str) -> (r: Result<&str, WebError>)
        ensures
            match r {
                Ok(s) => first_under(self@.query, name@) == Some(s@),
                Err(e) => first_under(self@.query, name@) is None && e@ == ErrorView::BadRequest(
                    "Missing required parameter: "@ + name@,
                ),
            },
    {
        match first_of(&self.query, name) {
            Some(s) => Ok(s),
            None => Err(bad_request("Missing required parameter: ", name)),
        }
    }

    /// The first value of a query parameter.
    pub fn get_optional(&self, name: &str) -> (r: Option<&str>)
        ensures
            str_option(r) == first_under(self@.query, name@),
    {
        first_of(&self.query, name)
    }

    /// A query parameter as a signed integer.
    pub fn get_int(&self, name: &str) -> (r: Result<i64, WebError>)
        ensures
            i64_view(r) == read_int(
                first_under(self@.query, name@),
                i64::MIN as int,
                i64::MAX as int,
                "Missing required parameter: "@ + name@,
                "Invalid integer: "@ + name@,
            ),
    {
        read_i64(
            first_of(&self.query, name),
            "Missing required parameter: ",
            "Invalid integer: ",
            name,
        )
    }

    /// A query parameter as a signed integer, where it is there.
    pub fn get_int_optional(&self, name: &str) -> (r: Result<Option<i64>, WebError>)
        ensures
            match first_under(self@.query, name@) {
                None => r == Ok::<Option<i64>, WebError>(None),
                Some(s) => match r {
                    Ok(Some(n)) => parsed_int(s) == Some(n as int),
                    Ok(None) => false,
                    Err(e) => !(parsed_int(s) matches Some(n) && i64::MIN <= n <= i64::MAX) && e@
                        == ErrorView::BadRequest("Invalid integer: "@ + name@),
                },
            },
    {
        match first_of(&self.query, name) {
            Some(s) => match parse_i64(s) {
                Some(n) => Ok(Some(n)),
                None => Err(bad_request("Invalid integer: ", name)),
            },
            None => Ok(None),
        }
    }

    /// A query parameter as an unsigned integer.
    pub fn get_u64(&self, name: &str) -> (r: Result<u64, WebError>)
        ensures
            u64_view(r) == read_nat(
                first_under(self@.query, name@),
                u64::MAX as int,
                "Missing required parameter: "@ + name@,
                "Invalid u64: "@ + name@,
            ),
    {
        read_u64(
            first_of(&self.query, name),
            "Missing required parameter: ",
            "Invalid u64: ",
            name,
        )
    }

    /// A query parameter as an unsigned integer, where it is there.
    pub fn get_u64_optional(&self, name: &str) -> (r: Result<Option<u64>, WebError>)
        ensures
            match first_under(self@.query, name@) {
                None => r == Ok::<Option<u64>, WebError>(None),
                Some(s) => match r {
                    Ok(Some(n)) => parsed_nat(s) == Some(n as nat),
                    Ok(None) => false,
                    Err(e) => !(parsed_nat(s) matches Some(n) && n <= u64::MAX) && e@
                        == ErrorView::BadRequest("Invalid u64: "@ + name@),
                },
            },
    {
        match first_of(&self.query, name) {
            Some(s) => match parse_u64(s) {
                Some(n) => Ok(Some(n)),
                None => Err(bad_request("Invalid u64: ", name)),
            },
            None => Ok(None),
        }
    }

    /// A query parameter as a short unsigned integer.
    pub fn get_u32(&self, name: &str) -> (r: Result<u32, WebError>)
        ensures
            u32_view(r) == read_nat(
                first_under(self@.query, name@),
                u32::MAX as int,
                "Missing required parameter: "@ + name@,
                "Invalid u32: "@ + name@,
            ),
    {
        read_u32(
            first_of(&self.query, name),
            "Missing required parameter: ",
            "Invalid u32: ",
            name,
        )
    }

    /// A query parameter as a short unsigned integer, where it is there.
    pub fn get_u32_optional(&self, name: &str) -> (r: Result<Option<u32>, WebError>)
        ensures
            match first_under(self@.query, name@) {
                None => r == Ok::<Option<u32>, WebError>(None),
                Some(s) => match r {
                    Ok(Some(n)) => parsed_nat(s) == Some(n as nat),
                    Ok(None) => false,
                    Err(e) => !(parsed_nat(s) matches Some(n) && n <= u32::MAX) && e@
                        == ErrorView::BadRequest("Invalid u32: "@ + name@),
                },
            },
    {
        match first_of(&self.query, name) {
            Some(s) => match parse_u32(s) {
                Some(n) => Ok(Some(n)),
                None => Err(bad_request("Invalid u32: ", name)),
            },
            None => Ok(None),
        }
    }

    /// A query parameter as a truth value; a missing one is false.
    pub fn get_bool(&self, name: &str) -> (r: bool)
        ensures
            r == (first_under(self@.query, name@) matches Some(s) && truthy(s)),
            !r <==> match first_under(self@.query, name@) {
                Some(s) => s == Seq::<char>::empty() || s == "false"@ || s == "0"@,
                None => true,
            },
    {
        match first_of(&self.query, name) {
            Some(s) => is_truthy(s),
            None => false,
        }
    }

    /// A query parameter as a truth value, where it is there.
    pub fn get_bool_optional(&self, name: &str) -> (r: Option<bool>)
        ensures
            r == match first_under(self@.query, name@) {
                Some(s) => Some(truthy(s)),
                None => None,
            },
            r == Some(false) <==> (first_under(self@.query, name@) matches Some(s) && (s == Seq::<
                char,
            >::empty() || s == "false"@ || s == "0"@)),
    {
        match first_of(&self.query, name) {
            Some(s) => Some(is_truthy(s)),
            None => None,
        }
    }

    /// Every value of a query parameter, in the order of the request.
    pub fn get_all(&self, name: &str) -> (r: Result<Vec<String>, WebError>)
        ensures
            r matches Ok(values) && views(values@) == values_under(self@.query, name@),
    {
        Ok(all_of(&self.query, name))
    }

    /// Every value of a query parameter, where its name occurs.
    pub fn get_all_optional(&self, name: &str) -> (r: Option<Vec<String>>)
        ensures
            match r {
                Some(values) => self@.query.contains_key(name@) && views(values@)
                    == self@.query[name@],
                None => !self@.query.contains_key(name@),
            },
    {
        match self.query.get(name) {
            Some(values) => {
                assert(multi(self.query@)[name@] == views(values@));
                Some(clone_strings(values))
            },
            None => None,
        }
    }

    /// The JSON value of the body, or a `400` where there is none.
    pub fn json_body(&self) -> (r: Result<serde_json::Value, WebError>)
        ensures
            json_view(r) == body_or_missing(self@.body),
    {
        json_or_missing(&self.body)
    }

    /// The names of the query that are not expected, if there are any.
    pub fn check_unexpected(&self, expected: &[&str]) -> (r: Option<Vec<String>>)
        ensures
            match r {
                Some(names) => names@.len() > 0 && views(names@) == unexpected_names(
                    self@.query_names,
                    str_views(expected@),
                ),
                None => unexpected_names(self@.query_names, str_views(expected@)).len() == 0,
            },
    {
        let names = self.query.keys();
        let ghost all = views(names@);
        let ghost known = str_views(expected@);
        let mut out: Vec<String> = Vec::new();
        let mut i: usize = 0;
        assert(all.take(0) =~= Seq::<Seq<char>>::empty());
        assert(views(out@) =~= Seq::<Seq<char>>::empty());
        while i < names.len()
            invariant
                i <= names@.len(),
                all == views(names@),
                known == str_views(expected@),
                views(out@) == unexpected_names(all.take(i as int), known),
            decreases names.len() - i,
        {
            assert(all.take(i as int + 1).drop_last() == all.take(i as int));
            assert(all.take(i as int + 1).last() == names@[i as int]@);
            if !listed(expected, names[i].as_str()) {
                let ghost prev = out@;
                out.push(names[i].clone());
                assert(views(out@) =~= views(prev).push(names@[i as int]@));
            }
            i = i + 1;
        }
        assert(all.take(all.len() as int) == all);
        assert(views(out@).len() == out@.len());
        if out.len() == 0 {
            None
        } else {
            Some(out)
        }
    }
}

/// Whether `name` is one of the texts.
pub fn listed(texts: &[&str], name: &str) -> (r: bool)
    ensures
        r == str_views(texts@).contains(name@),
{
    let mut i: usize = 0;
    while i < texts.len()
        invariant
            i <= texts@.len(),
            forall|j: int| 0 <= j < i ==> (#[trigger] str_views(texts@)[j]) != name@,
        decreases texts.len() - i,
    {
        if str_eq(texts[i], name) {
            assert(str_views(texts@)[i as int] == name@);
            return true;
        }
        i = i + 1;
    }
    false
}

// ---------------------------------------------------------------------------
// Parameters of a route
// ---------------------------------------------------------------------------

/// The parameters of a route that was found: what the pattern captured of the
/// path, the declared part of the query, and the body.
#[derive(Debug)]
pub struct ExtractedParams {
    path: StrMap<String>,
    query: StrMap<Vec<String>>,
    body: Option<serde_json::Value>,
    raw_body: Vec<u8>,
}

/// What the parameters of a route hold.
pub struct ExtractedView {
    pub path: Map<Seq<char>, Seq<char>>,
    pub query: Map<Seq<char>, Seq<Seq<char>>>,
    pub body: Option<JsonTree>,
    pub raw_body: Seq<u8>,
}

impl View for ExtractedParams {
    type V = ExtractedView;

    closed spec fn view(&self) -> ExtractedView {
        ExtractedView {
            path: single(self.path@),
            query: multi(self.query@),
            body: json_option(self.body),
            raw_body: self.raw_body@,
        }
    }
}

/// The one text of `name`: what the path captured under it, or else the first
/// value of the query.
pub open spec fn scalar_of(v: ExtractedView, name: Seq<char>) -> Option<Seq<char>> {
    if v.path.contains_key(name) {
        Some(v.path[name])
    } else {
        first_under(v.query, name)
    }
}

impl ExtractedParams {
    /// The parameters made of captures and the declared part of a query, with
    /// the body of the request.
    pub(crate) fn assemble(
        path: StrMap<String>,
        query: StrMap<Vec<String>>,
        params: &Params,
    ) -> (r: Self)
        ensures
            r@ == (ExtractedView {
                path: single(path@),
                query: multi(query@),
                body: params@.body,
                raw_body: params@.raw_body,
            }),
    {
        ExtractedParams {
            path,
            query,
            body: clone_json(&params.body),
            raw_body: clone_bytes(&params.raw_body),
        }
    }

    /// The text of a parameter, where it is there.
    pub fn get_text(&self, name: &str) -> (r: Option<&str>)
        ensures
            str_option(r) == scalar_of(self@, name@),
    {
        match self.path.get(name) {
            Some(s) => Some(s.as_str()),
            None => first_of(&self.query, name),
        }
    }

    /// A parameter as a text, or a `400` where it is missing.
    pub fn get_string(&self, name: &str) -> (r: Result<String, WebError>)
        ensures
            text_view(r) == match scalar_of(self@, name@) {
                Some(s) => Ok::<Seq<char>, ErrorView>(s),
                None => Err(ErrorView::BadRequest("Missing parameter: "@ + name@)),
            },
    {
        match self.get_text(name) {
            Some(s) => Ok(s.to_owned()),
            None => Err(bad_request("Missing parameter: ", name)),
        }
    }

    /// A parameter as a signed integer.
    pub fn get_i64(&self, name: &str) -> (r: Result<i64, WebError>)
        ensures
            i64_view(r) == read_int(
                scalar_of(self@, name@),
                i64::MIN as int,
                i64::MAX as int,
                "Missing parameter: "@ + name@,
                "Invalid integer: "@ + name@,
            ),
    {
        read_i64(self.get_text(name), "Missing parameter: ", "Invalid integer: ", name)
    }

    /// A parameter as an unsigned integer.
    pub fn get_u64(&self, name: &str) -> (r: Result<u64, WebError>)
        ensures
            u64_view(r) == read_nat(
                scalar_of(self@, name@),
                u64::MAX as int,
                "Missing parameter: "@ + name@,
                "Invalid u64: "@ + name@,
            ),
    {
        read_u64(self.get_text(name), "Missing parameter: ", "Invalid u64: ", name)
    }

    /// A parameter as a short unsigned integer.
    pub fn get_u32(&self, name: &str) -> (r: Result<u32, WebError>)
        ensures
            u32_view(r) == read_nat(
                scalar_of(self@, name@),
                u32::MAX as int,
                "Missing parameter: "@ + name@,
                "Invalid u32: "@ + name@,
            ),
    {
        read_u32(self.get_text(name), "Missing parameter: ", "Invalid u32: ", name)
    }

    /// A parameter as a truth value; a missing one is false.
    pub fn get_bool(&self, name: &str) -> (r: Result<bool, WebError>)
        ensures
            r matches Ok(b) && b == (scalar_of(self@, name@) matches Some(s) && truthy(s)),
            r == Ok::<bool, WebError>(false) <==> match scalar_of(self@, name@) {
                Some(s) => s == Seq::<char>::empty() || s == "false"@ || s == "0"@,
                None => true,
            },
    {
        match self.get_text(name) {
            Some(s) => Ok(is_truthy(s)),
            None => Ok(false),
        }
    }

    /// Every value of a parameter, in the order of the request.
    pub fn get_string_array(&self, name: &str) -> (r: Result<Vec<String>, WebError>)
        ensures
            r matches Ok(values) && views(values@) == values_under(self@.query, name@),
    {
        Ok(all_of(&self.query, name))
    }

    /// The JSON value of the body, or a `400` where there is none.
    pub fn get_json_body(&self) -> (r: Result<serde_json::Value, WebError>)
        ensures
            json_view(r) == body_or_missing(self@.body),
    {
        json_or_missing(&self.body)
    }

    /// The bytes of the body.
    pub fn get_body_bytes(&self) -> (r: Vec<u8>)
        ensures
            r@ == self@.raw_body,
    {
        clone_bytes(&self.raw_body)
    }
}

// ---------------------------------------------------------------------------
// Laws
// ---------------------------------------------------------------------------

/// Exactly three texts stand for false: the empty one, `false` and `0`. Every
/// other text stands for true.
pub proof fn law_three_texts_are_false(s: Seq<char>)
    ensures
        !truthy(s) <==> {
            ||| s == Seq::<char>::empty()
            ||| s == seq!['f', 'a', 'l', 's', 'e']
            ||| s == seq!['0']
        },
{
    reveal_strlit("false");
    reveal_strlit("0");
    assert("false"@ =~= seq!['f', 'a', 'l', 's', 'e']);
    assert("0"@ =~= seq!['0']);
    assert(s.len() == 0 ==> s =~= Seq::<char>::empty());
}

/// A number in decimal is read as that number where it lies within the bounds,
/// and refused where it does not; a missing one is refused with the other text.
pub proof fn law_integers_are_read(
    n: nat,
    lo: int,
    hi: int,
    missing: Seq<char>,
    invalid: Seq<char>,
)
    ensures
        read_int(Some(decimal(n)), lo, hi, missing, invalid) == if lo <= n <= hi {
            Ok::<int, ErrorView>(n as int)
        } else {
            Err(ErrorView::BadRequest(invalid))
        },
        read_int(Some(seq!['-'] + decimal(n)), lo, hi, missing, invalid) == if lo <= -(n as int)
            <= hi {
            Ok::<int, ErrorView>(-(n as int))
        } else {
            Err(ErrorView::BadRequest(invalid))
        },
        read_nat(Some(decimal(n)), hi, missing, invalid) == if n <= hi {
            Ok::<int, ErrorView>(n as int)
        } else {
            Err(ErrorView::BadRequest(invalid))
        },
        read_nat(Some(seq!['-'] + decimal(n)), hi, missing, invalid) == Err::<int, ErrorView>(
            ErrorView::BadRequest(invalid),
        ),
        read_int(None, lo, hi, missing, invalid) == Err::<int, ErrorView>(
            ErrorView::BadRequest(missing),
        ),
        read_nat(None, hi, missing, invalid) == Err::<int, ErrorView>(
            ErrorView::BadRequest(missing),
        ),
{
    law_decimal_reads_back(n);
    law_signs_are_read(n);
}

/// A text with anything but digits behind its sign is refused as a number.
pub proof fn law_other_texts_are_no_integers(
    s: Seq<char>,
    k: int,
    lo: int,
    hi: int,
    missing: Seq<char>,
    invalid: Seq<char>,
)
    requires
        0 <= k < s.len(),
        !('0' <= s[k] <= '9'),
        k > 0 || (s[0] != '+' && s[0] != '-') || s.len() == 1,
    ensures
        read_int(Some(s), lo, hi, missing, invalid) == Err::<int, ErrorView>(
            ErrorView::BadRequest(invalid),
        ),
        read_nat(Some(s), hi, missing, invalid) == Err::<int, ErrorView>(
            ErrorView::BadRequest(invalid),
        ),
{
    law_only_digits_are_numbers(s);
}

/// The token is all that stands behind `Bearer ` and its one blank, and a
/// header that does not begin so has none.
pub proof fn law_the_token_follows_the_scheme(token: Seq<char>, header: Seq<char>)
    ensures
        bearer_of(Some(seq!['B', 'e', 'a', 'r', 'e', 'r', ' '] + token)) == Some(token),
        bearer_of(Some(header)) matches Some(t) ==> header == seq![
            'B',
            'e',
            'a',
            'r',
            'e',
            'r',
            ' ',
        ] + t,
        bearer_of(None) is None,
{
    reveal_strlit("Bearer ");
    let scheme = seq!['B', 'e', 'a', 'r', 'e', 'r', ' '];
    assert("Bearer "@ =~= scheme);
    assert((scheme + token).take(7) =~= scheme);
    assert((scheme + token).skip(7) =~= token);
    if starts_with(header, scheme) {
        assert(header =~= header.take(7) + header.skip(7));
    }
}

/// What the path gives for a name hides the query; otherwise the first value
/// that the query has under it counts, and later ones do not.
pub proof fn law_the_path_comes_first(v: ExtractedView, name: Seq<char>)
    ensures
        v.path.contains_key(name) ==> scalar_of(v, name) == Some(v.path[name]),
        !v.path.contains_key(name) && v.query.contains_key(name) && v.query[name].len() > 0
            ==> scalar_of(v, name) == Some(v.query[name][0]),
        scalar_of(v, name) is None <==> !v.path.contains_key(name) && !(v.query.contains_key(name)
            && v.query[name].len() > 0),
{
}

/// The names that are not expected are found, all of them, in their order and
/// as often as they stand there.
pub proof fn law_unexpected_names_are_found(names: Seq<Seq<char>>, expected: Seq<Seq<char>>)
    ensures
        unexpected_names(names, expected) == names.filter(|n: Seq<char>| !expected.contains(n)),
    decreases names.len(),
{
    let other = |n: Seq<char>| !expected.contains(n);
    reveal(Seq::filter);
    if names.len() > 0 {
        law_unexpected_names_are_found(names.drop_last(), expected);
    }
}

/// What a reader is handed shows as what it is: a number as that number, a text
/// as its characters, and an error as that error.
pub proof fn law_what_is_handed_out(
    n: i64,
    m: u64,
    k: u32,
    s: String,
    e: WebError,
    body: Option<JsonTree>,
)
    ensures
        i64_view(Ok(n)) == Ok::<int, ErrorView>(n as int),
        u64_view(Ok(m)) == Ok::<int, ErrorView>(m as int),
        u32_view(Ok(k)) == Ok::<int, ErrorView>(k as int),
        text_view(Ok(s)) == Ok::<Seq<char>, ErrorView>(s@),
        i64_view(Err(e)) == Err::<int, ErrorView>(e@),
        u64_view(Err(e)) == Err::<int, ErrorView>(e@),
        u32_view(Err(e)) == Err::<int, ErrorView>(e@),
        text_view(Err(e)) == Err::<Seq<char>, ErrorView>(e@),
        body matches Some(tree) ==> body_or_missing(body) == Ok::<JsonTree, ErrorView>(tree),
        body is None ==> body_or_missing(body) == Err::<JsonTree, ErrorView>(
            ErrorView::BadRequest("Missing JSON body"@),
        ),
{
}

} // verus!
