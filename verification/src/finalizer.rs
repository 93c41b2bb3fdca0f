//! Turning a reply into a response: its status, its headers and its body.

use crate::durations::duration_nanos;
use crate::durations::whole_seconds;
use crate::error::ErrorView;
use crate::error::ProblemDetails;
use crate::error::ProblemView;
use crate::error::WebError;
use crate::headers::check_header_value;
use crate::headers::has_room;
use crate::headers::header_contents;
use crate::headers::header_insert;
use crate::headers::headers_new;
use crate::headers::is_header_name;
use crate::headers::is_header_value;
use crate::headers::is_printable;
use crate::headers::no_headers;
use crate::headers::parse_header_name;
use crate::headers::Contents;
use crate::headers::MAX_HEADER_NAMES;
use crate::json::entry_members;
use crate::json::json_members;
use crate::json::json_object;
use crate::json::json_string;
use crate::json::json_strings;
use crate::json::json_text;
use crate::json::json_to_vec;
use crate::json::json_tree;
use crate::json::json_u64;
use crate::json::map_entries;
use crate::json::map_insert;
use crate::json::map_new;
use crate::json::JsonTree;
use crate::numbers::decimal;
use crate::numbers::u64_to_string;
use crate::reply::ReplyData;
use crate::reply::ReplySpec;
use crate::reply::ReplyView;
use crate::reply::SpecView;
use crate::status::StatusCode;
use crate::strmap::entry_names;
use crate::strmap::single;
use crate::strmap::StrMap;
use crate::text::join;
use crate::text::lower;
use crate::text::push_text;
use crate::text::str_eq;
use crate::text::str_views;
use std::time::Duration;
use vstd::prelude::*;

verus! {

// ---------------------------------------------------------------------------
// Errors
// ---------------------------------------------------------------------------

/// The seconds that a client is told to wait: the whole seconds of the span,
/// but at least one where the span is not zero.
pub open spec fn retry_seconds(d: Duration) -> nat {
    if whole_seconds(d) == 0 && duration_nanos(d) > 0 {
        1
    } else {
        whole_seconds(d)
    }
}

/// A problem with a status and a title alone.
pub open spec fn plain_problem(status: int, title: Seq<char>) -> ProblemView {
    ProblemView { status, title, detail: None, extra: Map::empty() }
}

/// The further members of a problem that names how long to wait.
pub open spec fn retry_members(d: Option<Duration>) -> Map<Seq<char>, JsonTree> {
    match d {
        Some(d) => Map::empty().insert(
            "retry_after_seconds"@,
            JsonTree::Int(retry_seconds(d) as int),
        ),
        None => Map::empty(),
    }
}

/// The problem that an error tells of.
pub open spec fn problem_of(e: ErrorView) -> ProblemView {
    match e {
        ErrorView::NotFound => plain_problem(404, "Not Found"@),
        ErrorView::MethodNotAllowed(methods) => ProblemView {
            extra: Map::empty().insert(
                "allowed_methods"@,
                JsonTree::Array(methods.map_values(|m: Seq<char>| JsonTree::Str(m))),
            ),
            ..plain_problem(405, "Method Not Allowed"@)
        },
        ErrorView::BadRequest(msg) => ProblemView {
            detail: Some(msg),
            ..plain_problem(400, "Bad Request"@)
        },
        ErrorView::PayloadTooLarge => plain_problem(413, "Payload Too Large"@),
        ErrorView::TooManyRequests(d) => ProblemView {
            extra: retry_members(d),
            ..plain_problem(429, "Too Many Requests"@)
        },
        ErrorView::Timeout => ProblemView {
            detail: Some("the request did not complete within the configured timeout"@),
            ..plain_problem(504, "Gateway Timeout"@)
        },
        ErrorView::Busy(d) => ProblemView {
            detail: Some("server is overloaded"@),
            extra: retry_members(d),
            ..plain_problem(503, "Service Unavailable"@)
        },
        ErrorView::Unauthorized => plain_problem(401, "Unauthorized"@),
        ErrorView::Forbidden => plain_problem(403, "Forbidden"@),
        ErrorView::Internal(msg) => ProblemView {
            detail: Some(msg),
            ..plain_problem(500, "Internal Server Error"@)
        },
        ErrorView::Problem(p) => p,
    }
}

/// Whether a name is that of a standard member.
pub open spec fn is_standard(name: Seq<char>) -> bool {
    name == "status"@ || name == "title"@ || name == "detail"@
}

/// The members of the document for a problem: the standard ones, and those
/// further ones that are not named like a standard one.
pub open spec fn problem_members(p: ProblemView) -> Map<Seq<char>, JsonTree> {
    let base = Map::empty().insert("status"@, JsonTree::Int(p.status)).insert(
        "title"@,
        JsonTree::Str(p.title),
    );
    let standard = match p.detail {
        Some(d) => base.insert("detail"@, JsonTree::Str(d)),
        None => base,
    };
    standard.union_prefer_right(
        p.extra.restrict(Set::new(|name: Seq<char>| !is_standard(name))),
    )
}

/// The headers of the reply to an error: the methods of a `405`, and how long
/// to wait where that is known.
pub open spec fn error_headers(e: ErrorView) -> Map<Seq<char>, Seq<char>> {
    match e {
        ErrorView::MethodNotAllowed(methods) => Map::empty().insert(
            "Allow"@,
            join(methods, ", "@),
        ),
        ErrorView::TooManyRequests(Some(d)) => Map::empty().insert(
            "Retry-After"@,
            decimal(retry_seconds(d)),
        ),
        ErrorView::Busy(Some(d)) => Map::empty().insert(
            "Retry-After"@,
            decimal(retry_seconds(d)),
        ),
        _ => Map::empty(),
    }
}

/// The reply to an error: a problem document under the status of the error.
pub open spec fn error_reply<S, U>(e: ErrorView) -> ReplyView<S, U> {
    ReplyView::Rich(
        Box::new(
            SpecView {
                payload: ReplyView::Bytes {
                    content_type: "application/problem+json"@,
                    data: json_text(JsonTree::Object(problem_members(problem_of(e)))),
                },
                status: Some(problem_of(e).status),
                headers: error_headers(e),
            },
        ),
    )
}

fn seconds_to_wait(d: &Duration) -> (r: u64)
    ensures
        r == retry_seconds(*d),
{
    let secs: u64 = d.as_secs();
    let nanos: u32 = d.subsec_nanos();
    if secs == 0 && nanos > 0 {
        1
    } else {
        secs
    }
}

fn join_tokens(parts: &[&'static str], sep: &str) -> (r: String)
    ensures
        r@ == join(str_views(parts@), sep@),
{
    let mut out = String::new();
    let ghost all = str_views(parts@);
    let mut i: usize = 0;
    assert(all.take(0) == Seq::<Seq<char>>::empty());
    while i < parts.len()
        invariant
            i <= parts@.len(),
            all == str_views(parts@),
            out@ == join(all.take(i as int), sep@),
        decreases parts.len() - i,
    {
        assert(all.take(i as int + 1).drop_last() == all.take(i as int));
        assert(all.take(i as int + 1).last() == parts@[i as int]@);
        if i > 0 {
            push_text(&mut out, sep);
        }
        push_text(&mut out, parts[i]);
        assert(i == 0 ==> out@ =~= parts@[0]@);
        i = i + 1;
    }
    assert(all.take(all.len() as int) == all);
    out
}

/// The members of the document for a problem.
fn problem_document(p: ProblemDetails) -> (r: serde_json::Map<String, serde_json::Value>)
    ensures
        json_members(r) == problem_members(p@),
{
    let ghost view = p@;
    let mut body = map_new();
    map_insert(&mut body, "status".to_owned(), json_u64(p.status.as_u16() as u64));
    map_insert(&mut body, "title".to_owned(), json_string(p.title));
    if let Some(d) = p.detail {
        map_insert(&mut body, "detail".to_owned(), json_string(d));
    }
    let ghost standard = json_members(body);
    let entries = map_entries(*p.extra);
    let ghost all = entries@;
    let ghost keep = Set::new(|name: Seq<char>| !is_standard(name));
    let mut entries = entries;
    // The entries are taken from the end, so that each value can be moved.
    assert(all.skip(all.len() as int) =~= Seq::<(String, serde_json::Value)>::empty());
    assert(standard.union_prefer_right(entry_members(all.skip(all.len() as int)).restrict(keep))
        =~= standard);
    while entries.len() > 0
        invariant
            entries@.len() <= all.len(),
            entries@ == all.take(entries@.len() as int),
            entry_names(all).no_duplicates(),
            keep == Set::new(|name: Seq<char>| !is_standard(name)),
            json_members(body) == standard.union_prefer_right(
                entry_members(all.skip(entries@.len() as int)).restrict(keep),
            ),
        decreases entries.len(),
    {
        let ghost n = entries@.len() as int;
        if let Some((name, value)) = entries.pop() {
            let ghost key = name@;
            let ghost tree = json_tree(value);
            proof {
                lemma_entry_first(all, n - 1);
                assert(all[n - 1].0@ == key && json_tree(all[n - 1].1) == tree);
                assert(entries@ =~= all.take(n - 1));
            }
            if !(str_eq(name.as_str(), "status") || str_eq(name.as_str(), "title") || str_eq(
                name.as_str(),
                "detail",
            )) {
                map_insert(&mut body, name, value);
            }
            assert(json_members(body) =~= standard.union_prefer_right(
                entry_members(all.skip(n - 1)).restrict(keep),
            ));
        }
    }
    assert(all.skip(0) =~= all);
    assert(view.extra == entry_members(all));
    assert(json_members(body) =~= problem_members(view));
    body
}

/// The members of a list of entries with different names, when one is added
/// in front.
proof fn lemma_entry_first(entries: Seq<(String, serde_json::Value)>, i: int)
    requires
        0 <= i < entries.len(),
        entry_names(entries).no_duplicates(),
    ensures
        !entry_members(entries.skip(i + 1)).contains_key(entries[i].0@),
        entry_members(entries.skip(i)) == entry_members(entries.skip(i + 1)).insert(
            entries[i].0@,
            json_tree(entries[i].1),
        ),
{
    lemma_entry_first_upto(entries, i, entries.len() as int);
    assert(entries.subrange(i, entries.len() as int) =~= entries.skip(i));
    assert(entries.subrange(i + 1, entries.len() as int) =~= entries.skip(i + 1));
}

proof fn lemma_entry_first_upto(entries: Seq<(String, serde_json::Value)>, i: int, k: int)
    requires
        0 <= i < k <= entries.len(),
        entry_names(entries).no_duplicates(),
    ensures
        !entry_members(entries.subrange(i + 1, k)).contains_key(entries[i].0@),
        entry_members(entries.subrange(i, k)) == entry_members(
            entries.subrange(i + 1, k),
        ).insert(entries[i].0@, json_tree(entries[i].1)),
    decreases k,
{
    let a = entries.subrange(i, k);
    let b = entries.subrange(i + 1, k);
    if k == i + 1 {
        assert(b =~= Seq::<(String, serde_json::Value)>::empty());
        assert(a.drop_last() =~= b);
    } else {
        lemma_entry_first_upto(entries, i, k - 1);
        assert(a.drop_last() =~= entries.subrange(i, k - 1));
        assert(b.drop_last() =~= entries.subrange(i + 1, k - 1));
        assert(entry_names(entries)[i] != entry_names(entries)[k - 1]);
        assert(entry_members(a) =~= entry_members(b).insert(
            entries[i].0@,
            json_tree(entries[i].1),
        ));
    }
}

// ---------------------------------------------------------------------------
// Responses
// ---------------------------------------------------------------------------

/// The body of a response.
#[derive(Debug)]
pub enum Body<S> {
    /// Bytes that are there as a whole.
    Full(Vec<u8>),
    /// Bytes that come chunk by chunk.
    Stream(S),
}

/// A response, ready to be sent.
#[derive(Debug)]
pub struct ResponseParts<S> {
    /// The status.
    pub status: StatusCode,
    /// The headers.
    pub headers: http::HeaderMap,
    /// The body.
    pub body: Body<S>,
}

/// What the body of a response says.
pub enum BodyView<S> {
    Full(Seq<u8>),
    Stream(S),
}

/// What a response says.
pub struct ResponseView<S> {
    pub status: int,
    pub headers: Contents,
    pub body: BodyView<S>,
}

impl<S> View for ResponseParts<S> {
    type V = ResponseView<S>;

    open spec fn view(&self) -> ResponseView<S> {
        ResponseView {
            status: self.status@,
            headers: header_contents(self.headers),
            body: match self.body {
                Body::Full(data) => BodyView::Full(data@),
                Body::Stream(s) => BodyView::Stream(s),
            },
        }
    }
}

/// The bytes of a text.
pub open spec fn utf8(s: Seq<char>) -> Seq<u8> {
    vstd::utf8::encode_utf8(s)
}

/// Whether a pair of texts makes a header.
pub open spec fn makes_header(name: Seq<char>, value: Seq<char>) -> bool {
    is_header_name(name) && is_header_value(utf8(value))
}

/// Whether a name of `headers` makes the header `stored` of a response.
pub open spec fn gives(
    headers: Map<Seq<char>, Seq<char>>,
    name: Seq<char>,
    stored: Seq<char>,
) -> bool {
    headers.contains_key(name) && makes_header(name, headers[name]) && lower(name) == stored
}

/// Whether the header `stored` of `after` is the one that `headers` give, or
/// else the one of `before`. Of several pairs whose names differ in case
/// alone, one counts.
pub open spec fn merged_at(
    before: Contents,
    headers: Map<Seq<char>, Seq<char>>,
    after: Contents,
    stored: Seq<char>,
) -> bool {
    ||| exists|name: Seq<char>|
        #[trigger] gives(headers, name, stored) && after.contains_key(stored) && after[stored]
            == seq![utf8(headers[name])]
    ||| (forall|name: Seq<char>| !#[trigger] gives(headers, name, stored)) && (after.contains_key(
        stored,
    ) <==> before.contains_key(stored)) && after[stored] == before[stored]
}

/// Whether `after` is `before` with the pairs of `headers` set that make a
/// header. Pairs that make none are left out.
pub open spec fn headers_merged(
    before: Contents,
    headers: Map<Seq<char>, Seq<char>>,
    after: Contents,
) -> bool {
    forall|stored: Seq<char>| #[trigger] merged_at(before, headers, after, stored)
}

/// The headers that hold one value.
pub open spec fn one_header(name: Seq<char>, value: Seq<char>) -> Contents {
    Map::empty().insert(name, seq![utf8(value)])
}

/// Whether a response is `inner` under another status, if one is given, and
/// with headers set.
pub open spec fn decorates<S>(
    inner: ResponseView<S>,
    status: Option<int>,
    headers: Map<Seq<char>, Seq<char>>,
    r: ResponseView<S>,
) -> bool {
    &&& r.status == match status {
        Some(s) => s,
        None => inner.status,
    }
    &&& r.body == inner.body
    &&& headers_merged(inner.headers, headers, r.headers)
}

/// Whether a response is the one that a reply asks for.
pub open spec fn answers<S, U>(data: ReplyView<S, U>, r: ResponseView<S>) -> bool
    decreases data,
{
    match data {
        ReplyView::Empty => r == (ResponseView::<S> {
            status: 204,
            headers: no_headers(),
            body: BodyView::Full(Seq::empty()),
        }),
        ReplyView::Bytes { content_type, data } => r == (ResponseView::<S> {
            status: 200,
            headers: one_header("content-type"@, content_type),
            body: BodyView::Full(data),
        }),
        ReplyView::Json(tree) => r == (ResponseView::<S> {
            status: 200,
            headers: one_header("content-type"@, "application/json"@),
            body: BodyView::Full(json_text(tree)),
        }),
        ReplyView::Stream(s) => r == (ResponseView::<S> {
            status: 200,
            headers: no_headers(),
            body: BodyView::Stream(s),
        }),
        ReplyView::Upgrade(u) => r == (ResponseView::<S> {
            status: 500,
            headers: one_header("content-type"@, "text/plain; charset=utf-8"@),
            body: BodyView::Full(utf8("upgrade reply was not handled by the server"@)),
        }),
        ReplyView::Rich(spec) => exists|inner: ResponseView<S>|
            #[trigger] decorates(inner, spec.status, spec.headers, r) && answers(
                spec.payload,
                inner,
            ),
    }
}

/// Whether the types that a reply is sent under are header values.
pub open spec fn types_are_values<S, U>(data: ReplyView<S, U>) -> bool
    decreases data,
{
    match data {
        ReplyView::Bytes { content_type, data } => is_header_value(utf8(content_type)),
        ReplyView::Rich(spec) => types_are_values(spec.payload),
        _ => true,
    }
}

/// How many headers a reply sets at most.
pub open spec fn header_total<S, U>(data: ReplyData<S, U>) -> nat
    decreases data,
{
    match data {
        ReplyData::Rich(spec) => spec.headers.names().len() + header_total(spec.payload),
        _ => 1,
    }
}

/// How many headers a reply may set: as many as leave room in a header map for
/// those that are added on the way out.
pub const MAX_REPLY_HEADERS: usize = 6500;

/// Whether a response can be built for a reply: its types are header values,
/// and it does not set more headers than a response holds.
pub open spec fn buildable<S, U>(data: ReplyData<S, U>) -> bool {
    types_are_values(data@) && header_total(data) <= MAX_REPLY_HEADERS
}

/// Whether a reply can be sent: a response can be built for it, and for the
/// reply with one more header.
pub open spec fn sendable<S, U>(data: ReplyData<S, U>) -> bool {
    types_are_values(data@) && header_total(data) < MAX_REPLY_HEADERS
}

/// Turns replies and errors into responses.
pub struct Finalizer;

impl Default for Finalizer {
    fn default() -> (r: Self)
        ensures
            r == Finalizer,
    {
        Finalizer
    }
}

proof fn lemma_stored_content_type()
    ensures
        crate::headers::is_stored_name("content-type"@),
{
    reveal_strlit("content-type");
    assert(lower("content-type"@) =~= "content-type"@);
}

/// A text of printable ASCII is a header value.
pub proof fn lemma_ascii_value(s: Seq<char>)
    requires
        is_printable(s),
    ensures
        is_header_value(utf8(s)),
        utf8(s) == Seq::new(s.len(), |i: int| s[i] as u8),
{
    assert(vstd::utf8::is_ascii_chars(s));
    vstd::utf8::is_ascii_chars_encode_utf8(s);
    assert(utf8(s) =~= Seq::new(s.len(), |i: int| s[i] as u8));
}

impl Finalizer {
    /// A finalizer.
    pub fn new() -> (r: Self)
        ensures
            r == Finalizer,
    {
        Finalizer
    }

    /// The reply to an error.
    pub fn error_to_reply<S, U>(&self, error: WebError) -> (r: ReplyData<S, U>)
        ensures
            r@ == error_reply::<S, U>(error@),
            sendable(r),
    {
        let ghost view = error@;
        let mut headers: StrMap<String> = StrMap::new();
        let problem = match error {
            WebError::NotFound => ProblemDetails::new(StatusCode::of(404), "Not Found"),
            WebError::MethodNotAllowed(methods) => {
                headers.insert("Allow".to_owned(), join_tokens(&methods, ", "));
                ProblemDetails::new(StatusCode::of(405), "Method Not Allowed").extra(
                    "allowed_methods",
                    json_strings(&methods),
                )
            },
            WebError::BadRequest(msg) => ProblemDetails::new(
                StatusCode::of(400),
                "Bad Request",
            ).detail(msg.as_str()),
            WebError::PayloadTooLarge => ProblemDetails::new(
                StatusCode::of(413),
                "Payload Too Large",
            ),
            WebError::TooManyRequests(retry) => {
                let p = ProblemDetails::new(StatusCode::of(429), "Too Many Requests");
                match retry {
                    Some(d) => {
                        let secs: u64 = seconds_to_wait(&d);
                        headers.insert("Retry-After".to_owned(), u64_to_string(secs));
                        p.extra("retry_after_seconds", json_u64(secs))
                    },
                    None => p,
                }
            },
            WebError::Timeout => ProblemDetails::new(
                StatusCode::of(504),
                "Gateway Timeout",
            ).detail("the request did not complete within the configured timeout"),
            WebError::Busy(retry) => {
                let p = ProblemDetails::new(StatusCode::of(503), "Service Unavailable").detail(
                    "server is overloaded",
                );
                match retry {
                    Some(d) => {
                        let secs: u64 = seconds_to_wait(&d);
                        headers.insert("Retry-After".to_owned(), u64_to_string(secs));
                        p.extra("retry_after_seconds", json_u64(secs))
                    },
                    None => p,
                }
            },
            WebError::Unauthorized => ProblemDetails::new(StatusCode::of(401), "Unauthorized"),
            WebError::Forbidden => ProblemDetails::new(StatusCode::of(403), "Forbidden"),
            WebError::Internal(msg) => ProblemDetails::new(
                StatusCode::of(500),
                "Internal Server Error",
            ).detail(msg.as_str()),
            WebError::Problem(p) => p,
        };
        assert(problem@ == problem_of(view));
        assert(single(headers@) =~= error_headers(view));
        assert(headers.names().len() <= 1);
        let status = problem.status;
        let body = problem_document(problem);
        let data = json_to_vec(&json_object(body));
        let payload: ReplyData<S, U> = ReplyData::Bytes {
            content_type: "application/problem+json".to_owned(),
            data,
        };
        proof {
            reveal_strlit("application/problem+json");
            lemma_ascii_value("application/problem+json"@);
            assert(payload@ == (ReplyView::<S, U>::Bytes {
                content_type: "application/problem+json"@,
                data: data@,
            }));
            assert(types_are_values(payload@));
            assert(header_total(payload) == 1);
        }
        ReplyData::Rich(Box::new(ReplySpec { payload, status: Some(status), headers }))
    }
}

/// One more pair, whose name is new.
proof fn lemma_merge_pair(
    before: Contents,
    headers: Map<Seq<char>, Seq<char>>,
    after: Contents,
    name: Seq<char>,
    value: Seq<char>,
)
    requires
        headers_merged(before, headers, after),
        !headers.contains_key(name),
    ensures
        makes_header(name, value) ==> headers_merged(
            before,
            headers.insert(name, value),
            after.insert(lower(name), seq![utf8(value)]),
        ),
        !makes_header(name, value) ==> headers_merged(before, headers.insert(name, value), after),
{
    let more = headers.insert(name, value);
    let next = if makes_header(name, value) {
        after.insert(lower(name), seq![utf8(value)])
    } else {
        after
    };
    assert forall|stored: Seq<char>| #[trigger] merged_at(before, more, next, stored) by {
        assert(merged_at(before, headers, after, stored));
        if makes_header(name, value) && lower(name) == stored {
            assert(gives(more, name, stored));
        } else {
            assert(!gives(more, name, stored));
            assert(next.contains_key(stored) <==> after.contains_key(stored));
            assert(next[stored] == after[stored]);
            if exists|n: Seq<char>|
                #[trigger] gives(headers, n, stored) && after.contains_key(stored) && after[stored]
                    == seq![utf8(headers[n])] {
                let n = choose|n: Seq<char>|
                    #[trigger] gives(headers, n, stored) && after.contains_key(stored)
                        && after[stored] == seq![utf8(headers[n])];
                assert(gives(more, n, stored));
            } else {
                assert forall|n: Seq<char>| !#[trigger] gives(more, n, stored) by {
                    assert(!gives(headers, n, stored));
                }
            }
        }
    }
}

proof fn lemma_merge_nothing(before: Contents)
    ensures
        headers_merged(before, Map::empty(), before),
{
}

/// The pairs of `headers` under the first `k` names.
spec fn first_pairs(
    headers: Map<Seq<char>, Seq<char>>,
    names: Seq<Seq<char>>,
    k: int,
) -> Map<Seq<char>, Seq<char>> {
    headers.restrict(Set::new(|n: Seq<char>| names.take(k).contains(n)))
}

/// Sets the headers of a reply on top of those that are there.
fn merge_headers(into: &mut http::HeaderMap, headers: &StrMap<String>)
    requires
        has_room(header_contents(*old(into)), headers.names().len() as int),
    ensures
        headers_merged(
            header_contents(*old(into)),
            single(headers@),
            header_contents(*final(into)),
        ),
        header_contents(*final(into)).dom().finite(),
        header_contents(*final(into)).dom().len() <= header_contents(*old(into)).dom().len()
            + headers.names().len(),
{
    let ghost before = header_contents(*into);
    let ghost all = single(headers@);
    let keys = headers.keys();
    let ghost names = headers.names();
    let n: usize = headers.len();
    let mut i: usize = 0;
    proof {
        assert(first_pairs(all, names, 0) =~= Map::<Seq<char>, Seq<char>>::empty());
        lemma_merge_nothing(before);
    }
    while i < n
        invariant
            i <= n,
            n == names.len(),
            names == headers.names(),
            all == single(headers@),
            names.no_duplicates(),
            forall|k: Seq<char>| names.contains(k) <==> #[trigger] headers@.contains_key(k),
            headers_merged(before, first_pairs(all, names, i as int), header_contents(*into)),
            header_contents(*into).dom().finite(),
            header_contents(*into).dom().len() <= before.dom().len() + i,
            before.dom().len() + n <= MAX_HEADER_NAMES,
        decreases n - i,
    {
        let (name, value) = headers.entry(i);
        let ghost prev = header_contents(*into);
        proof {
            let now = first_pairs(all, names, i as int);
            let next = first_pairs(all, names, i as int + 1);
            assert(name@ == names[i as int]);
            assert(!names.take(i as int).contains(name@));
            assert(names.take(i as int + 1) =~= names.take(i as int).push(name@));
            assert forall|k: Seq<char>| names.take(i as int + 1).contains(k) <==> names.take(
                i as int,
            ).contains(k) || k == name@ by {
                if names.take(i as int).contains(k) {
                    assert(names.take(i as int + 1)[names.take(i as int).index_of(k)] == k);
                }
                if k == name@ {
                    assert(names.take(i as int + 1)[i as int] == k);
                }
                if names.take(i as int + 1).contains(k) && k != name@ {
                    assert(names.take(i as int)[names.take(i as int + 1).index_of(k)] == k);
                }
            }
            assert(next =~= now.insert(name@, value@));
            lemma_merge_pair(before, now, prev, name@, value@);
        }
        if let Some(key) = parse_header_name(name) {
            let bytes = value.as_str().as_bytes();
            if check_header_value(bytes) {
                proof {
                    lemma_lower_name(name@);
                }
                header_insert(into, key.as_str(), bytes);
            }
        }
        i = i + 1;
    }
    proof {
        assert(names.take(n as int) =~= names);
        assert(first_pairs(all, names, n as int) =~= all);
    }
}

/// The lower-case form of the name of a header is the name of a header, and
/// its own lower-case form.
pub proof fn lemma_lower_name(s: Seq<char>)
    requires
        is_header_name(s),
    ensures
        crate::headers::is_stored_name(lower(s)),
{
    let l = lower(s);
    assert forall|i: int| 0 <= i < l.len() implies crate::headers::is_name_char(#[trigger] l[i])
        && crate::text::lower_char(l[i]) == l[i] by {
        assert(crate::headers::is_name_char(s[i]));
    }
    assert(lower(l) =~= l);
}

fn typed<S>(status: StatusCode, content_type: &str, data: Vec<u8>) -> (r: ResponseParts<S>)
    requires
        is_header_value(utf8(content_type@)),
    ensures
        r@ == (ResponseView::<S> {
            status: status@,
            headers: one_header("content-type"@, content_type@),
            body: BodyView::Full(data@),
        }),
        r@.headers.dom().finite(),
        r@.headers.dom().len() <= 1,
{
    let mut headers = headers_new();
    proof {
        lemma_stored_content_type();
        assert(no_headers().dom() =~= Set::<Seq<char>>::empty());
    }
    header_insert(&mut headers, "content-type", content_type.as_bytes());
    ResponseParts { status, headers, body: Body::Full(data) }
}

impl Finalizer {
    /// Whether a reply can be sent.
    pub fn can_send<S, U>(&self, data: &ReplyData<S, U>) -> (r: bool)
        ensures
            r == sendable(*data),
    {
        match count_headers(data) {
            Some(n) => n < MAX_REPLY_HEADERS,
            None => false,
        }
    }

    /// The response to a reply.
    pub fn build_response<S, U>(&self, data: ReplyData<S, U>) -> (r: ResponseParts<S>)
        requires
            buildable(data),
        ensures
            answers(data@, r@),
            r@.headers.dom().finite(),
            r@.headers.dom().len() <= header_total(data),
        decreases data,
    {
        let ghost view = data@;
        match data {
            ReplyData::Empty => {
                assert(no_headers().dom() =~= Set::<Seq<char>>::empty());
                let r = ResponseParts {
                    status: StatusCode::no_content(),
                    headers: headers_new(),
                    body: Body::Full(Vec::new()),
                };
                assert(answers(view, r@));
                r
            },
            ReplyData::Bytes { content_type, data } => typed(
                StatusCode::ok(),
                content_type.as_str(),
                data,
            ),
            ReplyData::Json(val) => {
                proof {
                    reveal_strlit("application/json");
                    lemma_ascii_value("application/json"@);
                }
                typed(StatusCode::ok(), "application/json", json_to_vec(&val))
            },
            ReplyData::Stream(s) => {
                assert(no_headers().dom() =~= Set::<Seq<char>>::empty());
                ResponseParts {
                    status: StatusCode::ok(),
                    headers: headers_new(),
                    body: Body::Stream(s),
                }
            },
            ReplyData::Upgrade(_) => {
                proof {
                    reveal_strlit("text/plain; charset=utf-8");
                    lemma_ascii_value("text/plain; charset=utf-8"@);
                }
                typed(
                    StatusCode::of(500),
                    "text/plain; charset=utf-8",
                    crate::params::clone_bytes(
                        "upgrade reply was not handled by the server".as_bytes(),
                    ),
                )
            },
            ReplyData::Rich(spec) => {
                let ReplySpec { payload, status, headers } = *spec;
                let ghost inner_view = payload@;
                let inner = self.build_response(payload);
                let ghost inner_response = inner@;
                let ResponseParts { status: inner_status, headers: inner_headers, body } = inner;
                let mut all = inner_headers;
                merge_headers(&mut all, &headers);
                let status = match status {
                    Some(s) => s,
                    None => inner_status,
                };
                let r = ResponseParts { status, headers: all, body };
                assert(decorates(inner_response, view->Rich_0.status, view->Rich_0.headers, r@));
                r
            },
        }
    }

    /// The response to an error.
    pub fn build_error<S, U>(&self, error: WebError) -> (r: ResponseParts<S>)
        ensures
            answers(error_reply::<S, U>(error@), r@),
            r@.headers.dom().finite(),
            r@.headers.dom().len() <= MAX_REPLY_HEADERS,
    {
        let data: ReplyData<S, U> = self.error_to_reply(error);
        self.build_response(data)
    }
}

/// How many headers a reply sets at most, if its types are header values and
/// the number is within reach.
fn count_headers<S, U>(data: &ReplyData<S, U>) -> (r: Option<usize>)
    ensures
        match r {
            Some(n) => types_are_values(data@) && header_total(*data) == n,
            None => !types_are_values(data@) || header_total(*data) > MAX_REPLY_HEADERS,
        },
    decreases data,
{
    match data {
        ReplyData::Rich(spec) => match count_headers(&spec.payload) {
            Some(n) => n.checked_add(spec.headers.len()),
            None => None,
        },
        ReplyData::Bytes { content_type, data: _ } => if check_header_value(
            content_type.as_str().as_bytes(),
        ) {
            Some(1)
        } else {
            None
        },
        _ => Some(1),
    }
}

// ---------------------------------------------------------------------------
// Laws
// ---------------------------------------------------------------------------

/// The document of a problem always tells its status and its title, tells the
/// detail exactly where there is one, and holds every further member that is
/// not named like a standard one.
pub proof fn law_standard_members_win(p: ProblemView)
    ensures
        problem_members(p).contains_key("status"@),
        problem_members(p)["status"@] == JsonTree::Int(p.status),
        problem_members(p).contains_key("title"@),
        problem_members(p)["title"@] == JsonTree::Str(p.title),
        problem_members(p).contains_key("detail"@) <==> p.detail is Some,
        p.detail matches Some(d) ==> problem_members(p)["detail"@] == JsonTree::Str(d),
        forall|name: Seq<char>|
            !is_standard(name) ==> (#[trigger] problem_members(p).contains_key(name)
                <==> p.extra.contains_key(name)) && (p.extra.contains_key(name)
                ==> problem_members(p)[name] == p.extra[name]),
{
    reveal_strlit("status");
    reveal_strlit("title");
    reveal_strlit("detail");
    assert("status"@[0] == 's' && "title"@[0] == 't' && "detail"@[0] == 'd');
}

/// A client is never told to wait no time where there is a time to wait.
pub proof fn law_never_retry_at_once(d: Duration)
    requires
        duration_nanos(d) > 0,
    ensures
        retry_seconds(d) >= 1,
{
}

proof fn lemma_header_names()
    ensures
        lower("Allow"@) == "allow"@,
        lower("Retry-After"@) == "retry-after"@,
        is_header_name("Allow"@),
        is_header_name("Retry-After"@),
        "allow"@ != "content-type"@,
        "retry-after"@ != "content-type"@,
        "allow"@ != "retry-after"@,
{
    reveal_strlit("Allow");
    reveal_strlit("allow");
    reveal_strlit("Retry-After");
    reveal_strlit("retry-after");
    reveal_strlit("content-type");
    assert(lower("Allow"@) =~= "allow"@);
    assert(lower("Retry-After"@) =~= "retry-after"@);
    assert("allow"@.len() == 5 && "retry-after"@.len() == 11 && "content-type"@.len() == 12);
}

/// The response to an error has the status of the error, is a problem
/// document, and names the allowed methods exactly on a `405` and the time to
/// wait exactly where that is known, each where it can stand in a header.
pub proof fn law_error_response<S, U>(e: ErrorView, r: ResponseView<S>)
    requires
        answers(error_reply::<S, U>(e), r),
    ensures
        r.status == problem_of(e).status,
        r.body == BodyView::<S>::Full(json_text(JsonTree::Object(problem_members(problem_of(e))))),
        r.headers.contains_key("content-type"@),
        r.headers["content-type"@] == seq![utf8("application/problem+json"@)],
        r.headers.contains_key("allow"@) <==> (error_headers(e).contains_key("Allow"@)
            && is_header_value(utf8(error_headers(e)["Allow"@]))),
        r.headers.contains_key("allow"@) ==> r.headers["allow"@] == seq![
            utf8(error_headers(e)["Allow"@]),
        ],
        r.headers.contains_key("retry-after"@) <==> (error_headers(e).contains_key("Retry-After"@)
            && is_header_value(utf8(error_headers(e)["Retry-After"@]))),
        r.headers.contains_key("retry-after"@) ==> r.headers["retry-after"@] == seq![
            utf8(error_headers(e)["Retry-After"@]),
        ],
{
    let headers = error_headers(e);
    let payload = ReplyView::<S, U>::Bytes {
        content_type: "application/problem+json"@,
        data: json_text(JsonTree::Object(problem_members(problem_of(e)))),
    };
    let status = Some(problem_of(e).status);
    let inner = choose|inner: ResponseView<S>|
        #[trigger] decorates(inner, status, headers, r) && answers(payload, inner);
    assert(inner.headers == one_header("content-type"@, "application/problem+json"@));
    lemma_header_names();
    assert forall|name: Seq<char>| #[trigger]
        headers.contains_key(name) implies name == "Allow"@ || name == "Retry-After"@ by {}
    assert forall|name: Seq<char>| !gives(headers, name, "content-type"@) by {}
    let allow = "allow"@;
    let retry = "retry-after"@;
    assert forall|name: Seq<char>| gives(headers, name, allow) implies name == "Allow"@ by {}
    assert forall|name: Seq<char>| gives(headers, name, retry) implies name == "Retry-After"@ by {}
    assert(!inner.headers.contains_key(allow) && !inner.headers.contains_key(retry));
    assert(merged_at(inner.headers, headers, r.headers, "content-type"@));
    assert(merged_at(inner.headers, headers, r.headers, allow));
    assert(merged_at(inner.headers, headers, r.headers, retry));
    if !gives(headers, "Allow"@, allow) {
        assert forall|name: Seq<char>| !#[trigger] gives(headers, name, allow) by {}
        assert(!r.headers.contains_key(allow));
    }
    if !gives(headers, "Retry-After"@, retry) {
        assert forall|name: Seq<char>| !#[trigger] gives(headers, name, retry) by {}
        assert(!r.headers.contains_key(retry));
    }
}

/// A pair that is no header changes nothing: a name or a value that cannot
/// stand in a header is left out, and the others stay.
pub proof fn law_invalid_headers_are_left_out(
    before: Contents,
    headers: Map<Seq<char>, Seq<char>>,
    after: Contents,
)
    requires
        headers_merged(before, headers, after),
        forall|name: Seq<char>| #[trigger]
            headers.contains_key(name) ==> !makes_header(name, headers[name]),
    ensures
        after =~= before,
{
    assert forall|stored: Seq<char>| #[trigger]
        after.contains_key(stored) <==> before.contains_key(stored) by {
        assert(merged_at(before, headers, after, stored));
        assert(forall|name: Seq<char>| !#[trigger] gives(headers, name, stored));
    }
    assert forall|stored: Seq<char>| #[trigger] after.contains_key(stored) implies after[stored]
        == before[stored] by {
        assert(merged_at(before, headers, after, stored));
        assert(forall|name: Seq<char>| !#[trigger] gives(headers, name, stored));
    }
}

/// How long a client is told to wait: the whole seconds of the span, and one
/// for a span that has none but is not nothing.
pub proof fn law_how_long_to_wait(d: Duration)
    ensures
        retry_seconds(d) * 1_000_000_000 <= duration_nanos(d) || retry_seconds(d) == 1,
        duration_nanos(d) < (retry_seconds(d) + 1) * 1_000_000_000,
        duration_nanos(d) == 0 <==> retry_seconds(d) == 0,
{
}

/// Whether a body is a problem document that tells a status, a title and,
/// where there is one, a detail.
pub open spec fn tells<S>(
    body: BodyView<S>,
    status: int,
    title: Seq<char>,
    detail: Option<Seq<char>>,
) -> bool {
    exists|m: Map<Seq<char>, JsonTree>|
        {
            &&& body == BodyView::<S>::Full(#[trigger] json_text(JsonTree::Object(m)))
            &&& m.contains_key("status"@) && m["status"@] == JsonTree::Int(status)
            &&& m.contains_key("title"@) && m["title"@] == JsonTree::Str(title)
            &&& m.contains_key("detail"@) <==> detail is Some
            &&& detail matches Some(d) ==> m["detail"@] == JsonTree::Str(d)
        }
}

/// Whether a body is a problem document with a further member.
pub open spec fn tells_also<S>(body: BodyView<S>, name: Seq<char>, value: JsonTree) -> bool {
    exists|m: Map<Seq<char>, JsonTree>|
        {
            &&& body == BodyView::<S>::Full(#[trigger] json_text(JsonTree::Object(m)))
            &&& m.contains_key(name) && m[name] == value
        }
}

/// What each error is answered: a status of its own, both of the response and
/// in the problem document, a title, the reason where there is one; the methods
/// of a `405`, and the seconds to wait of a `429` and a `503`, in a header and
/// in the document.
pub proof fn law_what_each_error_is_answered<S, U>(e: ErrorView, r: ResponseView<S>)
    requires
        answers(error_reply::<S, U>(e), r),
    ensures
        r.headers.contains_key("content-type"@),
        r.headers["content-type"@] == seq![utf8("application/problem+json"@)],
        match e {
            ErrorView::NotFound => r.status == 404 && tells(r.body, 404, "Not Found"@, None),
            ErrorView::MethodNotAllowed(methods) => {
                &&& r.status == 405
                &&& tells(r.body, 405, "Method Not Allowed"@, None)
                &&& is_header_value(utf8(join(methods, seq![',', ' ']))) ==> r.headers.contains_key(
                    "allow"@,
                ) && r.headers["allow"@] == seq![utf8(join(methods, seq![',', ' ']))]
                &&& tells_also(
                    r.body,
                    "allowed_methods"@,
                    JsonTree::Array(methods.map_values(|m: Seq<char>| JsonTree::Str(m))),
                )
            },
            ErrorView::BadRequest(msg) => r.status == 400 && tells(
                r.body,
                400,
                "Bad Request"@,
                Some(msg),
            ),
            ErrorView::PayloadTooLarge => r.status == 413 && tells(
                r.body,
                413,
                "Payload Too Large"@,
                None,
            ),
            ErrorView::TooManyRequests(wait) => {
                &&& r.status == 429
                &&& tells(r.body, 429, "Too Many Requests"@, None)
                &&& r.headers.contains_key("retry-after"@) <==> wait is Some
                &&& wait matches Some(d) ==> r.headers["retry-after"@] == seq![
                    utf8(decimal(retry_seconds(d))),
                ] && tells_also(
                    r.body,
                    "retry_after_seconds"@,
                    JsonTree::Int(retry_seconds(d) as int),
                )
            },
            ErrorView::Timeout => r.status == 504 && tells(
                r.body,
                504,
                "Gateway Timeout"@,
                Some("the request did not complete within the configured timeout"@),
            ),
            ErrorView::Busy(wait) => {
                &&& r.status == 503
                &&& tells(r.body, 503, "Service Unavailable"@, Some("server is overloaded"@))
                &&& r.headers.contains_key("retry-after"@) <==> wait is Some
                &&& wait matches Some(d) ==> r.headers["retry-after"@] == seq![
                    utf8(decimal(retry_seconds(d))),
                ] && tells_also(
                    r.body,
                    "retry_after_seconds"@,
                    JsonTree::Int(retry_seconds(d) as int),
                )
            },
            ErrorView::Unauthorized => r.status == 401 && tells(
                r.body,
                401,
                "Unauthorized"@,
                None,
            ),
            ErrorView::Forbidden => r.status == 403 && tells(r.body, 403, "Forbidden"@, None),
            ErrorView::Internal(msg) => r.status == 500 && tells(
                r.body,
                500,
                "Internal Server Error"@,
                Some(msg),
            ),
            ErrorView::Problem(p) => {
                &&& r.status == p.status
                &&& tells(r.body, p.status, p.title, p.detail)
                &&& forall|name: Seq<char>|
                    p.extra.contains_key(name) && name != "status"@ && name != "title"@ && name
                        != "detail"@ ==> #[trigger] tells_also(r.body, name, p.extra[name])
            },
        },
{
    law_error_response::<S, U>(e, r);
    law_standard_members_win(problem_of(e));
    let m = problem_members(problem_of(e));
    assert(r.body == BodyView::<S>::Full(json_text(JsonTree::Object(m))));
    reveal_strlit(", ");
    assert(", "@ =~= seq![',', ' ']);
    reveal_strlit("allowed_methods");
    reveal_strlit("retry_after_seconds");
    reveal_strlit("status");
    reveal_strlit("title");
    reveal_strlit("detail");
    assert("allowed_methods"@.len() == 15 && "retry_after_seconds"@.len() == 19 && "status"@.len()
        == 6 && "title"@.len() == 5 && "detail"@.len() == 6);
    assert(!is_standard("allowed_methods"@) && !is_standard("retry_after_seconds"@));
    match e {
        ErrorView::TooManyRequests(Some(d)) => {
            lemma_decimal_value(retry_seconds(d));
        },
        ErrorView::Busy(Some(d)) => {
            lemma_decimal_value(retry_seconds(d));
        },
        ErrorView::Problem(p) => {
            assert forall|name: Seq<char>|
                p.extra.contains_key(name) && name != "status"@ && name != "title"@ && name
                    != "detail"@ implies #[trigger] tells_also(r.body, name, p.extra[name]) by {
                assert(m.contains_key(name) && m[name] == p.extra[name]);
            }
        },
        _ => {},
    }
}

proof fn lemma_decimal_value(n: nat)
    ensures
        is_header_value(utf8(decimal(n))),
{
    crate::numbers::law_decimal_reads_back(n);
    let s = decimal(n);
    assert forall|i: int| 0 <= i < s.len() implies ' ' <= #[trigger] s[i] <= '~' by {
        assert(crate::numbers::is_digit(s[i]));
    }
    lemma_ascii_value(s);
}

/// A payload is sent as it is, under its content type and the status `200`;
/// nothing at all under `204`.
pub proof fn law_payloads_are_sent<S, U>(data: ReplyView<S, U>, r: ResponseView<S>)
    requires
        answers(data, r),
    ensures
        data is Empty ==> r.status == 204 && r.body == BodyView::<S>::Full(Seq::empty())
            && r.headers.dom() =~= Set::<Seq<char>>::empty(),
        data matches ReplyView::Bytes { content_type, data: bytes } ==> {
            &&& r.status == 200
            &&& r.body == BodyView::<S>::Full(bytes)
            &&& r.headers.dom() =~= set!["content-type"@]
            &&& r.headers["content-type"@] == seq![utf8(content_type)]
        },
        data matches ReplyView::Json(tree) ==> {
            &&& r.status == 200
            &&& r.body == BodyView::<S>::Full(json_text(tree))
            &&& r.headers.dom() =~= set!["content-type"@]
            &&& r.headers["content-type"@] == seq![utf8("application/json"@)]
        },
        data matches ReplyView::Stream(s) ==> r.status == 200 && r.body == BodyView::Stream(s)
            && r.headers.dom() =~= Set::<Seq<char>>::empty(),
        data is Upgrade ==> r.status == 500,
{
}

/// A status and headers change the response to a payload in nothing else: the
/// body stays, the given status stands in for that of the payload, a header
/// that is set hides one of the payload, and every other one of that stays.
pub proof fn law_decorations_are_put_on<S, U>(
    spec: SpecView<S, U>,
    r: ResponseView<S>,
    name: Seq<char>,
)
    requires
        answers(ReplyView::<S, U>::Rich(Box::new(spec)), r),
        forall|k: Seq<char>| #[trigger]
            spec.headers.contains_key(k) && k != name ==> lower(k) != lower(name),
    ensures
        exists|inner: ResponseView<S>|
            {
                &&& #[trigger] answers(spec.payload, inner)
                &&& r.body == inner.body
                &&& r.status == match spec.status {
                    Some(s) => s,
                    None => inner.status,
                }
                &&& if spec.headers.contains_key(name) && is_header_name(name) && is_header_value(
                    utf8(spec.headers[name]),
                ) {
                    r.headers.contains_key(lower(name)) && r.headers[lower(name)] == seq![
                        utf8(spec.headers[name]),
                    ]
                } else {
                    r.headers.contains_key(lower(name)) == inner.headers.contains_key(lower(name))
                        && r.headers[lower(name)] == inner.headers[lower(name)]
                }
            },
{
    let inner = choose|inner: ResponseView<S>|
        #[trigger] decorates(inner, spec.status, spec.headers, r) && answers(spec.payload, inner);
    let stored = lower(name);
    assert(merged_at(inner.headers, spec.headers, r.headers, stored));
    assert forall|k: Seq<char>| #[trigger] gives(spec.headers, k, stored) implies k == name by {}
    if spec.headers.contains_key(name) && makes_header(name, spec.headers[name]) {
        assert(gives(spec.headers, name, stored));
    } else {
        assert forall|k: Seq<char>| !#[trigger] gives(spec.headers, k, stored) by {}
    }
    assert(answers(spec.payload, inner));
}

/// Every ordinary reply can be sent: one whose type is printable ASCII, or that
/// has none, with fewer headers than six thousand.
pub proof fn law_ordinary_replies_can_be_sent<S, U>(spec: ReplySpec<S, U>)
    requires
        !(spec.payload is Rich),
        spec.headers.names().len() < 6000,
        spec.payload matches ReplyData::Bytes { content_type, data } ==> is_printable(content_type@),
    ensures
        sendable(ReplyData::<S, U>::Rich(Box::new(spec))),
        sendable(spec.payload),
{
    reveal_with_fuel(header_total, 2);
    reveal_with_fuel(types_are_values, 2);
    if let ReplyData::Bytes { content_type, data } = spec.payload {
        lemma_ascii_value(content_type@);
    }
    let whole = ReplyData::<S, U>::Rich(Box::new(spec));
    assert(header_total(spec.payload) == 1);
    assert(whole@ matches ReplyView::Rich(view) && view.payload == spec.payload@);
    assert(types_are_values(spec.payload@));
}

/// A reply under a type that cannot stand in a header is never built.
pub proof fn law_bad_types_are_not_sent<S, U>(data: ReplyData<S, U>, k: int)
    requires
        data matches ReplyData::Bytes { content_type, data: bytes } && 0 <= k < utf8(
            content_type@,
        ).len() && (utf8(content_type@)[k] == 10 || utf8(content_type@)[k] == 13),
    ensures
        !sendable(data),
        !buildable(data),
{
}

} // verus!
