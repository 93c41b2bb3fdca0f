//! Cross-origin requests: which origins a server opens itself to, and the
//! headers that tell a browser so.

use crate::controller::verb_token;
use crate::controller::Verb;
use crate::durations::duration_nanos;
use crate::durations::whole_seconds;
use crate::finalizer::lemma_ascii_value;
use crate::finalizer::utf8;
use crate::headers::all_values;
use crate::headers::check_header_value;
use crate::headers::first_text;
use crate::headers::first_value;
use crate::headers::has_room;
use crate::headers::header_append;
use crate::headers::header_contents;
use crate::headers::header_get;
use crate::headers::header_insert;
use crate::headers::header_text;
use crate::headers::is_header_value;
use crate::headers::is_printable;
use crate::headers::is_stored_name;
use crate::headers::Contents;
use crate::headers::MAX_HEADER_NAMES;
use crate::numbers::decimal;
use crate::numbers::law_decimal_reads_back;
use crate::numbers::u64_to_string;
use crate::params::clone_bytes;
use crate::strmap::clone_strings;
use crate::text::join;
use crate::text::join_strings;
use crate::text::law_lists_read_back;
use crate::text::list_items;
use crate::text::lower;
use crate::text::push_text;
use crate::text::str_eq;
use crate::text::views;
use crate::text::visible_ends;
use std::time::Duration;
use vstd::prelude::*;

verus! {

/// Which origins are allowed.
#[derive(Debug)]
enum OriginRule {
    /// Any origin.
    Any,
    /// The listed ones.
    List(Vec<String>),
}

/// Which request headers are allowed.
#[derive(Debug)]
enum HeaderRule {
    /// Those that the browser asks for.
    MirrorRequest,
    /// The listed ones, by lower-case name.
    List(Vec<String>),
}

/// A policy for cross-origin requests.
#[derive(Debug)]
pub struct CorsLayer {
    origins: OriginRule,
    methods: Vec<Verb>,
    headers: HeaderRule,
    expose: Vec<String>,
    credentials: bool,
    max_age: Option<Duration>,
}

/// What a policy says.
pub struct CorsView {
    /// The allowed origins, or none for any.
    pub origins: Option<Seq<Seq<char>>>,
    pub methods: Seq<Verb>,
    /// The allowed request headers, or none for those that are asked for.
    pub headers: Option<Seq<Seq<char>>>,
    pub expose: Seq<Seq<char>>,
    pub credentials: bool,
    pub max_age: Option<Duration>,
}

impl View for CorsLayer {
    type V = CorsView;

    closed spec fn view(&self) -> CorsView {
        CorsView {
            origins: match self.origins {
                OriginRule::Any => None,
                OriginRule::List(list) => Some(views(list@)),
            },
            methods: self.methods@,
            headers: match self.headers {
                HeaderRule::MirrorRequest => None,
                HeaderRule::List(list) => Some(views(list@)),
            },
            expose: views(self.expose@),
            credentials: self.credentials,
            max_age: self.max_age,
        }
    }
}

/// Whether every text is the lower-case name of a header.
pub open spec fn are_names(names: Seq<Seq<char>>) -> bool {
    forall|i: int| 0 <= i < names.len() ==> is_stored_name(#[trigger] names[i])
}

// ---------------------------------------------------------------------------
// The headers of a policy
// ---------------------------------------------------------------------------

/// A list of headers, each with its value.
pub type Pairs = Seq<(Seq<char>, Seq<u8>)>;

/// Whether a policy allows an origin.
pub open spec fn origin_allowed(cors: CorsView, origin: Seq<char>) -> bool {
    match cors.origins {
        None => true,
        Some(list) => list.contains(origin),
    }
}

/// The origin of a request, where the policy allows it.
pub open spec fn allowed_origin(cors: CorsView, request: Contents) -> Option<Seq<char>> {
    match first_text(request, "origin"@) {
        Some(origin) => if origin_allowed(cors, origin) && is_header_value(utf8(origin)) {
            Some(origin)
        } else {
            None
        },
        None => None,
    }
}

/// The tokens of a list of verbs.
pub open spec fn verb_tokens(verbs: Seq<Verb>) -> Seq<Seq<char>> {
    verbs.map_values(|v: Verb| verb_token(v))
}

/// One more header, if there is a value for it.
pub open spec fn with_pair(pairs: Pairs, name: Seq<char>, value: Option<Seq<u8>>) -> Pairs {
    match value {
        Some(v) => pairs.push((name, v)),
        None => pairs,
    }
}

/// The headers that a preflight request is told to be allowed.
pub open spec fn allow_headers_value(cors: CorsView, request: Contents) -> Option<Seq<u8>> {
    match cors.headers {
        None => first_value(request, "access-control-request-headers"@),
        Some(list) => if list.len() == 0 {
            None
        } else {
            Some(utf8(join(list, ", "@)))
        },
    }
}

/// The headers that tell a browser the allowed origin.
pub open spec fn origin_pairs(origin: Seq<char>) -> Pairs {
    seq![("access-control-allow-origin"@, utf8(origin)), ("vary"@, utf8("Origin"@))]
}

/// The value of a header that is there or not.
pub open spec fn flag_value(on: bool) -> Option<Seq<u8>> {
    if on {
        Some(utf8("true"@))
    } else {
        None
    }
}

/// The headers of the response to a preflight request.
pub open spec fn preflight_pairs(cors: CorsView, request: Contents) -> Pairs {
    match allowed_origin(cors, request) {
        None => Seq::empty(),
        Some(origin) => {
            let base = origin_pairs(origin).push(
                (
                    "access-control-allow-methods"@,
                    utf8(join(verb_tokens(cors.methods), ", "@)),
                ),
            );
            let more = with_pair(
                base,
                "access-control-allow-headers"@,
                allow_headers_value(cors, request),
            );
            let most = with_pair(
                more,
                "access-control-allow-credentials"@,
                flag_value(cors.credentials),
            );
            with_pair(
                most,
                "access-control-max-age"@,
                match cors.max_age {
                    Some(d) => Some(utf8(decimal(whole_seconds(d)))),
                    None => None,
                },
            )
        },
    }
}

/// The headers of any other response.
pub open spec fn response_pairs(cors: CorsView, request: Contents) -> Pairs {
    match allowed_origin(cors, request) {
        None => Seq::empty(),
        Some(origin) => with_pair(
            with_pair(
                origin_pairs(origin),
                "access-control-allow-credentials"@,
                flag_value(cors.credentials),
            ),
            "access-control-expose-headers"@,
            if cors.expose.len() == 0 {
                None
            } else {
                Some(utf8(join(cors.expose, ", "@)))
            },
        ),
    }
}

/// The headers with a list of others put on: `Vary` is appended, any other is
/// set outright.
pub open spec fn put_on(headers: Contents, pairs: Pairs) -> Contents
    decreases pairs.len(),
{
    if pairs.len() == 0 {
        headers
    } else {
        let before = put_on(headers, pairs.drop_last());
        let (name, value) = pairs.last();
        if name == "vary"@ {
            before.insert(name, all_values(before, name).push(value))
        } else {
            before.insert(name, seq![value])
        }
    }
}

/// Whether each pair can stand in a header map.
pub open spec fn are_headers(pairs: Pairs) -> bool {
    forall|i: int|
        0 <= i < pairs.len() ==> is_stored_name((#[trigger] pairs[i]).0) && is_header_value(
            pairs[i].1,
        )
}

/// What a list of headers holds.
pub open spec fn pair_contents(pairs: Seq<(&'static str, Vec<u8>)>) -> Pairs {
    Seq::new(pairs.len(), |i: int| (pairs[i].0@, pairs[i].1@))
}

proof fn lemma_join_printable(parts: Seq<Seq<char>>, sep: Seq<char>)
    requires
        is_printable(sep),
        forall|i: int| 0 <= i < parts.len() ==> is_printable(#[trigger] parts[i]),
    ensures
        is_printable(join(parts, sep)),
    decreases parts.len(),
{
    if parts.len() > 1 {
        let front = parts.drop_last();
        assert forall|i: int| 0 <= i < front.len() implies is_printable(#[trigger] front[i]) by {
            assert(front[i] == parts[i]);
        }
        lemma_join_printable(front, sep);
        let a = join(front, sep);
        let whole = a + sep + parts.last();
        assert(is_printable(parts[parts.len() - 1]));
        assert forall|i: int| 0 <= i < whole.len() implies ' ' <= #[trigger] whole[i] <= '~' by {
            if i < a.len() {
                assert(whole[i] == a[i]);
            } else if i < a.len() + sep.len() {
                assert(whole[i] == sep[i - a.len()]);
            } else {
                assert(whole[i] == parts.last()[i - a.len() - sep.len()]);
            }
        }
    } else if parts.len() == 1 {
        assert(is_printable(parts[0]));
    }
}

proof fn lemma_names_printable(names: Seq<Seq<char>>)
    requires
        are_names(names),
    ensures
        is_printable(join(names, ", "@)),
        is_header_value(utf8(join(names, ", "@))),
{
    reveal_strlit(", ");
    assert forall|i: int| 0 <= i < names.len() implies is_printable(#[trigger] names[i]) by {
        assert(is_stored_name(names[i]));
        assert forall|j: int| 0 <= j < names[i].len() implies ' ' <= #[trigger] names[i][j]
            <= '~' by {
            assert(crate::headers::is_name_char(names[i][j]));
        }
    }
    lemma_join_printable(names, ", "@);
    lemma_ascii_value(join(names, ", "@));
}

proof fn lemma_tokens_printable(verbs: Seq<Verb>)
    ensures
        is_header_value(utf8(join(verb_tokens(verbs), ", "@))),
{
    reveal_strlit(", ");
    reveal_strlit("GET");
    reveal_strlit("POST");
    reveal_strlit("PUT");
    reveal_strlit("DELETE");
    reveal_strlit("PATCH");
    reveal_strlit("HEAD");
    reveal_strlit("OPTIONS");
    let tokens = verb_tokens(verbs);
    assert forall|i: int| 0 <= i < tokens.len() implies is_printable(#[trigger] tokens[i]) by {
        assert(tokens[i] == verb_token(verbs[i]));
    }
    lemma_join_printable(tokens, ", "@);
    lemma_ascii_value(join(tokens, ", "@));
}

proof fn lemma_decimal_printable(n: nat)
    ensures
        is_header_value(utf8(decimal(n))),
{
    law_decimal_reads_back(n);
    let s = decimal(n);
    assert forall|i: int| 0 <= i < s.len() implies ' ' <= #[trigger] s[i] <= '~' by {
        assert(crate::numbers::is_digit(s[i]));
    }
    lemma_ascii_value(s);
}

/// The names of the headers of a policy.
proof fn lemma_cors_names()
    ensures
        is_stored_name("origin"@),
        is_stored_name("vary"@),
        is_stored_name("access-control-request-method"@),
        is_stored_name("access-control-request-headers"@),
        is_stored_name("access-control-allow-origin"@),
        is_stored_name("access-control-allow-methods"@),
        is_stored_name("access-control-allow-headers"@),
        is_stored_name("access-control-allow-credentials"@),
        is_stored_name("access-control-expose-headers"@),
        is_stored_name("access-control-max-age"@),
        is_header_value(utf8("Origin"@)),
        is_header_value(utf8("true"@)),
{
    reveal_strlit("origin");
    reveal_strlit("vary");
    reveal_strlit("access-control-request-method");
    reveal_strlit("access-control-request-headers");
    reveal_strlit("access-control-allow-origin");
    reveal_strlit("access-control-allow-methods");
    reveal_strlit("access-control-allow-headers");
    reveal_strlit("access-control-allow-credentials");
    reveal_strlit("access-control-expose-headers");
    reveal_strlit("access-control-max-age");
    reveal_strlit("Origin");
    reveal_strlit("true");
    assert(lower("origin"@) =~= "origin"@);
    assert(lower("vary"@) =~= "vary"@);
    assert(lower("access-control-request-method"@) =~= "access-control-request-method"@);
    assert(lower("access-control-request-headers"@) =~= "access-control-request-headers"@);
    assert(lower("access-control-allow-origin"@) =~= "access-control-allow-origin"@);
    assert(lower("access-control-allow-methods"@) =~= "access-control-allow-methods"@);
    assert(lower("access-control-allow-headers"@) =~= "access-control-allow-headers"@);
    assert(lower("access-control-allow-credentials"@) =~= "access-control-allow-credentials"@);
    assert(lower("access-control-expose-headers"@) =~= "access-control-expose-headers"@);
    assert(lower("access-control-max-age"@) =~= "access-control-max-age"@);
    lemma_ascii_value("Origin"@);
    lemma_ascii_value("true"@);
}

/// The bytes of a text.
pub fn bytes_of(s: &str) -> (r: Vec<u8>)
    ensures
        r@ == utf8(s@),
{
    clone_bytes(s.as_bytes())
}

fn join_verbs(verbs: &[Verb]) -> (r: String)
    ensures
        r@ == join(verb_tokens(verbs@), ", "@),
{
    let mut out = String::new();
    let ghost all = verb_tokens(verbs@);
    let mut i: usize = 0;
    assert(all.take(0) =~= Seq::<Seq<char>>::empty());
    while i < verbs.len()
        invariant
            i <= verbs@.len(),
            all == verb_tokens(verbs@),
            out@ == join(all.take(i as int), ", "@),
        decreases verbs.len() - i,
    {
        assert(all.take(i as int + 1).drop_last() =~= all.take(i as int));
        assert(all.take(i as int + 1).last() == verb_token(verbs@[i as int]));
        if i > 0 {
            push_text(&mut out, ", ");
        }
        push_text(&mut out, verbs[i].as_str());
        assert(i == 0 ==> out@ =~= all[0]);
        i = i + 1;
    }
    assert(all.take(all.len() as int) =~= all);
    out
}

fn list_contains(list: &[String], text: &str) -> (r: bool)
    ensures
        r == views(list@).contains(text@),
{
    let mut i: usize = 0;
    while i < list.len()
        invariant
            i <= list@.len(),
            forall|j: int| 0 <= j < i ==> (#[trigger] views(list@)[j]) != text@,
        decreases list.len() - i,
    {
        if str_eq(list[i].as_str(), text) {
            assert(views(list@)[i as int] == text@);
            return true;
        }
        i = i + 1;
    }
    false
}

fn push_pair(pairs: &mut Vec<(&'static str, Vec<u8>)>, name: &'static str, value: Vec<u8>)
    requires
        are_headers(pair_contents(old(pairs)@)),
        is_stored_name(name@),
        is_header_value(value@),
    ensures
        pair_contents(final(pairs)@) == pair_contents(old(pairs)@).push((name@, value@)),
        are_headers(pair_contents(final(pairs)@)),
{
    let ghost before = pair_contents(pairs@);
    pairs.push((name, value));
    assert(pair_contents(pairs@) =~= before.push((name@, value@)));
    assert forall|i: int| 0 <= i < pair_contents(pairs@).len() implies is_stored_name(
        (#[trigger] pair_contents(pairs@)[i]).0,
    ) && is_header_value(pair_contents(pairs@)[i].1) by {
        if i < before.len() {
            assert(pair_contents(pairs@)[i] == before[i]);
        }
    }
}

/// Whether a request is a preflight: `OPTIONS` with an origin and the method
/// that is asked for.
pub open spec fn preflight(method: Seq<char>, request: Contents) -> bool {
    method == "OPTIONS"@ && request.contains_key("origin"@) && request.contains_key(
        "access-control-request-method"@,
    )
}

impl Default for CorsLayer {
    fn default() -> (r: Self)
        ensures
            r@ == (CorsView {
                origins: Some(Seq::empty()),
                methods: seq![Verb::GET, Verb::POST],
                headers: Some(Seq::empty()),
                expose: Seq::empty(),
                credentials: false,
                max_age: None,
            }),
    {
        Self::new()
    }
}

impl Clone for CorsLayer {
    fn clone(&self) -> (r: Self)
        ensures
            r@ == self@,
    {
        proof {
            use_type_invariant(self);
        }
        let origins = match &self.origins {
            OriginRule::Any => OriginRule::Any,
            OriginRule::List(list) => OriginRule::List(clone_strings(list)),
        };
        let headers = match &self.headers {
            HeaderRule::MirrorRequest => HeaderRule::MirrorRequest,
            HeaderRule::List(list) => HeaderRule::List(clone_strings(list)),
        };
        let mut methods: Vec<Verb> = Vec::new();
        let mut i: usize = 0;
        while i < self.methods.len()
            invariant
                i <= self.methods@.len(),
                methods@ == self.methods@.take(i as int),
            decreases self.methods.len() - i,
        {
            methods.push(self.methods[i]);
            assert(methods@ =~= self.methods@.take(i as int + 1));
            i = i + 1;
        }
        assert(self.methods@.take(i as int) =~= self.methods@);
        CorsLayer {
            origins,
            methods,
            headers,
            expose: clone_strings(&self.expose),
            credentials: self.credentials,
            max_age: self.max_age,
        }
    }
}

impl CorsLayer {
    #[verifier::type_invariant]
    spec fn lists_are_names(self) -> bool {
        &&& are_names(views(self.expose@))
        &&& self.headers matches HeaderRule::List(list) ==> are_names(views(list@))
    }

    /// A closed policy: no origin is allowed.
    pub fn new() -> (r: Self)
        ensures
            r@ == (CorsView {
                origins: Some(Seq::empty()),
                methods: seq![Verb::GET, Verb::POST],
                headers: Some(Seq::empty()),
                expose: Seq::empty(),
                credentials: false,
                max_age: None,
            }),
    {
        let mut methods: Vec<Verb> = Vec::new();
        methods.push(Verb::GET);
        methods.push(Verb::POST);
        assert(methods@ =~= seq![Verb::GET, Verb::POST]);
        assert(views(Seq::<String>::empty()) =~= Seq::<Seq<char>>::empty());
        CorsLayer {
            origins: OriginRule::List(Vec::new()),
            methods,
            headers: HeaderRule::List(Vec::new()),
            expose: Vec::new(),
            credentials: false,
            max_age: None,
        }
    }

    /// A wide open policy: any origin, the common verbs and any request header,
    /// remembered for a day.
    pub fn permissive() -> (r: Self)
        ensures
            r@.origins is None,
            r@.methods == seq![Verb::GET, Verb::POST, Verb::PUT, Verb::DELETE, Verb::PATCH],
            r@.headers is None,
            r@.expose == Seq::<Seq<char>>::empty(),
            !r@.credentials,
            r@.max_age matches Some(d) && duration_nanos(d) == 86_400_000_000_000,
    {
        let mut methods: Vec<Verb> = Vec::new();
        methods.push(Verb::GET);
        methods.push(Verb::POST);
        methods.push(Verb::PUT);
        methods.push(Verb::DELETE);
        methods.push(Verb::PATCH);
        assert(methods@ =~= seq![Verb::GET, Verb::POST, Verb::PUT, Verb::DELETE, Verb::PATCH]);
        assert(views(Seq::<String>::empty()) =~= Seq::<Seq<char>>::empty());
        CorsLayer {
            origins: OriginRule::Any,
            methods,
            headers: HeaderRule::MirrorRequest,
            expose: Vec::new(),
            credentials: false,
            max_age: Some(Duration::from_secs(86_400)),
        }
    }

    /// Allows any origin.
    pub fn allow_any_origin(self) -> (r: Self)
        ensures
            r@ == (CorsView { origins: None, ..self@ }),
    {
        proof {
            use_type_invariant(&self);
        }
        CorsLayer {
            origins: OriginRule::Any,
            methods: self.methods,
            headers: self.headers,
            expose: self.expose,
            credentials: self.credentials,
            max_age: self.max_age,
        }
    }

    /// Allows one more origin. A policy that allowed any origin then allows
    /// this one alone.
    pub fn allow_origin(self, origin: &str) -> (r: Self)
        ensures
            r@ == (CorsView {
                origins: Some(
                    match self@.origins {
                        Some(list) => list.push(origin@),
                        None => seq![origin@],
                    },
                ),
                ..self@
            }),
    {
        proof {
            use_type_invariant(&self);
        }
        let ghost before = self@.origins;
        let mut list: Vec<String> = match self.origins {
            OriginRule::List(list) => list,
            OriginRule::Any => Vec::new(),
        };
        let ghost old = views(list@);
        list.push(origin.to_owned());
        assert(views(list@) =~= old.push(origin@));
        assert(before is None ==> views(list@) =~= seq![origin@]);
        CorsLayer {
            origins: OriginRule::List(list),
            methods: self.methods,
            headers: self.headers,
            expose: self.expose,
            credentials: self.credentials,
            max_age: self.max_age,
        }
    }

    /// Sets the methods that a preflight is told.
    pub fn allow_methods(self, methods: Vec<Verb>) -> (r: Self)
        ensures
            r@ == (CorsView { methods: methods@, ..self@ }),
    {
        proof {
            use_type_invariant(&self);
        }
        CorsLayer {
            origins: self.origins,
            methods,
            headers: self.headers,
            expose: self.expose,
            credentials: self.credentials,
            max_age: self.max_age,
        }
    }

    /// Allows any request header.
    pub fn allow_any_header(self) -> (r: Self)
        ensures
            r@ == (CorsView { headers: None, ..self@ }),
    {
        proof {
            use_type_invariant(&self);
        }
        CorsLayer {
            origins: self.origins,
            methods: self.methods,
            headers: HeaderRule::MirrorRequest,
            expose: self.expose,
            credentials: self.credentials,
            max_age: self.max_age,
        }
    }

    /// Sets the allowed request headers, by lower-case name.
    pub fn allow_headers(self, headers: Vec<String>) -> (r: Self)
        requires
            are_names(views(headers@)),
        ensures
            r@ == (CorsView { headers: Some(views(headers@)), ..self@ }),
    {
        proof {
            use_type_invariant(&self);
        }
        CorsLayer {
            origins: self.origins,
            methods: self.methods,
            headers: HeaderRule::List(headers),
            expose: self.expose,
            credentials: self.credentials,
            max_age: self.max_age,
        }
    }

    /// Sets the response headers that a script may read, by lower-case name.
    pub fn expose_headers(self, headers: Vec<String>) -> (r: Self)
        requires
            are_names(views(headers@)),
        ensures
            r@ == (CorsView { expose: views(headers@), ..self@ }),
    {
        proof {
            use_type_invariant(&self);
        }
        CorsLayer {
            origins: self.origins,
            methods: self.methods,
            headers: self.headers,
            expose: headers,
            credentials: self.credentials,
            max_age: self.max_age,
        }
    }

    /// Allows requests with credentials, or not.
    pub fn allow_credentials(self, yes: bool) -> (r: Self)
        ensures
            r@ == (CorsView { credentials: yes, ..self@ }),
    {
        proof {
            use_type_invariant(&self);
        }
        CorsLayer {
            origins: self.origins,
            methods: self.methods,
            headers: self.headers,
            expose: self.expose,
            credentials: yes,
            max_age: self.max_age,
        }
    }

    /// Sets how long a browser may remember a preflight.
    pub fn max_age(self, age: Duration) -> (r: Self)
        ensures
            r@ == (CorsView { max_age: Some(age), ..self@ }),
    {
        proof {
            use_type_invariant(&self);
        }
        CorsLayer {
            origins: self.origins,
            methods: self.methods,
            headers: self.headers,
            expose: self.expose,
            credentials: self.credentials,
            max_age: Some(age),
        }
    }

    /// Whether a request is a preflight.
    pub fn is_preflight(method: &str, headers: &http::HeaderMap) -> (r: bool)
        ensures
            r == preflight(method@, header_contents(*headers)),
    {
        proof {
            lemma_cors_names();
        }
        str_eq(method, "OPTIONS") && header_get(headers, "origin").is_some() && header_get(
            headers,
            "access-control-request-method",
        ).is_some()
    }

    /// The value that tells a browser its origin is allowed.
    fn allow_origin_value(&self, request_headers: &http::HeaderMap) -> (r: Option<Vec<u8>>)
        ensures
            match r {
                Some(v) => allowed_origin(self@, header_contents(*request_headers)) matches Some(o)
                    && v@ == utf8(o) && is_header_value(v@),
                None => allowed_origin(self@, header_contents(*request_headers)) is None,
            },
    {
        proof {
            lemma_cors_names();
        }
        match header_text(request_headers, "origin") {
            Some(origin) => {
                let allowed = match &self.origins {
                    OriginRule::Any => true,
                    OriginRule::List(list) => list_contains(list, origin.as_str()),
                };
                let value = bytes_of(origin.as_str());
                if allowed && check_header_value(&value) {
                    Some(value)
                } else {
                    None
                }
            },
            None => None,
        }
    }

    /// The headers of the response to a preflight request.
    pub fn preflight_headers(&self, request_headers: &http::HeaderMap) -> (r: Vec<
        (&'static str, Vec<u8>),
    >)
        ensures
            pair_contents(r@) == preflight_pairs(self@, header_contents(*request_headers)),
            are_headers(pair_contents(r@)),
            r@.len() <= 6,
    {
        proof {
            use_type_invariant(self);
            lemma_cors_names();
        }
        let ghost request = header_contents(*request_headers);
        let mut out: Vec<(&'static str, Vec<u8>)> = Vec::new();
        assert(pair_contents(out@) =~= Seq::<(Seq<char>, Seq<u8>)>::empty());
        let origin = match self.allow_origin_value(request_headers) {
            Some(v) => v,
            None => {
                return out;
            },
        };
        let ghost text = allowed_origin(self@, request)->0;
        push_pair(&mut out, "access-control-allow-origin", origin);
        push_pair(&mut out, "vary", bytes_of("Origin"));
        assert(pair_contents(out@) =~= origin_pairs(text));
        proof {
            lemma_tokens_printable(self.methods@);
        }
        push_pair(
            &mut out,
            "access-control-allow-methods",
            bytes_of(join_verbs(&self.methods).as_str()),
        );
        match &self.headers {
            HeaderRule::MirrorRequest => {
                if let Some(v) = header_get(request_headers, "access-control-request-headers") {
                    push_pair(&mut out, "access-control-allow-headers", v);
                }
            },
            HeaderRule::List(list) => {
                if list.len() > 0 {
                    proof {
                        lemma_names_printable(views(list@));
                    }
                    push_pair(
                        &mut out,
                        "access-control-allow-headers",
                        bytes_of(join_strings(list, ", ").as_str()),
                    );
                }
            },
        }
        if self.credentials {
            push_pair(&mut out, "access-control-allow-credentials", bytes_of("true"));
        }
        if let Some(age) = &self.max_age {
            let secs: u64 = age.as_secs();
            proof {
                lemma_decimal_printable(secs as nat);
            }
            push_pair(
                &mut out,
                "access-control-max-age",
                bytes_of(u64_to_string(secs).as_str()),
            );
        }
        assert(pair_contents(out@).len() == out@.len());
        out
    }

    /// The headers of any other response.
    pub fn response_headers(&self, request_headers: &http::HeaderMap) -> (r: Vec<
        (&'static str, Vec<u8>),
    >)
        ensures
            pair_contents(r@) == response_pairs(self@, header_contents(*request_headers)),
            are_headers(pair_contents(r@)),
            r@.len() <= 6,
    {
        proof {
            use_type_invariant(self);
            lemma_cors_names();
        }
        let ghost request = header_contents(*request_headers);
        let mut out: Vec<(&'static str, Vec<u8>)> = Vec::new();
        assert(pair_contents(out@) =~= Seq::<(Seq<char>, Seq<u8>)>::empty());
        let origin = match self.allow_origin_value(request_headers) {
            Some(v) => v,
            None => {
                return out;
            },
        };
        let ghost text = allowed_origin(self@, request)->0;
        push_pair(&mut out, "access-control-allow-origin", origin);
        push_pair(&mut out, "vary", bytes_of("Origin"));
        assert(pair_contents(out@) =~= origin_pairs(text));
        if self.credentials {
            push_pair(&mut out, "access-control-allow-credentials", bytes_of("true"));
        }
        if self.expose.len() > 0 {
            proof {
                lemma_names_printable(views(self.expose@));
            }
            push_pair(
                &mut out,
                "access-control-expose-headers",
                bytes_of(join_strings(&self.expose, ", ").as_str()),
            );
        }
        assert(pair_contents(out@).len() == out@.len());
        out
    }

    /// Puts the headers of the policy on a response.
    pub fn apply(&self, request_headers: &http::HeaderMap, into: &mut http::HeaderMap, preflight: bool)
        requires
            has_room(header_contents(*old(into)), 6),
        ensures
            header_contents(*final(into)) == put_on(
                header_contents(*old(into)),
                if preflight {
                    preflight_pairs(self@, header_contents(*request_headers))
                } else {
                    response_pairs(self@, header_contents(*request_headers))
                },
            ),
            header_contents(*final(into)).dom().finite(),
            header_contents(*final(into)).dom().len() <= header_contents(*old(into)).dom().len()
                + 6,
    {
        let pairs = if preflight {
            self.preflight_headers(request_headers)
        } else {
            self.response_headers(request_headers)
        };
        let ghost all = pair_contents(pairs@);
        let ghost before = header_contents(*into);
        let mut i: usize = 0;
        assert(all.take(0) =~= Seq::<(Seq<char>, Seq<u8>)>::empty());
        while i < pairs.len()
            invariant
                i <= pairs@.len() <= 6,
                all == pair_contents(pairs@),
                are_headers(all),
                header_contents(*into) == put_on(before, all.take(i as int)),
                header_contents(*into).dom().finite(),
                header_contents(*into).dom().len() <= before.dom().len() + i,
                before.dom().len() + 6 <= MAX_HEADER_NAMES,
            decreases pairs.len() - i,
        {
            assert(all.take(i as int + 1).drop_last() =~= all.take(i as int));
            assert(all.take(i as int + 1).last() == all[i as int]);
            assert(is_stored_name(all[i as int].0) && is_header_value(all[i as int].1));
            if str_eq(pairs[i].0, "vary") {
                header_append(into, pairs[i].0, &pairs[i].1);
            } else {
                header_insert(into, pairs[i].0, &pairs[i].1);
            }
            i = i + 1;
        }
        assert(all.take(all.len() as int) =~= all);
    }
}

// ---------------------------------------------------------------------------
// Laws
// ---------------------------------------------------------------------------

/// A request without an origin, or from one that is not allowed, is answered
/// without any header of the policy.
pub proof fn law_other_origins_get_nothing(cors: CorsView, request: Contents, headers: Contents)
    requires
        first_text(request, "origin"@) matches Some(o) ==> !origin_allowed(cors, o),
    ensures
        put_on(headers, preflight_pairs(cors, request)) == headers,
        put_on(headers, response_pairs(cors, request)) == headers,
{
}

/// A browser is told its own origin, and never a star for any: with
/// credentials or without.
pub proof fn law_the_origin_is_echoed(cors: CorsView, request: Contents)
    requires
        allowed_origin(cors, request) is Some,
    ensures
        response_pairs(cors, request).len() >= 2,
        preflight_pairs(cors, request).len() >= 2,
        response_pairs(cors, request)[0] == (
            "access-control-allow-origin"@,
            utf8(first_text(request, "origin"@)->0),
        ),
        preflight_pairs(cors, request)[0] == (
            "access-control-allow-origin"@,
            utf8(first_text(request, "origin"@)->0),
        ),
        response_pairs(cors, request)[1] == ("vary"@, utf8("Origin"@)),
        preflight_pairs(cors, request)[1] == ("vary"@, utf8("Origin"@)),
{
}

/// What a response says under `Vary` stays: the values of the policy come
/// behind it.
pub proof fn law_vary_is_kept(headers: Contents, pairs: Pairs)
    ensures
        all_values(headers, "vary"@).len() <= all_values(put_on(headers, pairs), "vary"@).len(),
        all_values(put_on(headers, pairs), "vary"@).take(
            all_values(headers, "vary"@).len() as int,
        ) == all_values(headers, "vary"@),
    decreases pairs.len(),
{
    let n = all_values(headers, "vary"@).len() as int;
    if pairs.len() == 0 {
        assert(all_values(headers, "vary"@).take(n) =~= all_values(headers, "vary"@));
    } else {
        law_vary_is_kept(headers, pairs.drop_last());
        let before = all_values(put_on(headers, pairs.drop_last()), "vary"@);
        let after = all_values(put_on(headers, pairs), "vary"@);
        if pairs.last().0 == "vary"@ {
            assert(after == before.push(pairs.last().1));
            assert(after.take(n) =~= before.take(n));
        }
    }
}

pub proof fn lemma_put_on_other(headers: Contents, pairs: Pairs, name: Seq<char>)
    requires
        forall|i: int| 0 <= i < pairs.len() ==> (#[trigger] pairs[i]).0 != name,
    ensures
        put_on(headers, pairs).contains_key(name) == headers.contains_key(name),
        headers.contains_key(name) ==> put_on(headers, pairs)[name] == headers[name],
    decreases pairs.len(),
{
    if pairs.len() > 0 {
        let front = pairs.drop_last();
        assert forall|i: int| 0 <= i < front.len() implies (#[trigger] front[i]).0 != name by {
            assert(front[i] == pairs[i]);
        }
        assert(pairs[pairs.len() - 1].0 != name);
        lemma_put_on_other(headers, front, name);
    }
}

proof fn lemma_put_on_one(headers: Contents, pairs: Pairs, k: int)
    requires
        0 <= k < pairs.len(),
        pairs[k].0 != "vary"@,
        forall|i: int| k < i < pairs.len() ==> (#[trigger] pairs[i]).0 != pairs[k].0,
    ensures
        put_on(headers, pairs).contains_key(pairs[k].0),
        put_on(headers, pairs)[pairs[k].0] == seq![pairs[k].1],
    decreases pairs.len(),
{
    if k < pairs.len() - 1 {
        let front = pairs.drop_last();
        assert(front[k] == pairs[k]);
        assert forall|i: int| k < i < front.len() implies (#[trigger] front[i]).0 != front[k].0 by {
            assert(front[i] == pairs[i]);
        }
        assert(pairs[pairs.len() - 1].0 != pairs[k].0);
        lemma_put_on_one(headers, front, k);
    }
}

proof fn lemma_pair_names()
    ensures
        "vary"@.len() == 4,
        "access-control-allow-origin"@.len() == 27,
        "access-control-allow-methods"@.len() == 28,
        "access-control-allow-headers"@.len() == 28,
        "access-control-allow-methods"@ != "access-control-allow-headers"@,
        "access-control-allow-credentials"@.len() == 32,
        "access-control-expose-headers"@.len() == 29,
        "access-control-max-age"@.len() == 22,
{
    reveal_strlit("vary");
    reveal_strlit("access-control-allow-origin");
    reveal_strlit("access-control-allow-methods");
    reveal_strlit("access-control-allow-headers");
    reveal_strlit("access-control-allow-credentials");
    reveal_strlit("access-control-expose-headers");
    reveal_strlit("access-control-max-age");
    assert("access-control-allow-methods"@[21] == 'm');
    assert("access-control-allow-headers"@[21] == 'h');
}

/// A request is let in where it names an origin that is on the list of the
/// policy, letter by letter, or where the policy has no list; and no other is.
pub proof fn law_who_is_let_in(cors: CorsView, request: Contents, origin: Seq<char>)
    requires
        first_text(request, "origin"@) == Some(origin),
        is_header_value(utf8(origin)),
    ensures
        cors.origins is None ==> allowed_origin(cors, request) == Some(origin),
        cors.origins matches Some(list) ==> (allowed_origin(cors, request) == Some(origin)
            <==> exists|i: int| 0 <= i < list.len() && #[trigger] list[i] == origin),
        cors.origins matches Some(list) ==> (allowed_origin(cors, request) is None <==> forall|
            i: int,
        |
            0 <= i < list.len() ==> #[trigger] list[i] != origin),
{
    if let Some(list) = cors.origins {
        if list.contains(origin) {
            assert(list[list.index_of(origin)] == origin);
        }
    }
}

/// Whether bytes are a list with commas whose items are `items`, in order.
pub open spec fn lists_items(value: Seq<u8>, items: Seq<Seq<char>>) -> bool {
    exists|text: Seq<char>| value == #[trigger] utf8(text) && list_items(text) == items
}

proof fn lemma_names_are_items(names: Seq<Seq<char>>)
    requires
        are_names(names),
        names.len() > 0,
    ensures
        lists_items(utf8(join(names, ", "@)), names),
{
    assert forall|i: int| 0 <= i < names.len() implies visible_ends(#[trigger] names[i])
        && !names[i].contains(',') by {
        assert(is_stored_name(names[i]));
        let name = names[i];
        assert(crate::headers::is_name_char(name[0]));
        assert(crate::headers::is_name_char(name[name.len() - 1]));
        if name.contains(',') {
            assert(crate::headers::is_name_char(name[name.index_of(',')]));
        }
    }
    law_lists_read_back(names);
}

/// The response to a request of an allowed origin names the headers that a
/// script may read, all of them in the order of the policy, and has no such
/// header where the policy exposes none. It says so of credentials too.
pub proof fn law_responses_to_allowed_origins(cors: CorsView, request: Contents, headers: Contents)
    requires
        are_names(cors.expose),
        allowed_origin(cors, request) is Some,
        !headers.contains_key("access-control-expose-headers"@),
        !headers.contains_key("access-control-allow-credentials"@),
    ensures
        ({
            let r = put_on(headers, response_pairs(cors, request));
            &&& r.contains_key("access-control-allow-origin"@)
            &&& r["access-control-allow-origin"@] == seq![
                utf8(first_text(request, "origin"@)->0),
            ]
            &&& all_values(r, "vary"@) == all_values(headers, "vary"@).push(utf8("Origin"@))
            &&& r.contains_key("access-control-expose-headers"@) <==> cors.expose.len() > 0
            &&& cors.expose.len() > 0 ==> r["access-control-expose-headers"@].len() == 1
                && lists_items(r["access-control-expose-headers"@][0], cors.expose)
            &&& r.contains_key("access-control-allow-credentials"@) <==> cors.credentials
            &&& cors.credentials ==> r["access-control-allow-credentials"@] == seq![utf8("true"@)]
            &&& forall|k: Seq<char>|
                k != "access-control-allow-origin"@ && k != "vary"@ && k
                    != "access-control-expose-headers"@ && k != "access-control-allow-credentials"@
                    ==> (#[trigger] r.contains_key(k) == headers.contains_key(k))
            &&& forall|k: Seq<char>| #[trigger]
                headers.contains_key(k) && k != "access-control-allow-origin"@ && k != "vary"@
                    ==> r[k] == headers[k]
        }),
{
    lemma_pair_names();
    let pairs = response_pairs(cors, request);
    let r = put_on(headers, pairs);
    let origin = allowed_origin(cors, request)->0;
    let base = origin_pairs(origin);
    let more = with_pair(base, "access-control-allow-credentials"@, flag_value(cors.credentials));
    lemma_put_on_one(headers, pairs, 0);
    lemma_origin_vary(headers, pairs);
    if cors.credentials {
        lemma_put_on_one(headers, pairs, 2);
    } else {
        lemma_put_on_other(headers, pairs, "access-control-allow-credentials"@);
    }
    if cors.expose.len() > 0 {
        lemma_put_on_one(headers, pairs, pairs.len() - 1);
        lemma_names_are_items(cors.expose);
    } else {
        lemma_put_on_other(headers, pairs, "access-control-expose-headers"@);
    }
    assert forall|k: Seq<char>|
        k != "access-control-allow-origin"@ && k != "vary"@ && k != "access-control-expose-headers"@
            && k != "access-control-allow-credentials"@ implies (#[trigger] r.contains_key(k)
        == headers.contains_key(k)) by {
        lemma_put_on_other(headers, pairs, k);
    }
    assert forall|k: Seq<char>| #[trigger]
        headers.contains_key(k) && k != "access-control-allow-origin"@ && k != "vary"@ implies r[k]
        == headers[k] by {
        lemma_put_on_other(headers, pairs, k);
    }
}

/// `Vary` gains the one value `Origin`.
proof fn lemma_origin_vary(headers: Contents, pairs: Pairs)
    requires
        pairs.len() >= 2,
        pairs[0].0 != "vary"@,
        pairs[1] == ("vary"@, utf8("Origin"@)),
        forall|i: int| 2 <= i < pairs.len() ==> (#[trigger] pairs[i]).0 != "vary"@,
    ensures
        all_values(put_on(headers, pairs), "vary"@) == all_values(headers, "vary"@).push(
            utf8("Origin"@),
        ),
    decreases pairs.len(),
{
    let front = pairs.drop_last();
    if pairs.len() == 2 {
        assert(front[0] == pairs[0]);
        assert(front.drop_last() =~= Seq::<(Seq<char>, Seq<u8>)>::empty());
        reveal_with_fuel(put_on, 3);
    } else {
        assert forall|i: int| 2 <= i < front.len() implies (#[trigger] front[i]).0 != "vary"@ by {
            assert(front[i] == pairs[i]);
        }
        assert(pairs[pairs.len() - 1].0 != "vary"@);
        lemma_origin_vary(headers, front);
    }
}

/// The answer to a preflight of an allowed origin: the verbs of the policy in
/// its order, the headers that it lists or, where it lists none in particular,
/// those that the request asks for, credentials where it allows them, and how
/// many whole seconds the answer may be kept, where it says so.
pub proof fn law_answers_to_preflights(cors: CorsView, request: Contents, headers: Contents)
    requires
        cors.headers matches Some(list) ==> are_names(list),
        allowed_origin(cors, request) is Some,
        headers == Map::<Seq<char>, Seq<Seq<u8>>>::empty(),
    ensures
        ({
            let r = put_on(headers, preflight_pairs(cors, request));
            let asked = all_values(request, "access-control-request-headers"@);
            &&& r.contains_key("access-control-allow-origin"@)
            &&& r["access-control-allow-origin"@] == seq![
                utf8(first_text(request, "origin"@)->0),
            ]
            &&& r.contains_key("vary"@) && r["vary"@] == seq![utf8("Origin"@)]
            &&& r.contains_key("access-control-allow-methods"@)
            &&& r["access-control-allow-methods"@].len() == 1
            &&& cors.methods.len() > 0 ==> lists_items(
                r["access-control-allow-methods"@][0],
                cors.methods.map_values(|v: Verb| verb_token(v)),
            )
            &&& match cors.headers {
                None => (r.contains_key("access-control-allow-headers"@) <==> asked.len() > 0) && (
                asked.len() > 0 ==> r["access-control-allow-headers"@] == seq![asked[0]]),
                Some(list) => (r.contains_key("access-control-allow-headers"@) <==> list.len() > 0)
                    && (list.len() > 0 ==> r["access-control-allow-headers"@].len() == 1
                    && lists_items(r["access-control-allow-headers"@][0], list)),
            }
            &&& r.contains_key("access-control-allow-credentials"@) <==> cors.credentials
            &&& cors.credentials ==> r["access-control-allow-credentials"@] == seq![utf8("true"@)]
            &&& r.contains_key("access-control-max-age"@) <==> cors.max_age is Some
            &&& cors.max_age matches Some(d) ==> r["access-control-max-age"@] == seq![
                utf8(decimal(duration_nanos(d) / 1_000_000_000)),
            ]
            &&& !r.contains_key("access-control-expose-headers"@)
        }),
{
    lemma_pair_names();
    let pairs = preflight_pairs(cors, request);
    let r = put_on(headers, pairs);
    let origin = allowed_origin(cors, request)->0;
    let allow = allow_headers_value(cors, request);
    lemma_put_on_one(headers, pairs, 0);
    lemma_origin_vary(headers, pairs);
    assert(all_values(headers, "vary"@).push(utf8("Origin"@)) =~= seq![utf8("Origin"@)]);
    lemma_put_on_one(headers, pairs, 2);
    if cors.methods.len() > 0 {
        lemma_tokens_are_items(cors.methods);
    }
    if allow is Some {
        lemma_put_on_one(headers, pairs, 3);
        if let Some(list) = cors.headers {
            lemma_names_are_items(list);
        }
    } else {
        lemma_put_on_other(headers, pairs, "access-control-allow-headers"@);
    }
    let at = if allow is Some {
        4int
    } else {
        3int
    };
    if cors.credentials {
        lemma_put_on_one(headers, pairs, at);
    } else {
        lemma_put_on_other(headers, pairs, "access-control-allow-credentials"@);
    }
    if cors.max_age is Some {
        lemma_put_on_one(headers, pairs, pairs.len() - 1);
    } else {
        lemma_put_on_other(headers, pairs, "access-control-max-age"@);
    }
    lemma_put_on_other(headers, pairs, "access-control-expose-headers"@);
}

proof fn lemma_tokens_are_items(verbs: Seq<Verb>)
    requires
        verbs.len() > 0,
    ensures
        lists_items(utf8(join(verb_tokens(verbs), ", "@)), verb_tokens(verbs)),
{
    reveal_strlit("GET");
    reveal_strlit("POST");
    reveal_strlit("PUT");
    reveal_strlit("DELETE");
    reveal_strlit("PATCH");
    reveal_strlit("HEAD");
    reveal_strlit("OPTIONS");
    let tokens = verb_tokens(verbs);
    assert forall|i: int| 0 <= i < tokens.len() implies visible_ends(#[trigger] tokens[i])
        && !tokens[i].contains(',') by {
        assert(tokens[i] == verb_token(verbs[i]));
    }
    law_lists_read_back(tokens);
}

/// A preflight is an `OPTIONS` request that names both an origin and the verb
/// that it asks for: with one of the three changed it is none, and nothing else
/// counts.
pub proof fn law_what_makes_a_preflight(
    method: Seq<char>,
    request: Contents,
    name: Seq<char>,
    value: Seq<Seq<u8>>,
)
    ensures
        preflight(method, request) ==> method == seq!['O', 'P', 'T', 'I', 'O', 'N', 'S'],
        !preflight(method, request.remove("origin"@)),
        !preflight(method, request.remove("access-control-request-method"@)),
        preflight(
            seq!['O', 'P', 'T', 'I', 'O', 'N', 'S'],
            request.insert("origin"@, value).insert("access-control-request-method"@, value),
        ),
        preflight(method, request) ==> preflight(method, request.insert(name, value)),
{
    reveal_strlit("OPTIONS");
    assert("OPTIONS"@ =~= seq!['O', 'P', 'T', 'I', 'O', 'N', 'S']);
}

} // verus!
