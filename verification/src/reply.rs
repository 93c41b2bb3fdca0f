//! What a handler answers with.

use crate::error::ErrorView;
use crate::error::WebError;
use crate::json::json_eq;
use crate::json::json_equal;
use crate::json::json_tree;
use crate::json::JsonTree;
use crate::status::StatusCode;
use crate::strmap::pair_views;
use crate::strmap::single;
use crate::strmap::StrMap;
use crate::text::push_text;
use crate::text::str_eq;
use vstd::prelude::*;

verus! {

/// The payload of a reply. `S` is a stream of body chunks and `U` what takes
/// over an upgraded connection; both are carried through untouched.
#[derive(Debug)]
pub enum ReplyData<S, U> {
    /// A JSON body.
    Json(serde_json::Value),
    /// Bytes with the type that they are sent under.
    Bytes {
        /// The content type.
        content_type: String,
        /// The bytes of the body.
        data: Vec<u8>,
    },
    /// No body.
    Empty,
    /// A payload with a status and headers of its own.
    Rich(Box<ReplySpec<S, U>>),
    /// A body that is sent chunk by chunk.
    Stream(S),
    /// A change of protocol.
    Upgrade(U),
}

/// A payload with a status and headers.
#[derive(Debug)]
pub struct ReplySpec<S, U> {
    /// The payload.
    pub payload: ReplyData<S, U>,
    /// The status, or none for that of the payload.
    pub status: Option<StatusCode>,
    /// The headers, by name.
    pub headers: StrMap<String>,
}

/// What a reply says.
pub enum ReplyView<S, U> {
    Json(JsonTree),
    Bytes { content_type: Seq<char>, data: Seq<u8> },
    Empty,
    Rich(Box<SpecView<S, U>>),
    Stream(S),
    Upgrade(U),
}

/// What a payload with a status and headers says.
pub struct SpecView<S, U> {
    pub payload: ReplyView<S, U>,
    pub status: Option<int>,
    pub headers: Map<Seq<char>, Seq<char>>,
}

/// The number of an optional status.
pub open spec fn status_option(s: Option<StatusCode>) -> Option<int> {
    match s {
        Some(s) => Some(s@),
        None => None,
    }
}

/// What a reply says.
pub open spec fn reply_view<S, U>(r: ReplyData<S, U>) -> ReplyView<S, U>
    decreases r,
{
    match r {
        ReplyData::Json(v) => ReplyView::Json(json_tree(v)),
        ReplyData::Bytes { content_type, data } => ReplyView::Bytes {
            content_type: content_type@,
            data: data@,
        },
        ReplyData::Empty => ReplyView::Empty,
        ReplyData::Rich(spec) => ReplyView::Rich(
            Box::new(
                SpecView {
                    payload: reply_view(spec.payload),
                    status: status_option(spec.status),
                    headers: single(spec.headers@),
                },
            ),
        ),
        ReplyData::Stream(s) => ReplyView::Stream(s),
        ReplyData::Upgrade(u) => ReplyView::Upgrade(u),
    }
}

impl<S, U> View for ReplyData<S, U> {
    type V = ReplyView<S, U>;

    open spec fn view(&self) -> ReplyView<S, U> {
        reply_view(*self)
    }
}

impl<S, U> View for ReplySpec<S, U> {
    type V = SpecView<S, U>;

    open spec fn view(&self) -> SpecView<S, U> {
        SpecView {
            payload: self.payload@,
            status: status_option(self.status),
            headers: single(self.headers@),
        }
    }
}

/// What a handler returns: a payload, or an error.
pub type Reply<S, U> = Result<ReplyData<S, U>, WebError>;

/// What a handler's return says.
pub open spec fn outcome_view<S, U>(r: Reply<S, U>) -> Result<ReplyView<S, U>, ErrorView> {
    match r {
        Ok(d) => Ok(d@),
        Err(e) => Err(e@),
    }
}

/// The reply with one more header; a change of protocol stays as it is.
pub open spec fn with_header<S, U>(r: ReplyView<S, U>, name: Seq<char>, value: Seq<char>) -> ReplyView<
    S,
    U,
> {
    match r {
        ReplyView::Upgrade(u) => r,
        ReplyView::Rich(spec) => ReplyView::Rich(
            Box::new(SpecView { headers: spec.headers.insert(name, value), ..*spec }),
        ),
        _ => ReplyView::Rich(
            Box::new(
                SpecView { payload: r, status: None, headers: Map::empty().insert(name, value) },
            ),
        ),
    }
}

/// The reply under another status; a change of protocol stays as it is.
pub open spec fn with_status<S, U>(r: ReplyView<S, U>, status: int) -> ReplyView<S, U> {
    match r {
        ReplyView::Upgrade(u) => r,
        ReplyView::Rich(spec) => ReplyView::Rich(
            Box::new(SpecView { status: Some(status), ..*spec }),
        ),
        _ => ReplyView::Rich(
            Box::new(SpecView { payload: r, status: Some(status), headers: Map::empty() }),
        ),
    }
}

impl<S, U> ReplyData<S, U> {
    /// Sets a header.
    pub fn add_header(&mut self, name: &str, value: &str)
        ensures
            final(self)@ == with_header(old(self)@, name@, value@),
    {
        let mut taken = ReplyData::Empty;
        std::mem::swap(self, &mut taken);
        *self = match taken {
            ReplyData::Upgrade(u) => ReplyData::Upgrade(u),
            ReplyData::Rich(spec) => {
                let ReplySpec { payload, status, headers } = *spec;
                let mut headers = headers;
                let ghost before = single(headers@);
                headers.insert(name.to_owned(), value.to_owned());
                assert(single(headers@) =~= before.insert(name@, value@));
                ReplyData::Rich(Box::new(ReplySpec { payload, status, headers }))
            },
            payload => {
                let mut headers: StrMap<String> = StrMap::new();
                headers.insert(name.to_owned(), value.to_owned());
                assert(single(headers@) =~= Map::<Seq<char>, Seq<char>>::empty().insert(
                    name@,
                    value@,
                ));
                ReplyData::Rich(Box::new(ReplySpec { payload, status: None, headers }))
            },
        };
    }

    /// Sets the status.
    pub fn set_status(&mut self, status: StatusCode)
        ensures
            final(self)@ == with_status(old(self)@, status@),
    {
        let mut taken = ReplyData::Empty;
        std::mem::swap(self, &mut taken);
        *self = match taken {
            ReplyData::Upgrade(u) => ReplyData::Upgrade(u),
            ReplyData::Rich(spec) => {
                let ReplySpec { payload, status: _, headers } = *spec;
                ReplyData::Rich(Box::new(ReplySpec { payload, status: Some(status), headers }))
            },
            payload => {
                let headers: StrMap<String> = StrMap::new();
                assert(single(headers@) =~= Map::<Seq<char>, Seq<char>>::empty());
                ReplyData::Rich(Box::new(ReplySpec { payload, status: Some(status), headers }))
            },
        };
    }
}

// ---------------------------------------------------------------------------
// Constructors
// ---------------------------------------------------------------------------

/// A reply with a JSON body.
pub fn json<S, U>(val: serde_json::Value) -> (r: ReplyData<S, U>)
    ensures
        r@ == ReplyView::<S, U>::Json(json_tree(val)),
{
    ReplyData::Json(val)
}

/// A reply with bytes of a given type.
pub fn bytes<S, U>(content_type: &str, data: Vec<u8>) -> (r: ReplyData<S, U>)
    ensures
        r@ == (ReplyView::<S, U>::Bytes { content_type: content_type@, data: data@ }),
{
    ReplyData::Bytes { content_type: content_type.to_owned(), data }
}

/// A reply without a body.
pub fn empty<S, U>() -> (r: ReplyData<S, U>)
    ensures
        r@ == ReplyView::<S, U>::Empty,
{
    ReplyData::Empty
}

/// A reply whose body is a stream.
pub fn stream<S, U>(s: S) -> (r: ReplyData<S, U>)
    ensures
        r@ == ReplyView::<S, U>::Stream(s),
{
    ReplyData::Stream(s)
}

/// A reply that streams server-sent events: `s` hands out their bytes. The
/// type is set, and caches are told to keep away.
pub fn sse<S, U>(s: S) -> (r: ReplyData<S, U>)
    ensures
        r@ == ReplyView::<S, U>::Rich(
            Box::new(
                SpecView {
                    payload: ReplyView::Stream(s),
                    status: None,
                    headers: map![
                        "content-type"@ => "text/event-stream"@,
                        "cache-control"@ => "no-cache"@
                    ],
                },
            ),
        ),
{
    let mut headers: StrMap<String> = StrMap::new();
    headers.insert("content-type".to_owned(), "text/event-stream".to_owned());
    headers.insert("cache-control".to_owned(), "no-cache".to_owned());
    assert(single(headers@) =~= map![
        "content-type"@ => "text/event-stream"@,
        "cache-control"@ => "no-cache"@
    ]);
    let payload: ReplyData<S, U> = ReplyData::Stream(s);
    assert(payload@ == ReplyView::<S, U>::Stream(s));
    ReplyData::Rich(Box::new(ReplySpec { payload, status: None, headers }))
}

/// Starts a reply with a status and headers.
pub fn build_reply<S, U>() -> (r: ReplySpec<S, U>)
    ensures
        r@ == (SpecView::<S, U> { payload: ReplyView::Empty, status: None, headers: Map::empty() }),
{
    ReplySpec::new()
}

impl<S, U> Default for ReplySpec<S, U> {
    fn default() -> (r: Self)
        ensures
            r@ == (SpecView::<S, U> {
                payload: ReplyView::Empty,
                status: None,
                headers: Map::empty(),
            }),
    {
        Self::new()
    }
}

impl<S, U> ReplySpec<S, U> {
    /// No payload, no status and no headers.
    pub fn new() -> (r: Self)
        ensures
            r@ == (SpecView::<S, U> {
                payload: ReplyView::Empty,
                status: None,
                headers: Map::empty(),
            }),
    {
        let headers: StrMap<String> = StrMap::new();
        assert(single(headers@) =~= Map::<Seq<char>, Seq<char>>::empty());
        ReplySpec { payload: ReplyData::Empty, status: None, headers }
    }

    /// Sets the payload.
    pub fn body(self, data: ReplyData<S, U>) -> (r: Self)
        ensures
            r@ == (SpecView { payload: data@, ..self@ }),
    {
        ReplySpec { payload: data, status: self.status, headers: self.headers }
    }

    /// Sets the status.
    pub fn status(self, s: StatusCode) -> (r: Self)
        ensures
            r@ == (SpecView { status: Some(s@), ..self@ }),
    {
        ReplySpec { payload: self.payload, status: Some(s), headers: self.headers }
    }

    /// Sets a header.
    pub fn header(self, key: &str, value: &str) -> (r: Self)
        ensures
            r@ == (SpecView { headers: self@.headers.insert(key@, value@), ..self@ }),
    {
        let mut headers = self.headers;
        let ghost before = single(headers@);
        headers.insert(key.to_owned(), value.to_owned());
        assert(single(headers@) =~= before.insert(key@, value@));
        ReplySpec { payload: self.payload, status: self.status, headers }
    }

    /// The finished reply.
    pub fn done(self) -> (r: ReplyData<S, U>)
        ensures
            r@ == ReplyView::Rich(Box::new(self@)),
    {
        ReplyData::Rich(Box::new(self))
    }
}

/// The headers with each pair set, from the first to the last.
pub open spec fn headers_set(
    headers: Map<Seq<char>, Seq<char>>,
    pairs: Seq<(Seq<char>, Seq<char>)>,
) -> Map<Seq<char>, Seq<char>>
    decreases pairs.len(),
{
    if pairs.len() == 0 {
        headers
    } else {
        headers_set(headers, pairs.drop_last()).insert(pairs.last().0, pairs.last().1)
    }
}

/// The reply for a value that was serialised: the value as JSON, or a `500`
/// with the text of the error.
pub fn try_json<S, U>(outcome: Result<serde_json::Value, String>) -> (r: Reply<S, U>)
    ensures
        outcome_view(r) == match outcome {
            Ok(v) => Ok::<ReplyView<S, U>, ErrorView>(ReplyView::Json(json_tree(v))),
            Err(text) => Err(ErrorView::Internal("serialize response: "@ + text@)),
        },
{
    match outcome {
        Ok(v) => Ok(ReplyData::Json(v)),
        Err(text) => {
            let mut reason = "serialize response: ".to_owned();
            push_text(&mut reason, text.as_str());
            Err(WebError::Internal(reason))
        },
    }
}

/// The reply for a value that was serialised, under a status and with headers.
pub fn try_json_with<S, U>(
    outcome: Result<serde_json::Value, String>,
    status: StatusCode,
    headers: Vec<(String, String)>,
) -> (r: Reply<S, U>)
    ensures
        outcome_view(r) == match outcome {
            Ok(v) => Ok::<ReplyView<S, U>, ErrorView>(
                ReplyView::Rich(
                    Box::new(
                        SpecView {
                            payload: ReplyView::Json(json_tree(v)),
                            status: Some(status@),
                            headers: headers_set(Map::empty(), pair_views(headers@)),
                        },
                    ),
                ),
            ),
            Err(text) => Err(ErrorView::Internal("serialize response: "@ + text@)),
        },
{
    match try_json(outcome) {
        Ok(data) => {
            let ghost pairs = pair_views(headers@);
            let ghost payload = data@;
            let mut spec = build_reply().status(status).body(data);
            let mut i: usize = 0;
            assert(pairs.take(0) =~= Seq::<(Seq<char>, Seq<char>)>::empty());
            while i < headers.len()
                invariant
                    i <= headers@.len(),
                    pairs == pair_views(headers@),
                    spec@ == (SpecView::<S, U> {
                        payload,
                        status: Some(status@),
                        headers: headers_set(Map::empty(), pairs.take(i as int)),
                    }),
                decreases headers.len() - i,
            {
                assert(pairs.take(i as int + 1).drop_last() == pairs.take(i as int));
                spec = spec.header(headers[i].0.as_str(), headers[i].1.as_str());
                i = i + 1;
            }
            assert(pairs.take(pairs.len() as int) == pairs);
            Ok(spec.done())
        },
        Err(e) => Err(e),
    }
}

// ---------------------------------------------------------------------------
// Equality
// ---------------------------------------------------------------------------

/// Whether two replies are equal: the same kind of payload with equal contents.
/// A stream or a change of protocol equals nothing.
pub open spec fn replies_equal<S, U>(a: ReplyView<S, U>, b: ReplyView<S, U>) -> bool
    decreases a,
{
    match (a, b) {
        (ReplyView::Json(l), ReplyView::Json(r)) => json_equal(l, r),
        (
            ReplyView::Bytes { content_type: lc, data: ld },
            ReplyView::Bytes { content_type: rc, data: rd },
        ) => lc == rc && ld == rd,
        (ReplyView::Empty, ReplyView::Empty) => true,
        (ReplyView::Rich(l), ReplyView::Rich(r)) => replies_equal(l.payload, r.payload) && l.status
            == r.status && l.headers == r.headers,
        _ => false,
    }
}

/// Whether two payloads with a status and headers are equal.
pub open spec fn specs_equal<S, U>(a: SpecView<S, U>, b: SpecView<S, U>) -> bool {
    replies_equal(a.payload, b.payload) && a.status == b.status && a.headers == b.headers
}

/// Whether two runs of bytes are the same.
pub fn bytes_eq(a: &[u8], b: &[u8]) -> (r: bool)
    ensures
        r == (a@ == b@),
{
    if a.len() != b.len() {
        return false;
    }
    let mut i: usize = 0;
    while i < a.len()
        invariant
            a@.len() == b@.len(),
            i <= a@.len(),
            forall|j: int| 0 <= j < i ==> a@[j] == b@[j],
        decreases a.len() - i,
    {
        if a[i] != b[i] {
            return false;
        }
        i = i + 1;
    }
    assert(a@ =~= b@);
    true
}

/// Whether every name of `a` stands in `b` with the same text.
spec fn within(a: Map<Seq<char>, Seq<char>>, b: Map<Seq<char>, Seq<char>>) -> bool {
    forall|k: Seq<char>| #[trigger] a.contains_key(k) ==> b.contains_key(k) && b[k] == a[k]
}

/// Whether every name of `a` stands in `b` with the same text.
fn texts_within(a: &StrMap<String>, b: &StrMap<String>) -> (r: bool)
    ensures
        r == within(single(a@), single(b@)),
{
    let names = a.keys();
    let mut i: usize = 0;
    while i < names.len()
        invariant
            i <= names@.len(),
            crate::text::views(names@) == a.names(),
            forall|k: Seq<char>| a.names().contains(k) <==> #[trigger] a@.contains_key(k),
            forall|j: int|
                0 <= j < i ==> b@.contains_key(#[trigger] a.names()[j]) && b@[a.names()[j]]@
                    == a@[a.names()[j]]@,
        decreases names.len() - i,
    {
        let ghost name = a.names()[i as int];
        assert(name == names@[i as int]@);
        assert(a.names().contains(name));
        let same = match (a.get(names[i].as_str()), b.get(names[i].as_str())) {
            (Some(x), Some(y)) => str_eq(x.as_str(), y.as_str()),
            _ => false,
        };
        if !same {
            assert(single(a@).contains_key(name));
            assert(single(a@)[name] == a@[name]@);
            assert(!(b@.contains_key(name) && b@[name]@ == a@[name]@));
            assert(single(b@).contains_key(name) ==> single(b@)[name] == b@[name]@);
            return false;
        }
        i = i + 1;
    }
    assert forall|k: Seq<char>| #[trigger] single(a@).contains_key(k) implies single(
        b@,
    ).contains_key(k) && single(b@)[k] == single(a@)[k] by {
        assert(a@.contains_key(k));
        let j = a.names().index_of(k);
        assert(a.names()[j] == k);
    }
    true
}

fn status_eq(a: &Option<StatusCode>, b: &Option<StatusCode>) -> (r: bool)
    ensures
        r == (status_option(*a) == status_option(*b)),
{
    match (a, b) {
        (Some(x), Some(y)) => x.as_u16() == y.as_u16(),
        (None, None) => true,
        _ => false,
    }
}

fn reply_eq<S, U>(a: &ReplyData<S, U>, b: &ReplyData<S, U>) -> (r: bool)
    ensures
        r == replies_equal(a@, b@),
    decreases a,
{
    match (a, b) {
        (ReplyData::Json(l), ReplyData::Json(r)) => json_eq(l, r),
        (
            ReplyData::Bytes { content_type: lc, data: ld },
            ReplyData::Bytes { content_type: rc, data: rd },
        ) => str_eq(lc.as_str(), rc.as_str()) && bytes_eq(ld, rd),
        (ReplyData::Empty, ReplyData::Empty) => true,
        (ReplyData::Rich(l), ReplyData::Rich(r)) => {
            proof {
                let x = single(l.headers@);
                let y = single(r.headers@);
                if within(x, y) && within(y, x) {
                    assert(x =~= y);
                }
            }
            reply_eq(&l.payload, &r.payload) && status_eq(&l.status, &r.status) && texts_within(
                &l.headers,
                &r.headers,
            ) && texts_within(&r.headers, &l.headers)
        },
        _ => false,
    }
}

impl<S, U> PartialEq for ReplyData<S, U> {
    fn eq(&self, other: &Self) -> (r: bool) {
        reply_eq(self, other)
    }
}

impl<S, U> vstd::std_specs::cmp::PartialEqSpecImpl for ReplyData<S, U> {
    open spec fn obeys_eq_spec() -> bool {
        true
    }

    open spec fn eq_spec(&self, other: &Self) -> bool {
        replies_equal(self@, other@)
    }
}

impl<S, U> PartialEq for ReplySpec<S, U> {
    fn eq(&self, other: &Self) -> (r: bool) {
        proof {
            let x = single(self.headers@);
            let y = single(other.headers@);
            if within(x, y) && within(y, x) {
                assert(x =~= y);
            }
        }
        reply_eq(&self.payload, &other.payload) && status_eq(&self.status, &other.status)
            && texts_within(&self.headers, &other.headers) && texts_within(
            &other.headers,
            &self.headers,
        )
    }
}

impl<S, U> vstd::std_specs::cmp::PartialEqSpecImpl for ReplySpec<S, U> {
    open spec fn obeys_eq_spec() -> bool {
        true
    }

    open spec fn eq_spec(&self, other: &Self) -> bool {
        specs_equal(self@, other@)
    }
}

// ---------------------------------------------------------------------------
// Laws
// ---------------------------------------------------------------------------

/// The payload of a reply, without its status and headers.
pub open spec fn payload_of<S, U>(r: ReplyView<S, U>) -> ReplyView<S, U> {
    match r {
        ReplyView::Rich(spec) => spec.payload,
        _ => r,
    }
}

/// Setting a header or a status keeps the payload, the two can be done in
/// either order, and a change of protocol stays as it is.
pub proof fn law_decoration_keeps_the_payload<S, U>(
    r: ReplyView<S, U>,
    name: Seq<char>,
    value: Seq<char>,
    status: int,
)
    ensures
        payload_of(with_header(r, name, value)) == payload_of(r),
        payload_of(with_status(r, status)) == payload_of(r),
        with_header(with_status(r, status), name, value) == with_status(
            with_header(r, name, value),
            status,
        ),
        r is Upgrade ==> with_header(r, name, value) == r && with_status(r, status) == r,
{
}

/// A reply that streams, or that changes the protocol, equals no reply.
pub proof fn law_streams_are_never_equal<S, U>(a: ReplyView<S, U>, b: ReplyView<S, U>)
    requires
        a is Stream || a is Upgrade,
    ensures
        !replies_equal(a, b),
        !replies_equal(b, a),
{
}

/// Setting a header changes that header alone: it has the value, every other
/// one stays, and so does the status. Setting the status changes that alone.
pub proof fn law_decorations_change_one_thing<S, U>(
    r: ReplyView<S, U>,
    name: Seq<char>,
    value: Seq<char>,
    status: int,
)
    requires
        !(r is Upgrade),
    ensures
        with_header(r, name, value) matches ReplyView::Rich(after) && {
            &&& after.headers.contains_key(name) && after.headers[name] == value
            &&& after.status == match r {
                ReplyView::Rich(before) => before.status,
                _ => None,
            }
            &&& forall|k: Seq<char>|
                k != name ==> (#[trigger] after.headers.contains_key(k) <==> (
                r matches ReplyView::Rich(before) && before.headers.contains_key(k)))
            &&& r matches ReplyView::Rich(before) ==> forall|k: Seq<char>| #[trigger]
                before.headers.contains_key(k) && k != name ==> after.headers[k]
                    == before.headers[k]
        },
        with_status(r, status) matches ReplyView::Rich(after) && {
            &&& after.status == Some(status)
            &&& after.headers == match r {
                ReplyView::Rich(before) => before.headers,
                _ => Map::empty(),
            }
        },
{
}

/// Of several pairs under one name the last is set, and pairs under other names
/// do not touch it.
pub proof fn law_the_last_pair_is_set(
    headers: Map<Seq<char>, Seq<char>>,
    pairs: Seq<(Seq<char>, Seq<char>)>,
    k: int,
)
    requires
        0 <= k < pairs.len(),
        forall|j: int| k < j < pairs.len() ==> (#[trigger] pairs[j]).0 != pairs[k].0,
    ensures
        headers_set(headers, pairs).contains_key(pairs[k].0),
        headers_set(headers, pairs)[pairs[k].0] == pairs[k].1,
    decreases pairs.len(),
{
    if k < pairs.len() - 1 {
        let front = pairs.drop_last();
        assert(front[k] == pairs[k]);
        assert forall|j: int| k < j < front.len() implies (#[trigger] front[j]).0 != front[k].0 by {
            assert(front[j] == pairs[j]);
        }
        assert(pairs[pairs.len() - 1].0 != pairs[k].0);
        law_the_last_pair_is_set(headers, front, k);
    }
}

/// Equal replies have the same status, the same headers and the same payload:
/// bytes of the same type, JSON that is equal, or nothing.
pub proof fn law_equal_replies_agree<S, U>(a: ReplyView<S, U>, b: ReplyView<S, U>)
    ensures
        replies_equal(a, b) ==> (a is Rich <==> b is Rich),
        a matches ReplyView::Rich(x) ==> b matches ReplyView::Rich(y) ==> replies_equal(a, b)
            ==> x.status == y.status && x.headers == y.headers && replies_equal(
            x.payload,
            y.payload,
        ),
        a is Bytes && b is Bytes ==> (replies_equal(a, b) <==> a == b),
        a is Empty ==> (replies_equal(a, b) <==> b is Empty),
        a is Json && replies_equal(a, b) ==> b is Json,
{
}

} // verus!
