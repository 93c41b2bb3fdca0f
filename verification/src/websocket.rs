//! The handshake by which a connection changes to the WebSocket protocol.

use crate::compression::has_item;
use crate::compression::list_has;
use crate::cors::bytes_of;
use crate::finalizer::utf8;
use crate::finalizer::Body;
use crate::finalizer::BodyView;
use crate::finalizer::ResponseParts;
use crate::finalizer::ResponseView;
use crate::headers::bytes_option;
use crate::headers::first_text;
use crate::headers::first_value;
use crate::headers::header_contents;
use crate::headers::header_get;
use crate::headers::header_insert;
use crate::headers::header_text;
use crate::headers::headers_new;
use crate::headers::is_header_value;
use crate::headers::is_printable;
use crate::headers::is_stored_name;
use crate::headers::no_headers;
use crate::headers::Contents;
use crate::status::StatusCode;
use crate::text::lower;
use crate::text::str_eq;
use vstd::prelude::*;

verus! {

/// What `tungstenite::handshake::derive_accept_key` makes of a key.
pub uninterp spec fn derived_key(key: Seq<u8>) -> Seq<char>;

/// `tungstenite::handshake::derive_accept_key` answers the key of a client with
/// a hash, written in base 64 and so in printable ASCII.
#[verifier::external_body]
fn derive_key(key: &[u8]) -> (r: String)
    ensures
        r@ == derived_key(key@),
        is_printable(r@),
{
    tokio_tungstenite::tungstenite::handshake::derive_accept_key(key)
}

/// Whether the list under a header holds an item.
pub open spec fn header_lists(headers: Contents, name: Seq<char>, item: Seq<char>) -> bool {
    first_text(headers, name) matches Some(list) && has_item(list, item)
}

/// Whether a request asks for a change to the WebSocket protocol.
pub open spec fn asks_for_upgrade(method: Seq<char>, headers: Contents) -> bool {
    &&& method == "GET"@
    &&& header_lists(headers, "connection"@, "upgrade"@)
    &&& header_lists(headers, "upgrade"@, "websocket"@)
    &&& headers.contains_key("sec-websocket-key"@)
    &&& first_text(headers, "sec-websocket-version"@) == Some("13"@)
}

/// The answer to the key of a request, where there is a key.
pub open spec fn key_answer(headers: Contents) -> Option<Seq<u8>> {
    match first_value(headers, "sec-websocket-key"@) {
        Some(key) => Some(utf8(derived_key(key))),
        None => None,
    }
}

proof fn lemma_handshake_names()
    ensures
        is_stored_name("connection"@),
        is_stored_name("upgrade"@),
        is_stored_name("sec-websocket-key"@),
        is_stored_name("sec-websocket-version"@),
        is_stored_name("sec-websocket-accept"@),
        lower("upgrade"@) == "upgrade"@,
        lower("websocket"@) == "websocket"@,
        is_header_value(utf8("upgrade"@)),
        is_header_value(utf8("websocket"@)),
{
    reveal_strlit("connection");
    reveal_strlit("upgrade");
    reveal_strlit("websocket");
    reveal_strlit("sec-websocket-key");
    reveal_strlit("sec-websocket-version");
    reveal_strlit("sec-websocket-accept");
    assert(lower("connection"@) =~= "connection"@);
    assert(lower("upgrade"@) =~= "upgrade"@);
    assert(lower("websocket"@) =~= "websocket"@);
    assert(lower("sec-websocket-key"@) =~= "sec-websocket-key"@);
    assert(lower("sec-websocket-version"@) =~= "sec-websocket-version"@);
    assert(lower("sec-websocket-accept"@) =~= "sec-websocket-accept"@);
    crate::finalizer::lemma_ascii_value("upgrade"@);
    crate::finalizer::lemma_ascii_value("websocket"@);
}

fn list_contains(headers: &http::HeaderMap, name: &str, needle: &str) -> (r: bool)
    requires
        is_stored_name(name@),
    ensures
        r == header_lists(header_contents(*headers), name@, lower(needle@)),
{
    match header_text(headers, name) {
        Some(list) => list_has(list.as_str(), needle),
        None => false,
    }
}

/// Whether a request asks for a change to the WebSocket protocol.
pub fn is_upgrade_request(method: &str, headers: &http::HeaderMap) -> (r: bool)
    ensures
        r == asks_for_upgrade(method@, header_contents(*headers)),
{
    proof {
        lemma_handshake_names();
    }
    let version = match header_text(headers, "sec-websocket-version") {
        Some(v) => str_eq(v.as_str(), "13"),
        None => false,
    };
    str_eq(method, "GET") && list_contains(headers, "connection", "upgrade") && list_contains(
        headers,
        "upgrade",
        "websocket",
    ) && header_get(headers, "sec-websocket-key").is_some() && version
}

/// The answer to the key of a request, ready for a header.
pub fn accept_key(request_headers: &http::HeaderMap) -> (r: Option<Vec<u8>>)
    ensures
        bytes_option(r) == key_answer(header_contents(*request_headers)),
        r matches Some(v) ==> is_header_value(v@),
{
    proof {
        lemma_handshake_names();
    }
    match header_get(request_headers, "sec-websocket-key") {
        Some(key) => {
            let answer = derive_key(&key);
            proof {
                crate::finalizer::lemma_ascii_value(answer@);
            }
            Some(bytes_of(answer.as_str()))
        },
        None => None,
    }
}

/// The answer to a handshake: nothing but the change of protocol.
pub open spec fn switching<S>(accept: Seq<u8>) -> ResponseView<S> {
    ResponseView {
        status: 101,
        headers: no_headers().insert("connection"@, seq![utf8("upgrade"@)]).insert(
            "upgrade"@,
            seq![utf8("websocket"@)],
        ).insert("sec-websocket-accept"@, seq![accept]),
        body: BodyView::Full(Seq::empty()),
    }
}

/// The response that completes a handshake.
pub fn complete_upgrade<S>(accept: &[u8]) -> (r: ResponseParts<S>)
    requires
        is_header_value(accept@),
    ensures
        r@ == switching::<S>(accept@),
{
    proof {
        lemma_handshake_names();
        assert(no_headers().dom() =~= Set::<Seq<char>>::empty());
    }
    let mut headers = headers_new();
    header_insert(&mut headers, "connection", "upgrade".as_bytes());
    header_insert(&mut headers, "upgrade", "websocket".as_bytes());
    header_insert(&mut headers, "sec-websocket-accept", accept);
    ResponseParts { status: StatusCode::switching_protocols(), headers, body: Body::Full(Vec::new()) }
}

// ---------------------------------------------------------------------------
// Laws
// ---------------------------------------------------------------------------

/// A request asks for the change of protocol with five things: the method, both
/// lists, a key and the version. With any one of them missing or other it does
/// not, and other headers do not count.
pub proof fn law_what_asks_for_an_upgrade(
    method: Seq<char>,
    headers: Contents,
    name: Seq<char>,
    value: Seq<Seq<u8>>,
)
    ensures
        asks_for_upgrade(method, headers) ==> method == seq!['G', 'E', 'T'],
        !asks_for_upgrade(method, headers.remove("connection"@)),
        !asks_for_upgrade(method, headers.remove("upgrade"@)),
        !asks_for_upgrade(method, headers.remove("sec-websocket-key"@)),
        !asks_for_upgrade(method, headers.remove("sec-websocket-version"@)),
        first_text(headers, "connection"@) matches Some(list) && !has_item(list, "upgrade"@)
            ==> !asks_for_upgrade(method, headers),
        first_text(headers, "upgrade"@) matches Some(list) && !has_item(list, "websocket"@)
            ==> !asks_for_upgrade(method, headers),
        first_text(headers, "sec-websocket-version"@) matches Some(v) && v != seq!['1', '3']
            ==> !asks_for_upgrade(method, headers),
        name != "connection"@ && name != "upgrade"@ && name != "sec-websocket-key"@ && name
            != "sec-websocket-version"@ ==> asks_for_upgrade(method, headers.insert(name, value))
            == asks_for_upgrade(method, headers),
        method == seq!['G', 'E', 'T'] && (first_text(headers, "connection"@) matches Some(list)
            && has_item(list, "upgrade"@)) && (first_text(headers, "upgrade"@) matches Some(list)
            && has_item(list, "websocket"@)) && headers.contains_key("sec-websocket-key"@)
            && first_text(headers, "sec-websocket-version"@) == Some(seq!['1', '3'])
            ==> asks_for_upgrade(method, headers),
{
    reveal_strlit("GET");
    reveal_strlit("13");
    assert("GET"@ =~= seq!['G', 'E', 'T']);
    assert("13"@ =~= seq!['1', '3']);
}

/// The answer to a handshake says that the protocol changes and to which, and
/// answers the key of the request; it has no body and no other header.
pub proof fn law_answers_to_handshakes<S>(accept: Seq<u8>, request: Contents)
    ensures
        switching::<S>(accept).status == 101,
        switching::<S>(accept).body == BodyView::<S>::Full(Seq::empty()),
        switching::<S>(accept).headers.dom() =~= set![
            "connection"@,
            "upgrade"@,
            "sec-websocket-accept"@,
        ],
        switching::<S>(accept).headers["connection"@] == seq![utf8("upgrade"@)],
        switching::<S>(accept).headers["upgrade"@] == seq![utf8("websocket"@)],
        switching::<S>(accept).headers["sec-websocket-accept"@] == seq![accept],
        request.contains_key("sec-websocket-key"@) && request["sec-websocket-key"@].len() > 0
            ==> key_answer(request) == Some(utf8(derived_key(request["sec-websocket-key"@][0]))),
        !request.contains_key("sec-websocket-key"@) ==> key_answer(request) is None,
{
    reveal_strlit("connection");
    reveal_strlit("upgrade");
    reveal_strlit("sec-websocket-accept");
    assert("connection"@.len() == 10 && "upgrade"@.len() == 7 && "sec-websocket-accept"@.len() == 20);
}

} // verus!
