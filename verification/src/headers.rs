//! HTTP headers: the maps of the `http` crate, and what they hold.

use crate::text::lower;
use crate::text::string_of;
use vstd::prelude::*;

verus! {

#[verifier::external_type_specification]
#[verifier::external_body]
pub struct ExHeaderValue(http::HeaderValue);

#[verifier::external_type_specification]
#[verifier::external_body]
#[verifier::reject_recursive_types(T)]
pub struct ExHeaderMap<T>(http::HeaderMap<T>);

/// The values that a header map holds under each lower-case name, in the order
/// in which they were appended.
pub type Contents = Map<Seq<char>, Seq<Seq<u8>>>;

/// What an `http::HeaderMap` holds.
pub uninterp spec fn header_contents(m: http::HeaderMap) -> Map<Seq<char>, Seq<Seq<u8>>>;

/// How many names a header map may hold before a new one could find it full: it
/// has at most 32768 slots, and once names collide often it asks for more as
/// soon as a fifth of them is taken.
pub const MAX_HEADER_NAMES: usize = 6553;

/// Whether a header map holds `n` names.
pub open spec fn names_number(contents: Contents, n: int) -> bool {
    contents.dom().finite() && contents.dom().len() == n
}

/// Whether `n` more names find room in a header map.
pub open spec fn has_room(contents: Contents, n: int) -> bool {
    contents.dom().finite() && contents.dom().len() + n <= MAX_HEADER_NAMES
}

/// Whether a character may stand in the name of a header.
pub open spec fn is_name_char(c: char) -> bool {
    ||| '0' <= c <= '9'
    ||| 'a' <= c <= 'z'
    ||| 'A' <= c <= 'Z'
    ||| c == '!'
    ||| '#' <= c <= '\''
    ||| c == '*'
    ||| c == '+'
    ||| c == '-'
    ||| c == '.'
    ||| c == '^'
    ||| c == '_'
    ||| c == '`'
    ||| c == '|'
    ||| c == '~'
}

/// Whether a text names a header.
pub open spec fn is_header_name(s: Seq<char>) -> bool {
    0 < s.len() <= 65535 && forall|i: int| 0 <= i < s.len() ==> is_name_char(#[trigger] s[i])
}

/// Whether a text is the lower-case name of a header.
pub open spec fn is_stored_name(s: Seq<char>) -> bool {
    is_header_name(s) && lower(s) == s
}

/// Whether bytes may be the value of a header: no control byte but the tab.
pub open spec fn is_header_value(v: Seq<u8>) -> bool {
    forall|i: int| 0 <= i < v.len() ==> (#[trigger] v[i] >= 32 && v[i] != 127) || v[i] == 9
}

/// Whether a text is printable ASCII.
pub open spec fn is_printable(s: Seq<char>) -> bool {
    forall|i: int| 0 <= i < s.len() ==> ' ' <= #[trigger] s[i] <= '~'
}

/// Whether bytes are visible ASCII, blanks and tabs.
pub open spec fn is_visible(v: Seq<u8>) -> bool {
    forall|i: int| 0 <= i < v.len() ==> 32 <= #[trigger] v[i] < 127 || v[i] == 9
}

/// The text of a header value, where it is visible ASCII.
pub open spec fn value_text(v: Seq<u8>) -> Option<Seq<char>> {
    if is_visible(v) {
        Some(Seq::new(v.len(), |i: int| v[i] as char))
    } else {
        None
    }
}

/// The first value under a name.
pub open spec fn first_value(contents: Contents, name: Seq<char>) -> Option<Seq<u8>> {
    if contents.contains_key(name) && contents[name].len() > 0 {
        Some(contents[name][0])
    } else {
        None
    }
}

/// The text of the first value under a name.
pub open spec fn first_text(contents: Contents, name: Seq<char>) -> Option<Seq<char>> {
    match first_value(contents, name) {
        Some(v) => value_text(v),
        None => None,
    }
}

/// The bytes of an optional run of bytes.
pub open spec fn bytes_option(v: Option<Vec<u8>>) -> Option<Seq<u8>> {
    match v {
        Some(v) => Some(v@),
        None => None,
    }
}

/// The values of the pairs under a name, in order.
pub open spec fn pair_values(pairs: Seq<(String, Vec<u8>)>, name: Seq<char>) -> Seq<Seq<u8>>
    decreases pairs.len(),
{
    if pairs.len() == 0 {
        Seq::empty()
    } else if pairs.last().0@ == name {
        pair_values(pairs.drop_last(), name).push(pairs.last().1@)
    } else {
        pair_values(pairs.drop_last(), name)
    }
}

/// The values of a map under a name; none where it does not hold the name.
pub open spec fn all_values(contents: Contents, name: Seq<char>) -> Seq<Seq<u8>> {
    if contents.contains_key(name) {
        contents[name]
    } else {
        Seq::empty()
    }
}

/// A map without headers.
pub open spec fn no_headers() -> Contents {
    Map::empty()
}

/// `HeaderMap::new` holds nothing.
#[verifier::external_body]
pub(crate) fn headers_new() -> (r: http::HeaderMap)
    ensures
        header_contents(r) == no_headers(),
{
    http::HeaderMap::new()
}

/// `HeaderMap::get` finds the first value under a name, which is one that may
/// stand in a header.
#[verifier::external_body]
pub(crate) fn header_get(m: &http::HeaderMap, name: &str) -> (r: Option<Vec<u8>>)
    requires
        is_stored_name(name@),
    ensures
        bytes_option(r) == first_value(header_contents(*m), name@),
        r is Some <==> header_contents(*m).contains_key(name@),
        r matches Some(v) ==> is_header_value(v@),
{
    match m.get(name) {
        Some(v) => Some(v.as_bytes().to_vec()),
        None => None,
    }
}

/// `HeaderMap::insert` leaves the given value alone under a name. It gives up
/// only on a map with more names than `MAX_HEADER_NAMES`.
#[verifier::external_body]
pub(crate) fn header_insert(m: &mut http::HeaderMap, name: &str, value: &[u8])
    requires
        is_stored_name(name@),
        is_header_value(value@),
        has_room(header_contents(*old(m)), 0),
    ensures
        header_contents(*final(m)) == header_contents(*old(m)).insert(name@, seq![value@]),
{
    m.insert(
        http::HeaderName::from_bytes(name.as_bytes()).expect("a valid name"),
        http::HeaderValue::from_bytes(value).expect("a valid value"),
    );
}

/// `HeaderMap::append` puts a value behind those under a name. It gives up
/// only on a map with more names than `MAX_HEADER_NAMES`.
#[verifier::external_body]
pub(crate) fn header_append(m: &mut http::HeaderMap, name: &str, value: &[u8])
    requires
        is_stored_name(name@),
        is_header_value(value@),
        has_room(header_contents(*old(m)), 0),
    ensures
        header_contents(*final(m)) == header_contents(*old(m)).insert(
            name@,
            all_values(header_contents(*old(m)), name@).push(value@),
        ),
{
    m.append(
        http::HeaderName::from_bytes(name.as_bytes()).expect("a valid name"),
        http::HeaderValue::from_bytes(value).expect("a valid value"),
    );
}

/// `HeaderMap::iter` hands out every value with its lower-case name, those of
/// one name in the order in which they were appended.
#[verifier::external_body]
pub(crate) fn header_pairs(m: &http::HeaderMap) -> (r: Vec<(String, Vec<u8>)>)
    ensures
        forall|name: Seq<char>| #[trigger]
            pair_values(r@, name) == all_values(header_contents(*m), name),
        forall|i: int| 0 <= i < r@.len() ==> is_stored_name((#[trigger] r@[i]).0@),
{
    m.iter().map(|(n, v)| (n.as_str().to_owned(), v.as_bytes().to_vec())).collect()
}

/// `HeaderMap::keys_len` is the number of names.
#[verifier::external_body]
pub(crate) fn header_count(m: &http::HeaderMap) -> (r: usize)
    ensures
        names_number(header_contents(*m), r as int),
{
    m.keys_len()
}

/// `HeaderName::from_str` takes a text that names a header and puts it in
/// lower case.
#[verifier::external_body]
pub(crate) fn parse_header_name(s: &str) -> (r: Option<String>)
    ensures
        crate::error::text_option(r) == stored_name(s@),
{
    match s.parse::<http::HeaderName>() {
        Ok(n) => Some(n.as_str().to_owned()),
        Err(_) => None,
    }
}

/// The lower-case form of a text that names a header.
pub open spec fn stored_name(s: Seq<char>) -> Option<Seq<char>> {
    if is_header_name(s) {
        Some(lower(s))
    } else {
        None
    }
}

/// Whether a header map has room for `n` more names.
pub fn has_room_for(m: &http::HeaderMap, n: usize) -> (r: bool)
    ensures
        r == has_room(header_contents(*m), n as int),
{
    let held = header_count(m);
    held <= MAX_HEADER_NAMES && n <= MAX_HEADER_NAMES - held
}

/// Whether bytes may be the value of a header.
pub fn check_header_value(v: &[u8]) -> (r: bool)
    ensures
        r == is_header_value(v@),
{
    let mut i: usize = 0;
    while i < v.len()
        invariant
            i <= v@.len(),
            forall|j: int| 0 <= j < i ==> (#[trigger] v@[j] >= 32 && v@[j] != 127) || v@[j] == 9,
        decreases v.len() - i,
    {
        let b: u8 = v[i];
        if !((b >= 32 && b != 127) || b == 9) {
            return false;
        }
        i = i + 1;
    }
    true
}

/// The text of a header value, where it is visible ASCII.
pub fn text_of_value(v: &[u8]) -> (r: Option<String>)
    ensures
        crate::error::text_option(r) == value_text(v@),
{
    let mut chars: Vec<char> = Vec::new();
    let mut i: usize = 0;
    while i < v.len()
        invariant
            i <= v@.len(),
            forall|j: int| 0 <= j < i ==> 32 <= #[trigger] v@[j] < 127 || v@[j] == 9,
            chars@.len() == i,
            forall|j: int| 0 <= j < i ==> #[trigger] chars@[j] == v@[j] as char,
        decreases v.len() - i,
    {
        let b: u8 = v[i];
        if !((32 <= b && b < 127) || b == 9) {
            return None;
        }
        chars.push(b as char);
        i = i + 1;
    }
    assert(chars@ =~= Seq::new(v@.len(), |i: int| v@[i] as char));
    Some(string_of(&chars))
}

/// The text of the first value under a name.
pub fn header_text(m: &http::HeaderMap, name: &str) -> (r: Option<String>)
    requires
        is_stored_name(name@),
    ensures
        crate::error::text_option(r) == first_text(header_contents(*m), name@),
{
    match header_get(m, name) {
        Some(v) => text_of_value(&v),
        None => None,
    }
}

// ---------------------------------------------------------------------------
// Laws
// ---------------------------------------------------------------------------

/// A text of printable ASCII that was written into a header is read from it
/// again; a value with any other byte but a tab is no text.
pub proof fn law_header_texts_read_back(s: Seq<char>, v: Seq<u8>, k: int)
    ensures
        is_printable(s) ==> value_text(crate::finalizer::utf8(s)) == Some(s),
        0 <= k < v.len() && v[k] != 9 && (v[k] < 32 || v[k] >= 127) ==> value_text(v) is None,
{
    if is_printable(s) {
        crate::finalizer::lemma_ascii_value(s);
        let bytes = crate::finalizer::utf8(s);
        assert forall|i: int| 0 <= i < bytes.len() implies 32 <= #[trigger] bytes[i] < 127
            || bytes[i] == 9 by {
            assert(' ' <= s[i] <= '~');
        }
        assert(Seq::new(bytes.len(), |i: int| bytes[i] as char) =~= s);
    }
}

/// The first value under a name is the one that came first, and a name that is
/// not there has none.
pub proof fn law_the_first_value_counts(contents: Contents, name: Seq<char>)
    ensures
        first_value(contents, name) matches Some(v) ==> contents.contains_key(name)
            && contents[name].len() > 0 && v == contents[name][0] && first_text(contents, name)
            == value_text(v),
        first_value(contents, name) is None ==> first_text(contents, name) is None && (
        !contents.contains_key(name) || contents[name].len() == 0),
{
}

/// A value may be any text of blanks and visible ASCII, and has no control byte
/// but the tab: no line can end in it.
pub proof fn law_what_a_header_holds(s: Seq<char>, v: Seq<u8>, k: int)
    ensures
        is_printable(s) ==> is_header_value(crate::finalizer::utf8(s)),
        0 <= k < v.len() && (v[k] == 10 || v[k] == 13 || v[k] == 0 || v[k] == 127)
            ==> !is_header_value(v),
        is_header_name(s) ==> s.len() > 0 && !s.contains(' ') && !s.contains(':') && !s.contains(
            ',',
        ) && !s.contains('\n'),
{
    if is_printable(s) {
        crate::finalizer::lemma_ascii_value(s);
    }
    if is_header_name(s) {
        assert(s.contains(' ') ==> is_name_char(s[s.index_of(' ')]));
        assert(s.contains(':') ==> is_name_char(s[s.index_of(':')]));
        assert(s.contains(',') ==> is_name_char(s[s.index_of(',')]));
        assert(s.contains('\n') ==> is_name_char(s[s.index_of('\n')]));
    }
}

/// A header is found whatever the case of its name: names that differ in case
/// alone are stored alike, in lower case, and what is no name is not stored.
pub proof fn law_names_are_stored_in_lower_case(a: Seq<char>, b: Seq<char>)
    ensures
        stored_name(a) is Some <==> is_header_name(a),
        stored_name(a) matches Some(name) ==> name == lower(a),
        stored_name(a) is Some && stored_name(b) is Some ==> (stored_name(a) == stored_name(b) <==> lower(
            a,
        ) == lower(b)),
{
}

/// The name of a header is made of visible ASCII without the seventeen
/// delimiters, and is neither empty nor longer than a header map takes.
pub proof fn law_what_names_a_header(s: Seq<char>)
    ensures
        is_header_name(s) <==> {
            &&& 1 <= s.len() <= 65535
            &&& forall|i: int| 0 <= i < s.len() ==> !is_delimiter(#[trigger] s[i])
            &&& forall|i: int| 0 <= i < s.len() ==> 33 <= (#[trigger] s[i]) as int <= 126
        },
{
    assert forall|i: int| 0 <= i < s.len() implies is_name_char(#[trigger] s[i]) == (!is_delimiter(
        s[i],
    ) && 33 <= s[i] as int <= 126) by {}
}

/// Whether a character parts others in a header: brackets, quotes, commas and
/// the like.
pub open spec fn is_delimiter(c: char) -> bool {
    ||| c == '"'
    ||| c == '('
    ||| c == ')'
    ||| c == ','
    ||| c == '/'
    ||| ':' <= c <= '@'
    ||| '[' <= c <= ']'
    ||| c == '{'
    ||| c == '}'
}

} // verus!
