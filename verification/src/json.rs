//! JSON documents: the values of `serde_json`, and what they hold.

use vstd::prelude::*;

verus! {

/// What a JSON value holds. A number that is an integer of 64 bits, signed or
/// not, is that integer; every other number is kept as it is.
pub enum JsonTree {
    Null,
    Bool(bool),
    Int(int),
    Float(serde_json::Number),
    Str(Seq<char>),
    Array(Seq<JsonTree>),
    Object(Map<Seq<char>, JsonTree>),
}

#[verifier::external_type_specification]
#[verifier::external_body]
pub struct ExNumber(serde_json::Number);

#[verifier::external_type_specification]
#[verifier::external_body]
pub struct ExValue(serde_json::Value);

#[verifier::external_type_specification]
#[verifier::external_body]
#[verifier::reject_recursive_types(K)]
#[verifier::reject_recursive_types(V)]
pub struct ExJsonMap<K, V>(serde_json::Map<K, V>);

/// What a `serde_json::Value` holds.
pub uninterp spec fn json_tree(v: serde_json::Value) -> JsonTree;

/// The members that a `serde_json::Map` holds, by name.
pub uninterp spec fn json_members(m: serde_json::Map<String, serde_json::Value>) -> Map<
    Seq<char>,
    JsonTree,
>;

/// The bytes that `serde_json::to_vec` writes for a value.
pub uninterp spec fn json_text(t: JsonTree) -> Seq<u8>;

/// The text that `serde_json::to_string_pretty` writes for a value.
pub uninterp spec fn json_pretty(t: JsonTree) -> Seq<char>;

/// What `serde_json::from_slice` reads from bytes: a value, or the text of
/// its error.
pub uninterp spec fn json_parsed(bytes: Seq<u8>) -> Result<JsonTree, Seq<char>>;

/// What `Value::Number` holds for a number.
pub uninterp spec fn number_tree(n: serde_json::Number) -> JsonTree;

/// Whether `serde_json` takes two values for equal.
pub uninterp spec fn json_equal(a: JsonTree, b: JsonTree) -> bool;

/// An object without members.
pub open spec fn no_members() -> Map<Seq<char>, JsonTree> {
    Map::empty()
}

/// The member under a name, if there is one.
pub open spec fn member_of(members: Map<Seq<char>, JsonTree>, name: Seq<char>) -> Option<JsonTree> {
    if members.contains_key(name) {
        Some(members[name])
    } else {
        None
    }
}

/// What a list of values holds, one by one.
pub open spec fn json_trees(v: Seq<serde_json::Value>) -> Seq<JsonTree> {
    Seq::new(v.len(), |i: int| json_tree(v[i]))
}

/// What a value that may be missing holds.
pub open spec fn json_option(v: Option<serde_json::Value>) -> Option<JsonTree> {
    match v {
        Some(v) => Some(json_tree(v)),
        None => None,
    }
}

/// What a value or the text of an error holds.
pub open spec fn json_outcome(r: Result<serde_json::Value, String>) -> Result<JsonTree, Seq<char>> {
    match r {
        Ok(v) => Ok(json_tree(v)),
        Err(text) => Err(text@),
    }
}

/// The members of a list of entries; of two under one name the later counts.
pub open spec fn entry_members(entries: Seq<(String, serde_json::Value)>) -> Map<
    Seq<char>,
    JsonTree,
>
    decreases entries.len(),
{
    if entries.len() == 0 {
        Map::empty()
    } else {
        entry_members(entries.drop_last()).insert(entries.last().0@, json_tree(entries.last().1))
    }
}

/// `Value::Bool` holds the given truth value.
#[verifier::external_body]
pub(crate) fn json_bool(b: bool) -> (r: serde_json::Value)
    ensures
        json_tree(r) == JsonTree::Bool(b),
{
    serde_json::Value::Bool(b)
}

/// `Value::String` holds the given text.
#[verifier::external_body]
pub(crate) fn json_string(s: String) -> (r: serde_json::Value)
    ensures
        json_tree(r) == JsonTree::Str(s@),
{
    serde_json::Value::String(s)
}

/// `Value::from`, given a `u64`, holds that integer.
#[verifier::external_body]
pub(crate) fn json_u64(n: u64) -> (r: serde_json::Value)
    ensures
        json_tree(r) == JsonTree::Int(n as int),
{
    serde_json::Value::from(n)
}

/// `Value::from`, given an `i64`, holds that integer.
#[verifier::external_body]
pub(crate) fn json_i64(n: i64) -> (r: serde_json::Value)
    ensures
        json_tree(r) == JsonTree::Int(n as int),
{
    serde_json::Value::from(n)
}

/// `Number::clone` is the number itself.
#[verifier::external_body]
pub(crate) fn number_clone(n: &serde_json::Number) -> (r: serde_json::Number)
    ensures
        r == *n,
{
    n.clone()
}

/// `Value::Number` holds the given number.
#[verifier::external_body]
pub(crate) fn json_number(n: serde_json::Number) -> (r: serde_json::Value)
    ensures
        json_tree(r) == number_tree(n),
{
    serde_json::Value::Number(n)
}

/// `Value::Array` holds the given values in order.
#[verifier::external_body]
pub(crate) fn json_array(values: Vec<serde_json::Value>) -> (r: serde_json::Value)
    ensures
        json_tree(r) == JsonTree::Array(json_trees(values@)),
{
    serde_json::Value::Array(values)
}

/// `Value::Object` holds the members of the given map.
#[verifier::external_body]
pub(crate) fn json_object(m: serde_json::Map<String, serde_json::Value>) -> (r: serde_json::Value)
    ensures
        json_tree(r) == JsonTree::Object(json_members(m)),
{
    serde_json::Value::Object(m)
}

/// `serde_json::Map::new` holds no member.
#[verifier::external_body]
pub(crate) fn map_new() -> (r: serde_json::Map<String, serde_json::Value>)
    ensures
        json_members(r) == no_members(),
{
    serde_json::Map::new()
}

/// `serde_json::Map::insert` sets one member and leaves the others.
#[verifier::external_body]
pub(crate) fn map_insert(
    m: &mut serde_json::Map<String, serde_json::Value>,
    name: String,
    value: serde_json::Value,
)
    ensures
        json_members(*final(m)) == json_members(*old(m)).insert(name@, json_tree(value)),
{
    m.insert(name, value);
}

/// `serde_json::Map::remove` takes one member out, if it is there, and leaves
/// the others.
#[verifier::external_body]
pub(crate) fn map_remove(m: &mut serde_json::Map<String, serde_json::Value>, name: &str) -> (r: Option<
    serde_json::Value,
>)
    ensures
        json_members(*final(m)) == json_members(*old(m)).remove(name@),
        json_option(r) == member_of(json_members(*old(m)), name@),
{
    m.remove(name)
}

/// The members of an object: `Value::Object`, taken apart. Every other value
/// has none.
#[verifier::external_body]
pub(crate) fn object_members(v: serde_json::Value) -> (r: Option<
    serde_json::Map<String, serde_json::Value>,
>)
    ensures
        match json_tree(v) {
            JsonTree::Object(members) => (r matches Some(m) && json_members(m) == members),
            _ => r is None,
        },
{
    match v {
        serde_json::Value::Object(m) => Some(m),
        _ => None,
    }
}

/// `serde_json::Map::into_iter` hands out every member once.
#[verifier::external_body]
pub(crate) fn map_entries(m: serde_json::Map<String, serde_json::Value>) -> (r: Vec<
    (String, serde_json::Value),
>)
    ensures
        entry_members(r@) == json_members(m),
        crate::strmap::entry_names(r@).no_duplicates(),
{
    m.into_iter().collect()
}

/// `Value::clone` holds what the value holds.
#[verifier::external_body]
pub(crate) fn json_clone(v: &serde_json::Value) -> (r: serde_json::Value)
    ensures
        json_tree(r) == json_tree(*v),
{
    v.clone()
}

/// `==` on two values; a value equals one that holds the same.
#[verifier::external_body]
pub(crate) fn json_eq(a: &serde_json::Value, b: &serde_json::Value) -> (r: bool)
    ensures
        r == json_equal(json_tree(*a), json_tree(*b)),
        json_tree(*a) == json_tree(*b) ==> r,
{
    a == b
}

/// `serde_json::to_vec` on a value: its serialiser meets no error, since the
/// names of members are strings, numbers are finite and a `Vec` takes every
/// write.
#[verifier::external_body]
pub(crate) fn json_to_vec(v: &serde_json::Value) -> (r: Vec<u8>)
    ensures
        r@ == json_text(json_tree(*v)),
{
    serde_json::to_vec(v).expect("a value is always serializable")
}

/// `serde_json::to_string_pretty` on a value, which meets no error either.
#[verifier::external_body]
pub(crate) fn json_to_pretty(v: &serde_json::Value) -> (r: String)
    ensures
        r@ == json_pretty(json_tree(*v)),
{
    serde_json::to_string_pretty(v).expect("a value is always serializable")
}

/// `serde_json::from_slice` on bytes: the value that they write, or the text
/// of the error.
#[verifier::external_body]
pub(crate) fn json_from_slice(bytes: &[u8]) -> (r: Result<serde_json::Value, String>)
    ensures
        json_outcome(r) == json_parsed(bytes@),
{
    match serde_json::from_slice::<serde_json::Value>(bytes) {
        Ok(v) => Ok(v),
        Err(e) => Err(e.to_string()),
    }
}

/// An array of texts.
pub fn json_strings(texts: &[&'static str]) -> (r: serde_json::Value)
    ensures
        json_tree(r) == JsonTree::Array(
            crate::text::str_views(texts@).map_values(|s: Seq<char>| JsonTree::Str(s)),
        ),
{
    let mut values: Vec<serde_json::Value> = Vec::new();
    let mut i: usize = 0;
    while i < texts.len()
        invariant
            i <= texts@.len(),
            values@.len() == i,
            forall|j: int| 0 <= j < i ==> json_tree(#[trigger] values@[j]) == JsonTree::Str(texts@[j]@),
        decreases texts.len() - i,
    {
        values.push(json_string(texts[i].to_owned()));
        i = i + 1;
    }
    assert(json_trees(values@) =~= crate::text::str_views(texts@).map_values(
        |s: Seq<char>| JsonTree::Str(s),
    ));
    json_array(values)
}

} // verus!
