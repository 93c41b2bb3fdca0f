//! What a controller declares of its routes: verbs, patterns and parameters.

use crate::json::number_clone;
use vstd::prelude::*;

verus! {

/// An HTTP method.
#[derive(Debug, Clone, Copy, PartialEq, Eq, Structural)]
pub enum Verb {
    /// The `GET` method.
    GET,
    /// The `POST` method.
    POST,
    /// The `PUT` method.
    PUT,
    /// The `DELETE` method.
    DELETE,
    /// The `PATCH` method.
    PATCH,
    /// The `HEAD` method.
    HEAD,
    /// The `OPTIONS` method.
    OPTIONS,
}

/// The token that names a method.
pub open spec fn verb_token(v: Verb) -> Seq<char> {
    match v {
        Verb::GET => "GET"@,
        Verb::POST => "POST"@,
        Verb::PUT => "PUT"@,
        Verb::DELETE => "DELETE"@,
        Verb::PATCH => "PATCH"@,
        Verb::HEAD => "HEAD"@,
        Verb::OPTIONS => "OPTIONS"@,
    }
}

/// Two methods with one token are one method.
pub proof fn law_tokens_tell_verbs_apart(a: Verb, b: Verb)
    ensures
        verb_token(a) == verb_token(b) ==> a == b,
{
    reveal_strlit("GET");
    reveal_strlit("POST");
    reveal_strlit("PUT");
    reveal_strlit("DELETE");
    reveal_strlit("PATCH");
    reveal_strlit("HEAD");
    reveal_strlit("OPTIONS");
    assert(verb_token(a).len() == verb_token(b).len() && verb_token(a).len() > 1 && verb_token(a)[0]
        == verb_token(b)[0] && verb_token(a)[1] == verb_token(b)[1] ==> a == b);
}

impl Verb {
    /// The token of the method, in upper case.
    pub fn as_str(&self) -> (r: &'static str)
        ensures
            r@ == verb_token(*self),
    {
        match self {
            Verb::GET => "GET",
            Verb::POST => "POST",
            Verb::PUT => "PUT",
            Verb::DELETE => "DELETE",
            Verb::PATCH => "PATCH",
            Verb::HEAD => "HEAD",
            Verb::OPTIONS => "OPTIONS",
        }
    }
}

/// The verbs of a route that is declared without one: those that an HTML form
/// can send.
pub const DEFAULT_VERBS: [Verb; 2] = [Verb::GET, Verb::POST];

/// How a controller treats parameters that a route did not declare.
#[derive(Debug, Clone, Copy, PartialEq, Eq, Structural)]
pub enum ControllerMode {
    /// A request with such a parameter is rejected.
    Strict,
    /// Such a parameter passes.
    Lax,
}

/// The declared type of a parameter.
#[derive(Debug, Clone, Copy, PartialEq, Eq, Structural)]
pub enum ParamType {
    /// A text.
    String,
    /// A signed integer of 64 bits.
    Int,
    /// An unsigned integer of 64 bits.
    U64,
    /// An unsigned integer of 32 bits.
    U32,
    /// A floating-point number of 64 bits.
    F64,
    /// A truth value.
    Bool,
    /// Every value of a repeated parameter.
    StringArray,
    /// The JSON value of the body.
    Json,
    /// The bytes of the body.
    Bytes,
}

/// The value of a parameter that the request leaves out.
#[derive(Debug)]
pub enum ParamDefault {
    /// A text.
    String(&'static str),
    /// A signed integer of 64 bits.
    Int(i64),
    /// An unsigned integer of 64 bits.
    U64(u64),
    /// An unsigned integer of 32 bits.
    U32(u32),
    /// A floating-point number.
    F64(serde_json::Number),
    /// A truth value.
    Bool(bool),
}

/// Where the value of a parameter is read from.
#[derive(Debug, Clone, Copy, PartialEq, Eq, Structural)]
pub enum ParamSource {
    /// A segment of the path.
    Path,
    /// The query.
    Query,
    /// The body.
    Body,
}

impl Clone for ParamDefault {
    fn clone(&self) -> (r: Self)
        ensures
            r == *self,
    {
        match self {
            ParamDefault::String(s) => ParamDefault::String(s),
            ParamDefault::Int(n) => ParamDefault::Int(*n),
            ParamDefault::U64(n) => ParamDefault::U64(*n),
            ParamDefault::U32(n) => ParamDefault::U32(*n),
            ParamDefault::F64(n) => ParamDefault::F64(number_clone(n)),
            ParamDefault::Bool(b) => ParamDefault::Bool(*b),
        }
    }
}

/// One declared parameter of a route.
#[derive(Debug)]
pub struct ParamDef {
    /// The name of the parameter.
    pub name: &'static str,
    /// Its type.
    pub ty: ParamType,
    /// Where it is read from.
    pub source: ParamSource,
    /// Its value where the request leaves it out.
    pub default: Option<ParamDefault>,
}

impl Clone for ParamDef {
    fn clone(&self) -> (r: Self)
        ensures
            r == *self,
    {
        ParamDef {
            name: self.name,
            ty: self.ty,
            source: self.source,
            default: match &self.default {
                Some(d) => Some(d.clone()),
                None => None,
            },
        }
    }
}

/// One declared route of a controller.
#[derive(Debug, Clone, Copy)]
pub struct RouteDef {
    /// The pattern, relative to where the controller is mounted.
    pub pattern: &'static str,
    /// The token by which dispatch finds the handler.
    pub handler_id: &'static str,
    /// The name of the handler method.
    pub handler: &'static str,
    /// The verbs that the route takes.
    pub verb: &'static [Verb],
    /// The declared parameters, in order.
    pub params: &'static [ParamDef],
    /// The documentation of the handler method.
    pub doc: Option<&'static str>,
}

} // verus!
