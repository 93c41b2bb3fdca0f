//! The language of declarations: the routes of a controller, its options, and
//! the controllers of an application.
//!
//! A declaration is read as a list of tokens. A type or an expression is one
//! token; everything around them is the grammar of this module.

use crate::controller::verb_token;
use crate::controller::ControllerMode;
use crate::controller::Verb;
use crate::error::text_option;
use crate::pattern::pattern_fault;
use crate::pattern::validate_pattern;
use crate::strmap::pair_views;
use crate::text::contains_text;
use crate::text::push_text;
use crate::text::str_eq;
use vstd::prelude::*;

verus! {

// ---------------------------------------------------------------------------
// Tokens
// ---------------------------------------------------------------------------

/// A sign between other tokens.
#[derive(Clone, Copy, Debug, PartialEq, Eq, Structural)]
pub enum Sign {
    /// `=>`
    Arrow,
    /// `:`
    Colon,
    /// `=`
    Equals,
    /// `,`
    Comma,
}

/// A kind of brackets.
#[derive(Clone, Copy, Debug, PartialEq, Eq, Structural)]
pub enum Delim {
    /// `(` and `)`
    Paren,
    /// `[` and `]`
    Bracket,
    /// `{` and `}`
    Brace,
}

/// A token of a declaration.
#[derive(Debug)]
pub enum Token {
    /// An identifier.
    Word(String),
    /// A string literal, by what it holds.
    Text(String),
    /// A sign.
    Sign(Sign),
    /// A bracket that opens.
    Open(Delim),
    /// A bracket that closes.
    Close(Delim),
    /// A type.
    Type(String),
    /// An expression.
    Expr(String),
    /// Anything else.
    Other(String),
}

/// What a token holds.
pub enum TokenView {
    Word(Seq<char>),
    Text(Seq<char>),
    Sign(Sign),
    Open(Delim),
    Close(Delim),
    Type(Seq<char>),
    Expr(Seq<char>),
    Other(Seq<char>),
}

impl View for Token {
    type V = TokenView;

    open spec fn view(&self) -> TokenView {
        match self {
            Token::Word(s) => TokenView::Word(s@),
            Token::Text(s) => TokenView::Text(s@),
            Token::Sign(sign) => TokenView::Sign(*sign),
            Token::Open(d) => TokenView::Open(*d),
            Token::Close(d) => TokenView::Close(*d),
            Token::Type(s) => TokenView::Type(s@),
            Token::Expr(s) => TokenView::Expr(s@),
            Token::Other(s) => TokenView::Other(s@),
        }
    }
}

/// What a list of tokens holds.
pub open spec fn token_views(tokens: Seq<Token>) -> Seq<TokenView> {
    Seq::new(tokens.len(), |i: int| tokens[i]@)
}

// ---------------------------------------------------------------------------
// Errors
// ---------------------------------------------------------------------------

/// What a declaration has to have at some place.
#[derive(Clone, Copy, Debug, PartialEq, Eq, Structural)]
pub enum Wanted {
    /// An identifier.
    Word,
    /// A string literal.
    Text,
    /// A type.
    Type,
    /// An expression.
    Expr,
    /// A sign.
    Sign(Sign),
    /// A bracket that opens.
    Open(Delim),
    /// A bracket that closes.
    Close(Delim),
}

/// What is wrong with a declaration.
#[derive(Debug)]
pub enum Fault {
    /// Something else was to be there.
    Expected(Wanted),
    /// A section of the kind that named who may call a route.
    AccessSection,
    /// A verb that does not exist.
    UnknownVerb(String),
    /// A pattern that is refused, with what is wrong with it.
    BadPattern(String),
    /// An option that controllers do not have.
    UnknownOption,
    /// A block that applications do not have.
    UnknownBlock(String),
    /// An application without routes.
    NoRoutes,
}

/// What a fault holds.
pub enum FaultView {
    Expected(Wanted),
    AccessSection,
    UnknownVerb(Seq<char>),
    BadPattern(Seq<char>),
    UnknownOption,
    UnknownBlock(Seq<char>),
    NoRoutes,
}

impl View for Fault {
    type V = FaultView;

    open spec fn view(&self) -> FaultView {
        match self {
            Fault::Expected(w) => FaultView::Expected(*w),
            Fault::AccessSection => FaultView::AccessSection,
            Fault::UnknownVerb(s) => FaultView::UnknownVerb(s@),
            Fault::BadPattern(s) => FaultView::BadPattern(s@),
            Fault::UnknownOption => FaultView::UnknownOption,
            Fault::UnknownBlock(s) => FaultView::UnknownBlock(s@),
            Fault::NoRoutes => FaultView::NoRoutes,
        }
    }
}

/// A fault and the token at which it was found.
#[derive(Debug)]
pub struct DeclError {
    /// The place of the token, which is the end where the tokens ended.
    pub at: usize,
    /// What is wrong there.
    pub fault: Fault,
}

/// What an error holds.
pub struct DeclErrorView {
    pub at: int,
    pub fault: FaultView,
}

impl View for DeclError {
    type V = DeclErrorView;

    open spec fn view(&self) -> DeclErrorView {
        DeclErrorView { at: self.at as int, fault: self.fault@ }
    }
}

/// What is said where something else was to be there.
pub open spec fn wanted_text(w: Wanted) -> Seq<char> {
    match w {
        Wanted::Word => "expected identifier"@,
        Wanted::Text => "expected string literal"@,
        Wanted::Type => "expected type"@,
        Wanted::Expr => "expected expression"@,
        Wanted::Sign(Sign::Arrow) => "expected `=>`"@,
        Wanted::Sign(Sign::Colon) => "expected `:`"@,
        Wanted::Sign(Sign::Equals) => "expected `=`"@,
        Wanted::Sign(Sign::Comma) => "expected `,`"@,
        Wanted::Open(Delim::Paren) => "expected parentheses"@,
        Wanted::Open(Delim::Bracket) => "expected square brackets"@,
        Wanted::Open(Delim::Brace) => "expected curly braces"@,
        Wanted::Close(Delim::Paren) => "expected `)`"@,
        Wanted::Close(Delim::Bracket) => "expected `]`"@,
        Wanted::Close(Delim::Brace) => "expected `}`"@,
    }
}

/// What is said of a fault.
pub open spec fn fault_text(fault: FaultView) -> Seq<char> {
    match fault {
        FaultView::Expected(w) => wanted_text(w),
        FaultView::AccessSection => "actus no longer ships an `Access` enum or `[Access::*]` section syntax. Authorization belongs in your `#[controller(prepare = …)]` hook, where you can call into your own policy layer (e.g. `services::policy::*`)."@,
        FaultView::UnknownVerb(word) => "Unknown HTTP verb: "@ + word
            + ". Expected GET, POST, PUT, DELETE, PATCH, HEAD, or OPTIONS"@,
        FaultView::BadPattern(text) => text,
        FaultView::UnknownOption => "Expected 'strict', 'lax', 'prepare = <fn>', 'max_body_bytes = <expr>', or 'rate_limit = <expr>'"@,
        FaultView::UnknownBlock(word) => "expected 'deps' or 'routes', got '"@ + word + "'"@,
        FaultView::NoRoutes => "app_routes! requires a 'routes { ... }' block"@,
    }
}

fn wanted_message(w: Wanted) -> (r: &'static str)
    ensures
        r@ == wanted_text(w),
{
    match w {
        Wanted::Word => "expected identifier",
        Wanted::Text => "expected string literal",
        Wanted::Type => "expected type",
        Wanted::Expr => "expected expression",
        Wanted::Sign(Sign::Arrow) => "expected `=>`",
        Wanted::Sign(Sign::Colon) => "expected `:`",
        Wanted::Sign(Sign::Equals) => "expected `=`",
        Wanted::Sign(Sign::Comma) => "expected `,`",
        Wanted::Open(Delim::Paren) => "expected parentheses",
        Wanted::Open(Delim::Bracket) => "expected square brackets",
        Wanted::Open(Delim::Brace) => "expected curly braces",
        Wanted::Close(Delim::Paren) => "expected `)`",
        Wanted::Close(Delim::Bracket) => "expected `]`",
        Wanted::Close(Delim::Brace) => "expected `}`",
    }
}

impl DeclError {
    /// What is said of the error.
    pub fn message(&self) -> (r: String)
        ensures
            r@ == fault_text(self@.fault),
    {
        match &self.fault {
            Fault::Expected(w) => wanted_message(*w).to_owned(),
            Fault::AccessSection => "actus no longer ships an `Access` enum or `[Access::*]` section syntax. Authorization belongs in your `#[controller(prepare = …)]` hook, where you can call into your own policy layer (e.g. `services::policy::*`).".to_owned(),
            Fault::UnknownVerb(word) => {
                let mut out = "Unknown HTTP verb: ".to_owned();
                push_text(&mut out, word);
                push_text(
                    &mut out,
                    ". Expected GET, POST, PUT, DELETE, PATCH, HEAD, or OPTIONS",
                );
                out
            },
            Fault::BadPattern(text) => text.clone(),
            Fault::UnknownOption => "Expected 'strict', 'lax', 'prepare = <fn>', 'max_body_bytes = <expr>', or 'rate_limit = <expr>'".to_owned(),
            Fault::UnknownBlock(word) => {
                let mut out = "expected 'deps' or 'routes', got '".to_owned();
                push_text(&mut out, word);
                push_text(&mut out, "'");
                out
            },
            Fault::NoRoutes => "app_routes! requires a 'routes { ... }' block".to_owned(),
        }
    }
}

// ---------------------------------------------------------------------------
// Reading one token
// ---------------------------------------------------------------------------

/// The error that something else was to be there.
pub open spec fn expected(at: int, wanted: Wanted) -> DeclErrorView {
    DeclErrorView { at, fault: FaultView::Expected(wanted) }
}

/// Whether a token is at a place.
pub open spec fn has_token(t: Seq<TokenView>, i: int, token: TokenView) -> bool {
    0 <= i < t.len() && t[i] == token
}

/// Whether a place is the end of the brackets it lies in.
pub open spec fn closes(t: Seq<TokenView>, i: int, d: Delim) -> bool {
    has_token(t, i, TokenView::Close(d))
}

/// The identifier at a place.
pub open spec fn word_at(t: Seq<TokenView>, i: int) -> Result<Seq<char>, DeclErrorView> {
    if 0 <= i < t.len() && t[i] is Word {
        Ok(t[i]->Word_0)
    } else {
        Err(expected(i, Wanted::Word))
    }
}

/// What the string literal at a place holds.
pub open spec fn text_at(t: Seq<TokenView>, i: int) -> Result<Seq<char>, DeclErrorView> {
    if 0 <= i < t.len() && t[i] is Text {
        Ok(t[i]->Text_0)
    } else {
        Err(expected(i, Wanted::Text))
    }
}

/// The type at a place.
pub open spec fn type_at(t: Seq<TokenView>, i: int) -> Result<Seq<char>, DeclErrorView> {
    if 0 <= i < t.len() && t[i] is Type {
        Ok(t[i]->Type_0)
    } else {
        Err(expected(i, Wanted::Type))
    }
}

/// The expression at a place.
pub open spec fn expr_at(t: Seq<TokenView>, i: int) -> Result<Seq<char>, DeclErrorView> {
    if 0 <= i < t.len() && t[i] is Expr {
        Ok(t[i]->Expr_0)
    } else {
        Err(expected(i, Wanted::Expr))
    }
}

spec fn string_view(r: Result<String, DeclError>) -> Result<Seq<char>, DeclErrorView> {
    match r {
        Ok(s) => Ok(s@),
        Err(e) => Err(e@),
    }
}

fn fail<T>(at: usize, wanted: Wanted) -> (r: Result<T, DeclError>)
    ensures
        r matches Err(e) && e@ == expected(at as int, wanted),
{
    Err(DeclError { at, fault: Fault::Expected(wanted) })
}

fn word(t: &[Token], i: usize) -> (r: Result<String, DeclError>)
    ensures
        string_view(r) == word_at(token_views(t@), i as int),
        r is Ok ==> i < t@.len(),
{
    if i < t.len() {
        if let Token::Word(s) = &t[i] {
            return Ok(s.clone());
        }
    }
    fail(i, Wanted::Word)
}

fn text(t: &[Token], i: usize) -> (r: Result<String, DeclError>)
    ensures
        string_view(r) == text_at(token_views(t@), i as int),
        r is Ok ==> i < t@.len(),
{
    if i < t.len() {
        if let Token::Text(s) = &t[i] {
            return Ok(s.clone());
        }
    }
    fail(i, Wanted::Text)
}

fn type_text(t: &[Token], i: usize) -> (r: Result<String, DeclError>)
    ensures
        string_view(r) == type_at(token_views(t@), i as int),
        r is Ok ==> i < t@.len(),
{
    if i < t.len() {
        if let Token::Type(s) = &t[i] {
            return Ok(s.clone());
        }
    }
    fail(i, Wanted::Type)
}

fn expr_text(t: &[Token], i: usize) -> (r: Result<String, DeclError>)
    ensures
        string_view(r) == expr_at(token_views(t@), i as int),
        r is Ok ==> i < t@.len(),
{
    if i < t.len() {
        if let Token::Expr(s) = &t[i] {
            return Ok(s.clone());
        }
    }
    fail(i, Wanted::Expr)
}

fn is_sign(t: &[Token], i: usize, sign: Sign) -> (r: bool)
    ensures
        r == has_token(token_views(t@), i as int, TokenView::Sign(sign)),
        r ==> i < t@.len(),
{
    if i < t.len() {
        if let Token::Sign(s) = &t[i] {
            return *s == sign;
        }
    }
    false
}

fn is_open(t: &[Token], i: usize, d: Delim) -> (r: bool)
    ensures
        r == has_token(token_views(t@), i as int, TokenView::Open(d)),
        r ==> i < t@.len(),
{
    if i < t.len() {
        if let Token::Open(x) = &t[i] {
            return *x == d;
        }
    }
    false
}

fn is_close(t: &[Token], i: usize, d: Delim) -> (r: bool)
    ensures
        r == closes(token_views(t@), i as int, d),
        r ==> i < t@.len(),
{
    if i < t.len() {
        if let Token::Close(x) = &t[i] {
            return *x == d;
        }
    }
    false
}

// ---------------------------------------------------------------------------
// The routes of a controller
// ---------------------------------------------------------------------------

/// A declared parameter of a handler.
#[derive(Debug)]
pub struct ParamDecl {
    /// The identifier.
    pub name: String,
    /// The type.
    pub ty: String,
    /// The expression of the default.
    pub default: Option<String>,
}

/// A declared route.
#[derive(Debug)]
pub struct RouteDecl {
    /// The verb, where one is declared.
    pub verb: Option<Verb>,
    /// The pattern.
    pub pattern: String,
    /// The handler method.
    pub handler: String,
    /// The parameters of the handler.
    pub params: Vec<ParamDecl>,
}

/// What a declared parameter holds.
pub struct ParamDeclView {
    pub name: Seq<char>,
    pub ty: Seq<char>,
    pub default: Option<Seq<char>>,
}

/// What a declared route holds.
pub struct RouteDeclView {
    pub verb: Option<Verb>,
    pub pattern: Seq<char>,
    pub handler: Seq<char>,
    pub params: Seq<ParamDeclView>,
}

impl View for ParamDecl {
    type V = ParamDeclView;

    open spec fn view(&self) -> ParamDeclView {
        ParamDeclView {
            name: self.name@,
            ty: self.ty@,
            default: text_option(self.default),
        }
    }
}

/// What a list of declared parameters holds.
pub open spec fn param_decl_views(params: Seq<ParamDecl>) -> Seq<ParamDeclView> {
    Seq::new(params.len(), |i: int| params[i]@)
}

impl View for RouteDecl {
    type V = RouteDeclView;

    open spec fn view(&self) -> RouteDeclView {
        RouteDeclView {
            verb: self.verb,
            pattern: self.pattern@,
            handler: self.handler@,
            params: param_decl_views(self.params@),
        }
    }
}

/// What a list of declared routes holds.
pub open spec fn route_decl_views(routes: Seq<RouteDecl>) -> Seq<RouteDeclView> {
    Seq::new(routes.len(), |i: int| routes[i]@)
}

/// The verb that a word names.
pub open spec fn verb_named(word: Seq<char>) -> Option<Verb> {
    if word == "GET"@ {
        Some(Verb::GET)
    } else if word == "POST"@ {
        Some(Verb::POST)
    } else if word == "PUT"@ {
        Some(Verb::PUT)
    } else if word == "DELETE"@ {
        Some(Verb::DELETE)
    } else if word == "PATCH"@ {
        Some(Verb::PATCH)
    } else if word == "HEAD"@ {
        Some(Verb::HEAD)
    } else if word == "OPTIONS"@ {
        Some(Verb::OPTIONS)
    } else {
        None
    }
}

/// The verb that a word names.
pub fn verb_from_word(word: &str) -> (r: Option<Verb>)
    ensures
        r == verb_named(word@),
{
    if str_eq(word, "GET") {
        Some(Verb::GET)
    } else if str_eq(word, "POST") {
        Some(Verb::POST)
    } else if str_eq(word, "PUT") {
        Some(Verb::PUT)
    } else if str_eq(word, "DELETE") {
        Some(Verb::DELETE)
    } else if str_eq(word, "PATCH") {
        Some(Verb::PATCH)
    } else if str_eq(word, "HEAD") {
        Some(Verb::HEAD)
    } else if str_eq(word, "OPTIONS") {
        Some(Verb::OPTIONS)
    } else {
        None
    }
}

/// The parameter at a place, and the place behind it: a name, a colon, a type,
/// and an equals sign with the default where there is one.
pub open spec fn param_at(t: Seq<TokenView>, i: int) -> Result<
    (ParamDeclView, int),
    DeclErrorView,
> {
    match word_at(t, i) {
        Err(e) => Err(e),
        Ok(name) => if !has_token(t, i + 1, TokenView::Sign(Sign::Colon)) {
            Err(expected(i + 1, Wanted::Sign(Sign::Colon)))
        } else {
            match type_at(t, i + 2) {
                Err(e) => Err(e),
                Ok(ty) => if !has_token(t, i + 3, TokenView::Sign(Sign::Equals)) {
                    Ok((ParamDeclView { name, ty, default: None }, i + 3))
                } else {
                    match expr_at(t, i + 4) {
                        Err(e) => Err(e),
                        Ok(d) => Ok((ParamDeclView { name, ty, default: Some(d) }, i + 5)),
                    }
                },
            }
        },
    }
}

/// The parameters from a place on, behind those in `done`, and the place where
/// their brackets close. There are commas between them, and there may be one
/// behind the last.
pub open spec fn params_at(t: Seq<TokenView>, i: int, done: Seq<ParamDeclView>) -> Result<
    (Seq<ParamDeclView>, int),
    DeclErrorView,
>
    decreases t.len() - i,
{
    if closes(t, i, Delim::Paren) {
        Ok((done, i))
    } else {
        match param_at(t, i) {
            Err(e) => Err(e),
            Ok((p, j)) => if closes(t, j, Delim::Paren) {
                Ok((done.push(p), j))
            } else if !has_token(t, j, TokenView::Sign(Sign::Comma)) {
                Err(expected(j, Wanted::Sign(Sign::Comma)))
            } else {
                params_at(t, j + 1, done.push(p))
            },
        }
    }
}

/// The verb at a place, and the place behind it: a word is one only in front
/// of a string literal.
pub open spec fn verb_at(t: Seq<TokenView>, i: int) -> Result<(Option<Verb>, int), DeclErrorView> {
    if 0 <= i && i + 1 < t.len() && t[i] is Word && t[i + 1] is Text {
        match verb_named(t[i]->Word_0) {
            Some(v) => Ok((Some(v), i + 1)),
            None => Err(DeclErrorView { at: i, fault: FaultView::UnknownVerb(t[i]->Word_0) }),
        }
    } else {
        Ok((None, i))
    }
}

/// The route behind its verb: a pattern, an arrow, a handler, and its
/// parameters in parentheses.
pub open spec fn verbless_route_at(t: Seq<TokenView>, i: int, verb: Option<Verb>) -> Result<
    (RouteDeclView, int),
    DeclErrorView,
> {
    match text_at(t, i) {
        Err(e) => Err(e),
        Ok(pattern) => match pattern_fault(pattern) {
            Some(text) => Err(DeclErrorView { at: i, fault: FaultView::BadPattern(text) }),
            None => if !has_token(t, i + 1, TokenView::Sign(Sign::Arrow)) {
                Err(expected(i + 1, Wanted::Sign(Sign::Arrow)))
            } else {
                match word_at(t, i + 2) {
                    Err(e) => Err(e),
                    Ok(handler) => if !has_token(t, i + 3, TokenView::Open(Delim::Paren)) {
                        Err(expected(i + 3, Wanted::Open(Delim::Paren)))
                    } else {
                        match params_at(t, i + 4, Seq::empty()) {
                            Err(e) => Err(e),
                            Ok((params, j)) => Ok(
                                (RouteDeclView { verb, pattern, handler, params }, j + 1),
                            ),
                        }
                    },
                }
            },
        },
    }
}

/// The route at a place, and the place behind it.
pub open spec fn route_at(t: Seq<TokenView>, i: int) -> Result<
    (RouteDeclView, int),
    DeclErrorView,
> {
    if has_token(t, i, TokenView::Open(Delim::Bracket)) {
        Err(DeclErrorView { at: i, fault: FaultView::AccessSection })
    } else {
        match verb_at(t, i) {
            Err(e) => Err(e),
            Ok((verb, j)) => verbless_route_at(t, j, verb),
        }
    }
}

/// The place behind a comma, where there is one.
pub open spec fn past_comma(t: Seq<TokenView>, i: int) -> int {
    if has_token(t, i, TokenView::Sign(Sign::Comma)) {
        i + 1
    } else {
        i
    }
}

/// A list of parameters ends behind where it begins.
pub proof fn lemma_params_end(t: Seq<TokenView>, i: int, done: Seq<ParamDeclView>)
    requires
        0 <= i,
    ensures
        params_at(t, i, done) matches Ok((_, j)) ==> i <= j < t.len(),
    decreases t.len() - i,
{
    if !closes(t, i, Delim::Paren) {
        if let Ok((p, j)) = param_at(t, i) {
            if !closes(t, j, Delim::Paren) && has_token(t, j, TokenView::Sign(Sign::Comma)) {
                lemma_params_end(t, j + 1, done.push(p));
            }
        }
    }
}

/// The routes from a place to the end, behind those in `done`. There may be a
/// comma behind each.
pub open spec fn routes_at(t: Seq<TokenView>, i: int, done: Seq<RouteDeclView>) -> Result<
    Seq<RouteDeclView>,
    DeclErrorView,
>
    decreases t.len() - i,
    when 0 <= i
{
    if i >= t.len() {
        Ok(done)
    } else {
        proof {
            lemma_params_end(t, i + 4, Seq::empty());
            lemma_params_end(t, i + 5, Seq::empty());
        }
        match route_at(t, i) {
            Err(e) => Err(e),
            Ok((route, j)) => routes_at(t, past_comma(t, j), done.push(route)),
        }
    }
}

/// The routes that a controller declares.
pub open spec fn declared_routes(t: Seq<TokenView>) -> Result<Seq<RouteDeclView>, DeclErrorView> {
    routes_at(t, 0, Seq::empty())
}

spec fn param_result(r: Result<(ParamDecl, usize), DeclError>) -> Result<
    (ParamDeclView, int),
    DeclErrorView,
> {
    match r {
        Ok((p, j)) => Ok((p@, j as int)),
        Err(e) => Err(e@),
    }
}

spec fn params_result(r: Result<(Vec<ParamDecl>, usize), DeclError>) -> Result<
    (Seq<ParamDeclView>, int),
    DeclErrorView,
> {
    match r {
        Ok((ps, j)) => Ok((param_decl_views(ps@), j as int)),
        Err(e) => Err(e@),
    }
}

spec fn route_result(r: Result<(RouteDecl, usize), DeclError>) -> Result<
    (RouteDeclView, int),
    DeclErrorView,
> {
    match r {
        Ok((route, j)) => Ok((route@, j as int)),
        Err(e) => Err(e@),
    }
}

/// What the routes of a controller, or the error, hold.
pub open spec fn routes_result(r: Result<Vec<RouteDecl>, DeclError>) -> Result<
    Seq<RouteDeclView>,
    DeclErrorView,
> {
    match r {
        Ok(routes) => Ok(route_decl_views(routes@)),
        Err(e) => Err(e@),
    }
}

fn parse_param(t: &[Token], i: usize) -> (r: Result<(ParamDecl, usize), DeclError>)
    ensures
        param_result(r) == param_at(token_views(t@), i as int),
        r matches Ok((_, j)) ==> i < j <= t@.len(),
{
    let n: usize = t.len();
    assert(n == token_views(t@).len());
    let name = match word(t, i) {
        Ok(s) => s,
        Err(e) => return Err(e),
    };
    if !is_sign(t, i + 1, Sign::Colon) {
        return fail(i + 1, Wanted::Sign(Sign::Colon));
    }
    let ty = match type_text(t, i + 2) {
        Ok(s) => s,
        Err(e) => return Err(e),
    };
    if !is_sign(t, i + 3, Sign::Equals) {
        return Ok((ParamDecl { name, ty, default: None }, i + 3));
    }
    match expr_text(t, i + 4) {
        Ok(d) => Ok((ParamDecl { name, ty, default: Some(d) }, i + 5)),
        Err(e) => Err(e),
    }
}

fn parse_params(t: &[Token], from: usize) -> (r: Result<(Vec<ParamDecl>, usize), DeclError>)
    requires
        from <= t@.len(),
    ensures
        params_result(r) == params_at(token_views(t@), from as int, Seq::empty()),
        r matches Ok((_, j)) ==> from <= j < t@.len(),
{
    let ghost views = token_views(t@);
    let mut done: Vec<ParamDecl> = Vec::new();
    let mut i: usize = from;
    assert(param_decl_views(done@) =~= Seq::<ParamDeclView>::empty());
    while !is_close(t, i, Delim::Paren)
        invariant
            views == token_views(t@),
            from <= i <= t@.len(),
            params_at(views, from as int, Seq::empty()) == params_at(
                views,
                i as int,
                param_decl_views(done@),
            ),
        decreases t.len() - i,
    {
        let ghost before = param_decl_views(done@);
        let (p, j) = match parse_param(t, i) {
            Ok(x) => x,
            Err(e) => return Err(e),
        };
        done.push(p);
        assert(param_decl_views(done@) =~= before.push(p@));
        if is_close(t, j, Delim::Paren) {
            return Ok((done, j));
        }
        if !is_sign(t, j, Sign::Comma) {
            return fail(j, Wanted::Sign(Sign::Comma));
        }
        i = j + 1;
    }
    Ok((done, i))
}

fn parse_route(t: &[Token], at: usize) -> (r: Result<(RouteDecl, usize), DeclError>)
    requires
        at < t@.len(),
    ensures
        route_result(r) == route_at(token_views(t@), at as int),
        r matches Ok((_, j)) ==> at < j <= t@.len(),
{
    let ghost views = token_views(t@);
    if is_open(t, at, Delim::Bracket) {
        return Err(DeclError { at, fault: Fault::AccessSection });
    }
    let mut i: usize = at;
    let mut verb: Option<Verb> = None;
    let literal_next = at < t.len() - 1 && matches!(&t[at + 1], Token::Text(_));
    if literal_next {
        if let Token::Word(w) = &t[at] {
            match verb_from_word(w) {
                Some(v) => {
                    verb = Some(v);
                    i = at + 1;
                },
                None => {
                    return Err(DeclError { at, fault: Fault::UnknownVerb(w.clone()) });
                },
            }
        }
    }
    assert(verb_at(views, at as int) == Ok::<(Option<Verb>, int), DeclErrorView>(
        (verb, i as int),
    ));
    let pattern = match text(t, i) {
        Ok(s) => s,
        Err(e) => return Err(e),
    };
    if let Err(message) = validate_pattern(&pattern) {
        return Err(DeclError { at: i, fault: Fault::BadPattern(message) });
    }
    if !is_sign(t, i + 1, Sign::Arrow) {
        return fail(i + 1, Wanted::Sign(Sign::Arrow));
    }
    let handler = match word(t, i + 2) {
        Ok(s) => s,
        Err(e) => return Err(e),
    };
    if !is_open(t, i + 3, Delim::Paren) {
        return fail(i + 3, Wanted::Open(Delim::Paren));
    }
    match parse_params(t, i + 4) {
        Ok((params, j)) => Ok((RouteDecl { verb, pattern, handler, params }, j + 1)),
        Err(e) => Err(e),
    }
}

/// Reads the routes that a controller declares.
pub fn parse_routes(t: &[Token]) -> (r: Result<Vec<RouteDecl>, DeclError>)
    ensures
        routes_result(r) == declared_routes(token_views(t@)),
{
    let ghost views = token_views(t@);
    let mut done: Vec<RouteDecl> = Vec::new();
    let mut i: usize = 0;
    assert(route_decl_views(done@) =~= Seq::<RouteDeclView>::empty());
    while i < t.len()
        invariant
            views == token_views(t@),
            i <= t@.len(),
            routes_at(views, 0, Seq::empty()) == routes_at(
                views,
                i as int,
                route_decl_views(done@),
            ),
        decreases t.len() - i,
    {
        let ghost before = route_decl_views(done@);
        let (route, j) = match parse_route(t, i) {
            Ok(x) => x,
            Err(e) => return Err(e),
        };
        done.push(route);
        assert(route_decl_views(done@) =~= before.push(route@));
        i = if is_sign(t, j, Sign::Comma) {
            j + 1
        } else {
            j
        };
    }
    Ok(done)
}

// ---------------------------------------------------------------------------
// The options of a controller
// ---------------------------------------------------------------------------

/// The options of a controller.
#[derive(Debug)]
pub struct ControllerAttrs {
    /// How it treats parameters that a route did not declare.
    pub mode: ControllerMode,
    /// The hook that runs before its handlers.
    pub prepare: Option<String>,
    /// The expression of its limit on bodies.
    pub max_body_bytes: Option<String>,
    /// The expression of its class for rate limits.
    pub rate_limit: Option<String>,
}

/// What the options of a controller hold.
pub struct AttrsView {
    pub mode: ControllerMode,
    pub prepare: Option<Seq<char>>,
    pub max_body_bytes: Option<Seq<char>>,
    pub rate_limit: Option<Seq<char>>,
}

impl View for ControllerAttrs {
    type V = AttrsView;

    open spec fn view(&self) -> AttrsView {
        AttrsView {
            mode: self.mode,
            prepare: text_option(self.prepare),
            max_body_bytes: text_option(self.max_body_bytes),
            rate_limit: text_option(self.rate_limit),
        }
    }
}

/// The options of a controller that declares none.
pub open spec fn no_attrs() -> AttrsView {
    AttrsView {
        mode: ControllerMode::Strict,
        prepare: None,
        max_body_bytes: None,
        rate_limit: None,
    }
}

/// The expression behind the equals sign of an option.
pub open spec fn assigned_at(t: Seq<TokenView>, i: int) -> Result<Seq<char>, DeclErrorView> {
    if !has_token(t, i + 1, TokenView::Sign(Sign::Equals)) {
        Err(expected(i + 1, Wanted::Sign(Sign::Equals)))
    } else {
        expr_at(t, i + 2)
    }
}

/// Some options with the one at a place, and the place behind it.
pub open spec fn attr_at(t: Seq<TokenView>, i: int, attrs: AttrsView) -> Result<
    (AttrsView, int),
    DeclErrorView,
> {
    match word_at(t, i) {
        Err(e) => Err(e),
        Ok(name) => if name == "strict"@ {
            Ok((AttrsView { mode: ControllerMode::Strict, ..attrs }, i + 1))
        } else if name == "lax"@ {
            Ok((AttrsView { mode: ControllerMode::Lax, ..attrs }, i + 1))
        } else if name == "prepare"@ {
            match assigned_at(t, i) {
                Err(e) => Err(e),
                Ok(x) => Ok((AttrsView { prepare: Some(x), ..attrs }, i + 3)),
            }
        } else if name == "max_body_bytes"@ {
            match assigned_at(t, i) {
                Err(e) => Err(e),
                Ok(x) => Ok((AttrsView { max_body_bytes: Some(x), ..attrs }, i + 3)),
            }
        } else if name == "rate_limit"@ {
            match assigned_at(t, i) {
                Err(e) => Err(e),
                Ok(x) => Ok((AttrsView { rate_limit: Some(x), ..attrs }, i + 3)),
            }
        } else {
            Err(DeclErrorView { at: i, fault: FaultView::UnknownOption })
        },
    }
}

/// Some options with those from a place to the end. There may be a comma
/// behind each; of an option that is given twice, the later one counts.
pub open spec fn attrs_at(t: Seq<TokenView>, i: int, attrs: AttrsView) -> Result<
    AttrsView,
    DeclErrorView,
>
    decreases t.len() - i,
{
    if i >= t.len() {
        Ok(attrs)
    } else {
        match attr_at(t, i, attrs) {
            Err(e) => Err(e),
            Ok((more, j)) => attrs_at(t, past_comma(t, j), more),
        }
    }
}

/// What the options of a controller, or the error, hold.
pub open spec fn attrs_result(r: Result<ControllerAttrs, DeclError>) -> Result<
    AttrsView,
    DeclErrorView,
> {
    match r {
        Ok(attrs) => Ok(attrs@),
        Err(e) => Err(e@),
    }
}

fn assigned(t: &[Token], i: usize) -> (r: Result<String, DeclError>)
    requires
        i < t@.len(),
    ensures
        string_view(r) == assigned_at(token_views(t@), i as int),
        r is Ok ==> i + 2 < t@.len(),
{
    let n: usize = t.len();
    assert(n == token_views(t@).len());
    if !is_sign(t, i + 1, Sign::Equals) {
        return fail(i + 1, Wanted::Sign(Sign::Equals));
    }
    expr_text(t, i + 2)
}

/// Reads the options of a controller.
pub fn parse_attrs(t: &[Token]) -> (r: Result<ControllerAttrs, DeclError>)
    ensures
        attrs_result(r) == attrs_at(token_views(t@), 0, no_attrs()),
{
    let ghost views = token_views(t@);
    let mut attrs = ControllerAttrs {
        mode: ControllerMode::Strict,
        prepare: None,
        max_body_bytes: None,
        rate_limit: None,
    };
    let mut i: usize = 0;
    while i < t.len()
        invariant
            views == token_views(t@),
            i <= t@.len(),
            attrs_at(views, 0, no_attrs()) == attrs_at(views, i as int, attrs@),
        decreases t.len() - i,
    {
        let name = match word(t, i) {
            Ok(s) => s,
            Err(e) => return Err(e),
        };
        let mut j: usize = i + 1;
        if str_eq(&name, "strict") {
            attrs.mode = ControllerMode::Strict;
        } else if str_eq(&name, "lax") {
            attrs.mode = ControllerMode::Lax;
        } else if str_eq(&name, "prepare") {
            match assigned(t, i) {
                Ok(x) => {
                    attrs.prepare = Some(x);
                },
                Err(e) => return Err(e),
            }
            j = i + 3;
        } else if str_eq(&name, "max_body_bytes") {
            match assigned(t, i) {
                Ok(x) => {
                    attrs.max_body_bytes = Some(x);
                },
                Err(e) => return Err(e),
            }
            j = i + 3;
        } else if str_eq(&name, "rate_limit") {
            match assigned(t, i) {
                Ok(x) => {
                    attrs.rate_limit = Some(x);
                },
                Err(e) => return Err(e),
            }
            j = i + 3;
        } else {
            return Err(DeclError { at: i, fault: Fault::UnknownOption });
        }
        i = if is_sign(t, j, Sign::Comma) {
            j + 1
        } else {
            j
        };
    }
    Ok(attrs)
}

// ---------------------------------------------------------------------------
// The controllers of an application
// ---------------------------------------------------------------------------

/// The lists that the blocks of an application hold.
#[derive(Clone, Copy, Debug, PartialEq, Eq, Structural)]
pub enum ListKind {
    /// Names with their types, in parentheses.
    Inputs,
    /// Names with their expressions, in braces.
    Deps,
    /// Paths with the expressions of their controllers, in braces.
    Mounts,
}

/// What an application declares.
#[derive(Debug)]
pub struct AppDecl {
    /// What is handed in, each with its type.
    pub inputs: Vec<(String, String)>,
    /// What is made first, each with its expression.
    pub deps: Vec<(String, String)>,
    /// The paths, each with the expression of its controller.
    pub routes: Vec<(String, String)>,
}

/// A list of pairs of texts.
pub type Pairs = Seq<(Seq<char>, Seq<char>)>;

/// What an application declares, as far as it was read.
pub struct AppView {
    pub inputs: Pairs,
    pub deps: Pairs,
    pub routes: Option<Pairs>,
}

/// The sign between the two parts of an entry.
pub open spec fn entry_sign(kind: ListKind) -> Sign {
    match kind {
        ListKind::Inputs => Sign::Colon,
        ListKind::Deps => Sign::Equals,
        ListKind::Mounts => Sign::Arrow,
    }
}

/// The brackets of a list.
pub open spec fn list_delim(kind: ListKind) -> Delim {
    match kind {
        ListKind::Inputs => Delim::Paren,
        ListKind::Deps => Delim::Brace,
        ListKind::Mounts => Delim::Brace,
    }
}

/// The first part of an entry: a path for a mount, otherwise a name.
pub open spec fn entry_head(t: Seq<TokenView>, i: int, kind: ListKind) -> Result<
    Seq<char>,
    DeclErrorView,
> {
    match kind {
        ListKind::Mounts => text_at(t, i),
        _ => word_at(t, i),
    }
}

/// The second part of an entry: a type for an input, otherwise an expression.
pub open spec fn entry_tail(t: Seq<TokenView>, i: int, kind: ListKind) -> Result<
    Seq<char>,
    DeclErrorView,
> {
    match kind {
        ListKind::Inputs => type_at(t, i),
        _ => expr_at(t, i),
    }
}

/// The entry at a place, which takes three tokens.
pub open spec fn entry_at(t: Seq<TokenView>, i: int, kind: ListKind) -> Result<
    (Seq<char>, Seq<char>),
    DeclErrorView,
> {
    match entry_head(t, i, kind) {
        Err(e) => Err(e),
        Ok(head) => if !has_token(t, i + 1, TokenView::Sign(entry_sign(kind))) {
            Err(expected(i + 1, Wanted::Sign(entry_sign(kind))))
        } else {
            match entry_tail(t, i + 2, kind) {
                Err(e) => Err(e),
                Ok(tail) => Ok((head, tail)),
            }
        },
    }
}

/// The entries from a place on, behind those in `done`, and the place where
/// their brackets close.
pub open spec fn entries_at(t: Seq<TokenView>, i: int, kind: ListKind, done: Pairs) -> Result<
    (Pairs, int),
    DeclErrorView,
>
    decreases t.len() - i,
{
    if closes(t, i, list_delim(kind)) {
        Ok((done, i))
    } else {
        match entry_at(t, i, kind) {
            Err(e) => Err(e),
            Ok(entry) => if closes(t, i + 3, list_delim(kind)) {
                Ok((done.push(entry), i + 3))
            } else if !has_token(t, i + 3, TokenView::Sign(Sign::Comma)) {
                Err(expected(i + 3, Wanted::Sign(Sign::Comma)))
            } else {
                entries_at(t, i + 4, kind, done.push(entry))
            },
        }
    }
}

/// A list of entries ends behind where it begins.
pub proof fn lemma_entries_end(t: Seq<TokenView>, i: int, kind: ListKind, done: Pairs)
    requires
        0 <= i,
    ensures
        entries_at(t, i, kind, done) matches Ok((_, j)) ==> i <= j < t.len(),
    decreases t.len() - i,
{
    if !closes(t, i, list_delim(kind)) {
        if let Ok(entry) = entry_at(t, i, kind) {
            if !closes(t, i + 3, list_delim(kind)) && has_token(
                t,
                i + 3,
                TokenView::Sign(Sign::Comma),
            ) {
                lemma_entries_end(t, i + 4, kind, done.push(entry));
            }
        }
    }
}

/// A list in its brackets, behind the entries in `done`, and the place behind
/// it.
pub open spec fn list_at(t: Seq<TokenView>, i: int, kind: ListKind, done: Pairs) -> Result<
    (Pairs, int),
    DeclErrorView,
> {
    if !has_token(t, i, TokenView::Open(list_delim(kind))) {
        Err(expected(i, Wanted::Open(list_delim(kind))))
    } else {
        match entries_at(t, i + 1, kind, done) {
            Err(e) => Err(e),
            Ok((list, j)) => Ok((list, j + 1)),
        }
    }
}

/// What was read with the block of dependencies behind a place: inputs, where
/// there are any, and what is made of them.
pub open spec fn deps_at(t: Seq<TokenView>, i: int, app: AppView) -> Result<
    (AppView, int),
    DeclErrorView,
> {
    let inputs = if has_token(t, i, TokenView::Open(Delim::Paren)) {
        list_at(t, i, ListKind::Inputs, app.inputs)
    } else {
        Ok((app.inputs, i))
    };
    match inputs {
        Err(e) => Err(e),
        Ok((inputs, j)) => match list_at(t, j, ListKind::Deps, app.deps) {
            Err(e) => Err(e),
            Ok((deps, k)) => Ok((AppView { inputs, deps, ..app }, k)),
        },
    }
}

/// What was read with the block at a place, and the place behind it.
pub open spec fn block_at(t: Seq<TokenView>, i: int, app: AppView) -> Result<
    (AppView, int),
    DeclErrorView,
> {
    match word_at(t, i) {
        Err(e) => Err(e),
        Ok(name) => if name == "deps"@ {
            deps_at(t, i + 1, app)
        } else if name == "routes"@ {
            match list_at(t, i + 1, ListKind::Mounts, Seq::empty()) {
                Err(e) => Err(e),
                Ok((routes, j)) => Ok((AppView { routes: Some(routes), ..app }, j)),
            }
        } else {
            Err(DeclErrorView { at: i, fault: FaultView::UnknownBlock(name) })
        },
    }
}

/// A list in its brackets takes at least one token.
pub proof fn lemma_list_end(t: Seq<TokenView>, i: int, kind: ListKind, done: Pairs)
    requires
        0 <= i,
    ensures
        list_at(t, i, kind, done) matches Ok((_, j)) ==> i < j <= t.len(),
{
    lemma_entries_end(t, i + 1, kind, done);
}

/// A block takes at least one token.
pub proof fn lemma_block_end(t: Seq<TokenView>, i: int, app: AppView)
    requires
        0 <= i,
    ensures
        block_at(t, i, app) matches Ok((_, j)) ==> i < j <= t.len(),
{
    lemma_list_end(t, i + 1, ListKind::Mounts, Seq::empty());
    lemma_list_end(t, i + 1, ListKind::Inputs, app.inputs);
    lemma_list_end(t, i + 1, ListKind::Deps, app.deps);
    if let Ok((inputs, j)) = list_at(t, i + 1, ListKind::Inputs, app.inputs) {
        lemma_list_end(t, j, ListKind::Deps, app.deps);
    }
}

/// What was read with the blocks from a place to the end. Blocks of
/// dependencies add up; of two blocks of routes the later one counts.
pub open spec fn blocks_at(t: Seq<TokenView>, i: int, app: AppView) -> Result<
    AppView,
    DeclErrorView,
>
    decreases t.len() - i,
    when 0 <= i
{
    if i >= t.len() {
        Ok(app)
    } else {
        proof {
            lemma_block_end(t, i, app);
        }
        match block_at(t, i, app) {
            Err(e) => Err(e),
            Ok((more, j)) => blocks_at(t, j, more),
        }
    }
}

/// An application of which nothing was read.
pub open spec fn no_app() -> AppView {
    AppView { inputs: Seq::empty(), deps: Seq::empty(), routes: None }
}

/// What an application declares. It has to have routes.
pub open spec fn declared_app(t: Seq<TokenView>) -> Result<AppView, DeclErrorView> {
    match blocks_at(t, 0, no_app()) {
        Err(e) => Err(e),
        Ok(app) => if app.routes is None {
            Err(DeclErrorView { at: t.len() as int, fault: FaultView::NoRoutes })
        } else {
            Ok(app)
        },
    }
}

/// What the declaration of an application, or the error, holds.
pub open spec fn app_result(r: Result<AppDecl, DeclError>) -> Result<AppView, DeclErrorView> {
    match r {
        Ok(app) => Ok(
            AppView {
                inputs: pair_views(app.inputs@),
                deps: pair_views(app.deps@),
                routes: Some(pair_views(app.routes@)),
            },
        ),
        Err(e) => Err(e@),
    }
}

spec fn list_result(r: Result<usize, DeclError>, list: Seq<(String, String)>) -> Result<
    (Pairs, int),
    DeclErrorView,
> {
    match r {
        Ok(j) => Ok((pair_views(list), j as int)),
        Err(e) => Err(e@),
    }
}

fn parse_entry(t: &[Token], i: usize, kind: ListKind) -> (r: Result<(String, String), DeclError>)
    ensures
        match r {
            Ok(entry) => entry_at(token_views(t@), i as int, kind) == Ok::<
                (Seq<char>, Seq<char>),
                DeclErrorView,
            >((entry.0@, entry.1@)) && i + 2 < t@.len(),
            Err(e) => entry_at(token_views(t@), i as int, kind) == Err::<
                (Seq<char>, Seq<char>),
                DeclErrorView,
            >(e@),
        },
{
    let n: usize = t.len();
    assert(n == token_views(t@).len());
    let head = match kind {
        ListKind::Mounts => text(t, i),
        _ => word(t, i),
    };
    let head = match head {
        Ok(s) => s,
        Err(e) => return Err(e),
    };
    let sign = match kind {
        ListKind::Inputs => Sign::Colon,
        ListKind::Deps => Sign::Equals,
        ListKind::Mounts => Sign::Arrow,
    };
    if !is_sign(t, i + 1, sign) {
        return fail(i + 1, Wanted::Sign(sign));
    }
    let tail = match kind {
        ListKind::Inputs => type_text(t, i + 2),
        _ => expr_text(t, i + 2),
    };
    match tail {
        Ok(s) => Ok((head, s)),
        Err(e) => Err(e),
    }
}

fn parse_list(t: &[Token], at: usize, kind: ListKind, list: &mut Vec<(String, String)>) -> (r: Result<
    usize,
    DeclError,
>)
    requires
        at <= t@.len(),
    ensures
        list_result(r, final(list)@) == list_at(
            token_views(t@),
            at as int,
            kind,
            pair_views(old(list)@),
        ),
        r matches Ok(j) ==> at < j <= t@.len(),
{
    let ghost views = token_views(t@);
    let ghost first = pair_views(list@);
    let n: usize = t.len();
    assert(n == views.len());
    let delim = match kind {
        ListKind::Inputs => Delim::Paren,
        _ => Delim::Brace,
    };
    if !is_open(t, at, delim) {
        return fail(at, Wanted::Open(delim));
    }
    let mut i: usize = at + 1;
    while !is_close(t, i, delim)
        invariant
            views == token_views(t@),
            n == t@.len(),
            first == pair_views(old(list)@),
            delim == list_delim(kind),
            at < i <= t@.len(),
            has_token(views, at as int, TokenView::Open(delim)),
            entries_at(views, at + 1, kind, first) == entries_at(
                views,
                i as int,
                kind,
                pair_views(list@),
            ),
        decreases t.len() - i,
    {
        let ghost before = pair_views(list@);
        let entry = match parse_entry(t, i, kind) {
            Ok(x) => x,
            Err(e) => return Err(e),
        };
        let ghost pair = (entry.0@, entry.1@);
        list.push(entry);
        assert(pair_views(list@) =~= before.push(pair));
        if is_close(t, i + 3, delim) {
            return Ok(i + 4);
        }
        if !is_sign(t, i + 3, Sign::Comma) {
            return fail(i + 3, Wanted::Sign(Sign::Comma));
        }
        i = i + 4;
    }
    Ok(i + 1)
}

/// Reads what an application declares.
pub fn parse_app(t: &[Token]) -> (r: Result<AppDecl, DeclError>)
    ensures
        app_result(r) == declared_app(token_views(t@)),
{
    let ghost views = token_views(t@);
    let mut inputs: Vec<(String, String)> = Vec::new();
    let mut deps: Vec<(String, String)> = Vec::new();
    let mut routes: Option<Vec<(String, String)>> = None;
    let mut i: usize = 0;
    assert(pair_views(inputs@) =~= Seq::<(Seq<char>, Seq<char>)>::empty());
    assert(pair_views(deps@) =~= Seq::<(Seq<char>, Seq<char>)>::empty());
    while i < t.len()
        invariant
            views == token_views(t@),
            i <= t@.len(),
            blocks_at(views, 0, no_app()) == blocks_at(
                views,
                i as int,
                app_view(inputs@, deps@, routes),
            ),
        decreases t.len() - i,
    {
        let ghost app = app_view(inputs@, deps@, routes);
        let name = match word(t, i) {
            Ok(s) => s,
            Err(e) => return Err(e),
        };
        if str_eq(&name, "deps") {
            let mut j: usize = i + 1;
            if is_open(t, j, Delim::Paren) {
                j = match parse_list(t, j, ListKind::Inputs, &mut inputs) {
                    Ok(j) => j,
                    Err(e) => return Err(e),
                };
            }
            let k: usize = match parse_list(t, j, ListKind::Deps, &mut deps) {
                Ok(k) => k,
                Err(e) => return Err(e),
            };
            i = k;
        } else if str_eq(&name, "routes") {
            let mut list: Vec<(String, String)> = Vec::new();
            assert(pair_views(list@) =~= Seq::<(Seq<char>, Seq<char>)>::empty());
            let j: usize = match parse_list(t, i + 1, ListKind::Mounts, &mut list) {
                Ok(j) => j,
                Err(e) => return Err(e),
            };
            routes = Some(list);
            i = j;
        } else {
            return Err(DeclError { at: i, fault: Fault::UnknownBlock(name) });
        }
    }
    match routes {
        Some(routes) => Ok(AppDecl { inputs, deps, routes }),
        None => Err(DeclError { at: t.len(), fault: Fault::NoRoutes }),
    }
}

spec fn app_view(
    inputs: Seq<(String, String)>,
    deps: Seq<(String, String)>,
    routes: Option<Vec<(String, String)>>,
) -> AppView {
    AppView {
        inputs: pair_views(inputs),
        deps: pair_views(deps),
        routes: match routes {
            Some(list) => Some(pair_views(list@)),
            None => None,
        },
    }
}

// ---------------------------------------------------------------------------
// Laws
// ---------------------------------------------------------------------------

/// The tokens of a parameter.
pub open spec fn written_param(p: ParamDeclView) -> Seq<TokenView> {
    let typed = seq![
        TokenView::Word(p.name),
        TokenView::Sign(Sign::Colon),
        TokenView::Type(p.ty),
    ];
    match p.default {
        Some(d) => typed + seq![TokenView::Sign(Sign::Equals), TokenView::Expr(d)],
        None => typed,
    }
}

/// The tokens of parameters, with a comma behind each.
pub open spec fn written_params(params: Seq<ParamDeclView>) -> Seq<TokenView>
    decreases params.len(),
{
    if params.len() == 0 {
        Seq::empty()
    } else {
        written_param(params[0]).push(TokenView::Sign(Sign::Comma)) + written_params(
            params.skip(1),
        )
    }
}

/// The tokens of a route.
pub open spec fn written_route(route: RouteDeclView) -> Seq<TokenView> {
    let verb = match route.verb {
        Some(v) => seq![TokenView::Word(verb_token(v))],
        None => Seq::empty(),
    };
    verb + seq![
        TokenView::Text(route.pattern),
        TokenView::Sign(Sign::Arrow),
        TokenView::Word(route.handler),
        TokenView::Open(Delim::Paren),
    ] + written_params(route.params) + seq![
        TokenView::Close(Delim::Paren),
        TokenView::Sign(Sign::Comma),
    ]
}

/// The tokens of routes.
pub open spec fn written_routes(routes: Seq<RouteDeclView>) -> Seq<TokenView>
    decreases routes.len(),
{
    if routes.len() == 0 {
        Seq::empty()
    } else {
        written_route(routes[0]) + written_routes(routes.skip(1))
    }
}

/// Whether some tokens stand at a place.
spec fn stands_at(t: Seq<TokenView>, i: int, part: Seq<TokenView>) -> bool {
    &&& 0 <= i
    &&& i + part.len() <= t.len()
    &&& forall|k: int| 0 <= k < part.len() ==> t[i + k] == #[trigger] part[k]
}

proof fn lemma_stands_in_parts(t: Seq<TokenView>, i: int, a: Seq<TokenView>, b: Seq<TokenView>)
    requires
        stands_at(t, i, a + b),
    ensures
        stands_at(t, i, a),
        stands_at(t, i + a.len(), b),
{
    let whole = a + b;
    assert forall|k: int| 0 <= k < a.len() implies t[i + k] == #[trigger] a[k] by {
        assert(whole[k] == a[k]);
    }
    assert forall|k: int| 0 <= k < b.len() implies t[i + a.len() + k] == #[trigger] b[k] by {
        assert(whole[a.len() + k] == b[k]);
    }
}

proof fn lemma_param_reads_back(t: Seq<TokenView>, i: int, p: ParamDeclView)
    requires
        stands_at(t, i, written_param(p).push(TokenView::Sign(Sign::Comma))),
    ensures
        param_at(t, i) == Ok::<(ParamDeclView, int), DeclErrorView>(
            (p, i + written_param(p).len()),
        ),
        has_token(t, i + written_param(p).len(), TokenView::Sign(Sign::Comma)),
{
    let part = written_param(p).push(TokenView::Sign(Sign::Comma));
    let n = written_param(p).len() as int;
    assert(t[i + 0] == part[0]);
    assert(t[i + 1] == part[1]);
    assert(t[i + 2] == part[2]);
    assert(t[i + 3] == part[3]);
    assert(t[i + n] == part[n]);
    if p.default is Some {
        assert(t[i + 4] == part[4]);
    }
}

proof fn lemma_params_read_back(
    t: Seq<TokenView>,
    i: int,
    params: Seq<ParamDeclView>,
    done: Seq<ParamDeclView>,
)
    requires
        stands_at(t, i, written_params(params)),
        closes(t, i + written_params(params).len(), Delim::Paren),
    ensures
        params_at(t, i, done) == Ok::<(Seq<ParamDeclView>, int), DeclErrorView>(
            (done + params, i + written_params(params).len()),
        ),
    decreases params.len(),
{
    if params.len() == 0 {
        assert(done + params =~= done);
    } else {
        let p = params[0];
        let head = written_param(p).push(TokenView::Sign(Sign::Comma));
        let rest = params.skip(1);
        lemma_stands_in_parts(t, i, head, written_params(rest));
        lemma_param_reads_back(t, i, p);
        assert(t[i + 0] == head[0]);
        lemma_params_read_back(t, i + head.len(), rest, done.push(p));
        assert(done.push(p) + rest =~= done + params);
    }
}

proof fn lemma_verb_named(v: Verb)
    ensures
        verb_named(verb_token(v)) == Some(v),
{
    crate::controller::law_tokens_tell_verbs_apart(v, Verb::GET);
    crate::controller::law_tokens_tell_verbs_apart(v, Verb::POST);
    crate::controller::law_tokens_tell_verbs_apart(v, Verb::PUT);
    crate::controller::law_tokens_tell_verbs_apart(v, Verb::DELETE);
    crate::controller::law_tokens_tell_verbs_apart(v, Verb::PATCH);
    crate::controller::law_tokens_tell_verbs_apart(v, Verb::HEAD);
    crate::controller::law_tokens_tell_verbs_apart(v, Verb::OPTIONS);
}

proof fn lemma_route_reads_back(t: Seq<TokenView>, i: int, route: RouteDeclView)
    requires
        stands_at(t, i, written_route(route)),
        pattern_fault(route.pattern) is None,
    ensures
        route_at(t, i) == Ok::<(RouteDeclView, int), DeclErrorView>(
            (route, i + written_route(route).len() - 1),
        ),
        has_token(t, i + written_route(route).len() - 1, TokenView::Sign(Sign::Comma)),
{
    let verb = match route.verb {
        Some(v) => seq![TokenView::Word(verb_token(v))],
        None => Seq::empty(),
    };
    let head = seq![
        TokenView::Text(route.pattern),
        TokenView::Sign(Sign::Arrow),
        TokenView::Word(route.handler),
        TokenView::Open(Delim::Paren),
    ];
    let params = written_params(route.params);
    let end = seq![TokenView::Close(Delim::Paren), TokenView::Sign(Sign::Comma)];
    lemma_stands_in_parts(t, i, verb + head + params, end);
    lemma_stands_in_parts(t, i, verb + head, params);
    lemma_stands_in_parts(t, i, verb, head);
    let j = i + verb.len();
    assert(t[j + 0] == head[0]);
    assert(t[j + 1] == head[1]);
    assert(t[j + 2] == head[2]);
    assert(t[j + 3] == head[3]);
    let k = j + 4 + params.len();
    assert(t[k + 0] == end[0]);
    assert(t[k + 1] == end[1]);
    lemma_params_read_back(t, j + 4, route.params, Seq::empty());
    assert(Seq::<ParamDeclView>::empty() + route.params =~= route.params);
    if let Some(v) = route.verb {
        assert(t[i + 0] == verb[0]);
        lemma_verb_named(v);
    }
}

proof fn lemma_routes_read_back(
    t: Seq<TokenView>,
    i: int,
    routes: Seq<RouteDeclView>,
    done: Seq<RouteDeclView>,
)
    requires
        stands_at(t, i, written_routes(routes)),
        i + written_routes(routes).len() == t.len(),
        forall|k: int| 0 <= k < routes.len() ==> pattern_fault((#[trigger] routes[k]).pattern) is None,
    ensures
        routes_at(t, i, done) == Ok::<Seq<RouteDeclView>, DeclErrorView>(done + routes),
    decreases routes.len(),
{
    if routes.len() == 0 {
        assert(done + routes =~= done);
    } else {
        let route = routes[0];
        let rest = routes.skip(1);
        lemma_stands_in_parts(t, i, written_route(route), written_routes(rest));
        lemma_route_reads_back(t, i, route);
        assert forall|k: int| 0 <= k < rest.len() implies pattern_fault(
            (#[trigger] rest[k]).pattern,
        ) is None by {
            assert(rest[k] == routes[k + 1]);
        }
        lemma_routes_read_back(t, i + written_route(route).len(), rest, done.push(route));
        assert(done.push(route) + rest =~= done + routes);
    }
}

/// Routes that are written down are read back as they are, as long as no
/// pattern is refused.
pub proof fn law_written_routes_read_back(routes: Seq<RouteDeclView>)
    requires
        forall|k: int| 0 <= k < routes.len() ==> pattern_fault((#[trigger] routes[k]).pattern) is None,
    ensures
        declared_routes(written_routes(routes)) == Ok::<Seq<RouteDeclView>, DeclErrorView>(routes),
{
    let t = written_routes(routes);
    lemma_routes_read_back(t, 0, routes, Seq::empty());
    assert(Seq::<RouteDeclView>::empty() + routes =~= routes);
}

proof fn lemma_declared_patterns(t: Seq<TokenView>, i: int, done: Seq<RouteDeclView>)
    requires
        0 <= i,
        forall|k: int| 0 <= k < done.len() ==> pattern_fault((#[trigger] done[k]).pattern) is None,
    ensures
        routes_at(t, i, done) matches Ok(routes) ==> forall|k: int|
            0 <= k < routes.len() ==> pattern_fault((#[trigger] routes[k]).pattern) is None,
    decreases t.len() - i,
{
    if i < t.len() {
        lemma_params_end(t, i + 4, Seq::empty());
        lemma_params_end(t, i + 5, Seq::empty());
        if let Ok((route, j)) = route_at(t, i) {
            let more = done.push(route);
            assert forall|k: int| 0 <= k < more.len() implies pattern_fault(
                (#[trigger] more[k]).pattern,
            ) is None by {
                if k < done.len() {
                    assert(more[k] == done[k]);
                }
            }
            lemma_declared_patterns(t, past_comma(t, j), more);
        }
    }
}

/// No route with a pattern that is refused is ever declared.
pub proof fn law_declared_patterns_are_accepted(t: Seq<TokenView>)
    ensures
        declared_routes(t) matches Ok(routes) ==> forall|k: int|
            0 <= k < routes.len() ==> pattern_fault((#[trigger] routes[k]).pattern) is None,
{
    lemma_declared_patterns(t, 0, Seq::empty());
}

/// A word names a verb exactly where it is the token of one.
pub proof fn law_words_of_verbs(word: Seq<char>, v: Verb)
    ensures
        verb_named(word) == Some(v) <==> word == verb_token(v),
{
    lemma_verb_named(v);
}

/// An option with a value: its name, an equals sign and the expression, with a
/// comma behind it.
pub open spec fn written_option(name: Seq<char>, value: Option<Seq<char>>) -> Seq<TokenView> {
    match value {
        Some(x) => seq![
            TokenView::Word(name),
            TokenView::Sign(Sign::Equals),
            TokenView::Expr(x),
            TokenView::Sign(Sign::Comma),
        ],
        None => Seq::empty(),
    }
}

/// The options of a controller, written down.
pub open spec fn written_attrs(attrs: AttrsView) -> Seq<TokenView> {
    seq![
        TokenView::Word(
            match attrs.mode {
                ControllerMode::Strict => "strict"@,
                ControllerMode::Lax => "lax"@,
            },
        ),
        TokenView::Sign(Sign::Comma),
    ] + written_option("prepare"@, attrs.prepare) + written_option(
        "max_body_bytes"@,
        attrs.max_body_bytes,
    ) + written_option("rate_limit"@, attrs.rate_limit)
}

proof fn lemma_option_names()
    ensures
        "strict"@.len() == 6,
        "lax"@.len() == 3,
        "prepare"@.len() == 7,
        "max_body_bytes"@.len() == 14,
        "rate_limit"@.len() == 10,
{
    reveal_strlit("strict");
    reveal_strlit("lax");
    reveal_strlit("prepare");
    reveal_strlit("max_body_bytes");
    reveal_strlit("rate_limit");
}

proof fn lemma_option_reads_back(
    t: Seq<TokenView>,
    i: int,
    name: Seq<char>,
    value: Option<Seq<char>>,
    attrs: AttrsView,
)
    requires
        stands_at(t, i, written_option(name, value)),
        name == "prepare"@ || name == "max_body_bytes"@ || name == "rate_limit"@,
        name == "prepare"@ ==> attrs.prepare is None,
        name == "max_body_bytes"@ ==> attrs.max_body_bytes is None,
        name == "rate_limit"@ ==> attrs.rate_limit is None,
    ensures
        attrs_at(t, i, attrs) == attrs_at(
            t,
            i + written_option(name, value).len(),
            AttrsView {
                prepare: if name == "prepare"@ {
                    value
                } else {
                    attrs.prepare
                },
                max_body_bytes: if name == "max_body_bytes"@ {
                    value
                } else {
                    attrs.max_body_bytes
                },
                rate_limit: if name == "rate_limit"@ {
                    value
                } else {
                    attrs.rate_limit
                },
                ..attrs
            },
        ),
{
    lemma_option_names();
    if value is Some {
        let part = written_option(name, value);
        assert(t[i + 0] == part[0]);
        assert(t[i + 1] == part[1]);
        assert(t[i + 2] == part[2]);
        assert(t[i + 3] == part[3]);
        assert(past_comma(t, i + 3) == i + 4);
    }
}

/// The options of a controller that are written down are read back as they are.
pub proof fn law_written_attrs_read_back(attrs: AttrsView)
    ensures
        attrs_at(written_attrs(attrs), 0, no_attrs()) == Ok::<AttrsView, DeclErrorView>(attrs),
{
    lemma_option_names();
    let t = written_attrs(attrs);
    let word = match attrs.mode {
        ControllerMode::Strict => "strict"@,
        ControllerMode::Lax => "lax"@,
    };
    let head = seq![TokenView::Word(word), TokenView::Sign(Sign::Comma)];
    let a = written_option("prepare"@, attrs.prepare);
    let b = written_option("max_body_bytes"@, attrs.max_body_bytes);
    let c = written_option("rate_limit"@, attrs.rate_limit);
    assert(stands_at(t, 0, head + a + b + c));
    lemma_stands_in_parts(t, 0, head + a + b, c);
    lemma_stands_in_parts(t, 0, head + a, b);
    lemma_stands_in_parts(t, 0, head, a);
    assert(t[0] == head[0] && t[1] == head[1]);
    assert(past_comma(t, 1) == 2);
    let first = AttrsView { mode: attrs.mode, ..no_attrs() };
    assert(attrs_at(t, 0, no_attrs()) == attrs_at(t, 2, first));
    lemma_option_reads_back(t, 2, "prepare"@, attrs.prepare, first);
    let second = AttrsView { prepare: attrs.prepare, ..first };
    let j = 2 + a.len() as int;
    lemma_option_reads_back(t, j, "max_body_bytes"@, attrs.max_body_bytes, second);
    let third = AttrsView { max_body_bytes: attrs.max_body_bytes, ..second };
    let k = j + b.len();
    lemma_option_reads_back(t, k, "rate_limit"@, attrs.rate_limit, third);
    assert(k + c.len() == t.len());
}

/// What the declaration of a controller is refused for, at the place where it
/// is found: a word in front of a pattern that is no verb, a pattern that is
/// refused, a section in brackets, and an option that does not exist.
pub proof fn law_what_declarations_are_refused_for(
    t: Seq<TokenView>,
    word: Seq<char>,
    pattern: Seq<char>,
)
    requires
        t.len() > 0,
    ensures
        t[0] == TokenView::Open(Delim::Bracket) ==> declared_routes(t) == Err::<
            Seq<RouteDeclView>,
            DeclErrorView,
        >(DeclErrorView { at: 0, fault: FaultView::AccessSection }),
        t.len() > 1 && t[0] == TokenView::Word(word) && t[1] == TokenView::Text(pattern) && (forall|
            v: Verb,
        |
            word != #[trigger] verb_token(v)) ==> declared_routes(t) == Err::<
            Seq<RouteDeclView>,
            DeclErrorView,
        >(DeclErrorView { at: 0, fault: FaultView::UnknownVerb(word) }),
        t[0] == TokenView::Text(pattern) ==> (pattern_fault(pattern) matches Some(text)
            ==> declared_routes(t) == Err::<Seq<RouteDeclView>, DeclErrorView>(
            DeclErrorView { at: 0, fault: FaultView::BadPattern(text) },
        )),
        t[0] == TokenView::Word(word) && word != "strict"@ && word != "lax"@ && word != "prepare"@
            && word != "max_body_bytes"@ && word != "rate_limit"@ ==> attrs_at(t, 0, no_attrs())
            == Err::<AttrsView, DeclErrorView>(
            DeclErrorView { at: 0, fault: FaultView::UnknownOption },
        ),
        t[0] == TokenView::Word(word) && word != "deps"@ && word != "routes"@ ==> declared_app(t)
            == Err::<AppView, DeclErrorView>(
            DeclErrorView { at: 0, fault: FaultView::UnknownBlock(word) },
        ),
        declared_app(Seq::empty()) == Err::<AppView, DeclErrorView>(
            DeclErrorView { at: 0, fault: FaultView::NoRoutes },
        ),
{
    if forall|v: Verb| word != #[trigger] verb_token(v) {
        assert(word != verb_token(Verb::GET) && word != verb_token(Verb::POST) && word
            != verb_token(Verb::PUT) && word != verb_token(Verb::DELETE) && word != verb_token(
            Verb::PATCH,
        ) && word != verb_token(Verb::HEAD) && word != verb_token(Verb::OPTIONS));
        assert(verb_named(word) is None);
    }
}

/// One entry of a list of an application, with a comma behind it.
pub open spec fn written_entry(kind: ListKind, entry: (Seq<char>, Seq<char>)) -> Seq<TokenView> {
    match kind {
        ListKind::Inputs => seq![
            TokenView::Word(entry.0),
            TokenView::Sign(Sign::Colon),
            TokenView::Type(entry.1),
            TokenView::Sign(Sign::Comma),
        ],
        ListKind::Deps => seq![
            TokenView::Word(entry.0),
            TokenView::Sign(Sign::Equals),
            TokenView::Expr(entry.1),
            TokenView::Sign(Sign::Comma),
        ],
        ListKind::Mounts => seq![
            TokenView::Text(entry.0),
            TokenView::Sign(Sign::Arrow),
            TokenView::Expr(entry.1),
            TokenView::Sign(Sign::Comma),
        ],
    }
}

/// The entries of a list of an application.
pub open spec fn written_entries(kind: ListKind, entries: Pairs) -> Seq<TokenView>
    decreases entries.len(),
{
    if entries.len() == 0 {
        Seq::empty()
    } else {
        written_entry(kind, entries[0]) + written_entries(kind, entries.skip(1))
    }
}

/// An application, written down: what is handed in, what is made first, and the
/// controllers by their paths.
pub open spec fn written_app(inputs: Pairs, deps: Pairs, routes: Pairs) -> Seq<TokenView> {
    seq![TokenView::Word("deps"@), TokenView::Open(Delim::Paren)] + written_entries(
        ListKind::Inputs,
        inputs,
    ) + seq![TokenView::Close(Delim::Paren), TokenView::Open(Delim::Brace)] + written_entries(
        ListKind::Deps,
        deps,
    ) + seq![
        TokenView::Close(Delim::Brace),
        TokenView::Word("routes"@),
        TokenView::Open(Delim::Brace),
    ] + written_entries(ListKind::Mounts, routes) + seq![TokenView::Close(Delim::Brace)]
}

proof fn lemma_entries_read_back(
    t: Seq<TokenView>,
    i: int,
    kind: ListKind,
    entries: Pairs,
    done: Pairs,
)
    requires
        stands_at(t, i, written_entries(kind, entries)),
        closes(t, i + written_entries(kind, entries).len(), list_delim(kind)),
    ensures
        entries_at(t, i, kind, done) == Ok::<(Pairs, int), DeclErrorView>(
            (done + entries, i + written_entries(kind, entries).len()),
        ),
    decreases entries.len(),
{
    if entries.len() == 0 {
        assert(done + entries =~= done);
    } else {
        let head = written_entry(kind, entries[0]);
        let rest = entries.skip(1);
        lemma_stands_in_parts(t, i, head, written_entries(kind, rest));
        assert(t[i + 0] == head[0]);
        assert(t[i + 1] == head[1]);
        assert(t[i + 2] == head[2]);
        assert(t[i + 3] == head[3]);
        assert(entry_at(t, i, kind) == Ok::<(Seq<char>, Seq<char>), DeclErrorView>(entries[0]));
        lemma_entries_read_back(t, i + 4, kind, rest, done.push(entries[0]));
        assert(done.push(entries[0]) + rest =~= done + entries);
    }
}

proof fn lemma_list_reads_back(t: Seq<TokenView>, i: int, kind: ListKind, entries: Pairs)
    requires
        has_token(t, i, TokenView::Open(list_delim(kind))),
        stands_at(t, i + 1, written_entries(kind, entries)),
        closes(t, i + 1 + written_entries(kind, entries).len(), list_delim(kind)),
    ensures
        list_at(t, i, kind, Seq::empty()) == Ok::<(Pairs, int), DeclErrorView>(
            (entries, i + 2 + written_entries(kind, entries).len()),
        ),
{
    let none = Seq::<(Seq<char>, Seq<char>)>::empty();
    lemma_entries_read_back(t, i + 1, kind, entries, none);
    assert(none + entries =~= entries);
}

proof fn lemma_app_parts(inputs: Pairs, deps: Pairs, routes: Pairs)
    ensures
        ({
            let t = written_app(inputs, deps, routes);
            let b = written_entries(ListKind::Inputs, inputs);
            let d = written_entries(ListKind::Deps, deps);
            let f = written_entries(ListKind::Mounts, routes);
            let i = 2 + b.len() as int;
            let j = i + 2 + d.len();
            let k = j + 3 + f.len();
            &&& t.len() == k + 1
            &&& t[0] == TokenView::Word("deps"@)
            &&& t[1] == TokenView::Open(Delim::Paren)
            &&& stands_at(t, 2, b)
            &&& t[i] == TokenView::Close(Delim::Paren)
            &&& t[i + 1] == TokenView::Open(Delim::Brace)
            &&& stands_at(t, i + 2, d)
            &&& t[j] == TokenView::Close(Delim::Brace)
            &&& t[j + 1] == TokenView::Word("routes"@)
            &&& t[j + 2] == TokenView::Open(Delim::Brace)
            &&& stands_at(t, j + 3, f)
            &&& t[k] == TokenView::Close(Delim::Brace)
        }),
{
    let t = written_app(inputs, deps, routes);
    let a = seq![TokenView::Word("deps"@), TokenView::Open(Delim::Paren)];
    let b = written_entries(ListKind::Inputs, inputs);
    let c = seq![TokenView::Close(Delim::Paren), TokenView::Open(Delim::Brace)];
    let d = written_entries(ListKind::Deps, deps);
    let e = seq![
        TokenView::Close(Delim::Brace),
        TokenView::Word("routes"@),
        TokenView::Open(Delim::Brace),
    ];
    let f = written_entries(ListKind::Mounts, routes);
    let g = seq![TokenView::Close(Delim::Brace)];
    assert(stands_at(t, 0, a + b + c + d + e + f + g));
    lemma_stands_in_parts(t, 0, a + b + c + d + e + f, g);
    lemma_stands_in_parts(t, 0, a + b + c + d + e, f);
    lemma_stands_in_parts(t, 0, a + b + c + d, e);
    lemma_stands_in_parts(t, 0, a + b + c, d);
    lemma_stands_in_parts(t, 0, a + b, c);
    lemma_stands_in_parts(t, 0, a, b);
    assert(t[0int + 0] == a[0] && t[0int + 1] == a[1]);
    let i = 2 + b.len() as int;
    assert(t[i + 0] == c[0] && t[i + 1] == c[1]);
    let j = i + 2 + d.len();
    assert(t[j + 0] == e[0] && t[j + 1] == e[1] && t[j + 2] == e[2]);
    let k = j + 3 + f.len();
    assert(t[k + 0] == g[0]);
}

/// An application that is written down is read back as it is: what is handed
/// in, what is made first and the controllers, each in order.
pub proof fn law_written_apps_read_back(inputs: Pairs, deps: Pairs, routes: Pairs)
    ensures
        declared_app(written_app(inputs, deps, routes)) == Ok::<AppView, DeclErrorView>(
            AppView { inputs, deps, routes: Some(routes) },
        ),
{
    let t = written_app(inputs, deps, routes);
    let i = 2 + written_entries(ListKind::Inputs, inputs).len() as int;
    let j = i + 2 + written_entries(ListKind::Deps, deps).len();
    let k = j + 3 + written_entries(ListKind::Mounts, routes).len();
    let first = AppView { inputs, deps, routes: None };
    let second = AppView { inputs, deps, routes: Some(routes) };
    assert("deps"@ != "routes"@) by {
        reveal_strlit("deps");
        reveal_strlit("routes");
        assert("deps"@.len() != "routes"@.len());
    }
    lemma_app_parts(inputs, deps, routes);
    assert(block_at(t, 0, no_app()) == Ok::<(AppView, int), DeclErrorView>((first, j + 1))) by {
        lemma_list_reads_back(t, 1, ListKind::Inputs, inputs);
        lemma_list_reads_back(t, i + 1, ListKind::Deps, deps);
    }
    assert(block_at(t, j + 1, first) == Ok::<(AppView, int), DeclErrorView>((second, k + 1))) by {
        lemma_list_reads_back(t, j + 2, ListKind::Mounts, routes);
    }
    assert(blocks_at(t, k + 1, second) == Ok::<AppView, DeclErrorView>(second));
    assert(blocks_at(t, j + 1, first) == Ok::<AppView, DeclErrorView>(second));
}

/// What is said of a fault tells what was found and what can stand there: an
/// unknown verb and the seven that there are, an unknown option and the five,
/// an unknown block and the two; and for a missing token, which one it is.
pub proof fn law_faults_are_told(word: Seq<char>, text: Seq<char>)
    ensures
        fault_text(FaultView::UnknownVerb(word)) == "Unknown HTTP verb: "@ + word
            + ". Expected GET, POST, PUT, DELETE, PATCH, HEAD, or OPTIONS"@,
        fault_text(FaultView::UnknownBlock(word)) == "expected 'deps' or 'routes', got '"@ + word
            + "'"@,
        fault_text(FaultView::BadPattern(text)) == text,
        fault_text(FaultView::UnknownOption)
            == "Expected 'strict', 'lax', 'prepare = <fn>', 'max_body_bytes = <expr>', or 'rate_limit = <expr>'"@,
        fault_text(FaultView::NoRoutes) == "app_routes! requires a 'routes { ... }' block"@,
        fault_text(FaultView::Expected(Wanted::Word)) == "expected identifier"@,
        fault_text(FaultView::Expected(Wanted::Text)) == "expected string literal"@,
        fault_text(FaultView::Expected(Wanted::Type)) == "expected type"@,
        fault_text(FaultView::Expected(Wanted::Expr)) == "expected expression"@,
        fault_text(FaultView::Expected(Wanted::Sign(Sign::Arrow))) == "expected `=>`"@,
        fault_text(FaultView::Expected(Wanted::Sign(Sign::Colon))) == "expected `:`"@,
        fault_text(FaultView::Expected(Wanted::Sign(Sign::Equals))) == "expected `=`"@,
        fault_text(FaultView::Expected(Wanted::Sign(Sign::Comma))) == "expected `,`"@,
        fault_text(FaultView::Expected(Wanted::Open(Delim::Paren))) == "expected parentheses"@,
        fault_text(FaultView::Expected(Wanted::Open(Delim::Bracket)))
            == "expected square brackets"@,
        fault_text(FaultView::Expected(Wanted::Open(Delim::Brace))) == "expected curly braces"@,
        fault_text(FaultView::Expected(Wanted::Close(Delim::Paren))) == "expected `)`"@,
        fault_text(FaultView::Expected(Wanted::Close(Delim::Bracket))) == "expected `]`"@,
        fault_text(FaultView::Expected(Wanted::Close(Delim::Brace))) == "expected `}`"@,
        contains_text(fault_text(FaultView::AccessSection), "[Access::*]"@),
{
    let said = fault_text(FaultView::AccessSection);
    let name = "[Access::*]"@;
    reveal_strlit(
        "actus no longer ships an `Access` enum or `[Access::*]` section syntax. Authorization belongs in your `#[controller(prepare = …)]` hook, where you can call into your own policy layer (e.g. `services::policy::*`).",
    );
    reveal_strlit("[Access::*]");
    assert(said.subrange(43, 54) =~= name);
    crate::text::law_texts_between_texts(said.take(43), name, said.skip(54));
    assert(said.take(43) + name + said.skip(54) =~= said);
}

/// The parts of a route come in their order, and where one is missing that is
/// told, at the place where it should stand: behind a pattern an arrow, behind
/// that the name of the handler, and behind that its parameters in parentheses,
/// each of them a name, a colon and a type.
pub proof fn law_missing_parts_are_told(t: Seq<TokenView>, pattern: Seq<char>)
    requires
        t.len() > 0,
    ensures
        ({
            let told = |at: int, wanted: Wanted|
                declared_routes(t) == Err::<Seq<RouteDeclView>, DeclErrorView>(
                    DeclErrorView { at, fault: FaultView::Expected(wanted) },
                );
            let arrow = t.len() > 1 && t[1] == TokenView::Sign(Sign::Arrow);
            let handler = arrow && t.len() > 2 && t[2] is Word;
            let paren = handler && t.len() > 3 && t[3] == TokenView::Open(Delim::Paren);
            let name = paren && t.len() > 4 && t[4] is Word;
            let colon = name && t.len() > 5 && t[5] == TokenView::Sign(Sign::Colon);
            let ty = colon && t.len() > 6 && t[6] is Type;
            let equals = ty && t.len() > 7 && t[7] == TokenView::Sign(Sign::Equals);
            &&& !(t[0] is Text) && !(t[0] is Word) && t[0] != TokenView::Open(Delim::Bracket)
                ==> told(0, Wanted::Text)
            &&& t[0] == TokenView::Text(pattern) && pattern_fault(pattern) is None ==> {
                &&& !arrow ==> told(1, Wanted::Sign(Sign::Arrow))
                &&& arrow && !handler ==> told(2, Wanted::Word)
                &&& handler && !paren ==> told(3, Wanted::Open(Delim::Paren))
                &&& paren && !name && !(t.len() > 4 && t[4] == TokenView::Close(Delim::Paren))
                    ==> told(4, Wanted::Word)
                &&& name && !colon ==> told(5, Wanted::Sign(Sign::Colon))
                &&& colon && !ty ==> told(6, Wanted::Type)
                &&& ty && !equals && !(t.len() > 7 && (t[7] == TokenView::Close(Delim::Paren)
                    || t[7] == TokenView::Sign(Sign::Comma))) ==> told(7, Wanted::Sign(Sign::Comma))
                &&& equals && !(t.len() > 8 && t[8] is Expr) ==> told(8, Wanted::Expr)
            }
        }),
{
}

} // verus!
