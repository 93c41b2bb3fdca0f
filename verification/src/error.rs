//! The errors that a handler, a hook or a middleware answers a request with.

use crate::json::json_members;
use crate::json::map_insert;
use crate::json::map_new;
use crate::json::JsonTree;
use crate::status::StatusCode;
use crate::text::push_text;
use crate::text::str_views;
use std::time::Duration;
use vstd::prelude::*;

verus! {

/// A problem document: a status, a short title, a longer explanation where
/// there is one, and any further members.
#[derive(Debug, Clone)]
pub struct ProblemDetails {
    /// The status code, the `status` member.
    pub status: StatusCode,
    /// A short summary, the `title` member.
    pub title: String,
    /// A longer explanation, the `detail` member.
    pub detail: Option<String>,
    /// Further members. Those named like a standard member are left out of
    /// the document.
    pub extra: Box<serde_json::Map<String, serde_json::Value>>,
}

/// What a problem document says.
pub struct ProblemView {
    pub status: int,
    pub title: Seq<char>,
    pub detail: Option<Seq<char>>,
    pub extra: Map<Seq<char>, JsonTree>,
}

/// The text of an optional string.
pub open spec fn text_option(s: Option<String>) -> Option<Seq<char>> {
    match s {
        Some(s) => Some(s@),
        None => None,
    }
}

impl View for ProblemDetails {
    type V = ProblemView;

    open spec fn view(&self) -> ProblemView {
        ProblemView {
            status: self.status@,
            title: self.title@,
            detail: text_option(self.detail),
            extra: json_members(*self.extra),
        }
    }
}

impl ProblemDetails {
    /// A problem with a status and a title, and nothing else.
    pub fn new(status: StatusCode, title: &str) -> (r: Self)
        ensures
            r@ == (ProblemView {
                status: status@,
                title: title@,
                detail: None,
                extra: Map::empty(),
            }),
    {
        ProblemDetails {
            status,
            title: title.to_owned(),
            detail: None,
            extra: Box::new(map_new()),
        }
    }

    /// Sets the explanation.
    pub fn detail(self, detail: &str) -> (r: Self)
        ensures
            r@ == (ProblemView { detail: Some(detail@), ..self@ }),
    {
        ProblemDetails {
            status: self.status,
            title: self.title,
            detail: Some(detail.to_owned()),
            extra: self.extra,
        }
    }

    /// Sets a further member.
    pub fn extra(self, key: &str, value: serde_json::Value) -> (r: Self)
        ensures
            r@ == (ProblemView {
                extra: self@.extra.insert(key@, crate::json::json_tree(value)),
                ..self@
            }),
    {
        let mut members = *self.extra;
        map_insert(&mut members, key.to_owned(), value);
        ProblemDetails {
            status: self.status,
            title: self.title,
            detail: self.detail,
            extra: Box::new(members),
        }
    }

    /// The title, and behind a colon the explanation where there is one.
    pub fn summary(&self) -> (r: String)
        ensures
            r@ == match self@.detail {
                Some(d) => self@.title + ": "@ + d,
                None => self@.title,
            },
    {
        let mut out = self.title.clone();
        if let Some(d) = &self.detail {
            push_text(&mut out, ": ");
            push_text(&mut out, d.as_str());
        }
        out
    }
}

/// An error that answers a request. Each variant has the status that its
/// comment names.
#[derive(Debug)]
pub enum WebError {
    /// `404 Not Found`.
    NotFound,
    /// `405 Method Not Allowed`, with the methods that the resource takes.
    MethodNotAllowed(Vec<&'static str>),
    /// `400 Bad Request`, with the reason.
    BadRequest(String),
    /// `413 Payload Too Large`.
    PayloadTooLarge,
    /// `429 Too Many Requests`, with how long to wait where that is known.
    TooManyRequests(Option<Duration>),
    /// `504 Gateway Timeout`.
    Timeout,
    /// `503 Service Unavailable`, with how long to wait where that is known.
    Busy(Option<Duration>),
    /// `401 Unauthorized`.
    Unauthorized,
    /// `403 Forbidden`.
    Forbidden,
    /// `500 Internal Server Error`, with the reason.
    Internal(String),
    /// A problem document with a status of its own.
    Problem(ProblemDetails),
}

/// What an error says.
pub enum ErrorView {
    NotFound,
    MethodNotAllowed(Seq<Seq<char>>),
    BadRequest(Seq<char>),
    PayloadTooLarge,
    TooManyRequests(Option<Duration>),
    Timeout,
    Busy(Option<Duration>),
    Unauthorized,
    Forbidden,
    Internal(Seq<char>),
    Problem(ProblemView),
}

impl View for WebError {
    type V = ErrorView;

    open spec fn view(&self) -> ErrorView {
        match *self {
            WebError::NotFound => ErrorView::NotFound,
            WebError::MethodNotAllowed(m) => ErrorView::MethodNotAllowed(str_views(m@)),
            WebError::BadRequest(s) => ErrorView::BadRequest(s@),
            WebError::PayloadTooLarge => ErrorView::PayloadTooLarge,
            WebError::TooManyRequests(d) => ErrorView::TooManyRequests(d),
            WebError::Timeout => ErrorView::Timeout,
            WebError::Busy(d) => ErrorView::Busy(d),
            WebError::Unauthorized => ErrorView::Unauthorized,
            WebError::Forbidden => ErrorView::Forbidden,
            WebError::Internal(s) => ErrorView::Internal(s@),
            WebError::Problem(p) => ErrorView::Problem(p@),
        }
    }
}

/// A `400` whose reason is `prefix` followed by `name`.
pub fn bad_request(prefix: &str, name: &str) -> (r: WebError)
    ensures
        r@ == ErrorView::BadRequest(prefix@ + name@),
{
    let mut text = prefix.to_owned();
    push_text(&mut text, name);
    WebError::BadRequest(text)
}

} // verus!
