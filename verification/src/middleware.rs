//! The order in which hooks run around a handler.

use crate::error::WebError;
use crate::reply::ReplyData;
use crate::request::Request;
use crate::text::join;
use crate::text::join_strings;
use crate::text::push_text;
use vstd::prelude::*;

verus! {

/// What a hook that runs before the handler decides.
#[derive(Debug)]
pub enum Outcome<S, U> {
    /// Go on with the next hook, and in the end with the handler.
    Continue,
    /// Answer with this reply; the hooks that are left and the handler are
    /// skipped.
    Respond(ReplyData<S, U>),
}

/// Middleware that reports every request and lets it pass.
#[derive(Clone, Copy, Debug)]
pub struct RequestLogger;

impl RequestLogger {
    /// The path that is reported for a request.
    pub fn reported_path(&self, request: &Request) -> (r: String)
        ensures
            r@ == "/"@ + join(request@.path_parts, "/"@),
    {
        let mut out = "/".to_owned();
        push_text(&mut out, &join_strings(&request.path_parts, "/"));
        out
    }
}

/// A chain of middleware, each known by a handle.
pub struct MiddlewareChain<M> {
    middlewares: Vec<M>,
}

impl<M> View for MiddlewareChain<M> {
    type V = Seq<M>;

    closed spec fn view(&self) -> Seq<M> {
        self.middlewares@
    }
}

impl<M> Default for MiddlewareChain<M> {
    fn default() -> (r: Self)
        ensures
            r@ == Seq::<M>::empty(),
    {
        Self::new()
    }
}

/// What is to be done next on the way in.
#[derive(Debug)]
pub enum BeforeStep<S, U> {
    /// Run the `before` hook of the middleware at this position.
    Run(usize),
    /// The hooks are through, with this outcome.
    Finished(Result<Outcome<S, U>, WebError>),
}

/// What is to be done next on the way out.
#[derive(Debug)]
pub enum AfterStep {
    /// Run the `after` hook of the middleware at this position.
    Run(usize),
    /// The hooks are through, with this outcome.
    Finished(Result<(), WebError>),
}

/// What is to be done on the way in when `done` of `n` hooks were run and the
/// last of them came to `last`: the first hook that answers or fails ends it,
/// and otherwise the hooks run in the order in which they were added.
pub open spec fn before_step<S, U>(
    n: nat,
    done: nat,
    last: Option<Result<Outcome<S, U>, WebError>>,
) -> BeforeStep<S, U> {
    match last {
        Some(Err(e)) => BeforeStep::Finished(Err(e)),
        Some(Ok(Outcome::Respond(d))) => BeforeStep::Finished(Ok(Outcome::Respond(d))),
        _ => if done < n {
            BeforeStep::Run(done as usize)
        } else {
            BeforeStep::Finished(Ok(Outcome::Continue))
        },
    }
}

/// What is to be done on the way out when `done` of `n` hooks were run and the
/// last of them came to `last`: the first hook that fails ends it, and
/// otherwise the hooks run in the reverse order.
pub open spec fn after_step(n: nat, done: nat, last: Option<Result<(), WebError>>) -> AfterStep {
    match last {
        Some(Err(e)) => AfterStep::Finished(Err(e)),
        _ => if done < n {
            AfterStep::Run((n - 1 - done) as usize)
        } else {
            AfterStep::Finished(Ok(()))
        },
    }
}

impl<M> MiddlewareChain<M> {
    /// A chain without middleware.
    pub fn new() -> (r: Self)
        ensures
            r@ == Seq::<M>::empty(),
    {
        MiddlewareChain { middlewares: Vec::new() }
    }

    /// Appends a middleware.
    pub fn add(&mut self, middleware: M)
        ensures
            final(self)@ == old(self)@.push(middleware),
    {
        self.middlewares.push(middleware);
    }

    /// How many middlewares the chain holds.
    pub fn len(&self) -> (r: usize)
        ensures
            r == self@.len(),
    {
        self.middlewares.len()
    }

    /// The middleware at a position.
    pub fn get(&self, i: usize) -> (r: &M)
        requires
            i < self@.len(),
        ensures
            *r == self@[i as int],
    {
        &self.middlewares[i]
    }

    /// What is to be done next on the way in, when `done` hooks were run and
    /// the last came to `last`.
    pub fn process_request<S, U>(&self, done: usize, last: Option<Result<Outcome<S, U>, WebError>>)
        -> (r: BeforeStep<S, U>)
        ensures
            r == before_step(self@.len(), done as nat, last),
    {
        match last {
            Some(Err(e)) => BeforeStep::Finished(Err(e)),
            Some(Ok(Outcome::Respond(d))) => BeforeStep::Finished(Ok(Outcome::Respond(d))),
            _ => if done < self.middlewares.len() {
                BeforeStep::Run(done)
            } else {
                BeforeStep::Finished(Ok(Outcome::Continue))
            },
        }
    }

    /// What is to be done next on the way out, when `done` hooks were run and
    /// the last came to `last`.
    pub fn process_response(&self, done: usize, last: Option<Result<(), WebError>>) -> (r: AfterStep)
        ensures
            r == after_step(self@.len(), done as nat, last),
    {
        match last {
            Some(Err(e)) => AfterStep::Finished(Err(e)),
            _ => if done < self.middlewares.len() {
                AfterStep::Run(self.middlewares.len() - 1 - done)
            } else {
                AfterStep::Finished(Ok(()))
            },
        }
    }
}

/// A middleware wraps those that were added after it: as long as every hook
/// goes on, the hook that runs as number `i` on the way in runs as number
/// `n - 1 - i` on the way out.
pub proof fn law_middleware_wraps<S, U>(n: nat, i: nat)
    requires
        i < n <= usize::MAX,
    ensures
        before_step::<S, U>(n, i, None) == BeforeStep::<S, U>::Run(i as usize),
        before_step::<S, U>(n, i, Some(Ok(Outcome::Continue))) == BeforeStep::<S, U>::Run(
            i as usize,
        ),
        after_step(n, (n - 1 - i) as nat, None) == AfterStep::Run(i as usize),
        after_step(n, (n - 1 - i) as nat, Some(Ok(()))) == AfterStep::Run(i as usize),
{
}

/// Every hook runs where none ends the chain: the chain goes on as long as one
/// is left, and is through when none is.
pub proof fn law_every_hook_runs<S, U>(n: nat, done: nat)
    requires
        n <= usize::MAX,
    ensures
        before_step::<S, U>(n, done, Some(Ok(Outcome::Continue))) is Run <==> done < n,
        after_step(n, done, Some(Ok(()))) is Run <==> done < n,
        done >= n ==> before_step::<S, U>(n, done, Some(Ok(Outcome::Continue)))
            == BeforeStep::<S, U>::Finished(Ok(Outcome::Continue)),
        done >= n ==> after_step(n, done, Some(Ok(()))) == AfterStep::Finished(Ok(())),
{
}

/// The first hook that answers or fails ends the chain, with its answer or its
/// error and no other, however many hooks are left.
pub proof fn law_a_hook_ends_the_chain<S, U>(n: nat, done: nat, e: WebError, d: ReplyData<S, U>)
    ensures
        before_step::<S, U>(n, done, Some(Err(e))) == BeforeStep::<S, U>::Finished(Err(e)),
        before_step::<S, U>(n, done, Some(Ok(Outcome::Respond(d)))) == BeforeStep::<
            S,
            U,
        >::Finished(Ok(Outcome::Respond(d))),
        after_step(n, done, Some(Err(e))) == AfterStep::Finished(Err(e)),
{
}

} // verus!
