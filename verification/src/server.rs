//! The server: its settings, and the way of a request through it. Each step of
//! the way says what is to be done outside (read the body, run a hook, call
//! the controller, send the response); what came of it leads to the next step.

use crate::compression::gzip_encoded;
use crate::compression::is_textual;
use crate::compression::media_type;
use crate::compression::negotiated;
use crate::compression::payload_compressed;
use crate::compression::read_as;
use crate::compression::reply_compressed;
use crate::compression::tag_vary_if_encoded;
use crate::compression::vary_tagged;
use crate::compression::CompressionLayer;
use crate::compression::CompressionView;
use crate::compression::Encoding;
use crate::cors::preflight;
use crate::cors::preflight_pairs;
use crate::cors::put_on;
use crate::cors::response_pairs;
use crate::cors::CorsLayer;
use crate::cors::CorsView;
use crate::durations::duration_nanos;
use crate::error::ErrorView;
use crate::error::ProblemDetails;
use crate::error::ProblemView;
use crate::error::WebError;
use crate::finalizer::answers;
use crate::finalizer::error_reply;
use crate::finalizer::sendable;
use crate::finalizer::utf8;
use crate::finalizer::BodyView;
use crate::finalizer::Finalizer;
use crate::finalizer::ResponseParts;
use crate::finalizer::ResponseView;
use crate::headers::first_text;
use crate::headers::has_room;
use crate::headers::header_contents;
use crate::headers::header_text;
use crate::headers::is_header_value;
use crate::headers::no_headers;
use crate::headers::Contents;
use crate::middleware::AfterStep;
use crate::middleware::BeforeStep;
use crate::middleware::MiddlewareChain;
use crate::middleware::Outcome;
use crate::params::Params;
use crate::reply::payload_of;
use crate::reply::Reply;
use crate::reply::ReplyData;
use crate::reply::ReplyView;
use crate::request::body_parsed;
use crate::request::is_read_error;
use crate::request::params_of;
use crate::request::request_type;
use crate::request::BodyRead;
use crate::request::Request;
use crate::request::RequestView;
use crate::router::routed;
use crate::router::Mounted;
use crate::router::Path;
use crate::router::RouteMatch;
use crate::router::Router;
use crate::status::StatusCode;
use crate::text::lower;
use crate::websocket::accept_key;
use crate::websocket::asks_for_upgrade;
use crate::websocket::complete_upgrade;
use crate::websocket::is_upgrade_request;
use crate::websocket::key_answer;
use crate::websocket::switching;
use std::time::Duration;
use vstd::prelude::*;

verus! {

/// One kibibyte.
pub const KIB: usize = 1024;

/// One mebibyte.
pub const MIB: usize = 1024 * KIB;

/// One gibibyte.
pub const GIB: usize = 1024 * MIB;

/// The largest body that is read where nothing else is said.
pub const DEFAULT_MAX_BODY_BYTES: usize = 2 * MIB;

/// How long open connections may go on after the server was told to stop,
/// where nothing else is said.
pub fn default_drain_deadline() -> (r: Duration)
    ensures
        duration_nanos(r) == 30_000_000_000,
{
    Duration::from_secs(30)
}

/// A server: a router of controllers, a chain of middleware, and settings.
pub struct Server<C, M> {
    router: Router<C>,
    middleware_chain: MiddlewareChain<M>,
    max_body_bytes: usize,
    cors: Option<CorsLayer>,
    compression: Option<CompressionLayer>,
    request_timeout: Option<Duration>,
    drain_deadline: Duration,
    max_connections: Option<usize>,
    max_inflight_body_bytes: Option<usize>,
    header_read_timeout: Option<Duration>,
}

/// What a server is set to.
pub struct ServerView<C, M> {
    pub router: Map<Path, Mounted<C>>,
    pub chain: Seq<M>,
    pub max_body_bytes: usize,
    pub cors: Option<CorsView>,
    pub compression: Option<CompressionView>,
    pub request_timeout: Option<Duration>,
    pub drain_deadline: Duration,
    pub max_connections: Option<usize>,
    pub max_inflight_body_bytes: Option<usize>,
    pub header_read_timeout: Option<Duration>,
}

impl<C, M> View for Server<C, M> {
    type V = ServerView<C, M>;

    closed spec fn view(&self) -> ServerView<C, M> {
        ServerView {
            router: self.router@,
            chain: self.middleware_chain@,
            max_body_bytes: self.max_body_bytes,
            cors: match self.cors {
                Some(c) => Some(c@),
                None => None,
            },
            compression: match self.compression {
                Some(c) => Some(c@),
                None => None,
            },
            request_timeout: self.request_timeout,
            drain_deadline: self.drain_deadline,
            max_connections: self.max_connections,
            max_inflight_body_bytes: self.max_inflight_body_bytes,
            header_read_timeout: self.header_read_timeout,
        }
    }
}

impl<C, M> Server<C, M> {
    /// A server for a router: no middleware, no policy for other origins, no
    /// compression, and no limits but the default ones.
    pub fn new(router: Router<C>) -> (r: Self)
        ensures
            r@.router == router@,
            r@.chain == Seq::<M>::empty(),
            r@.max_body_bytes == DEFAULT_MAX_BODY_BYTES,
            r@.cors is None,
            r@.compression is None,
            r@.request_timeout is None,
            duration_nanos(r@.drain_deadline) == 30_000_000_000,
            r@.max_connections is None,
            r@.max_inflight_body_bytes is None,
            r@.header_read_timeout is None,
    {
        Server {
            router,
            middleware_chain: MiddlewareChain::new(),
            max_body_bytes: DEFAULT_MAX_BODY_BYTES,
            cors: None,
            compression: None,
            request_timeout: None,
            drain_deadline: default_drain_deadline(),
            max_connections: None,
            max_inflight_body_bytes: None,
            header_read_timeout: None,
        }
    }

    /// Appends a middleware.
    pub fn with_middleware(self, middleware: M) -> (r: Self)
        ensures
            r@ == (ServerView { chain: self@.chain.push(middleware), ..self@ }),
    {
        let mut s = self;
        s.middleware_chain.add(middleware);
        s
    }

    /// Sets the policy for other origins.
    pub fn with_cors(self, cors: CorsLayer) -> (r: Self)
        ensures
            r@ == (ServerView { cors: Some(cors@), ..self@ }),
    {
        let mut s = self;
        s.cors = Some(cors);
        s
    }

    /// Sets the policy of compression.
    pub fn with_compression(self, layer: CompressionLayer) -> (r: Self)
        ensures
            r@ == (ServerView { compression: Some(layer@), ..self@ }),
    {
        let mut s = self;
        s.compression = Some(layer);
        s
    }

    /// Sets the largest body that is read, in bytes.
    pub fn with_max_body_bytes(self, max: usize) -> (r: Self)
        ensures
            r@ == (ServerView { max_body_bytes: max, ..self@ }),
    {
        let mut s = self;
        s.max_body_bytes = max;
        s
    }

    /// Sets how long one request may take.
    pub fn with_request_timeout(self, d: Duration) -> (r: Self)
        ensures
            r@ == (ServerView { request_timeout: Some(d), ..self@ }),
    {
        let mut s = self;
        s.request_timeout = Some(d);
        s
    }

    /// Sets how long open connections may go on after the server was told to
    /// stop.
    pub fn with_drain_deadline(self, d: Duration) -> (r: Self)
        ensures
            r@ == (ServerView { drain_deadline: d, ..self@ }),
    {
        let mut s = self;
        s.drain_deadline = d;
        s
    }

    /// Sets how many connections may be open at once.
    pub fn with_max_connections(self, n: usize) -> (r: Self)
        ensures
            r@ == (ServerView { max_connections: Some(n), ..self@ }),
    {
        let mut s = self;
        s.max_connections = Some(n);
        s
    }

    /// Sets how many bytes of bodies may be held at once. A number beyond 32
    /// bits counts as the largest of 32 bits.
    pub fn with_max_inflight_body_bytes(self, n: usize) -> (r: Self)
        ensures
            r@ == (ServerView {
                max_inflight_body_bytes: Some(
                    if n <= u32::MAX {
                        n
                    } else {
                        u32::MAX as usize
                    },
                ),
                ..self@
            }),
    {
        let capped: usize = if n <= u32::MAX as usize {
            n
        } else {
            u32::MAX as usize
        };
        let mut s = self;
        s.max_inflight_body_bytes = Some(capped);
        s
    }

    /// Sets how long the headers of a request may take to arrive.
    pub fn with_header_read_timeout(self, d: Duration) -> (r: Self)
        ensures
            r@ == (ServerView { header_read_timeout: Some(d), ..self@ }),
    {
        let mut s = self;
        s.header_read_timeout = Some(d);
        s
    }

    /// How long one request may take.
    pub fn request_timeout(&self) -> (r: Option<Duration>)
        ensures
            r == self@.request_timeout,
    {
        self.request_timeout
    }

    /// How long open connections may go on after the server was told to stop.
    pub fn drain_deadline(&self) -> (r: Duration)
        ensures
            r == self@.drain_deadline,
    {
        self.drain_deadline
    }

    /// How many connections may be open at once.
    pub fn max_connections(&self) -> (r: Option<usize>)
        ensures
            r == self@.max_connections,
    {
        self.max_connections
    }

    /// How many bytes of bodies may be held at once.
    pub fn max_inflight_body_bytes(&self) -> (r: Option<usize>)
        ensures
            r == self@.max_inflight_body_bytes,
    {
        self.max_inflight_body_bytes
    }

    /// How long the headers of a request may take to arrive.
    pub fn header_read_timeout(&self) -> (r: Option<Duration>)
        ensures
            r == self@.header_read_timeout,
    {
        self.header_read_timeout
    }

    /// How many middleware there are.
    pub fn middleware_len(&self) -> (r: usize)
        ensures
            r == self@.chain.len(),
    {
        self.middleware_chain.len()
    }

    /// The middleware at a position of the chain.
    pub fn middleware(&self, i: usize) -> (r: &M)
        requires
            i < self@.chain.len(),
        ensures
            *r == self@.chain[i as int],
    {
        self.middleware_chain.get(i)
    }
}

// ---------------------------------------------------------------------------
// The way of a request
// ---------------------------------------------------------------------------

/// The answer to the key of a WebSocket handshake, ready for a header.
#[derive(Debug)]
pub struct Handshake {
    accept: Vec<u8>,
}

impl View for Handshake {
    type V = Seq<u8>;

    closed spec fn view(&self) -> Seq<u8> {
        self.accept@
    }
}

impl Handshake {
    #[verifier::type_invariant]
    spec fn fits_a_header(self) -> bool {
        is_header_value(self.accept@)
    }
}

/// A request on its way, and the handshake where it asks for a change of
/// protocol.
#[derive(Debug)]
pub struct Exchange {
    /// The request.
    pub request: Request,
    /// The handshake that was found in the request as it arrived.
    pub handshake: Option<Handshake>,
}

/// What a request on its way holds.
pub struct ExchangeView {
    pub request: RequestView,
    pub handshake: Option<Seq<u8>>,
}

/// The bytes of a handshake.
pub open spec fn handshake_option(h: Option<Handshake>) -> Option<Seq<u8>> {
    match h {
        Some(h) => Some(h@),
        None => None,
    }
}

impl View for Exchange {
    type V = ExchangeView;

    open spec fn view(&self) -> ExchangeView {
        ExchangeView { request: self.request@, handshake: handshake_option(self.handshake) }
    }
}

/// What is to be done next for a request.
pub enum Step<'a, C, S, U> {
    /// Read the body, up to a cap.
    ReadBody {
        /// The request.
        exchange: Exchange,
        /// The controller that it reached.
        target: RouteMatch<'a, C>,
        /// The most bytes that the body may have.
        cap: usize,
    },
    /// Run the `before` hook of the middleware at a position.
    Before {
        /// The request.
        exchange: Exchange,
        /// The controller that it reached.
        target: RouteMatch<'a, C>,
        /// The position.
        at: usize,
    },
    /// Call the controller.
    Dispatch {
        /// The request.
        exchange: Exchange,
        /// The controller, and the path that is left for it.
        target: RouteMatch<'a, C>,
        /// The parameters.
        params: Params,
    },
    /// Run the `after` hook of the middleware at a position.
    After {
        /// The request.
        exchange: Exchange,
        /// The reply.
        data: ReplyData<S, U>,
        /// The position.
        at: usize,
        /// How many `after` hooks were run.
        done: usize,
    },
    /// Send the response, and hand the connection over.
    Switch {
        /// The response.
        response: ResponseParts<S>,
        /// What takes the connection over.
        task: U,
    },
    /// Send the response.
    Send(ResponseParts<S>),
}

/// The answer to the handshake of a request, where it asks for one.
pub open spec fn handshake_of(request: RequestView) -> Option<Seq<u8>> {
    if asks_for_upgrade(request.method, request.headers) {
        key_answer(request.headers)
    } else {
        None
    }
}

/// The error where a handler wants to change the protocol and the request does
/// not ask for it.
pub open spec fn upgrade_required() -> ErrorView {
    ErrorView::Problem(
        ProblemView {
            status: 426,
            title: "WebSocket Upgrade Required"@,
            detail: Some("this endpoint expects a WebSocket handshake"@),
            extra: Map::empty(),
        },
    )
}

/// The headers of a response with those of the policy for other origins.
pub open spec fn with_cors_view(
    cors: Option<CorsView>,
    request: Contents,
    headers: Contents,
) -> Contents {
    match cors {
        Some(c) => put_on(headers, response_pairs(c, request)),
        None => headers,
    }
}

/// Whether a reply is what compression makes of another.
pub open spec fn maybe_compressed<S, U>(
    compression: Option<CompressionView>,
    request: Contents,
    data: ReplyView<S, U>,
    r: ReplyView<S, U>,
) -> bool {
    match compression {
        Some(c) => reply_compressed(
            data,
            negotiated(first_text(request, "accept-encoding"@), c.prefer_brotli),
            c,
            r,
        ),
        None => r == data,
    }
}

/// Whether a response is a built one under the headers of the server.
pub open spec fn dressed<S>(
    cors: Option<CorsView>,
    request: Contents,
    built: ResponseView<S>,
    r: ResponseView<S>,
) -> bool {
    r == (ResponseView::<S> {
        headers: vary_tagged(with_cors_view(cors, request, built.headers)),
        ..built
    })
}

/// Whether a response is the one that is sent for a reply: compressed, built,
/// and with the headers of the policies.
pub open spec fn sent<C, M, S, U>(
    server: ServerView<C, M>,
    data: ReplyView<S, U>,
    request: Contents,
    r: ResponseView<S>,
) -> bool {
    exists|packed: ReplyView<S, U>, built: ResponseView<S>|
        {
            &&& #[trigger] maybe_compressed(server.compression, request, data, packed)
            &&& answers(packed, built)
            &&& #[trigger] dressed(server.cors, request, built, r)
        }
}

/// Whether a response is the one to an error on which no hook runs: an error of
/// the hooks on the way out, or a request that took too long. It is sent plain,
/// with the headers of the policy for other origins.
pub open spec fn failed<C, M, S, U>(
    server: ServerView<C, M>,
    e: ErrorView,
    request: Contents,
    r: ResponseView<S>,
) -> bool {
    exists|built: ResponseView<S>|
        {
            &&& #[trigger] answers(error_reply::<S, U>(e), built)
            &&& r == (ResponseView::<S> {
                headers: with_cors_view(server.cors, request, built.headers),
                ..built
            })
        }
}

/// Whether a step delivers a reply: the change of protocol, or the response.
pub open spec fn delivers<C, M, S, U>(
    server: ServerView<C, M>,
    data: ReplyView<S, U>,
    ex: ExchangeView,
    step: Step<'_, C, S, U>,
) -> bool {
    match data {
        ReplyView::Upgrade(u) => step matches Step::Switch { response, task } && task == u
            && ex.handshake is Some && response@ == switching::<S>(ex.handshake->0),
        _ => step matches Step::Send(response) && sent(
            server,
            data,
            ex.request.headers,
            response@,
        ),
    }
}

/// The reply that is worked with: a change of protocol without a handshake
/// becomes an error.
pub open spec fn checked_reply<S, U>(data: ReplyView<S, U>, handshake: Option<Seq<u8>>) -> ReplyView<
    S,
    U,
> {
    if data is Upgrade && handshake is None {
        error_reply(upgrade_required())
    } else {
        data
    }
}

/// Whether a step takes up a reply: the hooks on the way out, where there are
/// any and the protocol is not changed; or the delivery.
pub open spec fn takes_up<C, M, S, U>(
    server: ServerView<C, M>,
    data: ReplyView<S, U>,
    ex: ExchangeView,
    step: Step<'_, C, S, U>,
) -> bool {
    let reply = checked_reply(data, ex.handshake);
    if reply is Upgrade || server.chain.len() == 0 {
        delivers(server, reply, ex, step)
    } else {
        step matches Step::After { exchange, data: d, at, done } && exchange@ == ex && d@ == reply
            && at == server.chain.len() - 1 && done == 0
    }
}

/// Whether a step calls the controller with the parameters of the request, or
/// takes up the error that its body came to.
pub open spec fn hands_over<C, M, S, U>(
    server: ServerView<C, M>,
    ex: ExchangeView,
    target: RouteMatch<'_, C>,
    step: Step<'_, C, S, U>,
) -> bool {
    match body_parsed(request_type(ex.request.headers), ex.request.body) {
        Ok((json, pairs)) => step matches Step::Dispatch { exchange, target: t, params }
            && exchange@ == ex && t == target && params_of(params@, ex.request, json, pairs),
        Err(e) => takes_up(server, error_reply::<S, U>(e), ex, step),
    }
}

impl<C, M> Server<C, M> {
    /// Whether a reply can be sent.
    pub fn can_send<S, U>(&self, data: &ReplyData<S, U>) -> (r: bool)
        ensures
            r == sendable(*data),
    {
        Finalizer::new().can_send(data)
    }

    /// Puts the headers of the policy for other origins on a response.
    fn with_cors_headers<S>(
        &self,
        request_headers: &http::HeaderMap,
        response: ResponseParts<S>,
    ) -> (r: ResponseParts<S>)
        requires
            has_room(response@.headers, 6),
        ensures
            r@ == (ResponseView::<S> {
                headers: with_cors_view(
                    self@.cors,
                    header_contents(*request_headers),
                    response@.headers,
                ),
                ..response@
            }),
            r@.headers.dom().finite(),
            r@.headers.dom().len() <= response@.headers.dom().len() + 6,
    {
        let mut response = response;
        if let Some(cors) = &self.cors {
            cors.apply(request_headers, &mut response.headers, false);
        }
        response
    }

    /// The response for a reply that changes no protocol.
    fn respond<S, U>(&self, data: ReplyData<S, U>, request_headers: &http::HeaderMap) -> (r:
        ResponseParts<S>)
        requires
            sendable(data),
        ensures
            sent(self@, data@, header_contents(*request_headers), r@),
    {
        proof {
            reveal_strlit("accept-encoding");
            assert(lower("accept-encoding"@) =~= "accept-encoding"@);
        }
        let ghost view = data@;
        let ghost request = header_contents(*request_headers);
        let packed = match &self.compression {
            Some(c) => {
                let accept = header_text(request_headers, "accept-encoding");
                let accept: Option<&str> = match &accept {
                    Some(s) => Some(s.as_str()),
                    None => None,
                };
                c.compress_reply(data, accept)
            },
            None => data,
        };
        let ghost packed_view = packed@;
        assert(maybe_compressed(self@.compression, request, view, packed_view));
        let built = Finalizer::new().build_response(packed);
        let ghost built_view = built@;
        let mut response = self.with_cors_headers(request_headers, built);
        tag_vary_if_encoded(&mut response.headers);
        assert(dressed(self@.cors, request, built_view, response@));
        response
    }

    /// Delivers a reply.
    fn dispatch_reply<S, U>(&self, data: ReplyData<S, U>, exchange: Exchange) -> (r: Step<
        '_,
        C,
        S,
        U,
    >)
        requires
            sendable(data),
            data is Upgrade ==> exchange.handshake is Some,
        ensures
            delivers(self@, data@, exchange@, r),
    {
        match data {
            ReplyData::Upgrade(task) => match exchange.handshake {
                Some(handshake) => {
                    proof {
                        use_type_invariant(&handshake);
                    }
                    Step::Switch { response: complete_upgrade(&handshake.accept), task }
                },
                None => {
                    assert(false);
                    Step::Send(self.respond(ReplyData::Upgrade(task), &exchange.request.headers))
                },
            },
            data => Step::Send(self.respond(data, &exchange.request.headers)),
        }
    }

    /// Takes up a reply: the hooks on the way out come first.
    pub fn finalize_reply<S, U>(&self, data: ReplyData<S, U>, exchange: Exchange) -> (r: Step<
        '_,
        C,
        S,
        U,
    >)
        requires
            self@.chain.len() == 0 ==> sendable(data),
        ensures
            takes_up(self@, data@, exchange@, r),
    {
        let is_upgrade = match &data {
            ReplyData::Upgrade(_) => true,
            _ => false,
        };
        let data = if is_upgrade && exchange.handshake.is_none() {
            let problem = ProblemDetails::new(
                StatusCode::of(426),
                "WebSocket Upgrade Required",
            ).detail("this endpoint expects a WebSocket handshake");
            Finalizer::new().error_to_reply(WebError::Problem(problem))
        } else {
            data
        };
        let is_upgrade = match &data {
            ReplyData::Upgrade(_) => true,
            _ => false,
        };
        if is_upgrade {
            return self.dispatch_reply(data, exchange);
        }
        let hooks: usize = self.middleware_chain.len();
        assert(hooks == self@.chain.len());
        match self.middleware_chain.process_response(0, None) {
            AfterStep::Run(at) => Step::After { exchange, data, at, done: 0 },
            AfterStep::Finished(_) => self.dispatch_reply(data, exchange),
        }
    }

    /// Takes up the reply to an error.
    pub fn finalize_error<S, U>(&self, error: WebError, exchange: Exchange) -> (r: Step<
        '_,
        C,
        S,
        U,
    >)
        ensures
            takes_up(self@, error_reply::<S, U>(error@), exchange@, r),
    {
        let data: ReplyData<S, U> = Finalizer::new().error_to_reply(error);
        self.finalize_reply(data, exchange)
    }

    /// The first step of a request whose head has arrived. A preflight is
    /// answered at once. Otherwise the path decides: without a controller it
    /// is a `404`, before any of the body is read; with one, the request is
    /// marked with its rate-limit class and the body comes next.
    pub fn handle_request<S, U>(&self, request: Request) -> (r: Step<'_, C, S, U>)
        ensures
            ({
                let ex = ExchangeView { request: request@, handshake: handshake_of(request@) };
                if self@.cors is Some && preflight(request@.method, request@.headers) {
                    r matches Step::Send(response) && response@ == (ResponseView::<S> {
                        status: 204,
                        headers: put_on(
                            no_headers(),
                            preflight_pairs(self@.cors->0, request@.headers),
                        ),
                        body: BodyView::Full(Seq::empty()),
                    })
                } else {
                    match routed(self@.router, request@.path_parts) {
                        None => takes_up(
                            self@,
                            error_reply::<S, U>(ErrorView::NotFound),
                            ex,
                            r,
                        ),
                        Some((controller, action)) => r matches Step::ReadBody {
                            exchange,
                            target,
                            cap,
                        } && exchange@ == (ExchangeView {
                            request: RequestView {
                                rate_limit_class: crate::params::str_option(
                                    controller.rate_limit,
                                ),
                                ..request@
                            },
                            ..ex
                        }) && *target.controller == controller && target.action@ == action && cap
                            == match controller.max_body_bytes {
                            Some(n) => n,
                            None => self@.max_body_bytes,
                        },
                    }
                }
            }),
    {
        let handshake = if is_upgrade_request(request.method.as_str(), &request.headers) {
            match accept_key(&request.headers) {
                Some(accept) => Some(Handshake { accept }),
                None => None,
            }
        } else {
            None
        };
        if let Some(cors) = &self.cors {
            if CorsLayer::is_preflight(request.method.as_str(), &request.headers) {
                let data: ReplyData<S, U> = ReplyData::Empty;
                let mut response = Finalizer::new().build_response(data);
                cors.apply(&request.headers, &mut response.headers, true);
                return Step::Send(response);
            }
        }
        match self.router.match_controller(&request.path_parts) {
            None => {
                let exchange = Exchange { request, handshake };
                self.finalize_error(WebError::NotFound, exchange)
            },
            Some(target) => {
                let mut request = request;
                request.rate_limit_class = target.controller.rate_limit;
                let cap: usize = match target.controller.max_body_bytes {
                    Some(n) => n,
                    None => self.max_body_bytes,
                };
                Step::ReadBody { exchange: Exchange { request, handshake }, target, cap }
            },
        }
    }

    /// Calls the controller with the parameters of the request.
    fn hand_over<'a, S, U>(&'a self, exchange: Exchange, target: RouteMatch<'a, C>) -> (r: Step<
        'a,
        C,
        S,
        U,
    >)
        ensures
            hands_over(self@, exchange@, target, r),
    {
        match exchange.request.to_params() {
            Ok(params) => Step::Dispatch { exchange, target, params },
            Err(e) => self.finalize_error(e, exchange),
        }
    }

    /// The step after the body was read.
    pub fn body_read<'a, S, U>(
        &'a self,
        exchange: Exchange,
        target: RouteMatch<'a, C>,
        read: BodyRead,
    ) -> (r: Step<'a, C, S, U>)
        ensures
            match read {
                BodyRead::Complete(bytes) => {
                    let ex = ExchangeView {
                        request: RequestView { body: bytes@, ..exchange@.request },
                        ..exchange@
                    };
                    if self@.chain.len() == 0 {
                        hands_over(self@, ex, target, r)
                    } else {
                        r matches Step::Before { exchange: e, target: t, at } && e@ == ex && t
                            == target && at == 0
                    }
                },
                _ => exists|e: ErrorView|
                    is_read_error(read, e) && #[trigger] takes_up(
                        self@,
                        error_reply::<S, U>(e),
                        exchange@,
                        r,
                    ),
            },
    {
        let Exchange { request, handshake } = exchange;
        match request.collect_body(read) {
            Ok(request) => {
                let exchange = Exchange { request, handshake };
                match self.middleware_chain.process_request::<S, U>(0, None) {
                    BeforeStep::Run(at) => Step::Before { exchange, target, at },
                    BeforeStep::Finished(_) => self.hand_over(exchange, target),
                }
            },
            Err((request, e)) => {
                let ghost view = e@;
                let exchange = Exchange { request, handshake };
                let r = self.finalize_error(e, exchange);
                assert(is_read_error(read, view));
                r
            },
        }
    }

    /// The step after the `before` hook of the middleware at `at` was run on
    /// the request.
    pub fn before_done<'a, S, U>(
        &'a self,
        exchange: Exchange,
        target: RouteMatch<'a, C>,
        at: usize,
        outcome: Result<Outcome<S, U>, WebError>,
    ) -> (r: Step<'a, C, S, U>)
        requires
            at < self@.chain.len(),
        ensures
            match outcome {
                Ok(Outcome::Continue) => if at + 1 < self@.chain.len() {
                    r matches Step::Before { exchange: e, target: t, at: next } && e == exchange
                        && t == target && next == at + 1
                } else {
                    hands_over(self@, exchange@, target, r)
                },
                Ok(Outcome::Respond(d)) => takes_up(self@, d@, exchange@, r),
                Err(e) => takes_up(self@, error_reply::<S, U>(e@), exchange@, r),
            },
    {
        let hooks: usize = self.middleware_chain.len();
        assert(hooks == self@.chain.len());
        match self.middleware_chain.process_request(at + 1, Some(outcome)) {
            BeforeStep::Run(next) => Step::Before { exchange, target, at: next },
            BeforeStep::Finished(Ok(Outcome::Continue)) => self.hand_over(exchange, target),
            BeforeStep::Finished(Ok(Outcome::Respond(d))) => self.finalize_reply(d, exchange),
            BeforeStep::Finished(Err(e)) => self.finalize_error(e, exchange),
        }
    }

    /// The step after the controller answered.
    pub fn dispatched<S, U>(&self, exchange: Exchange, reply: Reply<S, U>) -> (r: Step<'_, C, S, U>)
        requires
            reply matches Ok(d) ==> self@.chain.len() == 0 ==> sendable(d),
        ensures
            match reply {
                Ok(d) => takes_up(self@, d@, exchange@, r),
                Err(e) => takes_up(self@, error_reply::<S, U>(e@), exchange@, r),
            },
    {
        match reply {
            Ok(data) => self.finalize_reply(data, exchange),
            Err(e) => self.finalize_error(e, exchange),
        }
    }

    /// The step after an `after` hook was run on the reply, when `done` of
    /// them had been run before.
    pub fn after_done<S, U>(
        &self,
        exchange: Exchange,
        data: ReplyData<S, U>,
        done: usize,
        outcome: Result<(), WebError>,
    ) -> (r: Step<'_, C, S, U>)
        requires
            done < self@.chain.len(),
            outcome is Ok && done + 1 == self@.chain.len() ==> sendable(data) && (data is Upgrade
                ==> exchange.handshake is Some),
        ensures
            match outcome {
                Ok(_) => if done + 1 < self@.chain.len() {
                    r matches Step::After { exchange: e, data: d, at, done: n } && e == exchange
                        && d == data && at == self@.chain.len() - 2 - done && n == done + 1
                } else {
                    delivers(self@, data@, exchange@, r)
                },
                Err(e) => r matches Step::Send(response) && failed::<C, M, S, U>(
                    self@,
                    e@,
                    exchange@.request.headers,
                    response@,
                ),
            },
    {
        let hooks: usize = self.middleware_chain.len();
        assert(hooks == self@.chain.len());
        match self.middleware_chain.process_response(done + 1, Some(outcome)) {
            AfterStep::Run(at) => Step::After { exchange, data, at, done: done + 1 },
            AfterStep::Finished(Ok(_)) => self.dispatch_reply(data, exchange),
            AfterStep::Finished(Err(e)) => Step::Send(
                self.fail::<S, U>(e, &exchange.request.headers),
            ),
        }
    }

    /// The response to an error on which no hook runs.
    fn fail<S, U>(&self, error: WebError, request_headers: &http::HeaderMap) -> (r: ResponseParts<
        S,
    >)
        ensures
            failed::<C, M, S, U>(self@, error@, header_contents(*request_headers), r@),
    {
        let ghost e = error@;
        let built: ResponseParts<S> = Finalizer::new().build_error::<S, U>(error);
        assert(answers(error_reply::<S, U>(e), built@));
        self.with_cors_headers(request_headers, built)
    }

    /// The response to a request that took too long, given its headers. No hook
    /// runs on it.
    pub fn timed_out<S, U>(&self, request_headers: &http::HeaderMap) -> (r: ResponseParts<S>)
        ensures
            failed::<C, M, S, U>(
                self@,
                ErrorView::Timeout,
                header_contents(*request_headers),
                r@,
            ),
    {
        self.fail::<S, U>(WebError::Timeout, request_headers)
    }
}

// ---------------------------------------------------------------------------
// Laws
// ---------------------------------------------------------------------------

/// Errors take the way of every reply: where there is middleware, the hooks on
/// the way out run on them, from the last to the first.
pub proof fn law_hooks_see_every_error<C, M, S, U>(
    server: ServerView<C, M>,
    e: ErrorView,
    ex: ExchangeView,
    step: Step<'_, C, S, U>,
)
    requires
        server.chain.len() > 0,
        takes_up(server, error_reply::<S, U>(e), ex, step),
    ensures
        step matches Step::After { exchange, data, at, done } && exchange@ == ex && data@
            == error_reply::<S, U>(e) && at == server.chain.len() - 1 && done == 0,
{
}

/// A handler that changes the protocol of a request that did not ask for it is
/// answered like one that returned a `426`.
pub proof fn law_unasked_upgrade_is_an_error<C, M, S, U>(
    server: ServerView<C, M>,
    task: U,
    ex: ExchangeView,
    step: Step<'_, C, S, U>,
)
    requires
        ex.handshake is None,
    ensures
        takes_up(server, ReplyView::Upgrade(task), ex, step) <==> takes_up(
            server,
            error_reply::<S, U>(upgrade_required()),
            ex,
            step,
        ),
{
}

/// A change of protocol that was asked for is delivered at once, whatever
/// middleware there is.
pub proof fn law_upgrade_skips_the_hooks<C, M, S, U>(
    server: ServerView<C, M>,
    task: U,
    ex: ExchangeView,
    step: Step<'_, C, S, U>,
)
    requires
        ex.handshake is Some,
        takes_up(server, ReplyView::Upgrade(task), ex, step),
    ensures
        step matches Step::Switch { response, task: t } && t == task && response@.status == 101,
{
}

proof fn lemma_distinct_cors_names()
    ensures
        "access-control-allow-origin"@ != "vary"@,
        "access-control-allow-origin"@ != "access-control-allow-credentials"@,
        "access-control-allow-origin"@ != "access-control-expose-headers"@,
{
    reveal_strlit("access-control-allow-origin");
    reveal_strlit("vary");
    reveal_strlit("access-control-allow-credentials");
    reveal_strlit("access-control-expose-headers");
    assert("access-control-allow-origin"@.len() == 27);
    assert("vary"@.len() == 4);
    assert("access-control-allow-credentials"@.len() == 32);
    assert("access-control-expose-headers"@.len() == 29);
}

proof fn lemma_put_on_keeps(
    headers: Contents,
    pairs: crate::cors::Pairs,
    name: Seq<char>,
    value: Seq<u8>,
    k: int,
)
    requires
        0 <= k < pairs.len(),
        pairs[k] == (name, value),
        name != "vary"@,
        forall|i: int| k < i < pairs.len() ==> (#[trigger] pairs[i]).0 != name,
    ensures
        put_on(headers, pairs).contains_key(name),
        put_on(headers, pairs)[name] == seq![value],
    decreases pairs.len(),
{
    if k < pairs.len() - 1 {
        let front = pairs.drop_last();
        assert forall|i: int| k < i < front.len() implies (#[trigger] front[i]).0 != name by {
            assert(front[i] == pairs[i]);
        }
        lemma_put_on_keeps(headers, front, name, value, k);
        assert(pairs[pairs.len() - 1].0 != name);
    }
}

/// Every response to a request from an allowed origin tells the browser so,
/// be it a success or an error.
pub proof fn law_cors_on_every_response<C, M, S, U>(
    server: ServerView<C, M>,
    data: ReplyView<S, U>,
    request: Contents,
    r: ResponseView<S>,
)
    requires
        server.cors matches Some(cors) && crate::cors::allowed_origin(cors, request) is Some,
        sent(server, data, request, r),
    ensures
        r.headers.contains_key("access-control-allow-origin"@),
        r.headers["access-control-allow-origin"@] == seq![
            crate::finalizer::utf8(first_text(request, "origin"@)->0),
        ],
{
    let cors = server.cors->0;
    let name = "access-control-allow-origin"@;
    let pairs = response_pairs(cors, request);
    let (packed, built) = choose|packed: ReplyView<S, U>, built: ResponseView<S>|
        {
            &&& #[trigger] maybe_compressed(server.compression, request, data, packed)
            &&& answers(packed, built)
            &&& #[trigger] dressed(server.cors, request, built, r)
        };
    lemma_distinct_cors_names();
    crate::cors::law_the_origin_is_echoed(cors, request);
    assert forall|i: int| 0 < i < pairs.len() implies (#[trigger] pairs[i]).0 != name by {}
    lemma_put_on_keeps(built.headers, pairs, name, pairs[0].1, 0);
}

/// A browser can read an error on which no hook runs: an error of a hook, or
/// that a request took too long. The response has the status of the error, and
/// tells an allowed origin so.
pub proof fn law_failures_can_be_read<C, M, S, U>(
    server: ServerView<C, M>,
    e: ErrorView,
    request: Contents,
    r: ResponseView<S>,
)
    requires
        server.cors matches Some(cors) && crate::cors::allowed_origin(cors, request) is Some,
        failed::<C, M, S, U>(server, e, request, r),
    ensures
        r.status == crate::finalizer::problem_of(e).status,
        r.headers.contains_key("access-control-allow-origin"@),
        r.headers["access-control-allow-origin"@] == seq![
            crate::finalizer::utf8(first_text(request, "origin"@)->0),
        ],
{
    let cors = server.cors->0;
    let name = "access-control-allow-origin"@;
    let pairs = response_pairs(cors, request);
    let built = choose|built: ResponseView<S>|
        {
            &&& #[trigger] answers(error_reply::<S, U>(e), built)
            &&& r == (ResponseView::<S> {
                headers: with_cors_view(server.cors, request, built.headers),
                ..built
            })
        };
    lemma_distinct_cors_names();
    crate::cors::law_the_origin_is_echoed(cors, request);
    assert forall|i: int| 0 < i < pairs.len() implies (#[trigger] pairs[i]).0 != name by {}
    lemma_put_on_keeps(built.headers, pairs, name, pairs[0].1, 0);
}

/// Every response with an encoded body tells caches that it depends on what
/// the client accepts, whatever else it says there.
pub proof fn law_encoded_responses_vary<C, M, S, U>(
    server: ServerView<C, M>,
    data: ReplyView<S, U>,
    request: Contents,
    r: ResponseView<S>,
)
    requires
        sent(server, data, request, r),
        r.headers.contains_key("content-encoding"@),
    ensures
        r.headers.contains_key("vary"@),
        r.headers["vary"@].len() > 0,
        r.headers["vary"@].last() == crate::finalizer::utf8("Accept-Encoding"@),
{
    let (packed, built) = choose|packed: ReplyView<S, U>, built: ResponseView<S>|
        {
            &&& #[trigger] maybe_compressed(server.compression, request, data, packed)
            &&& answers(packed, built)
            &&& #[trigger] dressed(server.cors, request, built, r)
        };
    let before = with_cors_view(server.cors, request, built.headers);
    assert("content-encoding"@ != "vary"@) by {
        reveal_strlit("content-encoding");
        reveal_strlit("vary");
        assert("content-encoding"@.len() == 16);
        assert("vary"@.len() == 4);
    }
    assert(before.contains_key("content-encoding"@));
}

/// No header of a policy for other origins is another one, and one that tells
/// the encoding of a body.
proof fn lemma_cors_sets_no(headers: Contents, cors: Option<CorsView>, request: Contents, name: Seq<char>)
    requires
        name != "access-control-allow-origin"@,
        name != "vary"@,
        name != "access-control-allow-credentials"@,
        name != "access-control-expose-headers"@,
    ensures
        with_cors_view(cors, request, headers).contains_key(name) == headers.contains_key(name),
        headers.contains_key(name) ==> with_cors_view(cors, request, headers)[name]
            == headers[name],
{
    if let Some(c) = cors {
        crate::cors::lemma_put_on_other(headers, response_pairs(c, request), name);
    }
}

/// A reply is sent under the status that it asks for: its own, or that of its
/// payload, which is `204` for nothing and `200` for anything else. Neither
/// compression nor a policy changes it.
pub proof fn law_the_status_is_sent<C, M, S, U>(
    server: ServerView<C, M>,
    data: ReplyView<S, U>,
    request: Contents,
    r: ResponseView<S>,
)
    requires
        sent(server, data, request, r),
    ensures
        data matches ReplyView::Rich(spec) ==> (spec.status matches Some(s) ==> r.status == s),
        data is Empty ==> r.status == 204 && r.body == BodyView::<S>::Full(Seq::empty()),
        data is Json || data is Bytes ==> r.status == 200,
        data matches ReplyView::Stream(s) ==> r.status == 200 && r.body == BodyView::Stream(s),
{
    let (packed, built) = choose|packed: ReplyView<S, U>, built: ResponseView<S>|
        {
            &&& #[trigger] maybe_compressed(server.compression, request, data, packed)
            &&& answers(packed, built)
            &&& #[trigger] dressed(server.cors, request, built, r)
        };
    if let Some(c) = server.compression {
        let enc = negotiated(first_text(request, "accept-encoding"@), c.prefer_brotli);
        crate::compression::law_only_the_encoding_changes(data, enc, c, packed);
        if !(data is Rich) {
            crate::compression::law_replies_read_back(data, enc, c, packed);
        }
    }
    if let ReplyView::Rich(after) = packed {
        if !(data is Rich) {
            assert(after.headers.dom().contains("content-encoding"@));
            assert(after.headers.contains_key("content-encoding"@));
            let inner = choose|inner: ResponseView<S>|
                #[trigger] crate::finalizer::decorates(inner, after.status, after.headers, built)
                    && answers(after.payload, inner);
            crate::finalizer::law_payloads_are_sent(after.payload, inner);
        }
    } else {
        crate::finalizer::law_payloads_are_sent(packed, built);
    }
}

/// What a client reads from the body of a response, as the response announces
/// it.
pub open spec fn reads<S>(r: ResponseView<S>, bytes: Seq<u8>) -> bool {
    r.body matches BodyView::Full(body) && if r.headers.contains_key("content-encoding"@) {
        exists|name: Seq<char>|
            r.headers["content-encoding"@] == seq![#[trigger] utf8(name)] && read_as(
                Some(name),
                body,
            ) == Some(bytes)
    } else {
        body == bytes
    }
}

/// A client reads the body that the handler gave, whether it is sent encoded or
/// not.
pub proof fn law_the_body_is_sent<C, M, S, U>(
    server: ServerView<C, M>,
    data: ReplyView<S, U>,
    request: Contents,
    r: ResponseView<S>,
)
    requires
        sent(server, data, request, r),
        data matches ReplyView::Rich(spec) ==> forall|k: Seq<char>| #[trigger]
            spec.headers.contains_key(k) ==> lower(k) != "content-encoding"@,
    ensures
        match payload_of(data) {
            ReplyView::Json(tree) => reads(r, crate::json::json_text(tree)),
            ReplyView::Bytes { content_type, data: bytes } => reads(r, bytes),
            _ => true,
        },
{
    let (packed, built) = choose|packed: ReplyView<S, U>, built: ResponseView<S>|
        {
            &&& #[trigger] maybe_compressed(server.compression, request, data, packed)
            &&& answers(packed, built)
            &&& #[trigger] dressed(server.cors, request, built, r)
        };
    let name = "content-encoding"@;
    reveal_strlit("content-encoding");
    reveal_strlit("content-type");
    reveal_strlit("vary");
    reveal_strlit("gzip");
    reveal_strlit("br");
    lemma_distinct_cors_names();
    reveal_strlit("access-control-allow-origin");
    reveal_strlit("access-control-allow-credentials");
    reveal_strlit("access-control-expose-headers");
    assert(name.len() == 16 && "content-type"@.len() == 12 && "vary"@.len() == 4
        && "access-control-allow-origin"@.len() == 27 && "access-control-allow-credentials"@.len()
        == 32 && "access-control-expose-headers"@.len() == 29);
    assert(lower(name) =~= name);
    lemma_cors_sets_no(built.headers, server.cors, request, name);
    if server.compression is Some {
        let c = server.compression->0;
        let enc = negotiated(first_text(request, "accept-encoding"@), c.prefer_brotli);
        crate::compression::law_replies_read_back(data, enc, c, packed);
        crate::compression::law_only_the_encoding_changes(data, enc, c, packed);
    }
    crate::finalizer::lemma_ascii_value("gzip"@);
    crate::finalizer::lemma_ascii_value("br"@);
    if payload_of(data) is Json || payload_of(data) is Bytes {
        match packed {
            ReplyView::Rich(after) => {
                assert forall|k: Seq<char>| #[trigger]
                    after.headers.contains_key(k) && k != name implies lower(k) != lower(name) by {
                    if let ReplyView::Rich(spec) = data {
                        assert(spec.headers.contains_key(k));
                    } else {
                        assert(after.headers.dom().contains(k));
                    }
                }
                crate::finalizer::law_decorations_are_put_on(*after, built, name);
                let payload = after.payload;
                let inner = choose|inner: ResponseView<S>|
                    {
                        &&& #[trigger] answers(payload, inner)
                        &&& built.body == inner.body
                        &&& built.status == match after.status {
                            Some(s) => s,
                            None => inner.status,
                        }
                        &&& if after.headers.contains_key(name) && crate::headers::is_header_name(
                            name,
                        ) && is_header_value(utf8(after.headers[name])) {
                            built.headers.contains_key(lower(name)) && built.headers[lower(name)]
                                == seq![utf8(after.headers[name])]
                        } else {
                            built.headers.contains_key(lower(name)) == inner.headers.contains_key(
                                lower(name),
                            ) && built.headers[lower(name)] == inner.headers[lower(name)]
                        }
                    };
                crate::finalizer::law_payloads_are_sent(payload, inner);
                assert(!inner.headers.dom().contains(name));
                assert(!inner.headers.contains_key(name));
                assert(crate::headers::is_header_name(name));
            },
            _ => {
                crate::finalizer::law_payloads_are_sent(packed, built);
                assert(!built.headers.dom().contains(name));
                assert(!built.headers.contains_key(name));
            },
        }
    }
}

/// Without a policy for other origins no header is added for them, and without
/// compression nothing is encoded: the response is the one that is built for
/// the reply.
pub proof fn law_plain_servers<C, M, S, U>(
    server: ServerView<C, M>,
    data: ReplyView<S, U>,
    request: Contents,
    r: ResponseView<S>,
)
    requires
        sent(server, data, request, r),
        server.cors is None,
        server.compression is None,
    ensures
        r.headers.contains_key("content-encoding"@) || answers(data, r),
{
    let (packed, built) = choose|packed: ReplyView<S, U>, built: ResponseView<S>|
        {
            &&& #[trigger] maybe_compressed(server.compression, request, data, packed)
            &&& answers(packed, built)
            &&& #[trigger] dressed(server.cors, request, built, r)
        };
    reveal_strlit("content-encoding");
    reveal_strlit("vary");
    assert("content-encoding"@.len() != "vary"@.len());
    if !r.headers.contains_key("content-encoding"@) {
        assert(!built.headers.contains_key("content-encoding"@));
        assert(r == built);
    }
}

/// A request whose body is what its type says reaches the controller with its
/// parameters; any other is answered with the error.
pub proof fn law_what_reaches_the_controller<C, M, S, U>(
    server: ServerView<C, M>,
    ex: ExchangeView,
    target: RouteMatch<'_, C>,
    step: Step<'_, C, S, U>,
)
    requires
        hands_over(server, ex, target, step),
    ensures
        step is Dispatch <==> body_parsed(request_type(ex.request.headers), ex.request.body) is Ok,
        step matches Step::Dispatch { exchange, target: t, params } ==> {
            &&& t == target
            &&& exchange@ == ex
            &&& params@.raw_body == ex.request.body
            &&& body_parsed(request_type(ex.request.headers), ex.request.body) matches Ok(
                (json, pairs),
            ) && params@.body == json
        },
        ex.request.body.len() == 0 ==> step is Dispatch,
{
}

/// A reply is taken up: without middleware it is sent at once, and with any the
/// hooks run on it first, from the last one on.
pub proof fn law_how_a_reply_is_taken_up<C, M, S, U>(
    server: ServerView<C, M>,
    data: ReplyView<S, U>,
    ex: ExchangeView,
    step: Step<'_, C, S, U>,
)
    requires
        takes_up(server, data, ex, step),
        !(data is Upgrade),
    ensures
        server.chain.len() == 0 ==> (step matches Step::Send(response) && sent(
            server,
            data,
            ex.request.headers,
            response@,
        )),
        server.chain.len() > 0 ==> (step matches Step::After { exchange, data: d, at, done }
            && exchange@ == ex && d@ == data && done == 0 && at + 1 == server.chain.len()),
{
}

/// A handler that changes the protocol of a request that did not ask for it is
/// answered `426`, with a reason.
pub proof fn law_unasked_upgrades_are_answered<C, M, S, U>(
    server: ServerView<C, M>,
    task: U,
    ex: ExchangeView,
    step: Step<'_, C, S, U>,
)
    requires
        ex.handshake is None,
        server.chain.len() == 0,
        takes_up(server, ReplyView::Upgrade(task), ex, step),
    ensures
        step matches Step::Send(response) && response@.status == 426,
        upgrade_required() matches ErrorView::Problem(p) && p.status == 426 && p.title
            == "WebSocket Upgrade Required"@ && p.detail == Some(
            "this endpoint expects a WebSocket handshake"@,
        ),
{
    let data = error_reply::<S, U>(upgrade_required());
    if let Step::Send(response) = step {
        law_the_status_is_sent(server, data, ex.request.headers, response@);
    }
}

/// A change of protocol that was asked for is answered with the key of its
/// request, and hands over what the handler gave.
pub proof fn law_asked_upgrades_are_answered<C, M, S, U>(
    server: ServerView<C, M>,
    task: U,
    ex: ExchangeView,
    step: Step<'_, C, S, U>,
)
    requires
        ex.handshake == handshake_of(ex.request),
        asks_for_upgrade(ex.request.method, ex.request.headers),
        ex.request.headers["sec-websocket-key"@].len() > 0,
        takes_up(server, ReplyView::Upgrade(task), ex, step),
    ensures
        step matches Step::Switch { response, task: t } && {
            &&& t == task
            &&& response@.status == 101
            &&& response@.headers["sec-websocket-accept"@] == seq![
                utf8(
                    crate::websocket::derived_key(ex.request.headers["sec-websocket-key"@][0]),
                ),
            ]
        },
{
    crate::websocket::law_answers_to_handshakes::<S>(ex.handshake->0, ex.request.headers);
}

/// A request that does not ask for a change of protocol has no handshake.
pub proof fn law_handshakes_are_asked_for(request: RequestView)
    ensures
        handshake_of(request) is Some ==> asks_for_upgrade(request.method, request.headers),
        asks_for_upgrade(request.method, request.headers) && request.headers["sec-websocket-key"@].len()
            > 0 ==> handshake_of(request) is Some,
{
}

/// Every response that is sent to an allowed origin lets scripts read what the
/// policy exposes, all of it and in its order, and says whether credentials may
/// be used. The reply does not set these headers itself.
pub proof fn law_policies_stand_on_responses(
    cors: CorsView,
    request: Contents,
    headers: Contents,
)
    requires
        crate::cors::are_names(cors.expose),
        crate::cors::allowed_origin(cors, request) is Some,
        !headers.contains_key("access-control-expose-headers"@),
        !headers.contains_key("access-control-allow-credentials"@),
    ensures
        ({
            let r = with_cors_view(Some(cors), request, headers);
            &&& r.contains_key("access-control-expose-headers"@) <==> cors.expose.len() > 0
            &&& cors.expose.len() > 0 ==> r["access-control-expose-headers"@].len() == 1
                && crate::cors::lists_items(r["access-control-expose-headers"@][0], cors.expose)
            &&& r.contains_key("access-control-allow-credentials"@) <==> cors.credentials
            &&& !r.contains_key("access-control-allow-methods"@) || headers.contains_key(
                "access-control-allow-methods"@,
            )
        }),
        with_cors_view(None, request, headers) == headers,
{
    crate::cors::law_responses_to_allowed_origins(cors, request, headers);
    reveal_strlit("access-control-allow-methods");
    reveal_strlit("access-control-allow-origin");
    reveal_strlit("vary");
    reveal_strlit("access-control-allow-credentials");
    reveal_strlit("access-control-expose-headers");
    assert("access-control-allow-methods"@.len() == 28 && "access-control-allow-origin"@.len() == 27
        && "vary"@.len() == 4 && "access-control-allow-credentials"@.len() == 32
        && "access-control-expose-headers"@.len() == 29);
}

/// A client that asks for gzip above all is sent a body of text in it, where the
/// body has the least size and becomes shorter; and one that asks for nothing
/// is sent nothing encoded.
pub proof fn law_encodings_are_negotiated<C, M, S, U>(
    server: ServerView<C, M>,
    content_type: Seq<char>,
    bytes: Seq<u8>,
    request: Contents,
    r: ResponseView<S>,
)
    requires
        sent(server, ReplyView::<S, U>::Bytes { content_type, data: bytes }, request, r),
        server.compression is Some,
    ensures
        ({
            let layer = server.compression->0;
            let enc = negotiated(first_text(request, "accept-encoding"@), layer.prefer_brotli);
            &&& enc == Encoding::Gzip && bytes.len() >= layer.min_size && is_textual(
                media_type(content_type),
            ) && gzip_encoded(bytes).len() < bytes.len() ==> r.body == BodyView::<S>::Full(
                gzip_encoded(bytes),
            )
            &&& !request.contains_key("accept-encoding"@) || bytes.len() < layer.min_size
                || !is_textual(media_type(content_type)) ==> r.body == BodyView::<S>::Full(bytes)
        }),
{
    let data = ReplyView::<S, U>::Bytes { content_type, data: bytes };
    let layer = server.compression->0;
    let enc = negotiated(first_text(request, "accept-encoding"@), layer.prefer_brotli);
    let (packed, built) = choose|packed: ReplyView<S, U>, built: ResponseView<S>|
        {
            &&& #[trigger] maybe_compressed(server.compression, request, data, packed)
            &&& answers(packed, built)
            &&& #[trigger] dressed(server.cors, request, built, r)
        };
    if enc == Encoding::Identity {
        crate::finalizer::law_payloads_are_sent(packed, built);
    } else {
        crate::compression::law_other_replies_are_compressed(data, enc, layer, packed);
        let (p, name) = choose|p: ReplyView<S, U>, name: Option<Seq<char>>|
            {
                &&& #[trigger] payload_compressed(payload_of(data), enc, layer, p, name)
                &&& name matches Some(n) ==> packed matches ReplyView::Rich(spec) && spec.payload
                    == p
                &&& name is None ==> packed == p
            };
        crate::compression::law_bodies_worth_encoding(content_type, bytes, enc, layer, p, name);
        match packed {
            ReplyView::Rich(spec) => {
                let inner = choose|inner: ResponseView<S>|
                    #[trigger] crate::finalizer::decorates(inner, spec.status, spec.headers, built)
                        && answers(spec.payload, inner);
                crate::finalizer::law_payloads_are_sent(spec.payload, inner);
            },
            _ => {
                crate::finalizer::law_payloads_are_sent(packed, built);
            },
        }
    }
}

/// What is delivered: the protocol is changed exactly for a reply that changes
/// it and a request that asked for it, with `101` and for what the handler gave;
/// any other reply is sent.
pub proof fn law_what_is_delivered<C, M, S, U>(
    server: ServerView<C, M>,
    data: ReplyView<S, U>,
    ex: ExchangeView,
    step: Step<'_, C, S, U>,
)
    requires
        delivers(server, data, ex, step),
    ensures
        data is Upgrade <==> step is Switch,
        step is Switch ==> ex.handshake is Some,
        step matches Step::Switch { response, task } ==> data == ReplyView::<S, U>::Upgrade(task)
            && response@.status == 101,
        !(data is Upgrade) ==> (step matches Step::Send(response) && sent(
            server,
            data,
            ex.request.headers,
            response@,
        )),
{
}

} // verus!
