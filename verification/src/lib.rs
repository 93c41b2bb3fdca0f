//! The core of a web framework: everything that a server decides between the
//! bytes that arrive and the bytes that leave.
//!
//! - [`router`], [`routing`] and [`pattern`] say which handler a request
//!   reaches, [`params`], [`arguments`] and [`request`] what it is given.
//! - [`reply`], [`error`], [`sse`] and [`finalizer`] say what is sent back,
//!   [`compression`], [`cors`] and [`middleware`] what becomes of it on the way.
//! - [`server`] is the way of one request as a machine of steps, [`serving`]
//!   the life of a server from the first connection to the last; [`websocket`]
//!   holds the handshake that leaves HTTP.
//! - [`declaration`], [`plan`] and [`construction`] read what a controller
//!   declares, and [`openapi`] documents it.
//! - [`text`], [`numbers`], [`quality`], [`strmap`], [`headers`], [`json`],
//!   [`durations`] and [`status`] are what the rest is made of.
//!
//! Reading, writing, waiting and calling handlers happen outside: a machine
//! here names the next action, and takes what came of it.

pub mod arguments;
pub mod compression;
pub mod construction;
pub mod controller;
pub mod cors;
pub mod declaration;
pub mod durations;
pub mod error;
pub mod finalizer;
pub mod headers;
pub mod json;
pub mod middleware;
pub mod numbers;
pub mod openapi;
pub mod params;
pub mod pattern;
pub mod plan;
pub mod quality;
pub mod reply;
pub mod request;
pub mod router;
pub mod routing;
pub mod server;
pub mod serving;
pub mod sse;
pub mod status;
pub mod strmap;
pub mod text;
pub mod websocket;
