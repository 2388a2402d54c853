//! A small binary request/response protocol for browsing and transferring
//! files on a remote host, with the server-side rules that go with it.
//!
//! The crate touches neither sockets nor the filesystem. A host program owns
//! both; it hands bytes, filesystem outcomes and timestamps to the functions
//! here and carries out what they decide.
//!
//! - `message`: the requests and responses.
//! - `wire`, `request_codec`, `response_codec`: their binary encoding.
//! - `sandbox`: paths, and the rule that keeps a client below the root.
//! - `session`: what the server remembers of a client, and the table of
//!   sessions with its idle-time eviction.
//! - `action`, `handler`, `transfer`, `server`: serving a request in two
//!   halves, with the host's action on the filesystem in between.
//! - `stream`: telling messages and raw bytes apart on a byte stream, and
//!   counting the raw bytes of a transfer.
//! - `client`: reading responses, and the bookkeeping of chunked transfers.
//! - `clock`: the time by which sessions age.

pub mod action;
pub mod client;
pub mod clock;
pub mod handler;
pub mod message;
pub mod request_codec;
pub mod response_codec;
pub mod sandbox;
pub mod server;
pub mod session;
pub mod stream;
pub mod transfer;
pub mod wire;

pub use crate::message::{DirEntry, Request, Response};
