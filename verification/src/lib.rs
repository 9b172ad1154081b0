//! Core of a small HTTP/1.1 download server: request parsing, path
//! validation and response framing, stated and verified over byte
//! sequences. The sockets, the worker pool and the filesystem sit in
//! a thin unverified shell around this crate.

pub mod bytes;
pub mod errors;
pub mod headers;
pub mod plan;
pub mod request;
pub mod response;
pub mod utf8;
