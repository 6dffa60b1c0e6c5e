//! The parts of an HTTP client that decide how a connection is made through a
//! proxy and which connections may be shared.
//!
//! - [`proxy`] opens a `CONNECT` tunnel: the request that is sent, and the
//!   machine that judges the proxy's reply as it arrives.
//! - [`pool`] keeps one set of connections for each key, and says when two keys
//!   are the same.
//! - [`text`] holds what both need to say about bytes and characters.

pub mod pool;
pub mod proxy;
pub mod text;
