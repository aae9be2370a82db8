//! The proxy: its options, its routes, its sticky sessions, its upstreams, and its start and stop.
//!
//! Nothing here reads a clock, a socket or a name server: callers hand in what they found there.

pub mod errors;
pub mod headers;
pub mod lb;
pub mod options;
pub mod proxy;
pub mod request;
pub mod router;
pub mod server;
pub mod sticky;
pub mod table;
pub mod text;
