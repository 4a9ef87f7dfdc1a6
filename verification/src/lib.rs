//! A single-threaded HTTP/1.1 origin server library.
//!
//! The crate provides the connection-lifecycle engine of the server: the
//! incremental wire-format parser (request line, headers, fixed-length and
//! chunked bodies), the chunked encoder, the per-connection state machine,
//! the timeout manager, and the collaborators the engine dispatches into
//! (routing, sessions, cookies, uploads, CGI plumbing, configuration).
//! All I/O stays outside; every function here is a total computation on
//! plain values, with its behaviour stated in its contract.

pub mod cgi;
pub mod config;
pub mod fs;
pub mod mime;
pub mod http;
pub mod net;
pub mod routing;
pub mod server;
pub mod session;
pub mod upload;
pub mod clock;
pub mod util;
