//! The HTTP/1.1 wire layer: requests, responses, the incremental parser,
//! and the chunked transfer codec.

pub mod chunked;
pub mod parse;
pub mod request;
pub mod response;
