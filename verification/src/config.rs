//! Server configuration: the data model, a small TOML-style parser, and
//! validation.

pub mod parser;
pub mod server;
pub mod validation;
