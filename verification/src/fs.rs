//! The path rules behind static file serving. Only the computation lives
//! here; opening files happens outside the library.

pub mod path_utils;
pub mod static_files;
