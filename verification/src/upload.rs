//! File uploads: URL-encoded forms, multipart bodies, and the naming
//! rules of the file store. Writing to disk happens outside the library.

pub mod file_storage;
pub mod form_data;
pub mod multipart;
