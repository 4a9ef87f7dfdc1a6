//! Request routing: route matching, the handler variants, and redirects.

pub mod handler;
pub mod redirections;
pub mod route;
pub mod router;
