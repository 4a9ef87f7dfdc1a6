//! CGI: the environment a script sees, the parser for its output, and
//! the interpreter rules. Spawning the process happens outside the
//! library.

pub mod environment;
pub mod executor;
pub mod response;

pub use executor::{CgiConfig, CgiExecutor};
