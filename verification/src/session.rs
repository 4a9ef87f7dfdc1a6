//! In-memory sessions and the cookies that carry them.

pub mod cookie;
pub mod session;
pub mod store;

pub use cookie::{Cookie, CookieJar, SameSite};
pub use session::{Session, SessionData};
pub use store::{SessionConfig, SessionStats, SessionStore};
