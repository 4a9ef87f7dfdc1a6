//! The in-memory session store: one session per identifier, aged out by
//! expiry, capped in number.

use vstd::prelude::*;

use crate::clock::now_unix_millis;
use crate::session::cookie::{Cookie, CookieJar, SameSite, jar_get};
use crate::session::session::{Session, SessionData};
use crate::util::{utf8_bytes, bytes_eq};

verus! {

/// How the store and its cookies behave. Durations are in milliseconds.
#[derive(Debug, Clone)]
pub struct SessionConfig {
    /// How long a fresh session lives.
    pub default_expiration: u64,
    /// The cookie that carries the session identifier.
    pub cookie_name: String,
    /// The cookie path.
    pub cookie_path: String,
    /// The cookie domain, if any.
    pub cookie_domain: Option<String>,
    /// Whether cookies are marked `Secure`.
    pub secure_cookies: bool,
    /// Whether cookies are marked `HttpOnly`.
    pub http_only_cookies: bool,
    /// How often expired sessions are swept.
    pub cleanup_interval: u64,
    /// The most sessions the store keeps.
    pub max_sessions: usize,
}

impl Default for SessionConfig {
    /// One-hour sessions under the `session_id` cookie, swept every five
    /// minutes, at most ten thousand of them.
    fn default() -> (r: Self)
        ensures
            r.default_expiration == 3600000,
            r.cleanup_interval == 300000,
            r.max_sessions == 10000,
            !r.secure_cookies,
            r.http_only_cookies,
            r.cookie_domain is None,
    {
        SessionConfig {
            default_expiration: 3600000,
            cookie_name: String::from_str("session_id"),
            cookie_path: String::from_str("/"),
            cookie_domain: None,
            secure_cookies: false,
            http_only_cookies: true,
            cleanup_interval: 300000,
            max_sessions: 10000,
        }
    }
}

/// Whether a session list holds an identifier.
pub open spec fn store_has(s: Seq<Session>, id: Seq<u8>) -> bool {
    exists|i: int| 0 <= i < s.len() && utf8_bytes(#[trigger] s[i].id@) == id
}

/// Counts of sessions by validity at one clock reading.
#[derive(Debug, Clone, Copy, PartialEq, Eq, Structural)]
pub struct SessionStats {
    pub total_sessions: usize,
    pub active_sessions: usize,
    pub expired_sessions: usize,
}

/// The in-memory session store.
#[derive(Debug)]
pub struct SessionStore {
    sessions: Vec<Session>,
    config: SessionConfig,
    last_cleanup: u64,
}

impl SessionStore {
    /// The sessions, in insertion order.
    pub closed spec fn list(&self) -> Seq<Session> {
        self.sessions@
    }

    /// The configuration.
    pub closed spec fn conf(&self) -> SessionConfig {
        self.config
    }

    /// An empty store.
    pub fn new(config: SessionConfig) -> (r: SessionStore)
        ensures
            r.list() == Seq::<Session>::empty(),
            r.conf() == config,
    {
        let now = now_unix_millis();
        SessionStore { sessions: Vec::new(), config, last_cleanup: now }
    }

    /// Creates, stores and hands back a fresh session expiring
    /// `default_expiration` from its creation reading. When the store is
    /// full, expired sessions are swept and then, if need be, the oldest
    /// session is evicted, so the count never passes the cap.
    pub fn create_session(&mut self) -> (r: Result<Session, ()>)
        ensures
            r matches Ok(s) && s.id@.len() > 0 && store_has(final(self).list(), utf8_bytes(s.id@)),
            r matches Ok(s) ==> s.data.expiry() == Some(
                if s.data.created() > u64::MAX - old(self).conf().default_expiration {
                    u64::MAX
                } else {
                    (s.data.created() + old(self).conf().default_expiration) as u64
                },
            ),
            final(self).list().len() <= old(self).list().len() + 1,
            old(self).conf().max_sessions > 0 && old(self).list().len() <= old(
                self,
            ).conf().max_sessions ==> final(self).list().len() <= old(self).conf().max_sessions,
            final(self).conf() == old(self).conf(),
    {
        let id = match Session::generate_id() {
            Ok(id) => id,
            Err(_) => {
                proof {
                    assert(false);
                }
                return Err(());
            },
        };
        let session = Session::with_expiration(id, self.config.default_expiration);
        if self.sessions.len() >= self.config.max_sessions {
            self.sweep_expired();
            if self.sessions.len() >= self.config.max_sessions && self.sessions.len() > 0 {
                self.evict_oldest();
            }
        }
        let out = session.clone();
        let ghost n = self.sessions@.len();
        self.sessions.push(session);
        proof {
            assert(utf8_bytes(self.sessions@[n as int].id@) == utf8_bytes(out.id@));
        }
        Ok(out)
    }

    /// Removes every expired session.
    fn sweep_expired(&mut self)
        ensures
            final(self).list().len() <= old(self).list().len(),
            final(self).conf() == old(self).conf(),
    {
        let now = now_unix_millis();
        let mut kept: Vec<Session> = Vec::new();
        let mut i: usize = 0;
        while i < self.sessions.len()
            invariant
                i <= self.sessions.len(),
                kept@.len() <= i,
                self.config == old(self).conf(),
                self.sessions@.len() == old(self).list().len(),
            decreases self.sessions.len() - i,
        {
            if self.sessions[i].is_valid_at(now) {
                let s = self.sessions[i].clone();
                kept.push(s);
            }
            i += 1;
        }
        self.sessions = kept;
    }

    /// Removes the session with the earliest creation stamp.
    fn evict_oldest(&mut self)
        requires
            old(self).list().len() > 0,
        ensures
            final(self).list().len() + 1 == old(self).list().len(),
            final(self).conf() == old(self).conf(),
    {
        let mut oldest: usize = 0;
        let mut i: usize = 1;
        while i < self.sessions.len()
            invariant
                self.sessions@.len() == old(self).list().len(),
                self.config == old(self).conf(),
                oldest < self.sessions@.len(),
                i <= self.sessions@.len(),
            decreases self.sessions.len() - i,
        {
            if self.sessions[i].data.created_at() < self.sessions[oldest].data.created_at() {
                oldest = i;
            }
            i += 1;
        }
        self.sessions.remove(oldest);
    }

    /// The session with the given identifier, touched, when it is still
    /// valid; an expired session is removed instead.
    pub fn get_session(&mut self, session_id: &str) -> (r: Option<Session>)
        ensures
            final(self).conf() == old(self).conf(),
            r matches Some(s) ==> utf8_bytes(s.id@) == utf8_bytes(session_id@),
            !store_has(old(self).list(), utf8_bytes(session_id@)) ==> r is None,
    {
        let now = now_unix_millis();
        let mut i: usize = 0;
        while i < self.sessions.len()
            invariant
                i <= self.sessions.len(),
                self.sessions@ == old(self).list(),
                self.config == old(self).conf(),
                forall|j: int|
                    0 <= j < i ==> utf8_bytes(#[trigger] old(self).list()[j].id@) != utf8_bytes(
                        session_id@,
                    ),
            decreases self.sessions.len() - i,
        {
            if bytes_eq(self.sessions[i].id.as_str().as_bytes(), session_id.as_bytes()) {
                if self.sessions[i].is_valid_at(now) {
                    let mut s = self.sessions[i].clone();
                    s.data.touch();
                    let s2 = s.clone();
                    self.sessions.set(i, s);
                    proof {
                        assert(utf8_bytes(s2.id@) == utf8_bytes(session_id@));
                    }
                    return Some(s2);
                } else {
                    self.sessions.remove(i);
                    return None;
                }
            }
            i += 1;
        }
        proof {
            if store_has(old(self).list(), utf8_bytes(session_id@)) {
                let j = choose|j: int|
                    0 <= j < old(self).list().len() && utf8_bytes(
                        #[trigger] old(self).list()[j].id@,
                    ) == utf8_bytes(session_id@);
                assert(false);
            }
        }
        None
    }

    /// Stores a still-valid session under its identifier, replacing any
    /// session with that identifier; an expired session is removed and
    /// refused instead.
    pub fn update_session(&mut self, session: Session) -> (r: Result<(), ()>)
        ensures
            final(self).conf() == old(self).conf(),
            r is Ok ==> store_has(final(self).list(), utf8_bytes(session.id@)),
    {
        let now = now_unix_millis();
        if session.is_valid_at(now) {
            let ghost idb = utf8_bytes(session.id@);
            let mut i: usize = 0;
            while i < self.sessions.len()
                invariant
                    i <= self.sessions.len(),
                    self.config == old(self).conf(),
                    idb == utf8_bytes(session.id@),
                decreases self.sessions.len() - i,
            {
                if bytes_eq(
                    self.sessions[i].id.as_str().as_bytes(),
                    session.id.as_str().as_bytes(),
                ) {
                    let ghost gi = i as int;
                    self.sessions.set(i, session);
                    proof {
                        assert(utf8_bytes(self.sessions@[gi].id@) == idb);
                    }
                    return Ok(());
                }
                i += 1;
            }
            let ghost n = self.sessions@.len();
            self.sessions.push(session);
            proof {
                assert(utf8_bytes(self.sessions@[n as int].id@) == idb);
            }
            Ok(())
        } else {
            self.delete_session(session.id.as_str());
            Err(())
        }
    }

    /// Removes the session with the given identifier; reports whether one
    /// was there.
    pub fn delete_session(&mut self, session_id: &str) -> (r: bool)
        ensures
            final(self).conf() == old(self).conf(),
            final(self).list().len() <= old(self).list().len(),
    {
        let mut i: usize = 0;
        while i < self.sessions.len()
            invariant
                i <= self.sessions.len(),
                self.config == old(self).conf(),
                self.sessions@.len() <= old(self).list().len(),
            decreases self.sessions.len() - i,
        {
            if bytes_eq(self.sessions[i].id.as_str().as_bytes(), session_id.as_bytes()) {
                self.sessions.remove(i);
                return true;
            }
            i += 1;
        }
        false
    }

    /// The session named by the configured cookie, when the jar has it.
    pub fn get_session_from_cookies(&mut self, cookies: &CookieJar) -> (r: Option<Session>)
        ensures
            final(self).conf() == old(self).conf(),
    {
        let name = self.config.cookie_name.clone();
        match cookies.get_value(name.as_str()) {
            Some(id) => {
                let id_owned = String::from_str(id);
                self.get_session(id_owned.as_str())
            },
            None => None,
        }
    }

    /// The cookie that carries a session: the configured name, path,
    /// domain and flags, expiring one default lifetime from now.
    pub fn create_session_cookie(&self, session_id: &str) -> (r: Cookie)
        ensures
            r.name == self.conf().cookie_name,
            r.value@ == session_id@,
            r.http_only == self.conf().http_only_cookies,
            r.secure == self.conf().secure_cookies,
            r.expires is Some,
    {
        let mut cookie = Cookie::session(
            self.config.cookie_name.clone(),
            String::from_str(session_id),
        );
        cookie = cookie.path(self.config.cookie_path.clone());
        if let Some(d) = &self.config.cookie_domain {
            cookie = cookie.domain(d.clone());
        }
        cookie.secure = self.config.secure_cookies;
        cookie.http_only = self.config.http_only_cookies;
        let now = now_unix_millis();
        let life = self.config.default_expiration / 1000;
        let nows = now / 1000;
        let exp = if nows > u64::MAX - life {
            u64::MAX
        } else {
            nows + life
        };
        cookie = cookie.expires(exp);
        cookie
    }

    /// The cookie that deletes a session: the configured name with an
    /// empty value, expiring in the past.
    pub fn create_deletion_cookie(&self) -> (r: Cookie)
        ensures
            r.name == self.conf().cookie_name,
            r.value@.len() == 0,
            r.expires is Some,
    {
        proof {
            reveal_strlit("");
        }
        let mut cookie = Cookie::new(self.config.cookie_name.clone(), String::from_str(""));
        cookie = cookie.path(self.config.cookie_path.clone());
        if let Some(d) = &self.config.cookie_domain {
            cookie = cookie.domain(d.clone());
        }
        let now = now_unix_millis();
        let nows = now / 1000;
        let past = if nows > 3600 {
            nows - 3600
        } else {
            0
        };
        cookie = cookie.expires(past);
        cookie
    }

    /// Sweeps expired sessions when the cleanup interval has passed since
    /// the last sweep.
    pub fn cleanup_expired_sessions(&mut self)
        ensures
            final(self).conf() == old(self).conf(),
            final(self).list().len() <= old(self).list().len(),
    {
        let now = now_unix_millis();
        let since = if now > self.last_cleanup {
            now - self.last_cleanup
        } else {
            0
        };
        if since >= self.config.cleanup_interval {
            self.sweep_expired();
            self.last_cleanup = now;
        }
    }

    /// How many sessions the store holds.
    pub fn session_count(&self) -> (r: usize)
        ensures
            r == self.list().len(),
    {
        self.sessions.len()
    }

    /// The configuration.
    pub fn config(&self) -> (r: &SessionConfig)
        ensures
            *r == self.conf(),
    {
        &self.config
    }

    /// Drops every session.
    pub fn clear_all_sessions(&mut self)
        ensures
            final(self).list() == Seq::<Session>::empty(),
            final(self).conf() == old(self).conf(),
    {
        self.sessions.clear();
    }

    /// Counts sessions by validity at the clock's reading: the total is
    /// the store's size and splits into active and expired.
    pub fn get_stats(&self) -> (r: SessionStats)
        ensures
            r.total_sessions == self.list().len(),
            r.total_sessions == r.active_sessions + r.expired_sessions,
    {
        let now = now_unix_millis();
        let mut expired: usize = 0;
        let mut i: usize = 0;
        while i < self.sessions.len()
            invariant
                i <= self.sessions.len(),
                expired <= i,
            decreases self.sessions.len() - i,
        {
            if !self.sessions[i].is_valid_at(now) {
                expired += 1;
            }
            i += 1;
        }
        SessionStats {
            total_sessions: self.sessions.len(),
            active_sessions: self.sessions.len() - expired,
            expired_sessions: expired,
        }
    }
}

impl Clone for SessionStore {
    /// A clone holds as many sessions, each with the same identifier.
    fn clone(&self) -> (r: Self)
        ensures
            r.list().len() == self.list().len(),
    {
        let mut sessions: Vec<Session> = Vec::new();
        let mut i: usize = 0;
        while i < self.sessions.len()
            invariant
                i <= self.sessions.len(),
                sessions@.len() == i,
            decreases self.sessions.len() - i,
        {
            let s = self.sessions[i].clone();
            sessions.push(s);
            i += 1;
        }
        SessionStore {
            sessions,
            config: self.config.clone(),
            last_cleanup: self.last_cleanup,
        }
    }
}

} // verus!
