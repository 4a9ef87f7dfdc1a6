//! One session: an identifier and a small string map with timestamps.
//! Timestamps are milliseconds since the Unix epoch, read through the
//! library's one clock; nothing is assumed of their values.

use vstd::prelude::*;

use crate::clock::{now_unix_millis, now_unix_nanos};
use crate::http::request::{Headers, spec_get_exact, spec_insert, spec_remove};
use crate::util::{utf8_bytes, hex_digits, u64_to_hex, string_from_bytes, all_ascii,
    lemma_ascii_valid_utf8};

verus! {

/// A session's key-value data with its timestamps.
#[derive(Debug)]
pub struct SessionData {
    data: Headers,
    created_at: u64,
    last_accessed: u64,
    expires_at: Option<u64>,
}

impl SessionData {
    /// The key-value pairs, as byte pairs in insertion order.
    pub closed spec fn kv(&self) -> Seq<(Seq<u8>, Seq<u8>)> {
        self.data.pairs()
    }

    /// When the session was created.
    pub closed spec fn created(&self) -> u64 {
        self.created_at
    }

    /// When the session was last touched.
    pub closed spec fn accessed(&self) -> u64 {
        self.last_accessed
    }

    /// When the session expires, if it does.
    pub closed spec fn expiry(&self) -> Option<u64> {
        self.expires_at
    }

    /// Empty data stamped now, with no expiry.
    pub fn new() -> (r: SessionData)
        ensures
            r.kv() == Seq::<(Seq<u8>, Seq<u8>)>::empty(),
            r.expiry() is None,
            r.created() == r.accessed(),
    {
        let now = now_unix_millis();
        SessionData { data: Headers::new(), created_at: now, last_accessed: now, expires_at: None }
    }

    /// Empty data stamped now, expiring `expires_in_ms` from now,
    /// saturating at the largest reading.
    pub fn with_expiration(expires_in_ms: u64) -> (r: SessionData)
        ensures
            r.kv() == Seq::<(Seq<u8>, Seq<u8>)>::empty(),
            r.expiry() == Some(
                if r.created() > u64::MAX - expires_in_ms {
                    u64::MAX
                } else {
                    (r.created() + expires_in_ms) as u64
                },
            ),
            r.created() == r.accessed(),
    {
        let now = now_unix_millis();
        let exp = if now > u64::MAX - expires_in_ms {
            u64::MAX
        } else {
            now + expires_in_ms
        };
        SessionData {
            data: Headers::new(),
            created_at: now,
            last_accessed: now,
            expires_at: Some(exp),
        }
    }

    /// Stores a value under a key, replacing an equal key, and touches
    /// the access stamp.
    pub fn set(&mut self, key: String, value: String)
        ensures
            final(self).kv() == spec_insert(old(self).kv(), utf8_bytes(key@), utf8_bytes(value@)),
            final(self).created() == old(self).created(),
            final(self).expiry() == old(self).expiry(),
    {
        self.data.insert(key, value);
        self.touch();
    }

    /// The value under a key, touching the access stamp.
    pub fn get(&mut self, key: &str) -> (r: Option<&str>)
        ensures
            match r {
                Some(v) => spec_get_exact(final(self).kv(), utf8_bytes(key@)) == Some(
                    utf8_bytes(v@),
                ),
                None => spec_get_exact(final(self).kv(), utf8_bytes(key@)) is None,
            },
            final(self).kv() == old(self).kv(),
            final(self).created() == old(self).created(),
            final(self).expiry() == old(self).expiry(),
    {
        self.touch();
        match self.data.get(key) {
            Some(v) => Some(v.as_str()),
            None => None,
        }
    }

    /// The value under a key, without touching the access stamp.
    pub fn peek(&self, key: &str) -> (r: Option<&str>)
        ensures
            match r {
                Some(v) => spec_get_exact(self.kv(), utf8_bytes(key@)) == Some(utf8_bytes(v@)),
                None => spec_get_exact(self.kv(), utf8_bytes(key@)) is None,
            },
    {
        match self.data.get(key) {
            Some(v) => Some(v.as_str()),
            None => None,
        }
    }

    /// Removes a key, handing back its value, and touches the stamp.
    pub fn remove(&mut self, key: &str) -> (r: Option<String>)
        ensures
            final(self).kv() == spec_remove(old(self).kv(), utf8_bytes(key@)),
            match r {
                Some(v) => spec_get_exact(old(self).kv(), utf8_bytes(key@)) == Some(
                    utf8_bytes(v@),
                ),
                None => spec_get_exact(old(self).kv(), utf8_bytes(key@)) is None,
            },
            final(self).created() == old(self).created(),
            final(self).expiry() == old(self).expiry(),
    {
        let r = match self.data.get(key) {
            Some(v) => Some(v.clone()),
            None => None,
        };
        self.data.remove(key);
        self.touch();
        r
    }

    /// Whether the data holds a key.
    pub fn contains(&self, key: &str) -> (r: bool)
        ensures
            r == (spec_get_exact(self.kv(), utf8_bytes(key@)) is Some),
    {
        self.data.contains_key(key)
    }

    /// The keys, in insertion order.
    pub fn keys(&self) -> (r: Vec<String>)
        ensures
            r@.len() == self.kv().len(),
            forall|i: int| 0 <= i < r@.len() ==> utf8_bytes(#[trigger] r@[i]@) == self.kv()[i].0,
    {
        let mut out: Vec<String> = Vec::new();
        let mut i: usize = 0;
        let n = self.data.len();
        while i < n
            invariant
                i <= n,
                n == self.kv().len(),
                out@.len() == i,
                forall|j: int| 0 <= j < i ==> utf8_bytes(#[trigger] out@[j]@) == self.kv()[j].0,
            decreases n - i,
        {
            let (k, _) = self.data.pair_at(i);
            out.push(k.clone());
            i += 1;
        }
        out
    }

    /// Drops every pair and touches the stamp.
    pub fn clear(&mut self)
        ensures
            final(self).kv() == Seq::<(Seq<u8>, Seq<u8>)>::empty(),
            final(self).created() == old(self).created(),
            final(self).expiry() == old(self).expiry(),
    {
        self.data = Headers::new();
        self.touch();
    }

    /// Whether the data holds no pair.
    pub fn is_empty(&self) -> (r: bool)
        ensures
            r == (self.kv().len() == 0),
    {
        self.data.is_empty()
    }

    /// How many pairs the data holds.
    pub fn len(&self) -> (r: usize)
        ensures
            r == self.kv().len(),
    {
        self.data.len()
    }

    /// Stamps the data as just accessed. The reading comes from the
    /// clock; nothing is assumed of it.
    pub fn touch(&mut self)
        ensures
            final(self).kv() == old(self).kv(),
            final(self).created() == old(self).created(),
            final(self).expiry() == old(self).expiry(),
    {
        self.last_accessed = now_unix_millis();
    }

    /// Whether the session has expired at reading `now`.
    pub fn is_expired_at(&self, now: u64) -> (r: bool)
        ensures
            r == match self.expiry() {
                Some(t) => now > t,
                None => false,
            },
    {
        match self.expires_at {
            Some(t) => now > t,
            None => false,
        }
    }

    /// Whether the session has expired at the clock's current reading.
    pub fn is_expired(&self) -> (r: bool)
        ensures
            self.expiry() is None ==> !r,
    {
        let now = now_unix_millis();
        self.is_expired_at(now)
    }

    /// When the session was created, in milliseconds since the epoch.
    pub fn created_at(&self) -> (r: u64)
        ensures
            r == self.created(),
    {
        self.created_at
    }

    /// When the session was last accessed.
    pub fn last_accessed(&self) -> (r: u64)
        ensures
            r == self.accessed(),
    {
        self.last_accessed
    }

    /// When the session expires, if it does.
    pub fn expires_at(&self) -> (r: Option<u64>)
        ensures
            r == self.expiry(),
    {
        self.expires_at
    }

    /// Pins the expiry to a timestamp.
    pub fn set_expiration(&mut self, expires_at: u64)
        ensures
            final(self).expiry() == Some(expires_at),
            final(self).kv() == old(self).kv(),
            final(self).created() == old(self).created(),
    {
        self.expires_at = Some(expires_at);
    }

    /// Extends the expiry to `duration_ms` past the clock's reading.
    pub fn extend_expiration(&mut self, duration_ms: u64)
        ensures
            final(self).expiry() is Some,
            final(self).kv() == old(self).kv(),
            final(self).created() == old(self).created(),
    {
        let now = now_unix_millis();
        let exp = if now > u64::MAX - duration_ms {
            u64::MAX
        } else {
            now + duration_ms
        };
        self.expires_at = Some(exp);
    }

    /// Removes the expiry.
    pub fn remove_expiration(&mut self)
        ensures
            final(self).expiry() is None,
            final(self).kv() == old(self).kv(),
            final(self).created() == old(self).created(),
    {
        self.expires_at = None;
    }
}

impl Clone for SessionData {
    /// A clone holds the same pairs and stamps.
    fn clone(&self) -> (r: Self)
        ensures
            r.kv() == self.kv(),
            r.created() == self.created(),
            r.accessed() == self.accessed(),
            r.expiry() == self.expiry(),
    {
        SessionData {
            data: self.data.clone(),
            created_at: self.created_at,
            last_accessed: self.last_accessed,
            expires_at: self.expires_at,
        }
    }
}

impl Default for SessionData {
    /// Empty data stamped now.
    fn default() -> (r: Self)
        ensures
            r.kv() == Seq::<(Seq<u8>, Seq<u8>)>::empty(),
            r.expiry() is None,
    {
        Self::new()
    }
}

/// A session: an identifier and its data.
#[derive(Debug)]
pub struct Session {
    pub id: String,
    pub data: SessionData,
}

impl Clone for Session {
    /// A clone carries the same identifier bytes and the same data.
    fn clone(&self) -> (r: Self)
        ensures
            r.id@ == self.id@,
            r.data.kv() == self.data.kv(),
            r.data.expiry() == self.data.expiry(),
            r.data.created() == self.data.created(),
    {
        Session { id: self.id.clone(), data: self.data.clone() }
    }
}

impl Session {
    /// A session with empty data and no expiry.
    pub fn new(id: String) -> (r: Session)
        ensures
            r.id == id,
            r.data.kv() == Seq::<(Seq<u8>, Seq<u8>)>::empty(),
            r.data.expiry() is None,
    {
        Session { id, data: SessionData::new() }
    }

    /// A session with empty data expiring `expires_in_ms` from now,
    /// saturating at the largest reading.
    pub fn with_expiration(id: String, expires_in_ms: u64) -> (r: Session)
        ensures
            r.id == id,
            r.data.kv() == Seq::<(Seq<u8>, Seq<u8>)>::empty(),
            r.data.expiry() == Some(
                if r.data.created() > u64::MAX - expires_in_ms {
                    u64::MAX
                } else {
                    (r.data.created() + expires_in_ms) as u64
                },
            ),
    {
        Session { id, data: SessionData::with_expiration(expires_in_ms) }
    }

    /// A fresh session identifier built from the clock's nanosecond
    /// reading: its hexadecimal digits followed by sixteen digits drawn
    /// from the reading's nibbles. Two readings that differ give two
    /// different prefixes; nothing more is assumed.
    pub fn generate_id() -> (r: Result<String, ()>)
        ensures
            r matches Ok(s) && s@.len() > 0,
    {
        let stamp = now_unix_nanos();
        let mut bytes = u64_to_hex(stamp);
        proof {
            crate::util::lemma_hex_digits_value(stamp as nat);
            assert(forall|j: int|
                0 <= j < bytes@.len() ==> crate::util::is_hex_digit(#[trigger] bytes@[j]));
        }
        let mut i: usize = 0;
        while i < 16
            invariant
                i <= 16,
                bytes@.len() >= 1,
                forall|j: int| 0 <= j < bytes@.len() ==> #[trigger] bytes@[j] < 128,
            decreases 16 - i,
        {
            let shift: u64 = (i as u64) * 4;
            let masked = (stamp >> shift) & 0xf;
            proof {
                assert((stamp >> shift) & 0xf < 16) by (bit_vector);
            }
            let nib = masked as u8;
            let c: u8 = if nib < 10 {
                48 + nib
            } else {
                87 + nib
            };
            bytes.push(c);
            i += 1;
        }
        proof {
            lemma_ascii_valid_utf8(bytes@);
        }
        let ghost blen = bytes@.len();
        match string_from_bytes(bytes) {
            Some(s) => {
                proof {
                    if s@.len() == 0 {
                        assert(utf8_bytes(s@) =~= Seq::<u8>::empty());
                    }
                }
                Ok(s)
            },
            None => {
                proof {
                    assert(false);
                }
                Err(())
            },
        }
    }

    /// Whether the session is still valid at the clock's reading.
    pub fn is_valid(&self) -> (r: bool)
        ensures
            self.data.expiry() is None ==> r,
    {
        !self.data.is_expired()
    }

    /// Whether the session is still valid at reading `now`.
    pub fn is_valid_at(&self, now: u64) -> (r: bool)
        ensures
            r == match self.data.expiry() {
                Some(t) => now <= t,
                None => true,
            },
    {
        !self.data.is_expired_at(now)
    }
}

} // verus!
