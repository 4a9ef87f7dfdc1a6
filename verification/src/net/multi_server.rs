//! Virtual-host and listener selection, and the server's counters.

use vstd::prelude::*;

use crate::config::server::{VirtualHostConfig, ListenerConfig};
use crate::util::{utf8_bytes, bytes_eq, lower, lower_bytes_exec, string_from_bytes,
    find_byte, find_byte_exec, lemma_find_byte_from_ok, lemma_ascii_valid_utf8,
    lemma_utf8_bytes_ascii};

verus! {

/// The running counters.
#[derive(Debug, Clone, Copy, PartialEq, Eq, Structural)]
pub struct ServerStats {
    pub connections_accepted: u64,
    pub active_connections: u32,
    pub requests_processed: u64,
    pub bytes_sent: u64,
    pub bytes_received: u64,
    pub errors: u64,
    pub uptime_seconds: u64,
}

impl Default for ServerStats {
    /// All counters at zero.
    fn default() -> (r: Self)
        ensures
            r == (ServerStats {
                connections_accepted: 0,
                active_connections: 0,
                requests_processed: 0,
                bytes_sent: 0,
                bytes_received: 0,
                errors: 0,
                uptime_seconds: 0,
            }),
    {
        ServerStats {
            connections_accepted: 0,
            active_connections: 0,
            requests_processed: 0,
            bytes_sent: 0,
            bytes_received: 0,
            errors: 0,
            uptime_seconds: 0,
        }
    }
}

/// Selection rules over hosts and listeners.
#[derive(Debug)]
pub struct ServerSelector;

impl ServerSelector {
    /// The virtual host for a `Host` header: an exact name match, then a
    /// match with the port stripped, then a `*.domain` wildcard, then
    /// the default host, then the first host.
    pub fn select_virtual_host<'a>(
        virtual_hosts: &'a Vec<VirtualHostConfig>,
        host_header: Option<&str>,
        default_host: Option<&str>,
    ) -> (r: Option<&'a VirtualHostConfig>)
        ensures
            virtual_hosts@.len() == 0 ==> r is None,
            virtual_hosts@.len() > 0 ==> r is Some,
    {
        if let Some(host) = host_header {
            let hb = host.as_bytes();
            let mut i: usize = 0;
            while i < virtual_hosts.len()
                decreases virtual_hosts.len() - i,
            {
                if bytes_eq(virtual_hosts[i].server_name.as_str().as_bytes(), hb) {
                    return Some(&virtual_hosts[i]);
                }
                i += 1;
            }
            proof {
                lemma_find_byte_from_ok(hb@, 58, 0);
            }
            if let Some(colon) = find_byte_exec(hb, 58, 0) {
                let bare = &hb[0..colon];
                let mut i: usize = 0;
                while i < virtual_hosts.len()
                    decreases virtual_hosts.len() - i,
                {
                    if bytes_eq(virtual_hosts[i].server_name.as_str().as_bytes(), bare) {
                        return Some(&virtual_hosts[i]);
                    }
                    i += 1;
                }
            }
            let mut i: usize = 0;
            while i < virtual_hosts.len()
                decreases virtual_hosts.len() - i,
            {
                let nb = virtual_hosts[i].server_name.as_str().as_bytes();
                if nb.len() >= 2 && nb[0] == 42 && nb[1] == 46 {
                    let domain = &nb[2..nb.len()];
                    if hb.len() >= domain.len() && bytes_eq(
                        &hb[hb.len() - domain.len()..hb.len()],
                        domain,
                    ) {
                        return Some(&virtual_hosts[i]);
                    }
                }
                i += 1;
            }
        }
        if let Some(default) = default_host {
            let db = default.as_bytes();
            let mut i: usize = 0;
            while i < virtual_hosts.len()
                decreases virtual_hosts.len() - i,
            {
                if bytes_eq(virtual_hosts[i].server_name.as_str().as_bytes(), db) {
                    return Some(&virtual_hosts[i]);
                }
                i += 1;
            }
        }
        if virtual_hosts.len() > 0 {
            Some(&virtual_hosts[0])
        } else {
            None
        }
    }

    /// The listener for a preferred address: a match on the address,
    /// then the default listener, then the first.
    pub fn select_listener<'a>(
        listeners: &'a Vec<ListenerConfig>,
        preferred_address: Option<&str>,
    ) -> (r: Option<&'a ListenerConfig>)
        ensures
            listeners@.len() == 0 ==> r is None,
            listeners@.len() > 0 ==> r is Some,
    {
        if let Some(addr) = preferred_address {
            let ab = addr.as_bytes();
            let mut i: usize = 0;
            while i < listeners.len()
                decreases listeners.len() - i,
            {
                if bytes_eq(listeners[i].address.as_str().as_bytes(), ab) {
                    return Some(&listeners[i]);
                }
                i += 1;
            }
        }
        let mut i: usize = 0;
        while i < listeners.len()
            decreases listeners.len() - i,
        {
            if listeners[i].default {
                return Some(&listeners[i]);
            }
            i += 1;
        }
        if listeners.len() > 0 {
            Some(&listeners[0])
        } else {
            None
        }
    }

    /// Whether a host matches a server-name pattern: `*` matches
    /// everything, `*.domain` matches any host carrying that suffix,
    /// anything else matches exactly.
    pub fn host_matches_pattern(host: &str, pattern: &str) -> (r: bool)
        ensures
            r == ({
                let pb = utf8_bytes(pattern@);
                let hb = utf8_bytes(host@);
                pb == seq![42u8] || (pb.len() >= 2 && pb[0] == 42 && pb[1] == 46 && hb.len()
                    >= pb.len() - 2 && hb.skip(hb.len() - (pb.len() - 2)) == pb.skip(2)) || hb
                    == pb
            }),
    {
        proof {
            reveal_strlit("*");
            lemma_utf8_bytes_ascii("*"@);
            assert(utf8_bytes("*"@) =~= seq![42u8]);
        }
        let pb = pattern.as_bytes();
        if bytes_eq(pb, "*".as_bytes()) {
            return true;
        }
        let hb = host.as_bytes();
        if pb.len() >= 2 && pb[0] == 42 && pb[1] == 46 {
            let domain = &pb[2..pb.len()];
            proof {
                assert(domain@ =~= utf8_bytes(pattern@).skip(2));
            }
            if hb.len() < domain.len() {
                return false;
            }
            let tail = &hb[hb.len() - domain.len()..hb.len()];
            proof {
                assert(tail@ =~= utf8_bytes(host@).skip(
                    utf8_bytes(host@).len() - (utf8_bytes(pattern@).len() - 2),
                ));
            }
            let m = bytes_eq(tail, domain);
            proof {
                if !m && hb@ == pb@ {
                    assert(utf8_bytes(host@).skip(
                        utf8_bytes(host@).len() - (utf8_bytes(pattern@).len() - 2),
                    ) =~= utf8_bytes(pattern@).skip(2));
                }
            }
            return m;
        }
        bytes_eq(hb, pb)
    }

    /// A host header normalized: the part before the first colon, ASCII
    /// lower-cased.
    pub fn normalize_host(host: &str) -> (r: String)
        ensures
            utf8_bytes(r@) == ({
                let hb = utf8_bytes(host@);
                let cut = match find_byte(hb, 58) {
                    Some(p) => hb.take(p),
                    None => hb,
                };
                if vstd::utf8::valid_utf8(lower(cut)) {
                    lower(cut)
                } else {
                    Seq::<u8>::empty()
                }
            }),
            utf8_bytes(r@).len() <= utf8_bytes(host@).len(),
    {
        let hb = host.as_bytes();
        proof {
            lemma_find_byte_from_ok(hb@, 58, 0);
        }
        let end = match find_byte_exec(hb, 58, 0) {
            Some(p) => p,
            None => hb.len(),
        };
        proof {
            assert(hb@.subrange(0, end as int) =~= match find_byte(utf8_bytes(host@), 58) {
                Some(p) => utf8_bytes(host@).take(p),
                None => utf8_bytes(host@),
            });
        }
        let low = lower_bytes_exec(&hb[0..end]);
        let ghost lowlen = low@.len();
        let ghost lowb = low@;
        match string_from_bytes(low) {
            Some(s) => {
                proof {
                    assert(utf8_bytes(s@).len() == lowlen);
                }
                s
            },
            None => {
                let empty = String::new();
                proof {
                    reveal_strlit("");
                    assert(empty@ =~= ""@);
                    lemma_utf8_bytes_ascii(""@);
                    assert(utf8_bytes(empty@) =~= Seq::<u8>::empty());
                }
                empty
            },
        }
    }
}

} // verus!
