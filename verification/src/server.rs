//! The server facade's computations: human-readable byte counts and the
//! builder over a configuration. Binding sockets and running the loop
//! happen outside the library.

use vstd::prelude::*;

use crate::config::server::ServerConfig;
use crate::util::{u64_to_dec, utf8_bytes, string_from_bytes, dec_digits, all_ascii,
    lemma_ascii_valid_utf8};

verus! {

/// A byte count in a human-readable unit: whole bytes below 1024,
/// otherwise two decimals of the next unit up.
pub fn format_bytes(bytes: u64) -> (r: String)
    ensures
        r@.len() > 0,
{
    proof {
        reveal_strlit("0 B");
        reveal_strlit(" B");
        reveal_strlit(" KB");
        reveal_strlit(" MB");
        reveal_strlit(" GB");
        reveal_strlit(" TB");
        reveal_strlit(".");
    }
    if bytes == 0 {
        return nonempty(String::from_str("0 B"));
    }
    let mut size = bytes;
    let mut unit: usize = 0;
    let mut scaled100: u64 = 0;
    while size >= 1024 && unit < 4
        invariant
            unit <= 4,
        decreases 4 - unit,
    {
        scaled100 = (size % 1024) * 100 / 1024;
        size = size / 1024;
        unit += 1;
    }
    let mut out: Vec<u8> = Vec::new();
    if unit == 0 {
        let mut d = u64_to_dec(bytes);
        out.append(&mut d);
        out.extend_from_slice(" B".as_bytes());
    } else {
        let mut d = u64_to_dec(size);
        out.append(&mut d);
        out.push(46);
        let frac = scaled100 % 100;
        out.push(48 + (frac / 10 % 10) as u8);
        out.push(48 + (frac % 10) as u8);
        if unit == 1 {
            out.extend_from_slice(" KB".as_bytes());
        } else if unit == 2 {
            out.extend_from_slice(" MB".as_bytes());
        } else if unit == 3 {
            out.extend_from_slice(" GB".as_bytes());
        } else {
            out.extend_from_slice(" TB".as_bytes());
        }
    }
    proof {
        crate::http::response::lemma_dec_digits_ascii(bytes as nat);
        crate::http::response::lemma_dec_digits_ascii(size as nat);
        crate::util::lemma_utf8_bytes_ascii(" B"@);
        crate::util::lemma_utf8_bytes_ascii(" KB"@);
        crate::util::lemma_utf8_bytes_ascii(" MB"@);
        crate::util::lemma_utf8_bytes_ascii(" GB"@);
        crate::util::lemma_utf8_bytes_ascii(" TB"@);
        lemma_ascii_valid_utf8(out@);
    }
    match string_from_bytes(out) {
        Some(s) => nonempty(s),
        None => nonempty(String::from_str("0 B")),
    }
}

/// Hands the string through when non-empty, `0 B` otherwise.
fn nonempty(s: String) -> (r: String)
    ensures
        r@.len() > 0,
{
    proof {
        reveal_strlit("0 B");
        crate::util::lemma_utf8_bytes_ascii("0 B"@);
    }
    if s.as_str().unicode_len() == 0 {
        String::from_str("0 B")
    } else {
        s
    }
}

/// A builder over a configuration.
#[derive(Debug)]
pub struct ServerBuilder {
    config: ServerConfig,
}

impl ServerBuilder {
    /// A builder holding the default configuration.
    pub fn new() -> (r: ServerBuilder)
    {
        ServerBuilder { config: ServerConfig::default() }
    }

    /// Replaces the configuration.
    pub fn with_config(self, config: ServerConfig) -> (r: ServerBuilder)
    {
        ServerBuilder { config }
    }

    /// Hands out the configuration for the loop outside the library.
    pub fn build(self) -> (r: Result<ServerConfig, ()>)
        ensures
            r is Ok,
    {
        Ok(self.config)
    }
}

impl Default for ServerBuilder {
    /// A builder holding the default configuration.
    fn default() -> (r: Self)
    {
        Self::new()
    }
}

} // verus!
