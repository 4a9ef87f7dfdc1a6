//! A small line-oriented configuration parser: sections in brackets,
//! `key = value` pairs, durations like `30s`, sizes like `10MB`.

use vstd::prelude::*;

use crate::config::server::{
    ServerConfig, ListenerConfig, VirtualHostConfig, RouteConfig, RouteType, GlobalConfig,
    TimeoutConfig, UploadConfig, SessionConfig, CgiConfig, LoggingConfig, SecurityConfig,
};
use crate::util::{
    utf8_bytes, dec_value, is_dec_numeral, parse_dec, lower, lower_bytes_exec, string_from_bytes,
    find_byte_exec, trim_exec, bytes_eq, lemma_utf8_bytes_ascii, all_ascii,
};

verus! {

/// The configuration file formats the parser knows.
#[derive(Debug, Clone, Copy, PartialEq, Eq, Structural)]
pub enum ConfigFormat {
    /// The line-oriented format this parser reads.
    Toml,
    /// Reserved; not read by this parser.
    Json,
    /// Choose by file extension.
    Auto,
}

/// The configuration parser.
#[derive(Debug)]
pub struct ConfigParser {
    pub format: ConfigFormat,
}

/// ASCII upper-casing of one byte.
pub open spec fn upper_byte(b: u8) -> u8 {
    if 97 <= b && b <= 122 {
        (b - 32) as u8
    } else {
        b
    }
}

/// ASCII upper-casing of a byte sequence.
pub open spec fn upper(s: Seq<u8>) -> Seq<u8> {
    s.map_values(|b: u8| upper_byte(b))
}

/// The seconds a duration text names: a decimal with an optional `s`,
/// `m` or `h` suffix; `None` when malformed or out of range.
pub open spec fn spec_duration(s: Seq<u8>) -> Option<u64> {
    if s.len() > 0 && s.last() == 115 {
        spec_scaled(s.drop_last(), 1)
    } else if s.len() > 0 && s.last() == 109 {
        spec_scaled(s.drop_last(), 60)
    } else if s.len() > 0 && s.last() == 104 {
        spec_scaled(s.drop_last(), 3600)
    } else {
        spec_scaled(s, 1)
    }
}

/// A decimal numeral scaled by a unit, within `u64`.
pub open spec fn spec_scaled(s: Seq<u8>, unit: nat) -> Option<u64> {
    if is_dec_numeral(s) && dec_value(s) * unit <= u64::MAX {
        Some((dec_value(s) * unit) as u64)
    } else {
        None
    }
}

/// The bytes a size text names: a decimal with an optional `B`, `KB`,
/// `MB` or `GB` suffix, case-insensitively; `None` when malformed or out
/// of range.
pub open spec fn spec_size(s0: Seq<u8>) -> Option<u64> {
    let s = upper(s0);
    if s.len() >= 2 && s[s.len() - 2] == 71 && s.last() == 66 {
        spec_scaled(s.take(s.len() - 2), 1073741824)
    } else if s.len() >= 2 && s[s.len() - 2] == 77 && s.last() == 66 {
        spec_scaled(s.take(s.len() - 2), 1048576)
    } else if s.len() >= 2 && s[s.len() - 2] == 75 && s.last() == 66 {
        spec_scaled(s.take(s.len() - 2), 1024)
    } else if s.len() >= 1 && s.last() == 66 {
        spec_scaled(s.take(s.len() - 1), 1)
    } else {
        spec_scaled(s, 1)
    }
}

/// Whether a text names truth: `true`, `yes`, `1` or `on`, in any case.
pub open spec fn spec_bool(s: Seq<u8>) -> bool {
    ||| lower(s) == utf8_bytes("true"@)
    ||| lower(s) == utf8_bytes("yes"@)
    ||| lower(s) == utf8_bytes("1"@)
    ||| lower(s) == utf8_bytes("on"@)
}

/// A value with one pair of matching surrounding quotes removed.
pub open spec fn spec_unquote(s: Seq<char>) -> Seq<char> {
    if s.len() >= 2 && ((s[0] == '"' && s.last() == '"') || (s[0] == '\'' && s.last() == '\'')) {
        s.subrange(1, s.len() - 1)
    } else {
        s
    }
}

impl ConfigParser {
    /// A parser for the given format.
    pub fn new(format: ConfigFormat) -> (r: ConfigParser)
        ensures
            r.format == format,
    {
        ConfigParser { format }
    }

    /// Parses a duration such as `30s`, `5m` or `1h`; a bare number is
    /// seconds.
    pub fn parse_duration(&self, value: &str) -> (r: Result<u64, ()>)
        ensures
            match r {
                Ok(v) => spec_duration(utf8_bytes(value@)) == Some(v),
                Err(_) => spec_duration(utf8_bytes(value@)) is None,
            },
    {
        let b = value.as_bytes();
        let ghost s = utf8_bytes(value@);
        if b.len() > 0 && (b[b.len() - 1] == 115 || b[b.len() - 1] == 109 || b[b.len() - 1]
            == 104) {
            let unit: u64 = if b[b.len() - 1] == 115 {
                1
            } else if b[b.len() - 1] == 109 {
                60
            } else {
                3600
            };
            let prefix = &b[0..b.len() - 1];
            proof {
                assert(prefix@ =~= s.drop_last());
            }
            Self::scaled(prefix, unit)
        } else {
            Self::scaled(b, 1)
        }
    }

    /// A decimal numeral scaled by a unit, within `u64`.
    fn scaled(b: &[u8], unit: u64) -> (r: Result<u64, ()>)
        requires
            unit >= 1,
        ensures
            match r {
                Ok(v) => spec_scaled(b@, unit as nat) == Some(v),
                Err(_) => spec_scaled(b@, unit as nat) is None,
            },
    {
        match parse_dec(b, u64::MAX / unit) {
            Some(v) => {
                proof {
                    assert(v * unit <= (u64::MAX / unit) * unit <= u64::MAX) by (nonlinear_arith)
                        requires
                            v <= u64::MAX / unit,
                            unit >= 1,
                    ;
                }
                Ok(v * unit)
            },
            None => {
                proof {
                    if is_dec_numeral(b@) && dec_value(b@) * (unit as nat) <= u64::MAX {
                        assert(dec_value(b@) <= (u64::MAX as nat) / (unit as nat)) by (nonlinear_arith)
                            requires
                                dec_value(b@) * (unit as nat) <= u64::MAX,
                                unit >= 1,
                        ;
                    }
                }
                Err(())
            },
        }
    }

    /// Parses a size such as `1024`, `8KB`, `10MB` or `2GB`.
    pub fn parse_size(&self, value: &str) -> (r: Result<u64, ()>)
        ensures
            match r {
                Ok(v) => spec_size(utf8_bytes(value@)) == Some(v),
                Err(_) => spec_size(utf8_bytes(value@)) is None,
            },
    {
        let b0 = value.as_bytes();
        let up: Vec<u8> = upper_bytes(b0);
        let b = up.as_slice();
        let ghost s = upper(utf8_bytes(value@));
        let n = b.len();
        if n >= 2 && b[n - 2] == 71 && b[n - 1] == 66 {
            proof {
                assert(b@.subrange(0, n - 2) =~= s.take(s.len() - 2));
            }
            Self::scaled(&b[0..n - 2], 1073741824)
        } else if n >= 2 && b[n - 2] == 77 && b[n - 1] == 66 {
            proof {
                assert(b@.subrange(0, n - 2) =~= s.take(s.len() - 2));
            }
            Self::scaled(&b[0..n - 2], 1048576)
        } else if n >= 2 && b[n - 2] == 75 && b[n - 1] == 66 {
            proof {
                assert(b@.subrange(0, n - 2) =~= s.take(s.len() - 2));
            }
            Self::scaled(&b[0..n - 2], 1024)
        } else if n >= 1 && b[n - 1] == 66 {
            proof {
                assert(b@.subrange(0, n - 1) =~= s.take(s.len() - 1));
            }
            Self::scaled(&b[0..n - 1], 1)
        } else {
            Self::scaled(b, 1)
        }
    }

    /// Whether a text names truth.
    pub fn parse_bool(&self, value: &str) -> (r: bool)
        ensures
            r == spec_bool(utf8_bytes(value@)),
    {
        proof {
            reveal_strlit("true");
            reveal_strlit("yes");
            reveal_strlit("1");
            reveal_strlit("on");
            lemma_utf8_bytes_ascii("true"@);
            lemma_utf8_bytes_ascii("yes"@);
            lemma_utf8_bytes_ascii("1"@);
            lemma_utf8_bytes_ascii("on"@);
        }
        let low = lower_bytes_exec(value.as_bytes());
        let b = low.as_slice();
        bytes_eq(b, "true".as_bytes()) || bytes_eq(b, "yes".as_bytes()) || bytes_eq(
            b,
            "1".as_bytes(),
        ) || bytes_eq(b, "on".as_bytes())
    }

    /// Strips one pair of matching surrounding quotes.
    pub fn parse_value(&self, value: &str) -> (r: String)
        ensures
            r@ == spec_unquote(value@),
    {
        let n = value.unicode_len();
        if n >= 2 {
            let c0 = value.get_char(0);
            let cl = value.get_char(n - 1);
            if (c0 == '"' && cl == '"') || (c0 == '\'' && cl == '\'') {
                let inner = value.substring_char(1, n - 1);
                return String::from_str(inner);
            }
        }
        String::from_str(value)
    }

    /// The format a file name's extension picks: `.json` means JSON,
    /// anything else means the line format.
    pub fn detect_format(&self, path: &str) -> (r: ConfigFormat)
        ensures
            r == ConfigFormat::Toml || r == ConfigFormat::Json,
    {
        let b = path.as_bytes();
        let n = b.len();
        if n >= 5 {
            proof {
                reveal_strlit(".json");
                lemma_utf8_bytes_ascii(".json"@);
            }
            if bytes_eq(&b[n - 5..n], ".json".as_bytes()) {
                return ConfigFormat::Json;
            }
        }
        ConfigFormat::Toml
    }

    /// Parses a whole configuration text in the line format: sections
    /// open virtual hosts and routes, `key = value` lines fill them in,
    /// comments and blank lines fall away. Unknown keys are ignored; a
    /// malformed value for a known key fails the parse.
    pub fn parse_content(&self, content: &str, format: ConfigFormat) -> (r: Result<ServerConfig, ()>)
    {
        match format {
            ConfigFormat::Json => Err(()),
            _ => self.parse_toml(content),
        }
    }

    /// The line-format parser behind `parse_content`.
    pub fn parse_toml(&self, content: &str) -> (r: Result<ServerConfig, ()>)
    {
        let mut config = ServerConfig::default();
        config.listeners = Vec::new();
        config.virtual_hosts = Vec::new();
        let mut current_section = String::new();
        let mut current_vhost: Option<VirtualHostConfig> = None;
        let mut current_route: Option<RouteConfig> = None;
        let bytes = content.as_bytes();
        let mut from: usize = 0;
        loop
            invariant
                from <= bytes@.len(),
            decreases bytes@.len() - from,
        {
            proof {
                crate::util::lemma_find_byte_from_ok(bytes@, 10, from as int);
            }
            let end = match find_byte_exec(bytes, 10, from) {
                Some(p) => p,
                None => bytes.len(),
            };
            let line = trim_line(&bytes[from..end]);
            if line.len() > 0 && line[0] != 35 {
                if line[0] == 91 && line[line.len() - 1] == 93 {
                    if let Some(route) = current_route.take() {
                        if let Some(vhost) = &mut current_vhost {
                            vhost.routes.push(route);
                        }
                    }
                    let name = vstd::slice::slice_to_vec(&line.as_slice()[1..line.len() - 1]);
                    if let Some(section) = string_from_bytes(name) {
                        current_section = section;
                        if starts_with(current_section.as_str().as_bytes(), "route.") {
                            current_route = Some(RouteConfig::default());
                        } else {
                            if let Some(vhost) = current_vhost.take() {
                                config.virtual_hosts.push(vhost);
                            }
                            if starts_with(current_section.as_str().as_bytes(), "vhost.") {
                                current_vhost = Some(VirtualHostConfig::default());
                                if let Some(v) = &mut current_vhost {
                                    v.routes = Vec::new();
                                }
                            }
                        }
                    }
                } else {
                    proof {
                        crate::util::lemma_find_byte_from_ok(line@, 61, 0);
                    }
                    if let Some(eq) = find_byte_exec(line.as_slice(), 61, 0) {
                        let key_b = trim_exec(&line.as_slice()[0..eq]);
                        let raw_b = trim_exec(&line.as_slice()[eq + 1..line.len()]);
                        if let (Some(key), Some(raw)) = (
                            string_from_bytes(key_b),
                            string_from_bytes(raw_b),
                        ) {
                            let val = self.parse_value(raw.as_str());
                            let ok = self.set_config_value(
                                &mut config,
                                current_section.as_str(),
                                key.as_str(),
                                val.as_str(),
                                &mut current_vhost,
                                &mut current_route,
                            );
                            if !ok {
                                return Err(());
                            }
                        }
                    }
                }
            }
            if end >= bytes.len() {
                break;
            }
            from = end + 1;
        }
        if let Some(route) = current_route.take() {
            if let Some(vhost) = &mut current_vhost {
                vhost.routes.push(route);
            }
        }
        if let Some(vhost) = current_vhost.take() {
            config.virtual_hosts.push(vhost);
        }
        Ok(config)
    }

    /// Routes one `key = value` pair to its section; reports failure for
    /// a malformed value under a known key.
    pub fn set_config_value(
        &self,
        config: &mut ServerConfig,
        section: &str,
        key: &str,
        value: &str,
        current_vhost: &mut Option<VirtualHostConfig>,
        current_route: &mut Option<RouteConfig>,
    ) -> (ok: bool)
    {
        let sb = section.as_bytes();
        proof {
            reveal_strlit("server");
            reveal_strlit("global");
            reveal_strlit("timeouts");
            reveal_strlit("uploads");
            reveal_strlit("sessions");
            reveal_strlit("cgi");
            reveal_strlit("logging");
            reveal_strlit("security");
        }
        if bytes_eq(sb, "server".as_bytes()) {
            self.set_server_value(config, key, value)
        } else if bytes_eq(sb, "global".as_bytes()) {
            self.set_global_value(&mut config.global, key, value)
        } else if bytes_eq(sb, "timeouts".as_bytes()) {
            self.set_timeout_value(&mut config.global.timeouts, key, value)
        } else if bytes_eq(sb, "uploads".as_bytes()) {
            self.set_upload_value(&mut config.global.uploads, key, value)
        } else if bytes_eq(sb, "sessions".as_bytes()) {
            self.set_session_value(&mut config.global.sessions, key, value)
        } else if bytes_eq(sb, "cgi".as_bytes()) {
            self.set_cgi_value(&mut config.global.cgi, key, value)
        } else if bytes_eq(sb, "logging".as_bytes()) {
            self.set_logging_value(&mut config.global.logging, key, value)
        } else if bytes_eq(sb, "security".as_bytes()) {
            self.set_security_value(&mut config.global.security, key, value)
        } else if starts_with(sb, "vhost.") {
            match current_vhost {
                Some(vhost) => self.set_vhost_value(vhost, key, value),
                None => true,
            }
        } else if starts_with(sb, "route.") {
            match current_route {
                Some(route) => self.set_route_value(route, key, value),
                None => true,
            }
        } else {
            true
        }
    }

    /// `[server]` keys: the default host and `listen` addresses.
    pub fn set_server_value(&self, config: &mut ServerConfig, key: &str, value: &str) -> (ok: bool)
    {
        proof {
            reveal_strlit("default_host");
            reveal_strlit("listen");
        }
        let kb = key.as_bytes();
        if bytes_eq(kb, "default_host".as_bytes()) {
            config.default_host = Some(String::from_str(value));
            true
        } else if bytes_eq(kb, "listen".as_bytes()) {
            let vb = value.as_bytes();
            proof {
                crate::util::lemma_find_byte_from_ok(vb@, 58, 0);
            }
            match find_byte_exec(vb, 58, 0) {
                Some(colon) => {
                    let vlen = vb.len();
                    proof {
                        crate::util::lemma_find_byte_from_ok(vb@, 58, 0);
                        assert(colon < vlen);
                    }
                    let addr = vstd::slice::slice_to_vec(&vb[0..colon]);
                    let port_b = &vb[colon + 1..vb.len()];
                    match (string_from_bytes(addr), parse_dec(port_b, 65535)) {
                        (Some(address), Some(port)) => {
                            let default = config.listeners.len() == 0;
                            config.listeners.push(
                                ListenerConfig { address, port: port as u16, default },
                            );
                            true
                        },
                        _ => false,
                    }
                },
                None => true,
            }
        } else {
            true
        }
    }

    /// `[global]` keys: the server name and worker count.
    pub fn set_global_value(&self, global: &mut GlobalConfig, key: &str, value: &str) -> (ok: bool)
    {
        proof {
            reveal_strlit("server_name");
            reveal_strlit("workers");
        }
        let kb = key.as_bytes();
        if bytes_eq(kb, "server_name".as_bytes()) {
            global.server_name = String::from_str(value);
        } else if bytes_eq(kb, "workers".as_bytes()) {
            global.workers = match parse_dec(value.as_bytes(), usize::MAX as u64) {
                Some(v) => v as usize,
                None => 1,
            };
        }
        true
    }

    /// `[timeouts]` keys: each known key takes a duration.
    pub fn set_timeout_value(&self, timeouts: &mut TimeoutConfig, key: &str, value: &str) -> (ok:
        bool)
        ensures
            !ok ==> spec_duration(utf8_bytes(value@)) is None,
    {
        proof {
            reveal_strlit("read_header");
            reveal_strlit("read_body");
            reveal_strlit("write");
            reveal_strlit("keep_alive");
            reveal_strlit("request");
        }
        let kb = key.as_bytes();
        let known = bytes_eq(kb, "read_header".as_bytes()) || bytes_eq(kb, "read_body".as_bytes())
            || bytes_eq(kb, "write".as_bytes()) || bytes_eq(kb, "keep_alive".as_bytes())
            || bytes_eq(kb, "request".as_bytes());
        if !known {
            return true;
        }
        let d = match self.parse_duration(value) {
            Ok(d) => d,
            Err(_) => {
                return false;
            },
        };
        if bytes_eq(kb, "read_header".as_bytes()) {
            timeouts.read_header = d;
        } else if bytes_eq(kb, "read_body".as_bytes()) {
            timeouts.read_body = d;
        } else if bytes_eq(kb, "write".as_bytes()) {
            timeouts.write = d;
        } else if bytes_eq(kb, "keep_alive".as_bytes()) {
            timeouts.keep_alive = d;
        } else {
            timeouts.request = d;
        }
        true
    }

    /// `[uploads]` keys.
    pub fn set_upload_value(&self, uploads: &mut UploadConfig, key: &str, value: &str) -> (ok: bool)
    {
        proof {
            reveal_strlit("directory");
            reveal_strlit("max_file_size");
            reveal_strlit("max_total_size");
            reveal_strlit("allowed_extensions");
        }
        let kb = key.as_bytes();
        if bytes_eq(kb, "directory".as_bytes()) {
            uploads.directory = String::from_str(value);
            true
        } else if bytes_eq(kb, "max_file_size".as_bytes()) {
            match self.parse_size(value) {
                Ok(v) => {
                    uploads.max_file_size = clamp_usize(v);
                    true
                },
                Err(_) => false,
            }
        } else if bytes_eq(kb, "max_total_size".as_bytes()) {
            match self.parse_size(value) {
                Ok(v) => {
                    uploads.max_total_size = clamp_usize(v);
                    true
                },
                Err(_) => false,
            }
        } else if bytes_eq(kb, "allowed_extensions".as_bytes()) {
            uploads.allowed_extensions = Some(split_commas(value));
            true
        } else {
            true
        }
    }

    /// `[sessions]` keys.
    pub fn set_session_value(&self, sessions: &mut SessionConfig, key: &str, value: &str) -> (ok:
        bool)
    {
        proof {
            reveal_strlit("cookie_name");
            reveal_strlit("expiration");
            reveal_strlit("secure_cookies");
            reveal_strlit("http_only");
            reveal_strlit("same_site");
            reveal_strlit("cleanup_interval");
            reveal_strlit("max_sessions");
        }
        let kb = key.as_bytes();
        if bytes_eq(kb, "cookie_name".as_bytes()) {
            sessions.cookie_name = String::from_str(value);
            true
        } else if bytes_eq(kb, "expiration".as_bytes()) {
            match self.parse_duration(value) {
                Ok(d) => {
                    sessions.expiration = d;
                    true
                },
                Err(_) => false,
            }
        } else if bytes_eq(kb, "secure_cookies".as_bytes()) {
            sessions.secure_cookies = self.parse_bool(value);
            true
        } else if bytes_eq(kb, "http_only".as_bytes()) {
            sessions.http_only = self.parse_bool(value);
            true
        } else if bytes_eq(kb, "same_site".as_bytes()) {
            sessions.same_site = String::from_str(value);
            true
        } else if bytes_eq(kb, "cleanup_interval".as_bytes()) {
            match self.parse_duration(value) {
                Ok(d) => {
                    sessions.cleanup_interval = d;
                    true
                },
                Err(_) => false,
            }
        } else if bytes_eq(kb, "max_sessions".as_bytes()) {
            sessions.max_sessions = match parse_dec(value.as_bytes(), usize::MAX as u64) {
                Some(v) => v as usize,
                None => 10000,
            };
            true
        } else {
            true
        }
    }

    /// `[cgi]` keys, with `interpreter.<ext>` mappings.
    pub fn set_cgi_value(&self, cgi: &mut CgiConfig, key: &str, value: &str) -> (ok: bool)
    {
        proof {
            reveal_strlit("enabled");
            reveal_strlit("directory");
            reveal_strlit("timeout");
            reveal_strlit("max_output_size");
        }
        let kb = key.as_bytes();
        if bytes_eq(kb, "enabled".as_bytes()) {
            cgi.enabled = self.parse_bool(value);
            true
        } else if bytes_eq(kb, "directory".as_bytes()) {
            cgi.directory = String::from_str(value);
            true
        } else if bytes_eq(kb, "timeout".as_bytes()) {
            match self.parse_duration(value) {
                Ok(d) => {
                    cgi.timeout = d;
                    true
                },
                Err(_) => false,
            }
        } else if bytes_eq(kb, "max_output_size".as_bytes()) {
            match self.parse_size(value) {
                Ok(v) => {
                    cgi.max_output_size = clamp_usize(v);
                    true
                },
                Err(_) => false,
            }
        } else if starts_with(kb, "interpreter.") && kb.len() > 12 {
            let ext = vstd::slice::slice_to_vec(&kb[12..kb.len()]);
            if let Some(e) = string_from_bytes(ext) {
                cgi.interpreters.push((e, String::from_str(value)));
            }
            true
        } else {
            true
        }
    }

    /// `[logging]` keys.
    pub fn set_logging_value(&self, logging: &mut LoggingConfig, key: &str, value: &str) -> (ok:
        bool)
    {
        proof {
            reveal_strlit("level");
            reveal_strlit("access_log");
            reveal_strlit("error_log");
        }
        let kb = key.as_bytes();
        if bytes_eq(kb, "level".as_bytes()) {
            logging.level = String::from_str(value);
        } else if bytes_eq(kb, "access_log".as_bytes()) {
            logging.access_log = Some(String::from_str(value));
        } else if bytes_eq(kb, "error_log".as_bytes()) {
            logging.error_log = Some(String::from_str(value));
        }
        true
    }

    /// `[security]` keys.
    pub fn set_security_value(&self, security: &mut SecurityConfig, key: &str, value: &str) -> (ok:
        bool)
    {
        proof {
            reveal_strlit("hide_version");
            reveal_strlit("max_header_size");
            reveal_strlit("max_headers");
        }
        let kb = key.as_bytes();
        if bytes_eq(kb, "hide_version".as_bytes()) {
            security.hide_version = self.parse_bool(value);
            true
        } else if bytes_eq(kb, "max_header_size".as_bytes()) {
            match self.parse_size(value) {
                Ok(v) => {
                    security.max_header_size = clamp_usize(v);
                    true
                },
                Err(_) => false,
            }
        } else if bytes_eq(kb, "max_headers".as_bytes()) {
            security.max_headers = match parse_dec(value.as_bytes(), usize::MAX as u64) {
                Some(v) => v as usize,
                None => 100,
            };
            true
        } else {
            true
        }
    }

    /// `[vhost.*]` keys.
    pub fn set_vhost_value(&self, vhost: &mut VirtualHostConfig, key: &str, value: &str) -> (ok:
        bool)
    {
        proof {
            reveal_strlit("server_name");
            reveal_strlit("document_root");
            reveal_strlit("max_body_size");
            reveal_strlit("access_log");
            reveal_strlit("error_log");
        }
        let kb = key.as_bytes();
        if bytes_eq(kb, "server_name".as_bytes()) {
            vhost.server_name = String::from_str(value);
            true
        } else if bytes_eq(kb, "document_root".as_bytes()) {
            vhost.document_root = String::from_str(value);
            true
        } else if bytes_eq(kb, "max_body_size".as_bytes()) {
            match self.parse_size(value) {
                Ok(v) => {
                    vhost.max_body_size = clamp_usize(v);
                    true
                },
                Err(_) => false,
            }
        } else if bytes_eq(kb, "access_log".as_bytes()) {
            vhost.access_log = Some(String::from_str(value));
            true
        } else if bytes_eq(kb, "error_log".as_bytes()) {
            vhost.error_log = Some(String::from_str(value));
            true
        } else {
            true
        }
    }

    /// `[route.*]` keys: the path, the method list, and the route type.
    pub fn set_route_value(&self, route: &mut RouteConfig, key: &str, value: &str) -> (ok: bool)
    {
        proof {
            reveal_strlit("path");
            reveal_strlit("methods");
            reveal_strlit("type");
            reveal_strlit("static");
            reveal_strlit("cgi");
            reveal_strlit("redirect");
        }
        let kb = key.as_bytes();
        if bytes_eq(kb, "path".as_bytes()) {
            route.path = String::from_str(value);
            true
        } else if bytes_eq(kb, "methods".as_bytes()) {
            route.methods = split_commas_upper(value);
            true
        } else if bytes_eq(kb, "type".as_bytes()) {
            let vb = value.as_bytes();
            if bytes_eq(vb, "static".as_bytes()) {
                let mut index_files: Vec<String> = Vec::new();
                index_files.push(String::from_str("index.html"));
                route.route_type = RouteType::Static {
                    directory_listing: false,
                    index_files,
                    cache_control: Some(String::from_str("public, max-age=3600")),
                };
                true
            } else if bytes_eq(vb, "cgi".as_bytes()) {
                route.route_type = RouteType::Cgi {
                    script_dir: String::from_str("cgi-bin"),
                    interpreters: Vec::new(),
                    timeout: 30,
                };
                true
            } else if bytes_eq(vb, "redirect".as_bytes()) {
                route.route_type = RouteType::Redirect { target: String::from_str("/"), status: 302 };
                true
            } else {
                false
            }
        } else {
            true
        }
    }

    /// An example configuration in the format this parser reads.
    pub fn generate_example_config() -> (r: String)
        ensures
            r@.len() > 0,
    {
        proof {
            reveal_strlit(
                "# Server configuration\n\n[server]\ndefault_host = \"localhost\"\nlisten = \"127.0.0.1:8080\"\n\n[global]\nserver_name = \"localhost/1.0\"\nworkers = 1\n\n[timeouts]\nread_header = \"5s\"\nread_body = \"15s\"\nwrite = \"5s\"\nkeep_alive = \"10s\"\nrequest = \"30s\"\n\n[vhost.localhost]\nserver_name = \"localhost\"\ndocument_root = \"./www\"\nmax_body_size = \"10MB\"\n\n[route.root]\npath = \"/\"\nmethods = \"GET,POST,HEAD\"\ntype = \"static\"\n",
            );
        }
        String::from_str(
            "# Server configuration\n\n[server]\ndefault_host = \"localhost\"\nlisten = \"127.0.0.1:8080\"\n\n[global]\nserver_name = \"localhost/1.0\"\nworkers = 1\n\n[timeouts]\nread_header = \"5s\"\nread_body = \"15s\"\nwrite = \"5s\"\nkeep_alive = \"10s\"\nrequest = \"30s\"\n\n[vhost.localhost]\nserver_name = \"localhost\"\ndocument_root = \"./www\"\nmax_body_size = \"10MB\"\n\n[route.root]\npath = \"/\"\nmethods = \"GET,POST,HEAD\"\ntype = \"static\"\n",
        )
    }
}

impl Default for ConfigParser {
    /// A parser that picks the format from the file name.
    fn default() -> (r: Self)
        ensures
            r.format == ConfigFormat::Auto,
    {
        Self::new(ConfigFormat::Auto)
    }
}

/// ASCII upper-casing of a byte slice.
fn upper_bytes(s: &[u8]) -> (r: Vec<u8>)
    ensures
        r@ == upper(s@),
{
    let mut out: Vec<u8> = Vec::new();
    let mut i: usize = 0;
    while i < s.len()
        invariant
            i <= s.len(),
            out@ == upper(s@.take(i as int)),
        decreases s.len() - i,
    {
        let b = s[i];
        let u: u8 = if 97 <= b && b <= 122 {
            b - 32
        } else {
            b
        };
        proof {
            assert(upper(s@.take(i + 1)) =~= upper(s@.take(i as int)).push(upper_byte(s@[i as int])));
        }
        out.push(u);
        i += 1;
    }
    proof {
        assert(s@.take(s@.len() as int) =~= s@);
    }
    out
}

/// Trims a line and drops a trailing carriage return.
fn trim_line(s: &[u8]) -> (r: Vec<u8>)
{
    let base = if s.len() > 0 && s[s.len() - 1] == 13 {
        &s[0..s.len() - 1]
    } else {
        s
    };
    trim_exec(base)
}

/// Whether `s` begins with the bytes of `prefix`.
fn starts_with(s: &[u8], prefix: &str) -> (r: bool)
    ensures
        r == (s@.len() >= utf8_bytes(prefix@).len() && s@.take(utf8_bytes(prefix@).len() as int)
            == utf8_bytes(prefix@)),
{
    let p = prefix.as_bytes();
    if s.len() < p.len() {
        return false;
    }
    let head = &s[0..p.len()];
    bytes_eq(head, p)
}

/// Splits on commas, trimming each piece.
fn split_commas(value: &str) -> (r: Vec<String>)
{
    let bytes = value.as_bytes();
    let mut out: Vec<String> = Vec::new();
    let mut from: usize = 0;
    loop
        invariant
            from <= bytes@.len(),
        decreases bytes@.len() - from,
    {
        proof {
            crate::util::lemma_find_byte_from_ok(bytes@, 44, from as int);
        }
        let end = match find_byte_exec(bytes, 44, from) {
            Some(p) => p,
            None => bytes.len(),
        };
        let piece = trim_exec(&bytes[from..end]);
        if let Some(s) = string_from_bytes(piece) {
            out.push(s);
        }
        if end >= bytes.len() {
            return out;
        }
        from = end + 1;
    }
}

/// Splits on commas, trimming and upper-casing each piece.
fn split_commas_upper(value: &str) -> (r: Vec<String>)
{
    let bytes = value.as_bytes();
    let mut out: Vec<String> = Vec::new();
    let mut from: usize = 0;
    loop
        invariant
            from <= bytes@.len(),
        decreases bytes@.len() - from,
    {
        proof {
            crate::util::lemma_find_byte_from_ok(bytes@, 44, from as int);
        }
        let end = match find_byte_exec(bytes, 44, from) {
            Some(p) => p,
            None => bytes.len(),
        };
        let piece = trim_exec(&bytes[from..end]);
        let up = upper_bytes(piece.as_slice());
        if let Some(s) = string_from_bytes(up) {
            out.push(s);
        }
        if end >= bytes.len() {
            return out;
        }
        from = end + 1;
    }
}

/// A `u64` capped into `usize`.
fn clamp_usize(v: u64) -> (r: usize)
    ensures
        r as u64 <= v,
{
    if v > usize::MAX as u64 {
        usize::MAX
    } else {
        v as usize
    }
}

} // verus!
