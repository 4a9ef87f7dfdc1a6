//! Validation of a parsed configuration: the structural rules that need
//! no file system. Whether directories exist is checked where the files
//! are opened, outside the library.

use vstd::prelude::*;

use crate::config::server::{
    ServerConfig, ListenerConfig, VirtualHostConfig, RouteConfig, RouteType, GlobalConfig,
    TimeoutConfig, UploadConfig, SessionConfig, CgiConfig, LoggingConfig, SecurityConfig,
};
use crate::util::{utf8_bytes, lower, lower_bytes_exec, bytes_eq, eq_ignore_case_exec,
    eq_ignore_case, string_from_bytes, lemma_utf8_bytes_ascii};

verus! {

/// What kind of rule a finding breaks.
#[derive(Debug, Clone, Copy, PartialEq, Eq, Structural)]
pub enum ValidationErrorType {
    /// A required part is missing.
    Required,
    /// A value has the wrong shape.
    InvalidFormat,
    /// A value is out of its range.
    OutOfRange,
    /// A path points nowhere.
    PathNotFound,
    /// Two parts of the configuration fight each other.
    Conflict,
    /// A value is risky.
    Security,
}

impl ValidationErrorType {
    /// The kind's name.
    pub fn name(&self) -> (r: &'static str) {
        match self {
            ValidationErrorType::Required => "Required",
            ValidationErrorType::InvalidFormat => "InvalidFormat",
            ValidationErrorType::OutOfRange => "OutOfRange",
            ValidationErrorType::PathNotFound => "PathNotFound",
            ValidationErrorType::Conflict => "Conflict",
            ValidationErrorType::Security => "Security",
        }
    }
}

/// One finding: the field it concerns, what is wrong, and the kind.
#[derive(Debug, Clone)]
pub struct ValidationError {
    pub field: String,
    pub message: String,
    pub error_type: ValidationErrorType,
}

impl ValidationError {
    /// The finding as one line: `field: message (kind)`.
    pub fn describe(&self) -> (r: String) {
        let mut s = self.field.clone();
        s.append(": ");
        s.append(self.message.as_str());
        s.append(" (");
        s.append(self.error_type.name());
        s.append(")");
        s
    }
}

/// The configuration validator: collects findings as errors or warnings.
#[derive(Debug)]
pub struct ConfigValidator {
    errors: Vec<ValidationError>,
    warnings: Vec<ValidationError>,
}

/// Whether an HTTP method token is one validation accepts, in any case.
pub open spec fn spec_valid_method(s: Seq<u8>) -> bool {
    ||| lower(s) == utf8_bytes("get"@)
    ||| lower(s) == utf8_bytes("post"@)
    ||| lower(s) == utf8_bytes("put"@)
    ||| lower(s) == utf8_bytes("delete"@)
    ||| lower(s) == utf8_bytes("head"@)
    ||| lower(s) == utf8_bytes("options"@)
    ||| lower(s) == utf8_bytes("patch"@)
    ||| lower(s) == utf8_bytes("trace"@)
    ||| lower(s) == utf8_bytes("connect"@)
}

impl ConfigValidator {
    /// How many errors stand.
    pub closed spec fn error_count(&self) -> nat {
        self.errors@.len()
    }

    /// A validator with no findings.
    pub fn new() -> (r: ConfigValidator)
        ensures
            r.error_count() == 0,
    {
        ConfigValidator { errors: Vec::new(), warnings: Vec::new() }
    }

    /// Validates a whole configuration; `Ok` exactly when no rule is
    /// broken, `Err` with the findings otherwise.
    pub fn validate(&mut self, config: &ServerConfig) -> (r: Result<(), Vec<ValidationError>>)
        ensures
            r is Ok <==> final(self).error_count() == 0,
    {
        self.errors = Vec::new();
        self.warnings = Vec::new();
        self.validate_listeners(&config.listeners);
        self.validate_virtual_hosts(&config.virtual_hosts);
        self.validate_global_config(&config.global);
        self.validate_conflicts(config);
        if self.errors.len() == 0 {
            Ok(())
        } else {
            let mut out: Vec<ValidationError> = Vec::new();
            let mut i: usize = 0;
            while i < self.errors.len()
                invariant
                    i <= self.errors@.len(),
                    self.errors@.len() > 0,
                decreases self.errors.len() - i,
            {
                out.push(self.errors[i].clone());
                i += 1;
            }
            Err(out)
        }
    }

    /// The warnings gathered by the last run.
    pub fn warnings(&self) -> (r: &[ValidationError]) {
        self.warnings.as_slice()
    }

    /// The errors gathered by the last run.
    pub fn errors(&self) -> (r: &[ValidationError])
        ensures
            r@.len() == self.error_count(),
    {
        self.errors.as_slice()
    }

    /// Listener rules: at least one listener, no empty address, no port
    /// zero, no duplicate address, at most one default.
    pub fn validate_listeners(&mut self, listeners: &Vec<ListenerConfig>)
        ensures
            final(self).error_count() >= old(self).error_count(),
    {
        if listeners.len() == 0 {
            self.add_error("listeners", "At least one listener must be configured",
                ValidationErrorType::Required);
            return;
        }
        let mut defaults: usize = 0;
        let mut i: usize = 0;
        while i < listeners.len()
            invariant
                i <= listeners@.len(),
                self.error_count() >= old(self).error_count(),
            decreases listeners.len() - i,
        {
            if listeners[i].address.as_str().unicode_len() == 0 {
                self.add_error("listeners.address", "Address cannot be empty",
                    ValidationErrorType::Required);
            }
            if listeners[i].port == 0 {
                self.add_error("listeners.port", "Port cannot be 0",
                    ValidationErrorType::OutOfRange);
            } else if listeners[i].port < 1024 {
                self.add_warning("listeners.port", "Port < 1024 requires root privileges",
                    ValidationErrorType::Security);
            }
            let mut j: usize = 0;
            while j < i
                invariant
                    j <= i,
                    i < listeners@.len(),
                    self.error_count() >= old(self).error_count(),
                decreases i - j,
            {
                if bytes_eq(
                    listeners[j].address.as_str().as_bytes(),
                    listeners[i].address.as_str().as_bytes(),
                ) && listeners[j].port == listeners[i].port {
                    self.add_error("listeners.address", "Duplicate listener address",
                        ValidationErrorType::Conflict);
                }
                j += 1;
            }
            if listeners[i].default {
                if defaults < usize::MAX {
                    defaults += 1;
                }
            }
            i += 1;
        }
        if defaults == 0 {
            self.add_warning("listeners", "No default listener specified, using first one",
                ValidationErrorType::Conflict);
        } else if defaults > 1 {
            self.add_error("listeners", "Multiple default listeners specified",
                ValidationErrorType::Conflict);
        }
    }

    /// Virtual-host rules: at least one host, no empty or duplicate
    /// server name, a positive body cap, valid routes.
    pub fn validate_virtual_hosts(&mut self, vhosts: &Vec<VirtualHostConfig>)
        ensures
            final(self).error_count() >= old(self).error_count(),
    {
        if vhosts.len() == 0 {
            self.add_error("virtual_hosts", "At least one virtual host must be configured",
                ValidationErrorType::Required);
            return;
        }
        let mut i: usize = 0;
        while i < vhosts.len()
            invariant
                i <= vhosts@.len(),
                self.error_count() >= old(self).error_count(),
            decreases vhosts.len() - i,
        {
            if vhosts[i].server_name.as_str().unicode_len() == 0 {
                self.add_error("virtual_hosts.server_name", "Server name cannot be empty",
                    ValidationErrorType::Required);
            }
            let mut j: usize = 0;
            while j < i
                invariant
                    j <= i,
                    i < vhosts@.len(),
                    self.error_count() >= old(self).error_count(),
                decreases i - j,
            {
                if bytes_eq(
                    vhosts[j].server_name.as_str().as_bytes(),
                    vhosts[i].server_name.as_str().as_bytes(),
                ) {
                    self.add_error("virtual_hosts.server_name", "Duplicate server name",
                        ValidationErrorType::Conflict);
                }
                j += 1;
            }
            if vhosts[i].max_body_size == 0 {
                self.add_error("virtual_hosts.max_body_size", "Max body size cannot be 0",
                    ValidationErrorType::OutOfRange);
            } else if vhosts[i].max_body_size > 1073741824 {
                self.add_warning("virtual_hosts.max_body_size",
                    "Very large max body size may cause memory issues",
                    ValidationErrorType::Security);
            }
            self.validate_routes(&vhosts[i].routes);
            i += 1;
        }
    }

    /// Route rules: a non-empty path starting with `/`, no duplicate
    /// path, at least one known method, a sound route type.
    pub fn validate_routes(&mut self, routes: &Vec<RouteConfig>)
        ensures
            final(self).error_count() >= old(self).error_count(),
    {
        if routes.len() == 0 {
            self.add_warning("routes", "No routes configured", ValidationErrorType::Required);
            return;
        }
        let mut i: usize = 0;
        while i < routes.len()
            invariant
                i <= routes@.len(),
                self.error_count() >= old(self).error_count(),
            decreases routes.len() - i,
        {
            let path_len = routes[i].path.as_str().unicode_len();
            if path_len == 0 {
                self.add_error("routes.path", "Route path cannot be empty",
                    ValidationErrorType::Required);
            } else if routes[i].path.as_str().get_char(0) != '/' {
                self.add_error("routes.path", "Route path must start with '/'",
                    ValidationErrorType::InvalidFormat);
            }
            let mut j: usize = 0;
            while j < i
                invariant
                    j <= i,
                    i < routes@.len(),
                    self.error_count() >= old(self).error_count(),
                decreases i - j,
            {
                if bytes_eq(
                    routes[j].path.as_str().as_bytes(),
                    routes[i].path.as_str().as_bytes(),
                ) {
                    self.add_error("routes.path", "Duplicate route path",
                        ValidationErrorType::Conflict);
                }
                j += 1;
            }
            if routes[i].methods.len() == 0 {
                self.add_error("routes.methods", "At least one HTTP method must be specified",
                    ValidationErrorType::Required);
            } else {
                let mut k: usize = 0;
                while k < routes[i].methods.len()
                    invariant
                        i < routes@.len(),
                        k <= routes@[i as int].methods@.len(),
                        self.error_count() >= old(self).error_count(),
                    decreases routes@[i as int].methods@.len() - k,
                {
                    if !self.is_valid_http_method(routes[i].methods[k].as_str()) {
                        self.add_error("routes.methods", "Invalid HTTP method",
                            ValidationErrorType::InvalidFormat);
                    }
                    k += 1;
                }
            }
            self.validate_route_type(&routes[i].route_type);
            self.validate_route_settings(&routes[i].settings);
            i += 1;
        }
    }

    /// Route-type rules: static routes want index files, CGI and proxy
    /// routes want a positive timeout, redirects want a target and a
    /// redirect status.
    pub fn validate_route_type(&mut self, route_type: &RouteType)
        ensures
            final(self).error_count() >= old(self).error_count(),
    {
        match route_type {
            RouteType::Static { index_files, .. } => {
                if index_files.len() == 0 {
                    self.add_warning("route_type", "No index files specified for static route",
                        ValidationErrorType::Required);
                }
            },
            RouteType::Cgi { timeout, .. } => {
                if *timeout == 0 {
                    self.add_error("route_type", "CGI timeout cannot be 0",
                        ValidationErrorType::OutOfRange);
                } else if *timeout > 300 {
                    self.add_warning("route_type",
                        "Very long CGI timeout may cause resource issues",
                        ValidationErrorType::Security);
                }
            },
            RouteType::Redirect { target, status } => {
                if target.as_str().unicode_len() == 0 {
                    self.add_error("route_type", "Redirect target cannot be empty",
                        ValidationErrorType::Required);
                }
                if !self.is_valid_redirect_status(*status) {
                    self.add_error("route_type", "Invalid redirect status code",
                        ValidationErrorType::InvalidFormat);
                }
            },
            RouteType::Proxy { backend, timeout } => {
                if backend.as_str().unicode_len() == 0 {
                    self.add_error("route_type", "Proxy backend cannot be empty",
                        ValidationErrorType::Required);
                }
                if *timeout == 0 {
                    self.add_error("route_type", "Proxy timeout cannot be 0",
                        ValidationErrorType::OutOfRange);
                }
            },
        }
    }

    /// Route-settings rules: positive caps where set.
    pub fn validate_route_settings(&mut self, settings: &crate::config::server::RouteSettings)
        ensures
            final(self).error_count() >= old(self).error_count(),
    {
        if let Some(m) = settings.max_body_size {
            if m == 0 {
                self.add_error("settings.max_body_size", "Max body size cannot be 0",
                    ValidationErrorType::OutOfRange);
            }
        }
        if let Some(r) = settings.rate_limit {
            if r == 0 {
                self.add_error("settings.rate_limit", "Rate limit cannot be 0",
                    ValidationErrorType::OutOfRange);
            }
        }
    }

    /// Global rules: a server name, single-threaded workers, positive
    /// timeouts and caps, sound session and CGI settings.
    pub fn validate_global_config(&mut self, global: &GlobalConfig)
        ensures
            final(self).error_count() >= old(self).error_count(),
    {
        if global.server_name.as_str().unicode_len() == 0 {
            self.add_error("global.server_name", "Server name cannot be empty",
                ValidationErrorType::Required);
        }
        if global.workers != 1 {
            self.add_warning("global.workers",
                "This server only supports single-threaded operation",
                ValidationErrorType::InvalidFormat);
        }
        self.validate_timeouts(&global.timeouts);
        self.validate_upload_config(&global.uploads);
        self.validate_session_config(&global.sessions);
        self.validate_cgi_config(&global.cgi);
        self.validate_logging_config(&global.logging);
        self.validate_security_config(&global.security);
    }

    /// Timeout rules: every budget positive, and the whole-request
    /// budget at least the two read budgets together.
    pub fn validate_timeouts(&mut self, timeouts: &TimeoutConfig)
        ensures
            final(self).error_count() >= old(self).error_count(),
    {
        if timeouts.read_header == 0 {
            self.add_error("global.timeouts.read_header", "Read header timeout cannot be 0",
                ValidationErrorType::OutOfRange);
        }
        if timeouts.read_body == 0 {
            self.add_error("global.timeouts.read_body", "Read body timeout cannot be 0",
                ValidationErrorType::OutOfRange);
        }
        if timeouts.write == 0 {
            self.add_error("global.timeouts.write", "Write timeout cannot be 0",
                ValidationErrorType::OutOfRange);
        }
        if timeouts.keep_alive == 0 {
            self.add_error("global.timeouts.keep_alive", "Keep-alive timeout cannot be 0",
                ValidationErrorType::OutOfRange);
        }
        if timeouts.request == 0 {
            self.add_error("global.timeouts.request", "Request timeout cannot be 0",
                ValidationErrorType::OutOfRange);
        }
        if timeouts.read_header <= u64::MAX - timeouts.read_body && timeouts.request
            < timeouts.read_header + timeouts.read_body {
            self.add_warning("global.timeouts.request",
                "Request timeout should be larger than read timeouts combined",
                ValidationErrorType::Conflict);
        }
    }

    /// Upload rules: positive caps, the per-file cap within the total.
    pub fn validate_upload_config(&mut self, uploads: &UploadConfig)
        ensures
            final(self).error_count() >= old(self).error_count(),
    {
        if uploads.max_file_size == 0 {
            self.add_error("global.uploads.max_file_size", "Max file size cannot be 0",
                ValidationErrorType::OutOfRange);
        }
        if uploads.max_total_size == 0 {
            self.add_error("global.uploads.max_total_size", "Max total size cannot be 0",
                ValidationErrorType::OutOfRange);
        }
        if uploads.max_file_size > uploads.max_total_size {
            self.add_error("global.uploads.max_file_size",
                "Max file size cannot be larger than max total size",
                ValidationErrorType::Conflict);
        }
    }

    /// Session rules: a cookie name, positive durations and caps, a
    /// known `SameSite` value.
    pub fn validate_session_config(&mut self, sessions: &SessionConfig)
        ensures
            final(self).error_count() >= old(self).error_count(),
    {
        proof {
            reveal_strlit("strict");
            reveal_strlit("lax");
            reveal_strlit("none");
        }
        if sessions.cookie_name.as_str().unicode_len() == 0 {
            self.add_error("global.sessions.cookie_name", "Cookie name cannot be empty",
                ValidationErrorType::Required);
        }
        if sessions.expiration == 0 {
            self.add_error("global.sessions.expiration", "Session expiration cannot be 0",
                ValidationErrorType::OutOfRange);
        }
        if sessions.cleanup_interval == 0 {
            self.add_error("global.sessions.cleanup_interval", "Cleanup interval cannot be 0",
                ValidationErrorType::OutOfRange);
        }
        if sessions.max_sessions == 0 {
            self.add_error("global.sessions.max_sessions", "Max sessions cannot be 0",
                ValidationErrorType::OutOfRange);
        }
        let low = lower_bytes_exec(sessions.same_site.as_str().as_bytes());
        let b = low.as_slice();
        let known = bytes_eq(b, "strict".as_bytes()) || bytes_eq(b, "lax".as_bytes()) || bytes_eq(
            b,
            "none".as_bytes(),
        );
        if !known {
            self.add_error("global.sessions.same_site", "Invalid SameSite value",
                ValidationErrorType::InvalidFormat);
        }
    }

    /// CGI rules, when enabled: positive timeout and output cap, some
    /// interpreter.
    pub fn validate_cgi_config(&mut self, cgi: &CgiConfig)
        ensures
            final(self).error_count() >= old(self).error_count(),
    {
        if cgi.enabled {
            if cgi.timeout == 0 {
                self.add_error("global.cgi.timeout", "CGI timeout cannot be 0",
                    ValidationErrorType::OutOfRange);
            }
            if cgi.max_output_size == 0 {
                self.add_error("global.cgi.max_output_size", "CGI max output size cannot be 0",
                    ValidationErrorType::OutOfRange);
            }
            if cgi.interpreters.len() == 0 {
                self.add_warning("global.cgi.interpreters", "No CGI interpreters configured",
                    ValidationErrorType::Required);
            }
        }
    }

    /// Logging rules: a known level.
    pub fn validate_logging_config(&mut self, logging: &LoggingConfig)
        ensures
            final(self).error_count() >= old(self).error_count(),
    {
        proof {
            reveal_strlit("error");
            reveal_strlit("warn");
            reveal_strlit("info");
            reveal_strlit("debug");
        }
        let low = lower_bytes_exec(logging.level.as_str().as_bytes());
        let b = low.as_slice();
        let known = bytes_eq(b, "error".as_bytes()) || bytes_eq(b, "warn".as_bytes()) || bytes_eq(
            b,
            "info".as_bytes(),
        ) || bytes_eq(b, "debug".as_bytes());
        if !known {
            self.add_error("global.logging.level", "Invalid log level",
                ValidationErrorType::InvalidFormat);
        }
    }

    /// Security rules: positive caps; positive rate limits when enabled.
    pub fn validate_security_config(&mut self, security: &SecurityConfig)
        ensures
            final(self).error_count() >= old(self).error_count(),
    {
        if security.max_header_size == 0 {
            self.add_error("global.security.max_header_size", "Max header size cannot be 0",
                ValidationErrorType::OutOfRange);
        }
        if security.max_headers == 0 {
            self.add_error("global.security.max_headers", "Max headers cannot be 0",
                ValidationErrorType::OutOfRange);
        }
        if security.rate_limiting.enabled {
            if security.rate_limiting.requests_per_minute == 0 {
                self.add_error("global.security.rate_limiting.requests_per_minute",
                    "Requests per minute cannot be 0", ValidationErrorType::OutOfRange);
            }
            if security.rate_limiting.burst_size == 0 {
                self.add_error("global.security.rate_limiting.burst_size",
                    "Burst size cannot be 0", ValidationErrorType::OutOfRange);
            }
        }
    }

    /// Cross-section rules: the default host must exist; CGI on port 80
    /// earns a warning.
    pub fn validate_conflicts(&mut self, config: &ServerConfig)
        ensures
            final(self).error_count() >= old(self).error_count(),
    {
        if let Some(default_host) = &config.default_host {
            let mut found = false;
            let mut i: usize = 0;
            while i < config.virtual_hosts.len()
                invariant
                    i <= config.virtual_hosts@.len(),
                decreases config.virtual_hosts.len() - i,
            {
                if bytes_eq(
                    config.virtual_hosts[i].server_name.as_str().as_bytes(),
                    default_host.as_str().as_bytes(),
                ) {
                    found = true;
                }
                i += 1;
            }
            if !found {
                self.add_error("default_host", "Default host not found in virtual hosts",
                    ValidationErrorType::Conflict);
            }
        }
        let mut i: usize = 0;
        while i < config.listeners.len()
            invariant
                i <= config.listeners@.len(),
                self.error_count() >= old(self).error_count(),
            decreases config.listeners.len() - i,
        {
            if config.listeners[i].port == 80 && config.global.cgi.enabled {
                self.add_warning("listeners", "Running CGI on port 80 may have security implications",
                    ValidationErrorType::Security);
            }
            i += 1;
        }
    }

    /// Records one error.
    fn add_error(&mut self, field: &str, message: &str, error_type: ValidationErrorType)
        ensures
            final(self).error_count() == old(self).error_count() + 1,
    {
        self.errors.push(
            ValidationError {
                field: String::from_str(field),
                message: String::from_str(message),
                error_type,
            },
        );
    }

    /// Records one warning.
    fn add_warning(&mut self, field: &str, message: &str, error_type: ValidationErrorType)
        ensures
            final(self).error_count() == old(self).error_count(),
    {
        self.warnings.push(
            ValidationError {
                field: String::from_str(field),
                message: String::from_str(message),
                error_type,
            },
        );
    }

    /// Whether a method token is accepted, in any case.
    pub fn is_valid_http_method(&self, method: &str) -> (r: bool)
        ensures
            r == spec_valid_method(utf8_bytes(method@)),
    {
        proof {
            reveal_strlit("get");
            reveal_strlit("post");
            reveal_strlit("put");
            reveal_strlit("delete");
            reveal_strlit("head");
            reveal_strlit("options");
            reveal_strlit("patch");
            reveal_strlit("trace");
            reveal_strlit("connect");
            lemma_utf8_bytes_ascii("get"@);
            lemma_utf8_bytes_ascii("post"@);
            lemma_utf8_bytes_ascii("put"@);
            lemma_utf8_bytes_ascii("delete"@);
            lemma_utf8_bytes_ascii("head"@);
            lemma_utf8_bytes_ascii("options"@);
            lemma_utf8_bytes_ascii("patch"@);
            lemma_utf8_bytes_ascii("trace"@);
            lemma_utf8_bytes_ascii("connect"@);
        }
        let low = lower_bytes_exec(method.as_bytes());
        let b = low.as_slice();
        bytes_eq(b, "get".as_bytes()) || bytes_eq(b, "post".as_bytes()) || bytes_eq(
            b,
            "put".as_bytes(),
        ) || bytes_eq(b, "delete".as_bytes()) || bytes_eq(b, "head".as_bytes()) || bytes_eq(
            b,
            "options".as_bytes(),
        ) || bytes_eq(b, "patch".as_bytes()) || bytes_eq(b, "trace".as_bytes()) || bytes_eq(
            b,
            "connect".as_bytes(),
        )
    }

    /// Whether a status code is one of the redirect codes.
    pub fn is_valid_redirect_status(&self, status: u16) -> (r: bool)
        ensures
            r == (status == 301 || status == 302 || status == 303 || status == 307 || status
                == 308),
    {
        status == 301 || status == 302 || status == 303 || status == 307 || status == 308
    }
}

impl Default for ConfigValidator {
    /// A validator with no findings.
    fn default() -> (r: Self)
        ensures
            r.error_count() == 0,
    {
        Self::new()
    }
}

} // verus!
