//! The configuration data model. Durations are seconds; sizes are bytes;
//! paths are plain strings.

use vstd::prelude::*;

verus! {

/// The whole server configuration.
#[derive(Debug, Clone)]
pub struct ServerConfig {
    pub listeners: Vec<ListenerConfig>,
    pub virtual_hosts: Vec<VirtualHostConfig>,
    pub default_host: Option<String>,
    pub global: GlobalConfig,
}

/// One listening address.
#[derive(Debug, Clone)]
pub struct ListenerConfig {
    pub address: String,
    pub port: u16,
    pub default: bool,
}

/// One virtual host.
#[derive(Debug, Clone)]
pub struct VirtualHostConfig {
    pub server_name: String,
    pub document_root: String,
    pub routes: Vec<RouteConfig>,
    pub error_pages: Vec<(u16, String)>,
    pub max_body_size: usize,
    pub access_log: Option<String>,
    pub error_log: Option<String>,
}

/// One route.
#[derive(Debug, Clone)]
pub struct RouteConfig {
    pub path: String,
    pub methods: Vec<String>,
    pub route_type: RouteType,
    pub settings: RouteSettings,
}

/// What a route does.
#[derive(Debug, Clone)]
pub enum RouteType {
    /// Serve files.
    Static { directory_listing: bool, index_files: Vec<String>, cache_control: Option<String> },
    /// Run CGI scripts.
    Cgi { script_dir: String, interpreters: Vec<(String, String)>, timeout: u64 },
    /// Redirect.
    Redirect { target: String, status: u16 },
    /// Forward to a backend.
    Proxy { backend: String, timeout: u64 },
}

/// Per-route settings.
#[derive(Debug, Clone)]
pub struct RouteSettings {
    pub max_body_size: Option<usize>,
    pub error_pages: Vec<(u16, String)>,
    pub auth_required: bool,
    pub rate_limit: Option<u32>,
    pub custom_headers: Vec<(String, String)>,
}

/// Global settings.
#[derive(Debug, Clone)]
pub struct GlobalConfig {
    pub server_name: String,
    pub workers: usize,
    pub timeouts: TimeoutConfig,
    pub uploads: UploadConfig,
    pub sessions: SessionConfig,
    pub cgi: CgiConfig,
    pub logging: LoggingConfig,
    pub security: SecurityConfig,
}

/// Connection timeouts, in seconds.
#[derive(Debug, Clone, Copy, PartialEq, Eq, Structural)]
pub struct TimeoutConfig {
    pub read_header: u64,
    pub read_body: u64,
    pub write: u64,
    pub keep_alive: u64,
    pub request: u64,
}

/// Upload settings.
#[derive(Debug, Clone)]
pub struct UploadConfig {
    pub directory: String,
    pub max_file_size: usize,
    pub max_total_size: usize,
    pub allowed_extensions: Option<Vec<String>>,
    pub temp_directory: Option<String>,
}

/// Session settings.
#[derive(Debug, Clone)]
pub struct SessionConfig {
    pub cookie_name: String,
    pub expiration: u64,
    pub secure_cookies: bool,
    pub http_only: bool,
    pub same_site: String,
    pub cleanup_interval: u64,
    pub max_sessions: usize,
}

/// CGI settings.
#[derive(Debug, Clone)]
pub struct CgiConfig {
    pub enabled: bool,
    pub directory: String,
    pub interpreters: Vec<(String, String)>,
    pub timeout: u64,
    pub max_output_size: usize,
}

/// Logging settings.
#[derive(Debug, Clone)]
pub struct LoggingConfig {
    pub level: String,
    pub access_log: Option<String>,
    pub error_log: Option<String>,
    pub rotation: LogRotationConfig,
}

/// Log-rotation settings.
#[derive(Debug, Clone)]
pub struct LogRotationConfig {
    pub max_size: usize,
    pub max_files: usize,
    pub interval: Option<u64>,
}

/// Security settings.
#[derive(Debug, Clone)]
pub struct SecurityConfig {
    pub hide_version: bool,
    pub max_header_size: usize,
    pub max_headers: usize,
    pub rate_limiting: RateLimitConfig,
    pub ip_blacklist: Vec<String>,
    pub ip_whitelist: Option<Vec<String>>,
}

/// Rate-limit settings.
#[derive(Debug, Clone, Copy, PartialEq, Eq, Structural)]
pub struct RateLimitConfig {
    pub enabled: bool,
    pub requests_per_minute: u32,
    pub burst_size: u32,
    pub ban_duration: u64,
}

impl Default for ServerConfig {
    /// One listener on `127.0.0.1:8080`, one `localhost` virtual host.
    fn default() -> (r: Self)
        ensures
            r.listeners@.len() == 1,
            r.virtual_hosts@.len() == 1,
            r.default_host is Some,
    {
        let mut listeners: Vec<ListenerConfig> = Vec::new();
        listeners.push(
            ListenerConfig { address: String::from_str("127.0.0.1"), port: 8080, default: true },
        );
        let mut virtual_hosts: Vec<VirtualHostConfig> = Vec::new();
        virtual_hosts.push(VirtualHostConfig::default());
        ServerConfig {
            listeners,
            virtual_hosts,
            default_host: Some(String::from_str("localhost")),
            global: GlobalConfig::default(),
        }
    }
}

impl Default for VirtualHostConfig {
    /// `localhost` rooted at `./www`, one default route, a 10 MiB body cap.
    fn default() -> (r: Self)
        ensures
            r.max_body_size == 10485760,
            r.routes@.len() == 1,
            r.error_pages@.len() == 0,
    {
        let mut routes: Vec<RouteConfig> = Vec::new();
        routes.push(RouteConfig::default());
        VirtualHostConfig {
            server_name: String::from_str("localhost"),
            document_root: String::from_str("./www"),
            routes,
            error_pages: Vec::new(),
            max_body_size: 10485760,
            access_log: None,
            error_log: None,
        }
    }
}

impl Default for RouteConfig {
    /// The root route: `GET`, `POST` and `HEAD` over static files.
    fn default() -> (r: Self)
        ensures
            r.methods@.len() == 3,
            r.route_type is Static,
    {
        let mut methods: Vec<String> = Vec::new();
        methods.push(String::from_str("GET"));
        methods.push(String::from_str("POST"));
        methods.push(String::from_str("HEAD"));
        let mut index_files: Vec<String> = Vec::new();
        index_files.push(String::from_str("index.html"));
        index_files.push(String::from_str("index.htm"));
        RouteConfig {
            path: String::from_str("/"),
            methods,
            route_type: RouteType::Static {
                directory_listing: false,
                index_files,
                cache_control: Some(String::from_str("public, max-age=3600")),
            },
            settings: RouteSettings::default(),
        }
    }
}

impl Default for RouteSettings {
    /// No overrides.
    fn default() -> (r: Self)
        ensures
            r.max_body_size is None,
            !r.auth_required,
            r.rate_limit is None,
    {
        RouteSettings {
            max_body_size: None,
            error_pages: Vec::new(),
            auth_required: false,
            rate_limit: None,
            custom_headers: Vec::new(),
        }
    }
}

impl Default for GlobalConfig {
    /// Single-threaded defaults.
    fn default() -> (r: Self)
        ensures
            r.workers == 1,
    {
        GlobalConfig {
            server_name: String::from_str("localhost/1.0"),
            workers: 1,
            timeouts: TimeoutConfig::default(),
            uploads: UploadConfig::default(),
            sessions: SessionConfig::default(),
            cgi: CgiConfig::default(),
            logging: LoggingConfig::default(),
            security: SecurityConfig::default(),
        }
    }
}

impl Default for TimeoutConfig {
    /// 5 s headers, 15 s body, 5 s write, 10 s keep-alive, 30 s request.
    fn default() -> (r: Self)
        ensures
            r == (TimeoutConfig { read_header: 5, read_body: 15, write: 5, keep_alive: 10, request: 30 }),
    {
        TimeoutConfig { read_header: 5, read_body: 15, write: 5, keep_alive: 10, request: 30 }
    }
}

impl Default for UploadConfig {
    /// `./uploads`, 10 MiB per file, 100 MiB in total.
    fn default() -> (r: Self)
        ensures
            r.max_file_size == 10485760,
            r.max_total_size == 104857600,
            r.allowed_extensions is None,
    {
        UploadConfig {
            directory: String::from_str("./uploads"),
            max_file_size: 10485760,
            max_total_size: 104857600,
            allowed_extensions: None,
            temp_directory: None,
        }
    }
}

impl Default for SessionConfig {
    /// One-hour sessions under `session_id`, swept every five minutes.
    fn default() -> (r: Self)
        ensures
            r.expiration == 3600,
            r.cleanup_interval == 300,
            r.max_sessions == 10000,
            r.http_only,
            !r.secure_cookies,
    {
        SessionConfig {
            cookie_name: String::from_str("session_id"),
            expiration: 3600,
            secure_cookies: false,
            http_only: true,
            same_site: String::from_str("Lax"),
            cleanup_interval: 300,
            max_sessions: 10000,
        }
    }
}

impl Default for CgiConfig {
    /// The usual interpreters out of `./cgi-bin`, 30 s, 1 MiB of output.
    fn default() -> (r: Self)
        ensures
            r.enabled,
            r.timeout == 30,
            r.max_output_size == 1048576,
            r.interpreters@.len() == 5,
    {
        let mut interpreters: Vec<(String, String)> = Vec::new();
        interpreters.push((String::from_str("py"), String::from_str("python3")));
        interpreters.push((String::from_str("pl"), String::from_str("perl")));
        interpreters.push((String::from_str("sh"), String::from_str("sh")));
        interpreters.push((String::from_str("rb"), String::from_str("ruby")));
        interpreters.push((String::from_str("php"), String::from_str("php")));
        CgiConfig {
            enabled: true,
            directory: String::from_str("./cgi-bin"),
            interpreters,
            timeout: 30,
            max_output_size: 1048576,
        }
    }
}

impl Default for LoggingConfig {
    /// `info` to the two usual files.
    fn default() -> (r: Self)
        ensures
            r.access_log is Some,
            r.error_log is Some,
    {
        LoggingConfig {
            level: String::from_str("info"),
            access_log: Some(String::from_str("access.log")),
            error_log: Some(String::from_str("error.log")),
            rotation: LogRotationConfig::default(),
        }
    }
}

impl Default for LogRotationConfig {
    /// 10 MiB files, five kept, daily.
    fn default() -> (r: Self)
        ensures
            r.max_size == 10485760,
            r.max_files == 5,
            r.interval == Some(86400u64),
    {
        LogRotationConfig { max_size: 10485760, max_files: 5, interval: Some(86400) }
    }
}

impl Default for SecurityConfig {
    /// 8 KiB of headers, at most a hundred of them.
    fn default() -> (r: Self)
        ensures
            r.max_header_size == 8192,
            r.max_headers == 100,
            !r.hide_version,
    {
        SecurityConfig {
            hide_version: false,
            max_header_size: 8192,
            max_headers: 100,
            rate_limiting: RateLimitConfig::default(),
            ip_blacklist: Vec::new(),
            ip_whitelist: None,
        }
    }
}

impl Default for RateLimitConfig {
    /// Disabled, sixty a minute when on.
    fn default() -> (r: Self)
        ensures
            r == (RateLimitConfig { enabled: false, requests_per_minute: 60, burst_size: 10, ban_duration: 300 }),
    {
        RateLimitConfig { enabled: false, requests_per_minute: 60, burst_size: 10, ban_duration: 300 }
    }
}

} // verus!
