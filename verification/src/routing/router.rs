//! The router: virtual hosts, route selection, and the dispatch
//! decisions that need no file system. Serving files and running
//! scripts happen outside the library, which chooses what to do.

use vstd::prelude::*;

use crate::fs::path_utils::spec_safe_join;
use crate::http::request::{HttpRequest, Method, spec_get_ci, spec_get_exact,
    lemma_get_insert_same, lemma_get_insert_other};
use crate::http::response::HttpResponse;
use crate::mime::{ext_dot_at, lemma_ext_dot_unique};
use crate::routing::route::{Route, RouteConfig, route_matches};
use crate::routing::handler::{HandlerResult, MethodFilterHandler, RedirectHandler, ErrorHandler,
    allow_list};
use crate::session::cookie::CookieJar;
use crate::session::store::SessionStore;
use crate::util::{utf8_bytes, bytes_eq, find_byte_exec, trim_exec, string_from_bytes, u64_to_dec,
    lemma_find_byte_from_ok};

verus! {

/// A CGI extension with an optional leading dot removed.
pub open spec fn strip_dot(e: Seq<u8>) -> Seq<u8> {
    if e.len() > 0 && e[0] == 46 {
        e.drop_first()
    } else {
        e
    }
}

/// Whether a path's extension equals a CGI extension (given with or
/// without its leading dot).
pub open spec fn cgi_ext_matches(ext: Seq<u8>, path: Seq<u8>) -> bool {
    exists|d: int| #[trigger] ext_dot_at(path, d) && path.skip(d + 1) == strip_dot(ext)
}

/// Whether a route maps this path to its CGI extension.
pub open spec fn cgi_route_applies(cfg: RouteConfig, path: Seq<u8>) -> bool {
    match cfg.cgi_extension {
        Some(e) => cgi_ext_matches(utf8_bytes(e@), path),
        None => false,
    }
}

/// Whether a path's extension equals `ext`, leading dot ignored.
fn path_has_cgi_ext(path: &str, ext: &str) -> (r: bool)
    ensures
        r == cgi_ext_matches(utf8_bytes(ext@), utf8_bytes(path@)),
{
    let eb = ext.as_bytes();
    let stripped = if eb.len() > 0 && eb[0] == 46 {
        &eb[1..eb.len()]
    } else {
        eb
    };
    proof {
        assert(stripped@ =~= strip_dot(utf8_bytes(ext@)));
    }
    match crate::mime::extension_of(path) {
        Some(x) => {
            let ghost d0 = choose|d: int|
                #[trigger] ext_dot_at(utf8_bytes(path@), d) && x@ == utf8_bytes(path@).skip(d + 1);
            proof {
                assert(ext_dot_at(utf8_bytes(path@), d0) && x@ == utf8_bytes(path@).skip(d0 + 1));
            }
            let r = bytes_eq(x.as_slice(), stripped);
            proof {
                if !r {
                    assert forall|d: int|
                        !(#[trigger] ext_dot_at(utf8_bytes(path@), d) && utf8_bytes(path@).skip(
                            d + 1,
                        ) == strip_dot(utf8_bytes(ext@))) by {
                        if ext_dot_at(utf8_bytes(path@), d) {
                            lemma_ext_dot_unique(utf8_bytes(path@), d, d0);
                        }
                    }
                }
            }
            r
        },
        None => false,
    }
}

/// One virtual host as the router sees it.
#[derive(Debug, Clone)]
pub struct VirtualHost {
    /// The server name the `Host` header must carry.
    pub server_name: String,
    /// The routes, most specific pattern winning.
    pub routes: Vec<RouteConfig>,
    /// The document root.
    pub document_root: String,
    /// Custom error pages by status.
    pub error_pages: Vec<(u16, String)>,
    /// The body cap.
    pub max_body_size: usize,
}

impl Default for VirtualHost {
    /// `localhost` over `./www` with the default route.
    fn default() -> (r: Self)
        ensures
            r.routes@.len() == 1,
            r.max_body_size == 1048576,
    {
        let mut routes: Vec<RouteConfig> = Vec::new();
        routes.push(RouteConfig::default());
        VirtualHost {
            server_name: String::from_str("localhost"),
            routes,
            document_root: String::from_str("./www"),
            error_pages: Vec::new(),
            max_body_size: 1048576,
        }
    }
}

/// What the router decides for a request, for the loop outside to carry
/// out.
#[derive(Debug)]
pub enum RouteDecision {
    /// Refuse with this response.
    Respond(HttpResponse),
    /// Serve a file at this path under the chosen host's root.
    ServeFile(String),
    /// Run the CGI script at this path.
    RunCgi(String),
    /// Accept an upload under this route's caps.
    AcceptUpload(usize),
}

/// The router.
#[derive(Debug)]
pub struct Router {
    virtual_hosts: Vec<VirtualHost>,
    default_host: Option<String>,
}

impl Router {
    /// The hosts, in insertion order.
    pub closed spec fn hosts(&self) -> Seq<VirtualHost> {
        self.virtual_hosts@
    }

    /// A router with no hosts.
    pub fn new() -> (r: Router)
        ensures
            r.hosts().len() == 0,
    {
        Router { virtual_hosts: Vec::new(), default_host: None }
    }

    /// Adds a host; the first added becomes the default.
    pub fn add_virtual_host(&mut self, vhost: VirtualHost)
        ensures
            final(self).hosts().len() == old(self).hosts().len() + 1,
    {
        if self.default_host.is_none() {
            self.default_host = Some(vhost.server_name.clone());
        }
        self.virtual_hosts.push(vhost);
    }

    /// The default host's name, if any host was added.
    pub fn default_host(&self) -> (r: Option<&str>)
    {
        match &self.default_host {
            Some(s) => Some(s.as_str()),
            None => None,
        }
    }

    /// The hosts, in insertion order.
    pub fn virtual_hosts(&self) -> (r: &[VirtualHost])
        ensures
            r@ == self.hosts(),
    {
        self.virtual_hosts.as_slice()
    }

    /// The host for a request: by its `Host` header, with the default
    /// and the first host as fallbacks.
    pub fn select_virtual_host(&self, request: &HttpRequest) -> (r: Option<&VirtualHost>)
        ensures
            self.hosts().len() > 0 ==> r is Some,
            self.hosts().len() == 0 ==> r is None,
    {
        let header: Option<String> = match request.get_header("Host") {
            Some(h) => Some(String::from_str(h)),
            None => None,
        };
        if let Some(host) = &header {
            let hb = host.as_str().as_bytes();
            let mut i: usize = 0;
            while i < self.virtual_hosts.len()
                decreases self.virtual_hosts.len() - i,
            {
                if bytes_eq(self.virtual_hosts[i].server_name.as_str().as_bytes(), hb) {
                    return Some(&self.virtual_hosts[i]);
                }
                i += 1;
            }
            proof {
                lemma_find_byte_from_ok(hb@, 58, 0);
            }
            if let Some(colon) = find_byte_exec(hb, 58, 0) {
                let bare = &hb[0..colon];
                let mut i: usize = 0;
                while i < self.virtual_hosts.len()
                    decreases self.virtual_hosts.len() - i,
                {
                    if bytes_eq(self.virtual_hosts[i].server_name.as_str().as_bytes(), bare) {
                        return Some(&self.virtual_hosts[i]);
                    }
                    i += 1;
                }
            }
        }
        if let Some(default) = &self.default_host {
            let db = default.as_str().as_bytes();
            let mut i: usize = 0;
            while i < self.virtual_hosts.len()
                decreases self.virtual_hosts.len() - i,
            {
                if bytes_eq(self.virtual_hosts[i].server_name.as_str().as_bytes(), db) {
                    return Some(&self.virtual_hosts[i]);
                }
                i += 1;
            }
        }
        if self.virtual_hosts.len() > 0 {
            Some(&self.virtual_hosts[0])
        } else {
            None
        }
    }

    /// The most specific matching route for a path under a host: among
    /// the routes whose pattern matches, the one with the longest
    /// pattern; a copy of the host's default shape when none matches.
    pub fn find_matching_route(&self, vhost: &VirtualHost, path: &str) -> (r: Route)
    {
        let mut best: Option<usize> = None;
        let mut best_len: usize = 0;
        let mut i: usize = 0;
        while i < vhost.routes.len()
            invariant
                match best {
                    Some(b) => b < i,
                    None => true,
                },
                i <= vhost.routes@.len(),
            decreases vhost.routes.len() - i,
        {
            let route = Route::new(vhost.routes[i].clone());
            if route.matches(path) {
                let l = vhost.routes[i].path.as_str().unicode_len();
                if best.is_none() || l > best_len {
                    best = Some(i);
                    best_len = l;
                }
            }
            i += 1;
        }
        match best {
            Some(b) => Route::new(vhost.routes[b].clone()),
            None => {
                let mut config = RouteConfig::default();
                config.document_root = Some(vhost.document_root.clone());
                Route::new(config)
            },
        }
    }

    /// The decision for a request under a route: method filtering, then
    /// redirects, then the static, CGI or upload path. The loop outside
    /// carries the decision out, owns every file and process, and runs
    /// `handle_session_routes` over the built response.
    pub fn decide(&self, request: &HttpRequest, route: &Route, vhost: &VirtualHost) -> (r:
        RouteDecision)
        ensures
            !route.cfg().allowed_methods@.contains(request.m().method) ==> (r matches
                RouteDecision::Respond(resp) && resp.m().status == 405 && spec_get_exact(
                resp.m().headers,
                utf8_bytes("Allow"@),
            ) == Some(allow_list(route.cfg().allowed_methods@))),
            route.cfg().allowed_methods@.contains(request.m().method) ==> (match route.cfg().redirect {
                Some(t) => r matches RouteDecision::Respond(resp) && resp.m().status == 302
                    && spec_get_exact(resp.m().headers, utf8_bytes("Location"@)) == Some(
                    utf8_bytes(t@),
                ),
                None => true,
            }),
            route.cfg().allowed_methods@.contains(request.m().method) && route.cfg().redirect
                is None && (request.m().method == Method::GET || request.m().method == Method::HEAD
                || request.m().method == Method::DELETE) ==> (match spec_safe_join(
                utf8_bytes(vhost.document_root@),
                request.m().path,
                0,
            ) {
                Ok(p) => {
                    if request.m().method != Method::DELETE && cgi_route_applies(
                        route.cfg(),
                        request.m().path,
                    ) {
                        r matches RouteDecision::RunCgi(q) && utf8_bytes(q@) == p
                    } else {
                        r matches RouteDecision::ServeFile(q) && utf8_bytes(q@) == p
                    }
                },
                Err(_) => r matches RouteDecision::Respond(resp) && resp.m().status == 403,
            }),
            route.cfg().allowed_methods@.contains(request.m().method) && route.cfg().redirect
                is None && request.m().method == Method::POST ==> ({
                let cap = match route.cfg().max_body_size {
                    Some(c) => c,
                    None => vhost.max_body_size,
                };
                if request.m().content_length() matches Some(n) && n > cap {
                    r matches RouteDecision::Respond(resp) && resp.m().status == 413
                } else if cgi_route_applies(route.cfg(), request.m().path) {
                    match spec_safe_join(utf8_bytes(vhost.document_root@), request.m().path, 0) {
                        Ok(p) => r matches RouteDecision::RunCgi(q) && utf8_bytes(q@) == p,
                        Err(_) => r matches RouteDecision::Respond(resp) && resp.m().status == 403,
                    }
                } else {
                    r matches RouteDecision::AcceptUpload(c) && c == cap
                }
            }),
            route.cfg().allowed_methods@.contains(request.m().method) && route.cfg().redirect
                is None && (request.m().method == Method::PUT || request.m().method
                == Method::OPTIONS) ==> (r matches RouteDecision::Respond(resp) && resp.m().status
                == 405),
    {
        if !route.allows_method(&request.method) {
            let methods = route.config().allowed_methods.clone();
            proof {
                assert(methods@ =~= route.cfg().allowed_methods@);
            }
            let mut handler = MethodFilterHandler::new(methods);
            match handler.handle(request) {
                HandlerResult::Response(response) => {
                    return RouteDecision::Respond(response);
                },
                _ => {
                    proof {
                        assert(false);
                    }
                },
            }
        }
        if let Some(target) = route.redirect_target() {
            let owned = String::from_str(target);
            let mut handler = RedirectHandler::new(owned, None);
            match handler.handle(request) {
                HandlerResult::Response(response) => {
                    return RouteDecision::Respond(response);
                },
                _ => {
                    proof {
                        assert(false);
                    }
                },
            }
        }
        let wants_cgi = match route.cgi_extension() {
            Some(ext) => path_has_cgi_ext(request.path(), ext),
            None => false,
        };
        match request.method {
            Method::GET | Method::HEAD => {
                match crate::fs::path_utils::safe_path_join(
                    vhost.document_root.as_str(),
                    request.path(),
                ) {
                    Ok(p) => {
                        if wants_cgi {
                            RouteDecision::RunCgi(p)
                        } else {
                            RouteDecision::ServeFile(p)
                        }
                    },
                    Err(_) => {
                        let mut handler = ErrorHandler::new(403, None);
                        match handler.handle(request) {
                            HandlerResult::Response(response) => RouteDecision::Respond(response),
                            _ => RouteDecision::Respond(HttpResponse::internal_server_error()),
                        }
                    },
                }
            },
            Method::POST => {
                let cap = match route.max_body_size() {
                    Some(c) => c,
                    None => vhost.max_body_size,
                };
                if let Some(n) = request.content_length() {
                    if n > cap {
                        let mut handler = ErrorHandler::new(413, None);
                        return match handler.handle(request) {
                            HandlerResult::Response(response) => RouteDecision::Respond(response),
                            _ => RouteDecision::Respond(HttpResponse::internal_server_error()),
                        };
                    }
                }
                if wants_cgi {
                    match crate::fs::path_utils::safe_path_join(
                        vhost.document_root.as_str(),
                        request.path(),
                    ) {
                        Ok(p) => RouteDecision::RunCgi(p),
                        Err(_) => {
                            let mut handler = ErrorHandler::new(403, None);
                            match handler.handle(request) {
                                HandlerResult::Response(response) => RouteDecision::Respond(
                                    response,
                                ),
                                _ => RouteDecision::Respond(HttpResponse::internal_server_error()),
                            }
                        },
                    }
                } else {
                    RouteDecision::AcceptUpload(cap)
                }
            },
            Method::DELETE => {
                match crate::fs::path_utils::safe_path_join(
                    vhost.document_root.as_str(),
                    request.path(),
                ) {
                    Ok(p) => RouteDecision::ServeFile(p),
                    Err(_) => {
                        let mut handler = ErrorHandler::new(403, None);
                        match handler.handle(request) {
                            HandlerResult::Response(response) => RouteDecision::Respond(response),
                            _ => RouteDecision::Respond(HttpResponse::internal_server_error()),
                        }
                    },
                }
            },
            _ => {
                let mut handler = ErrorHandler::new(405, None);
                match handler.handle(request) {
                    HandlerResult::Response(response) => RouteDecision::Respond(response),
                    _ => RouteDecision::Respond(HttpResponse::internal_server_error()),
                }
            },
        }
    }
}

/// The paths of the built-in session endpoints.
pub open spec fn session_path(p: Seq<u8>) -> bool {
    p == utf8_bytes("/session/create"@) || p == utf8_bytes("/session/info"@) || p == utf8_bytes(
        "/session/destroy"@,
    )
}

/// The session endpoints, applied over an already built response: on
/// `/session/create` a fresh session lands in the store and its cookie
/// in a `Set-Cookie` header; `/session/info` reports the caller's
/// session; `/session/destroy` deletes it and sends a deletion cookie.
/// Any other path leaves the store and the response untouched.
pub fn handle_session_routes(
    store: &mut SessionStore,
    request: &HttpRequest,
    jar: &CookieJar,
    response: &mut HttpResponse,
) -> (handled: bool)
    ensures
        handled == session_path(request.m().path),
        final(store).conf() == old(store).conf(),
        request.m().path == utf8_bytes("/session/create"@) ==> final(store).list().len() >= 1
            && spec_get_exact(final(response).m().headers, utf8_bytes("Set-Cookie"@)) is Some,
        !session_path(request.m().path) ==> final(store).list() == old(store).list()
            && final(response).m() == old(response).m(),
{
    let path = request.path();
    let pb = path.as_bytes();
    let is_create = bytes_eq(pb, "/session/create".as_bytes());
    let is_info = bytes_eq(pb, "/session/info".as_bytes());
    let is_destroy = bytes_eq(pb, "/session/destroy".as_bytes());
    if is_create {
        match store.create_session() {
            Ok(session) => {
                let cookie = store.create_session_cookie(session.id.as_str());
                let header_value = cookie.to_header_value();
                response.set_header("Set-Cookie", header_value.as_str());
                proof {
                    lemma_get_insert_same(
                        old(response).m().headers,
                        utf8_bytes("Set-Cookie"@),
                        utf8_bytes(header_value@),
                    );
                }
                let ghost h1 = response.m().headers;
                let mut body: Vec<u8> = Vec::new();
                body.extend_from_slice("Session created: ".as_bytes());
                body.extend_from_slice(session.id.as_str().as_bytes());
                response.set_body(body.as_slice());
                proof {
                    lemma_session_header_names();
                    lemma_get_insert_other(
                        h1,
                        crate::http::response::hdr_content_length(),
                        crate::util::dec_digits(body@.len()),
                        utf8_bytes("Set-Cookie"@),
                    );
                }
                let ghost h2 = response.m().headers;
                response.set_header("Content-Type", "text/plain");
                proof {
                    lemma_get_insert_other(
                        h2,
                        utf8_bytes("Content-Type"@),
                        utf8_bytes("text/plain"@),
                        utf8_bytes("Set-Cookie"@),
                    );
                }
            },
            Err(_) => {
                proof {
                    assert(false);
                }
            },
        }
        return true;
    }
    if is_info {
        match store.get_session_from_cookies(jar) {
            Some(session) => {
                let mut body: Vec<u8> = Vec::new();
                body.extend_from_slice("Session ID: ".as_bytes());
                body.extend_from_slice(session.id.as_str().as_bytes());
                body.extend_from_slice("\nCreated: ".as_bytes());
                let mut created = u64_to_dec(session.data.created_at());
                body.append(&mut created);
                body.extend_from_slice("\nLast Accessed: ".as_bytes());
                let mut accessed = u64_to_dec(session.data.last_accessed());
                body.append(&mut accessed);
                body.extend_from_slice("\nData: ".as_bytes());
                let mut count = u64_to_dec(session.data.len() as u64);
                body.append(&mut count);
                body.extend_from_slice(" items".as_bytes());
                response.set_body(body.as_slice());
            },
            None => {
                response.set_body("No active session".as_bytes());
            },
        }
        response.set_header("Content-Type", "text/plain");
        return true;
    }
    if is_destroy {
        let name = String::from_str(store.config().cookie_name.as_str());
        match jar.get_value(name.as_str()) {
            Some(session_id) => {
                let id = String::from_str(session_id);
                store.delete_session(id.as_str());
                let cookie = store.create_deletion_cookie();
                let header_value = cookie.to_header_value();
                response.set_header("Set-Cookie", header_value.as_str());
                response.set_body("Session destroyed".as_bytes());
            },
            None => {
                response.set_body("No session to destroy".as_bytes());
            },
        }
        response.set_header("Content-Type", "text/plain");
        return true;
    }
    false
}

/// The header names the session endpoints touch are distinct.
proof fn lemma_session_header_names()
    ensures
        utf8_bytes("Set-Cookie"@) != crate::http::response::hdr_content_length(),
        utf8_bytes("Set-Cookie"@) != utf8_bytes("Content-Type"@),
{
    reveal_strlit("Set-Cookie");
    reveal_strlit("Content-Type");
    crate::util::lemma_utf8_bytes_ascii("Set-Cookie"@);
    crate::util::lemma_utf8_bytes_ascii("Content-Type"@);
}

impl Default for Router {
    /// A router holding the default host.
    fn default() -> (r: Self)
        ensures
            r.hosts().len() == 1,
    {
        let mut router = Router::new();
        router.add_virtual_host(VirtualHost::default());
        router
    }
}

} // verus!
