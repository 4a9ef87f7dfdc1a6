//! One route: the path pattern it matches and what it allows.

use vstd::prelude::*;

use crate::http::request::Method;
use crate::util::{utf8_bytes, bytes_eq};

verus! {

/// One route's configuration.
#[derive(Debug, Clone)]
pub struct RouteConfig {
    /// The path pattern: an exact path, or a prefix matched at segment
    /// boundaries; `/` matches everything.
    pub path: String,
    /// The methods the route allows.
    pub allowed_methods: Vec<Method>,
    /// A document root overriding the host's.
    pub document_root: Option<String>,
    /// The index file for directories.
    pub index_file: Option<String>,
    /// Whether directory listing is on.
    pub directory_listing: bool,
    /// A redirect target.
    pub redirect: Option<String>,
    /// A CGI extension mapping.
    pub cgi_extension: Option<String>,
    /// A body cap for uploads.
    pub max_body_size: Option<usize>,
    /// Custom error pages by status.
    pub error_pages: Vec<(u16, String)>,
}

impl Default for RouteConfig {
    /// The root route allowing `GET` and `HEAD`.
    fn default() -> (r: Self)
        ensures
            utf8_bytes(r.path@) == seq![47u8],
            r.allowed_methods@ == seq![Method::GET, Method::HEAD],
            r.max_body_size == Some(1048576usize),
            r.redirect is None,
    {
        proof {
            reveal_strlit("/");
            crate::util::lemma_utf8_bytes_ascii("/"@);
            assert(utf8_bytes("/"@) =~= seq![47u8]);
        }
        let mut allowed_methods: Vec<Method> = Vec::new();
        allowed_methods.push(Method::GET);
        allowed_methods.push(Method::HEAD);
        proof {
            assert(allowed_methods@ =~= seq![Method::GET, Method::HEAD]);
        }
        RouteConfig {
            path: String::from_str("/"),
            allowed_methods,
            document_root: None,
            index_file: Some(String::from_str("index.html")),
            directory_listing: false,
            redirect: None,
            cgi_extension: None,
            max_body_size: Some(1048576),
            error_pages: Vec::new(),
        }
    }
}

/// Whether a route pattern matches a request path: exactly, or as a
/// prefix at a segment boundary; the root pattern matches everything.
pub open spec fn route_matches(pattern: Seq<u8>, path: Seq<u8>) -> bool {
    ||| pattern == path
    ||| (pattern != seq![47u8] && path.len() > pattern.len() && path.take(pattern.len() as int)
        == pattern && path[pattern.len() as int] == 47)
    ||| pattern == seq![47u8]
}

/// A route: its configuration with the matching rules.
#[derive(Debug)]
pub struct Route {
    config: RouteConfig,
}

impl Route {
    /// The configuration.
    pub closed spec fn cfg(&self) -> RouteConfig {
        self.config
    }

    /// A route over a configuration.
    pub fn new(config: RouteConfig) -> (r: Route)
        ensures
            r.cfg() == config,
    {
        Route { config }
    }

    /// Whether this route matches a request path.
    pub fn matches(&self, path: &str) -> (r: bool)
        ensures
            r == route_matches(utf8_bytes(self.cfg().path@), utf8_bytes(path@)),
    {
        proof {
            reveal_strlit("/");
            crate::util::lemma_utf8_bytes_ascii("/"@);
            assert(utf8_bytes("/"@) =~= seq![47u8]);
        }
        let pb = self.config.path.as_str().as_bytes();
        let qb = path.as_bytes();
        if bytes_eq(pb, qb) {
            return true;
        }
        let is_root = bytes_eq(pb, "/".as_bytes());
        if !is_root && qb.len() > pb.len() {
            let head = &qb[0..pb.len()];
            if bytes_eq(head, pb) && qb[pb.len()] == 47 {
                return true;
            }
        }
        is_root
    }

    /// Whether this route allows a method.
    pub fn allows_method(&self, method: &Method) -> (r: bool)
        ensures
            r == self.cfg().allowed_methods@.contains(*method),
    {
        let mut i: usize = 0;
        while i < self.config.allowed_methods.len()
            invariant
                i <= self.cfg().allowed_methods@.len(),
                forall|j: int| 0 <= j < i ==> self.cfg().allowed_methods@[j] != *method,
            decreases self.config.allowed_methods.len() - i,
        {
            if self.config.allowed_methods[i] == *method {
                return true;
            }
            i += 1;
        }
        false
    }

    /// The overriding document root, if any.
    pub fn document_root(&self) -> (r: Option<&String>)
        ensures
            (r is Some) == (self.cfg().document_root is Some),
    {
        self.config.document_root.as_ref()
    }

    /// The index file, if any.
    pub fn index_file(&self) -> (r: Option<&str>)
        ensures
            (r is Some) == (self.cfg().index_file is Some),
    {
        match &self.config.index_file {
            Some(s) => Some(s.as_str()),
            None => None,
        }
    }

    /// Whether directory listing is on.
    pub fn directory_listing_enabled(&self) -> (r: bool)
        ensures
            r == self.cfg().directory_listing,
    {
        self.config.directory_listing
    }

    /// The redirect target, if any.
    pub fn redirect_target(&self) -> (r: Option<&str>)
        ensures
            match r {
                Some(t) => self.cfg().redirect matches Some(c) && t@ == c@,
                None => self.cfg().redirect is None,
            },
    {
        match &self.config.redirect {
            Some(s) => Some(s.as_str()),
            None => None,
        }
    }

    /// The CGI extension, if any.
    pub fn cgi_extension(&self) -> (r: Option<&str>)
        ensures
            match r {
                Some(e) => self.cfg().cgi_extension matches Some(c) && e@ == c@,
                None => self.cfg().cgi_extension is None,
            },
    {
        match &self.config.cgi_extension {
            Some(s) => Some(s.as_str()),
            None => None,
        }
    }

    /// The body cap, if any.
    pub fn max_body_size(&self) -> (r: Option<usize>)
        ensures
            r == self.cfg().max_body_size,
    {
        self.config.max_body_size
    }

    /// The custom error page for a status, if any.
    pub fn error_page(&self, status_code: u16) -> (r: Option<&String>)
    {
        let mut i: usize = 0;
        while i < self.config.error_pages.len()
            decreases self.config.error_pages.len() - i,
        {
            if self.config.error_pages[i].0 == status_code {
                return Some(&self.config.error_pages[i].1);
            }
            i += 1;
        }
        None
    }

    /// The path pattern.
    pub fn path(&self) -> (r: &str)
        ensures
            utf8_bytes(r@) == utf8_bytes(self.cfg().path@),
    {
        self.config.path.as_str()
    }

    /// The whole configuration.
    pub fn config(&self) -> (r: &RouteConfig)
        ensures
            *r == self.cfg(),
    {
        &self.config
    }
}

} // verus!
