//! The handler variants the router dispatches into: redirects, method
//! filtering, and error pages.

use vstd::prelude::*;

use crate::http::request::{HttpRequest, Method, method_token, spec_get_exact,
    lemma_get_insert_same, lemma_get_insert_other};
use crate::http::response::{HttpResponse, status_text_of};
use crate::util::{utf8_bytes, string_from_bytes, u64_to_dec, all_ascii, lemma_ascii_valid_utf8,
    lemma_utf8_bytes_ascii};

verus! {

/// The value of an `Allow` header listing methods: their tokens joined
/// by a comma and a space, in order.
pub open spec fn allow_list(ms: Seq<Method>) -> Seq<u8>
    decreases ms.len(),
{
    if ms.len() == 0 {
        Seq::empty()
    } else if ms.len() == 1 {
        method_token(ms[0])
    } else {
        allow_list(ms.drop_last()) + seq![44u8, 32u8] + method_token(ms.last())
    }
}

/// The header names the handlers touch are pairwise distinct.
proof fn lemma_handler_header_names()
    ensures
        utf8_bytes("Location"@) != crate::http::response::hdr_content_length(),
        utf8_bytes("Location"@) != utf8_bytes("Content-Type"@),
{
    reveal_strlit("Location");
    reveal_strlit("Content-Type");
    lemma_utf8_bytes_ascii("Location"@);
    lemma_utf8_bytes_ascii("Content-Type"@);
}

/// What handling a request produced.
#[derive(Debug)]
pub enum HandlerResult {
    /// A response is ready.
    Response(HttpResponse),
    /// The next handler should try.
    Continue,
    /// Handling failed for good.
    Error(crate::net::conn::ConnError),
}

/// A redirect handler: every request earns a redirect to the target.
#[derive(Debug)]
pub struct RedirectHandler {
    pub target_url: String,
    pub status_code: u16,
}

impl RedirectHandler {
    /// A handler for a target; the status defaults to `302`.
    pub fn new(target_url: String, status_code: Option<u16>) -> (r: RedirectHandler)
        ensures
            r.target_url == target_url,
            r.status_code == match status_code {
                Some(c) => c,
                None => 302u16,
            },
    {
        RedirectHandler {
            target_url,
            status_code: match status_code {
                Some(c) => c,
                None => 302,
            },
        }
    }

    /// A redirect response: the status, a `Location` header with the
    /// target, and a small HTML body.
    pub fn handle(&mut self, _request: &HttpRequest) -> (r: HandlerResult)
        ensures
            r matches HandlerResult::Response(resp) && resp.m().status == old(self).status_code
                && spec_get_exact(resp.m().headers, utf8_bytes("Location"@)) == Some(
                utf8_bytes(old(self).target_url@),
            ),
    {
        let mut response = HttpResponse::new(self.status_code);
        let ghost h0 = response.m().headers;
        response.set_header("Location", self.target_url.as_str());
        proof {
            lemma_get_insert_same(h0, utf8_bytes("Location"@), utf8_bytes(self.target_url@));
        }
        let ghost h1 = response.m().headers;
        let mut body: Vec<u8> = Vec::new();
        body.extend_from_slice("<!DOCTYPE html>\n<html><head><title>Redirect</title></head>\n<body><h1>Redirecting...</h1>\n<p>If you are not redirected automatically, follow the Location header.</p></body></html>".as_bytes());
        response.set_body(body.as_slice());
        proof {
            lemma_handler_header_names();
            lemma_get_insert_other(
                h1,
                crate::http::response::hdr_content_length(),
                crate::util::dec_digits(body@.len()),
                utf8_bytes("Location"@),
            );
        }
        let ghost h2 = response.m().headers;
        response.set_header("Content-Type", "text/html");
        proof {
            lemma_get_insert_other(
                h2,
                utf8_bytes("Content-Type"@),
                utf8_bytes("text/html"@),
                utf8_bytes("Location"@),
            );
        }
        HandlerResult::Response(response)
    }

    /// The handler's name.
    pub fn name(&self) -> (r: &'static str) {
        "RedirectHandler"
    }
}

/// A method filter: requests with a method outside the allowed set earn
/// `405` with an `Allow` header.
#[derive(Debug)]
pub struct MethodFilterHandler {
    pub allowed_methods: Vec<Method>,
}

impl MethodFilterHandler {
    /// A filter over the allowed methods.
    pub fn new(allowed_methods: Vec<Method>) -> (r: MethodFilterHandler)
        ensures
            r.allowed_methods == allowed_methods,
    {
        MethodFilterHandler { allowed_methods }
    }

    /// Passes an allowed method through; refuses anything else with
    /// `405` and an `Allow` header listing the allowed methods.
    pub fn handle(&mut self, request: &HttpRequest) -> (r: HandlerResult)
        ensures
            old(self).allowed_methods@.contains(request.method) ==> r is Continue,
            !old(self).allowed_methods@.contains(request.method) ==> (r matches
                HandlerResult::Response(resp) && resp.m().status == 405 && spec_get_exact(
                resp.m().headers,
                utf8_bytes("Allow"@),
            ) == Some(allow_list(old(self).allowed_methods@))),
    {
        let mut i: usize = 0;
        while i < self.allowed_methods.len()
            invariant
                i <= self.allowed_methods@.len(),
                forall|j: int| 0 <= j < i ==> self.allowed_methods@[j] != request.method,
            decreases self.allowed_methods.len() - i,
        {
            if self.allowed_methods[i] == request.method {
                return HandlerResult::Continue;
            }
            i += 1;
        }
        let mut response = HttpResponse::method_not_allowed();
        let ghost ms = self.allowed_methods@;
        let mut allow: Vec<u8> = Vec::new();
        let mut k: usize = 0;
        while k < self.allowed_methods.len()
            invariant
                k <= ms.len(),
                ms == self.allowed_methods@,
                allow@ == allow_list(ms.take(k as int)),
                forall|j: int| 0 <= j < allow@.len() ==> #[trigger] allow@[j] < 128,
            decreases self.allowed_methods.len() - k,
        {
            if k > 0 {
                allow.push(44);
                allow.push(32);
            }
            let m = self.allowed_methods[k];
            proof {
                crate::http::request::lemma_method_token_ascii(m);
            }
            allow.extend_from_slice(m.as_str().as_bytes());
            proof {
                assert(ms.take(k + 1).drop_last() =~= ms.take(k as int));
                assert(ms.take(k + 1).last() == ms[k as int]);
                if k == 0 {
                    assert(allow@ =~= allow_list(ms.take(1)));
                } else {
                    assert(allow@ =~= allow_list(ms.take(k as int)) + seq![44u8, 32u8]
                        + method_token(ms[k as int]));
                }
            }
            k += 1;
        }
        proof {
            assert(ms.take(ms.len() as int) =~= ms);
            lemma_ascii_valid_utf8(allow@);
        }
        let ghost hs = response.m().headers;
        let ghost alist = allow@;
        if let Some(list) = string_from_bytes(allow) {
            response.set_header("Allow", list.as_str());
            proof {
                lemma_get_insert_same(hs, utf8_bytes("Allow"@), alist);
            }
        } else {
            proof {
                assert(false);
            }
        }
        HandlerResult::Response(response)
    }

    /// The handler's name.
    pub fn name(&self) -> (r: &'static str) {
        "MethodFilterHandler"
    }
}

/// An error handler: produces the error page for a status code.
#[derive(Debug)]
pub struct ErrorHandler {
    pub status_code: u16,
    pub error_page_body: Option<String>,
}

impl ErrorHandler {
    /// A handler for a status, with an optional custom page body that
    /// the caller has already loaded.
    pub fn new(status_code: u16, error_page_body: Option<String>) -> (r: ErrorHandler)
        ensures
            r.status_code == status_code,
    {
        ErrorHandler { status_code, error_page_body }
    }

    /// The error response: the custom page when one was given, otherwise
    /// a small HTML page naming the status.
    pub fn handle(&mut self, _request: &HttpRequest) -> (r: HandlerResult)
        ensures
            r matches HandlerResult::Response(resp) && resp.m().status == old(self).status_code,
            old(self).error_page_body matches Some(body) ==> (r matches HandlerResult::Response(
                resp,
            ) && resp.m().body == utf8_bytes(body@)),
    {
        let response = match &self.error_page_body {
            Some(body) => {
                let mut response = HttpResponse::new(self.status_code);
                response.set_body(body.as_str().as_bytes());
                response.set_header("Content-Type", "text/html");
                response
            },
            None => self.default_error_response(),
        };
        HandlerResult::Response(response)
    }

    /// The built-in error page: the status code and its reason phrase in
    /// a minimal HTML document.
    pub fn default_error_response(&self) -> (r: HttpResponse)
        ensures
            r.m().status == self.status_code,
    {
        let mut response = HttpResponse::new(self.status_code);
        let mut body: Vec<u8> = Vec::new();
        body.extend_from_slice("<!DOCTYPE html>\n<html><head><title>".as_bytes());
        let mut code = u64_to_dec(self.status_code as u64);
        proof {
            crate::http::response::lemma_dec_digits_ascii(self.status_code as nat);
        }
        body.append(&mut code);
        body.push(32);
        let text = crate::http::response::status_text_str_of(self.status_code);
        body.extend_from_slice(text.as_bytes());
        body.extend_from_slice("</title></head>\n<body><h1>".as_bytes());
        let mut code2 = u64_to_dec(self.status_code as u64);
        body.append(&mut code2);
        body.push(32);
        body.extend_from_slice(text.as_bytes());
        body.extend_from_slice("</h1></body></html>".as_bytes());
        response.set_body(body.as_slice());
        response.set_header("Content-Type", "text/html");
        response
    }

    /// The handler's name.
    pub fn name(&self) -> (r: &'static str) {
        "ErrorHandler"
    }
}

} // verus!
