//! The per-connection state machine: incremental reading into the
//! parser, response serialization with a write cursor, and the keep-alive
//! reset. The socket itself stays outside; the loop hands bytes in and
//! takes bytes out.

use vstd::prelude::*;

use crate::http::parse::{HttpParser, ParseError, PM, PPh, pfeed};
use crate::http::request::{HttpRequest, ReqM, spec_get_ci, tok_connection, tok_http11,
    tok_keep_alive, tok_close, tok_host};
use crate::http::response::{HttpResponse, RespM, hdr_connection};

verus! {

/// Why the connection must close with an error.
#[derive(Debug, Clone, Copy, PartialEq, Eq, Structural)]
pub enum ConnError {
    /// The wire bytes could not be parsed.
    Parse(ParseError),
    /// An HTTP/1.1 request arrived without a `Host` header.
    MissingHost,
    /// A response was requested with no complete request pending.
    NoRequest,
}

/// One connection's protocol state: the parser, the serialized response
/// with its send cursor, the request in flight, and the keep-alive flag
/// derived from the last request.
#[derive(Debug)]
pub struct Connection {
    parser: HttpParser,
    write_buffer: Vec<u8>,
    write_pos: usize,
    current_request: Option<HttpRequest>,
    keep_alive: bool,
}

impl Connection {
    /// The parser model.
    pub closed spec fn pm(&self) -> PM {
        self.parser.m()
    }

    /// The serialized response bytes queued for writing.
    pub closed spec fn out(&self) -> Seq<u8> {
        self.write_buffer@
    }

    /// The send cursor: bytes of `out` already written.
    pub closed spec fn cursor(&self) -> nat {
        self.write_pos as nat
    }

    /// The request in flight, if one is complete.
    pub closed spec fn req(&self) -> Option<ReqM> {
        match self.current_request {
            Some(r) => Some(r.m()),
            None => None,
        }
    }

    /// The keep-alive disposition derived from the last request.
    pub closed spec fn ka(&self) -> bool {
        self.keep_alive
    }

    /// A fresh connection: default parser caps, nothing queued, close by
    /// default until a request says otherwise.
    pub fn new() -> (r: Connection)
        ensures
            r.pm() == PM::init(8192, 65536, 10485760, 10485760),
            r.out() == Seq::<u8>::empty(),
            r.cursor() == 0,
            r.req() is None,
            !r.ka(),
    {
        Connection {
            parser: HttpParser::new(),
            write_buffer: Vec::new(),
            write_pos: 0,
            current_request: None,
            keep_alive: false,
        }
    }

    /// Feeds bytes read from the socket. `Ok(true)` says a complete
    /// request is in flight, with the keep-alive flag set from it and a
    /// missing `Host` on HTTP/1.1 rejected; `Ok(false)` asks for more
    /// bytes; `Err` is fatal to the connection.
    pub fn feed_bytes(&mut self, data: &[u8]) -> (r: Result<bool, ConnError>)
        ensures
            final(self).pm() == pfeed(old(self).pm(), data@),
            final(self).out() == old(self).out(),
            final(self).cursor() == old(self).cursor(),
            match r {
                Ok(true) => {
                    let m = final(self).pm();
                    &&& m.phase is Done
                    &&& final(self).req() == Some(m.req)
                    &&& final(self).ka() == m.req.keep_alive()
                    &&& (m.req.version == tok_http11() ==> spec_get_ci(m.req.headers, tok_host())
                        is Some)
                },
                Ok(false) => !(final(self).pm().phase is Done) && !(final(self).pm().phase
                    is Failed) && final(self).req() == old(self).req(),
                Err(e) => match e {
                    ConnError::Parse(pe) => final(self).pm().phase == PPh::Failed(pe),
                    ConnError::MissingHost => final(self).pm().phase is Done
                        && final(self).pm().req.version == tok_http11()
                        && spec_get_ci(final(self).pm().req.headers, tok_host()) is None,
                    ConnError::NoRequest => false,
                },
            },
    {
        match self.parser.parse(data) {
            Ok(Some(request)) => {
                proof {
                    crate::http::request::lemma_wire_literals();
                }
                let is11 = crate::util::bytes_eq(
                    request.version.as_str().as_bytes(),
                    "HTTP/1.1".as_bytes(),
                );
                if is11 && request.host().is_none() {
                    return Err(ConnError::MissingHost);
                }
                self.keep_alive = request.connection_keep_alive();
                self.current_request = Some(request);
                Ok(true)
            },
            Ok(None) => Ok(false),
            Err(e) => Err(ConnError::Parse(e)),
        }
    }

    /// Queues a response for writing: the connection stays alive only
    /// when both sides allow it — the request asked for keep-alive and
    /// the handler's response did not suggest `Connection: close`. The
    /// final `Connection` header is set from that disposition, the bytes
    /// are serialized, and the cursor starts at zero.
    pub fn queue_response(&mut self, response: &mut HttpResponse)
        ensures
            final(self).ka() == (old(self).ka() && crate::http::request::spec_get_exact(
                old(response).m().headers,
                hdr_connection(),
            ) != Some(tok_close())),
            final(response).m() == old(response).m().with_header(
                hdr_connection(),
                if final(self).ka() {
                    tok_keep_alive()
                } else {
                    tok_close()
                },
            ),
            final(self).out() == final(response).m().wire(),
            final(self).cursor() == 0,
            final(self).pm() == old(self).pm(),
    {
        proof {
            reveal_strlit("Connection");
            reveal_strlit("close");
            crate::util::lemma_utf8_bytes_ascii("Connection"@);
            crate::util::lemma_utf8_bytes_ascii("close"@);
            assert(crate::util::utf8_bytes("Connection"@) =~= hdr_connection());
            assert(crate::util::utf8_bytes("close"@) =~= tok_close());
        }
        let suggests_close = match response.get_header("Connection") {
            Some(v) => crate::util::bytes_eq(v.as_bytes(), "close".as_bytes()),
            None => false,
        };
        if suggests_close {
            self.keep_alive = false;
        }
        response.set_keep_alive(self.keep_alive);
        self.write_buffer = response.to_bytes();
        self.write_pos = 0;
    }

    /// The bytes still to write: the queued response from the cursor on.
    pub fn pending_bytes(&self) -> (r: &[u8])
        ensures
            self.cursor() <= self.out().len() ==> r@ == self.out().skip(self.cursor() as int),
            self.cursor() > self.out().len() ==> r@ == Seq::<u8>::empty(),
    {
        if self.write_pos <= self.write_buffer.len() {
            &self.write_buffer.as_slice()[self.write_pos..self.write_buffer.len()]
        } else {
            &self.write_buffer.as_slice()[0..0]
        }
    }

    /// Advances the cursor by `n` freshly written bytes; reports whether
    /// the whole response has now been written. The cursor only advances,
    /// and never past the end of the buffer.
    pub fn advance_write(&mut self, n: usize) -> (done: bool)
        ensures
            final(self).cursor() == if old(self).cursor() + n <= old(self).out().len() {
                old(self).cursor() + n
            } else {
                old(self).out().len() as int
            },
            done == (final(self).cursor() == final(self).out().len()),
            final(self).out() == old(self).out(),
            final(self).pm() == old(self).pm(),
            final(self).ka() == old(self).ka(),
    {
        let len = self.write_buffer.len();
        if n <= len && self.write_pos <= len - n {
            self.write_pos = self.write_pos + n;
        } else {
            self.write_pos = len;
        }
        self.write_pos == len
    }

    /// After a fully written response: keeps the connection when both
    /// sides allow it, resetting the parser for the next request without
    /// dropping pipelined bytes; otherwise asks the loop to close.
    pub fn finish_response(&mut self) -> (close: bool)
        ensures
            close == !old(self).ka(),
            old(self).ka() ==> final(self).pm() == old(self).pm().reset() && final(self).out()
                == Seq::<u8>::empty() && final(self).cursor() == 0 && final(self).req() is None,
            !old(self).ka() ==> *final(self) == *old(self),
    {
        if self.keep_alive {
            self.parser.reset();
            self.write_buffer.clear();
            self.write_pos = 0;
            self.current_request = None;
            false
        } else {
            true
        }
    }

    /// The request in flight, if a complete one is pending.
    pub fn current_request(&self) -> (r: Option<&HttpRequest>)
        ensures
            match r {
                Some(q) => self.req() == Some(q.m()),
                None => self.req() is None,
            },
    {
        match &self.current_request {
            Some(q) => Some(q),
            None => None,
        }
    }

    /// The keep-alive disposition.
    pub fn should_keep_alive(&self) -> (r: bool)
        ensures
            r == self.ka(),
    {
        self.keep_alive
    }

    /// Whether the parser stands in a body.
    pub fn is_reading_body(&self) -> (r: bool)
        ensures
            r == (self.pm().phase is Body),
    {
        self.parser.is_reading_body()
    }
}

/// HTTP/1.0 default close: a request whose version is not `HTTP/1.1` and
/// that carries no `Connection` header asks for close, so the core sets
/// `Connection: close` on the response and closes after writing.
pub proof fn lemma_http10_default_close(req: ReqM)
    requires
        req.version != tok_http11(),
        spec_get_ci(req.headers, tok_connection()) is None,
    ensures
        !req.keep_alive(),
{
}

/// HTTP/1.1 default keep-alive: a request whose version is `HTTP/1.1`
/// and that carries no `Connection` header asks for keep-alive.
pub proof fn lemma_http11_default_keep_alive(req: ReqM)
    requires
        req.version == tok_http11(),
        spec_get_ci(req.headers, tok_connection()) is None,
    ensures
        req.keep_alive(),
{
}

} // verus!
