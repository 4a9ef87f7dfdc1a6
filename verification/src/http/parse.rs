//! The incremental HTTP/1.1 request parser: request line, headers, then a
//! fixed-length or chunked body, resumable at any byte boundary. One
//! byte-level transition model (`pstep`/`prun`/`pfeed`) states exactly
//! what every call does; the restartability laws are proved of it.

use vstd::prelude::*;

use crate::util::{
    find_crlf, find_byte, find_byte_from, find_crlf_exec, find_byte_exec, trim, trim_exec,
    utf8_bytes, string_from_bytes, lemma_find_byte_from_ok, lemma_find_crlf_from_ok,
    lemma_find_crlf_extend, lemma_find_crlf_extend_none, all_ascii,
};
use crate::http::request::{
    HttpRequest, ReqM, Method, method_of_token, spec_insert, tok_http_prefix, Headers,
};
use crate::http::chunked::{
    CM, CPhase, cstep, ChunkedError, ChunkedState, phase_of, crank,
};

verus! {

/// Why parsing failed.
#[derive(Debug, Clone, Copy, PartialEq, Eq, Structural)]
pub enum ParseError {
    /// A token that must become text is not valid UTF-8.
    InvalidUtf8,
    /// The request line does not split into exactly three tokens.
    BadRequestLine,
    /// The method token is not one this server knows.
    UnknownMethod,
    /// The version token does not begin with `HTTP/`.
    BadVersion,
    /// The request line runs past the configured cap.
    RequestLineTooLong,
    /// The header section runs past the configured cap.
    HeadersTooLarge,
    /// A header line has no colon.
    MissingColon,
    /// A header line has an empty name.
    EmptyHeaderName,
    /// The declared body length exceeds the configured cap.
    BodyTooLarge,
    /// The chunked body is malformed or over a cap.
    Chunked(ChunkedError),
}

impl ParseError {
    /// A short description of the error.
    pub fn message(&self) -> (r: &'static str) {
        match self {
            ParseError::InvalidUtf8 => "Invalid UTF-8 in request",
            ParseError::BadRequestLine => "Invalid request line format",
            ParseError::UnknownMethod => "Invalid HTTP method",
            ParseError::BadVersion => "Invalid HTTP version",
            ParseError::RequestLineTooLong => "Request line too long",
            ParseError::HeadersTooLarge => "Headers too large",
            ParseError::MissingColon => "Invalid header format",
            ParseError::EmptyHeaderName => "Empty header name",
            ParseError::BodyTooLarge => "Request body too large",
            ParseError::Chunked(e) => e.message(),
        }
    }
}

/// Where parsing stands between calls.
#[derive(Debug, Clone)]
pub enum ParseState {
    /// Waiting for the end of the request line.
    RequestLine,
    /// Reading header lines.
    Headers,
    /// Reading the body.
    Body,
    /// A full request is ready.
    Complete,
    /// Parsing failed; the error is fatal to the connection.
    Failed(ParseError),
}

/// The model of the parser's phase.
pub ghost enum PPh {
    ReqLine,
    Hdrs,
    Body,
    Done,
    Failed(ParseError),
}

/// The byte-level model of the parser: its phase, the bytes received but
/// not consumed, the request built so far, the header-section bytes
/// consumed, the body framing, the chunked sub-phase and trailers, and the
/// four configured caps.
pub ghost struct PM {
    pub phase: PPh,
    pub buf: Seq<u8>,
    pub req: ReqM,
    pub hdr_seen: nat,
    pub expected: Option<nat>,
    pub chunked: bool,
    pub cphase: CPhase,
    pub trailers: Seq<(Seq<u8>, Seq<u8>)>,
    pub line_cap: nat,
    pub hdr_cap: nat,
    pub body_cap: nat,
    pub chunk_cap: nat,
}

impl PM {
    /// The model of a fresh parser with the given caps and an empty buffer.
    pub open spec fn init(line_cap: nat, hdr_cap: nat, body_cap: nat, chunk_cap: nat) -> PM {
        PM {
            phase: PPh::ReqLine,
            buf: Seq::empty(),
            req: ReqM::init(),
            hdr_seen: 0,
            expected: None,
            chunked: false,
            cphase: CPhase::Size,
            trailers: Seq::empty(),
            line_cap,
            hdr_cap,
            body_cap,
            chunk_cap,
        }
    }

    /// This model reset for the next request: back to the request line
    /// with a fresh request, keeping the unconsumed bytes and the caps.
    pub open spec fn reset(self) -> PM {
        PM {
            phase: PPh::ReqLine,
            buf: self.buf,
            req: ReqM::init(),
            hdr_seen: 0,
            expected: None,
            chunked: false,
            cphase: CPhase::Size,
            trailers: Seq::empty(),
            ..self
        }
    }

    /// The chunked-decoder view of this model, used while a chunked body
    /// is being read: the decoded body is the request body.
    pub open spec fn cm(self) -> CM {
        CM {
            phase: self.cphase,
            buf: self.buf,
            body: self.req.body,
            trailers: self.trailers,
            max_chunk: self.chunk_cap,
            max_body: self.body_cap,
        }
    }
}

/// `m` failed with `e`: the phase moves, everything else stays.
pub open spec fn pfail(m: PM, e: ParseError) -> PM {
    PM { phase: PPh::Failed(e), ..m }
}

/// The request-line tokens: the line split at exactly two single spaces.
pub open spec fn split_three(line: Seq<u8>) -> Option<(Seq<u8>, Seq<u8>, Seq<u8>)> {
    match find_byte(line, 32) {
        None => None,
        Some(p1) => match find_byte_from(line, 32, p1 + 1) {
            None => None,
            Some(p2) => if find_byte_from(line, 32, p2 + 1) is Some {
                None
            } else {
                Some((line.take(p1), line.subrange(p1 + 1, p2), line.skip(p2 + 1)))
            },
        },
    }
}

/// What one request line makes of the model: a fresh request carrying the
/// method, path, query and version, ready for headers — or the error that
/// line earns.
pub open spec fn pstep_request_line(m: PM, line: Seq<u8>, rest: Seq<u8>) -> PM {
    match split_three(line) {
        None => pfail(m, ParseError::BadRequestLine),
        Some((mt, target, ver)) => match method_of_token(mt) {
            None => pfail(m, ParseError::UnknownMethod),
            Some(method) => if !(ver.len() >= 5 && ver.take(5) == tok_http_prefix()) {
                pfail(m, ParseError::BadVersion)
            } else {
                let (path, query) = match find_byte(target, 63) {
                    None => (target, None::<Seq<u8>>),
                    Some(qp) => (target.take(qp), Some(target.skip(qp + 1))),
                };
                if !vstd::utf8::valid_utf8(path) || !vstd::utf8::valid_utf8(ver) || (match query {
                    Some(q) => !vstd::utf8::valid_utf8(q),
                    None => false,
                }) {
                    pfail(m, ParseError::InvalidUtf8)
                } else {
                    PM {
                        phase: PPh::Hdrs,
                        buf: rest,
                        req: ReqM {
                            method,
                            path,
                            version: ver,
                            query,
                            headers: Seq::empty(),
                            body: Seq::empty(),
                        },
                        hdr_seen: 0,
                        ..m
                    }
                }
            },
        },
    }
}

/// What one header line makes of the model, or the error it earns.
pub open spec fn pstep_header_line(m: PM, line: Seq<u8>, rest: Seq<u8>, consumed: nat) -> PM {
    match find_byte(line, 58) {
        None => pfail(m, ParseError::MissingColon),
        Some(c) => {
            let name = trim(line.take(c));
            let value = trim(line.skip(c + 1));
            if name.len() == 0 {
                pfail(m, ParseError::EmptyHeaderName)
            } else if !vstd::utf8::valid_utf8(name) || !vstd::utf8::valid_utf8(value) {
                pfail(m, ParseError::InvalidUtf8)
            } else {
                PM {
                    buf: rest,
                    hdr_seen: m.hdr_seen + consumed,
                    req: ReqM { headers: spec_insert(m.req.headers, name, value), ..m.req },
                    ..m
                }
            }
        },
    }
}

/// What the end of the header section makes of the model: the body
/// framing is chosen from `Transfer-Encoding` and `Content-Length`, the
/// declared length is held to the body cap, and a request without a body
/// is complete at once.
pub open spec fn pstep_headers_end(m: PM, rest: Seq<u8>) -> PM {
    if m.req.is_chunked() {
        PM { phase: PPh::Body, buf: rest, chunked: true, cphase: CPhase::Size, ..m }
    } else {
        match m.req.content_length() {
            Some(n) => if n > m.body_cap {
                pfail(m, ParseError::BodyTooLarge)
            } else if n == 0 {
                PM { phase: PPh::Done, buf: rest, ..m }
            } else {
                PM { phase: PPh::Body, buf: rest, expected: Some(n), chunked: false, ..m }
            },
            None => PM { phase: PPh::Done, buf: rest, ..m },
        }
    }
}

/// One parsing step: consumes a prefix of `m.buf`, or moves to a failed
/// phase, or reports that no progress is possible (`None`).
pub open spec fn pstep(m: PM) -> Option<PM> {
    match m.phase {
        PPh::ReqLine => match find_crlf(m.buf) {
            Some(p) => if p > m.line_cap {
                Some(pfail(m, ParseError::RequestLineTooLong))
            } else {
                Some(pstep_request_line(m, m.buf.take(p), m.buf.skip(p + 2)))
            },
            None => if m.buf.len() > m.line_cap + 1 {
                Some(pfail(m, ParseError::RequestLineTooLong))
            } else {
                None
            },
        },
        PPh::Hdrs => match find_crlf(m.buf) {
            Some(p) => if m.hdr_seen + p + 2 > m.hdr_cap {
                Some(pfail(m, ParseError::HeadersTooLarge))
            } else if p == 0 {
                Some(pstep_headers_end(m, m.buf.skip(2)))
            } else {
                Some(pstep_header_line(m, m.buf.take(p), m.buf.skip(p + 2), (p + 2) as nat))
            },
            None => if m.hdr_seen + m.buf.len() > m.hdr_cap + 1 {
                Some(pfail(m, ParseError::HeadersTooLarge))
            } else {
                None
            },
        },
        PPh::Body => if m.chunked {
            match cstep(m.cm()) {
                None => None,
                Some(cm2) => match cm2.phase {
                    CPhase::Failed(e) => Some(
                        PM {
                            phase: PPh::Failed(ParseError::Chunked(e)),
                            buf: cm2.buf,
                            req: ReqM { body: cm2.body, ..m.req },
                            trailers: cm2.trailers,
                            cphase: cm2.phase,
                            ..m
                        },
                    ),
                    CPhase::Done => Some(
                        PM {
                            phase: PPh::Done,
                            buf: cm2.buf,
                            req: ReqM { body: cm2.body, ..m.req },
                            trailers: cm2.trailers,
                            cphase: cm2.phase,
                            ..m
                        },
                    ),
                    _ => Some(
                        PM {
                            buf: cm2.buf,
                            req: ReqM { body: cm2.body, ..m.req },
                            trailers: cm2.trailers,
                            cphase: cm2.phase,
                            ..m
                        },
                    ),
                },
            }
        } else {
            match m.expected {
                Some(n) => if m.req.body.len() >= n || m.buf.len() == 0 {
                    None
                } else {
                    Some(
                        PM {
                            phase: if m.req.body.len() + 1 == n {
                                PPh::Done
                            } else {
                                PPh::Body
                            },
                            buf: m.buf.drop_first(),
                            req: ReqM { body: m.req.body.push(m.buf[0]), ..m.req },
                            ..m
                        },
                    )
                },
                None => None,
            }
        },
        PPh::Done => None,
        PPh::Failed(_) => None,
    }
}

/// How far from terminal a phase is; steps that consume nothing must
/// lower it.
pub open spec fn prank(p: PPh) -> nat {
    match p {
        PPh::Done => 0,
        PPh::Failed(_) => 0,
        _ => 1,
    }
}

/// `pstep`, with the consumption bound made evident for termination.
pub open spec fn pstep_bounded(m: PM) -> Option<PM> {
    match pstep(m) {
        Some(m2) => if m2.buf.len() < m.buf.len() || (m2.buf.len() == m.buf.len() && prank(m2.phase)
            < prank(m.phase)) {
            Some(m2)
        } else {
            None
        },
        None => None,
    }
}

/// Every step consumes or lowers the rank, so `pstep_bounded` is `pstep`.
pub proof fn lemma_pstep_bounded(m: PM)
    ensures
        pstep_bounded(m) == pstep(m),
{
    match m.phase {
        PPh::ReqLine => {
            if let Some(p) = find_crlf(m.buf) {
                lemma_find_crlf_from_ok(m.buf, 0);
                assert(m.buf.skip(p + 2).len() < m.buf.len());
            }
        },
        PPh::Hdrs => {
            if let Some(p) = find_crlf(m.buf) {
                lemma_find_crlf_from_ok(m.buf, 0);
                assert(m.buf.skip(p + 2).len() < m.buf.len());
                assert(m.buf.skip(2).len() < m.buf.len());
            }
        },
        PPh::Body => {
            if m.chunked {
                crate::http::chunked::lemma_cstep_bounded(m.cm());
            }
        },
        PPh::Done => {},
        PPh::Failed(_) => {},
    }
}

/// Runs `pstep` until no step applies.
pub open spec fn prun(m: PM) -> PM
    decreases m.buf.len(), prank(m.phase),
{
    match pstep_bounded(m) {
        Some(m2) => prun(m2),
        None => m,
    }
}

/// Feeding `data`: append it to the pending buffer, then run.
pub open spec fn pfeed(m: PM, data: Seq<u8>) -> PM {
    prun(PM { buf: m.buf + data, ..m })
}

/// One step is unmoved by bytes that arrive later: whatever `pstep` does
/// with the buffer it also does when more bytes stand after it.
pub proof fn lemma_pstep_extend(m: PM, b: Seq<u8>)
    requires
        pstep(m) is Some,
    ensures
        pstep(PM { buf: m.buf + b, ..m }) == Some(
            PM { buf: pstep(m).unwrap().buf + b, ..pstep(m).unwrap() },
        ),
{
    let mx = PM { buf: m.buf + b, ..m };
    let m2 = pstep(m).unwrap();
    assert(forall|i: int| 0 <= i < m.buf.len() ==> (m.buf + b)[i] == m.buf[i]);
    match m.phase {
        PPh::ReqLine => {
            match find_crlf(m.buf) {
                Some(p) => {
                    lemma_find_crlf_from_ok(m.buf, 0);
                    lemma_find_crlf_extend(m.buf, b, 0);
                    assert(find_crlf(mx.buf) == Some(p));
                    assert(mx.buf.take(p) =~= m.buf.take(p));
                    assert(mx.buf.skip(p + 2) =~= m.buf.skip(p + 2) + b);
                    if p <= m.line_cap {
                        assert(pstep_request_line(mx, mx.buf.take(p), mx.buf.skip(p + 2))
                            == (PM {
                            buf: pstep_request_line(m, m.buf.take(p), m.buf.skip(p + 2)).buf + b,
                            ..pstep_request_line(m, m.buf.take(p), m.buf.skip(p + 2))
                        }));
                    }
                },
                None => {
                    assert(m.buf.len() > m.line_cap + 1);
                    lemma_find_crlf_extend_none(m.buf, b, 0);
                    match find_crlf(mx.buf) {
                        Some(p) => {
                            assert(p + 2 > m.buf.len());
                            assert(p > m.line_cap);
                        },
                        None => {
                            assert(mx.buf.len() > m.line_cap + 1);
                        },
                    }
                },
            }
        },
        PPh::Hdrs => {
            match find_crlf(m.buf) {
                Some(p) => {
                    lemma_find_crlf_from_ok(m.buf, 0);
                    lemma_find_crlf_extend(m.buf, b, 0);
                    assert(find_crlf(mx.buf) == Some(p));
                    if m.hdr_seen + p + 2 > m.hdr_cap {
                    } else if p == 0 {
                        assert(mx.buf.skip(2) =~= m.buf.skip(2) + b);
                        assert(pstep_headers_end(mx, mx.buf.skip(2)) == (PM {
                            buf: pstep_headers_end(m, m.buf.skip(2)).buf + b,
                            ..pstep_headers_end(m, m.buf.skip(2))
                        }));
                    } else {
                        assert(mx.buf.take(p) =~= m.buf.take(p));
                        assert(mx.buf.skip(p + 2) =~= m.buf.skip(p + 2) + b);
                        assert(pstep_header_line(mx, mx.buf.take(p), mx.buf.skip(p + 2), (p
                            + 2) as nat) == (PM {
                            buf: pstep_header_line(
                                m,
                                m.buf.take(p),
                                m.buf.skip(p + 2),
                                (p + 2) as nat,
                            ).buf + b,
                            ..pstep_header_line(m, m.buf.take(p), m.buf.skip(p + 2), (p + 2) as nat)
                        }));
                    }
                },
                None => {
                    assert(m.hdr_seen + m.buf.len() > m.hdr_cap + 1);
                    lemma_find_crlf_extend_none(m.buf, b, 0);
                    match find_crlf(mx.buf) {
                        Some(p) => {
                            assert(p + 2 > m.buf.len());
                            assert(m.hdr_seen + p + 2 > m.hdr_cap);
                        },
                        None => {
                            assert(m.hdr_seen + mx.buf.len() > m.hdr_cap + 1);
                        },
                    }
                },
            }
        },
        PPh::Body => {
            if m.chunked {
                crate::http::chunked::lemma_cstep_extend(m.cm(), b);
                assert(mx.cm() == (CM { buf: m.cm().buf + b, ..m.cm() }));
            } else {
                let n = m.expected.unwrap();
                assert(mx.buf[0] == m.buf[0]);
                assert(mx.buf.drop_first() =~= m.buf.drop_first() + b);
            }
        },
        PPh::Done => {},
        PPh::Failed(_) => {},
    }
}

/// Running, then receiving more bytes, then running again lands exactly
/// where one run over all the bytes lands.
pub proof fn lemma_prun_extend(m: PM, b: Seq<u8>)
    ensures
        prun(PM { buf: m.buf + b, ..m }) == prun(PM { buf: prun(m).buf + b, ..prun(m) }),
    decreases m.buf.len(), prank(m.phase),
{
    lemma_pstep_bounded(m);
    match pstep(m) {
        None => {},
        Some(m2) => {
            lemma_pstep_extend(m, b);
            let mx = PM { buf: m.buf + b, ..m };
            lemma_pstep_bounded(mx);
            assert(prun(mx) == prun(PM { buf: m2.buf + b, ..m2 }));
            lemma_prun_extend(m2, b);
        },
    }
}

/// Restartable parsing: feeding two pieces one after the other leaves the
/// parser exactly where feeding their concatenation in one call does —
/// for every starting state and any split point.
pub proof fn lemma_parse_restartable(m: PM, a: Seq<u8>, b: Seq<u8>)
    ensures
        pfeed(pfeed(m, a), b) == pfeed(m, a + b),
{
    let ma = PM { buf: m.buf + a, ..m };
    lemma_prun_extend(ma, b);
    assert(ma.buf + b =~= m.buf + (a + b));
    assert(PM { buf: ma.buf + b, ..ma } == (PM { buf: m.buf + (a + b), ..m }));
}

/// The concatenation of a list of byte pieces.
pub open spec fn concat_all(chunks: Seq<Seq<u8>>) -> Seq<u8>
    decreases chunks.len(),
{
    if chunks.len() == 0 {
        Seq::empty()
    } else {
        chunks[0] + concat_all(chunks.drop_first())
    }
}

/// Feeding a list of byte pieces in order.
pub open spec fn pfeed_all(m: PM, chunks: Seq<Seq<u8>>) -> PM
    decreases chunks.len(),
{
    if chunks.len() == 0 {
        m
    } else {
        pfeed_all(pfeed(m, chunks[0]), chunks.drop_first())
    }
}

/// Restartable parsing over any partition: feeding the pieces of a
/// partition in order leaves the parser exactly where one call with the
/// whole input does.
pub proof fn lemma_parse_any_partition(m: PM, chunks: Seq<Seq<u8>>)
    requires
        chunks.len() >= 1,
    ensures
        pfeed_all(m, chunks) == pfeed(m, concat_all(chunks)),
    decreases chunks.len(),
{
    if chunks.len() == 1 {
        reveal_with_fuel(concat_all, 3);
        reveal_with_fuel(pfeed_all, 3);
        assert(chunks.drop_first().len() == 0);
        assert(concat_all(chunks) == chunks[0] + concat_all(chunks.drop_first()));
        assert(chunks[0] + concat_all(chunks.drop_first()) =~= chunks[0]);
        assert(pfeed_all(m, chunks) == pfeed(m, chunks[0]));
    } else {
        lemma_parse_any_partition(pfeed(m, chunks[0]), chunks.drop_first());
        lemma_parse_restartable(m, chunks[0], concat_all(chunks.drop_first()));
    }
}

/// Keep-alive pipelining: after a reset, the parser behaves exactly like
/// a fresh parser already holding the unconsumed bytes — bytes of a
/// pipelined next request are not lost.
pub proof fn lemma_reset_keeps_pipelined_bytes(m: PM, extra: Seq<u8>)
    ensures
        pfeed(m.reset(), extra) == pfeed(
            PM::init(m.line_cap, m.hdr_cap, m.body_cap, m.chunk_cap),
            m.buf + extra,
        ),
{
    let f = PM::init(m.line_cap, m.hdr_cap, m.body_cap, m.chunk_cap);
    assert(f.buf + (m.buf + extra) =~= m.reset().buf + extra);
    assert(PM { buf: m.reset().buf + extra, ..m.reset() } == (PM {
        buf: f.buf + (m.buf + extra),
        ..f
    }));
}

/// Cap enforcement at the request line: a line longer than the cap fails,
/// whether its end has arrived or not.
pub proof fn lemma_cap_request_line(m: PM)
    requires
        m.phase is ReqLine,
        match find_crlf(m.buf) {
            Some(p) => p > m.line_cap,
            None => m.buf.len() > m.line_cap + 1,
        },
    ensures
        prun(m).phase == PPh::Failed(ParseError::RequestLineTooLong),
{
    lemma_pstep_bounded(m);
    let m2 = pstep(m).unwrap();
    lemma_pstep_bounded(m2);
    assert(prun(m) == prun(m2));
}

/// Cap enforcement at the headers: a header section longer than the cap
/// fails, whether its next line end has arrived or not.
pub proof fn lemma_cap_headers(m: PM)
    requires
        m.phase is Hdrs,
        match find_crlf(m.buf) {
            Some(p) => m.hdr_seen + p + 2 > m.hdr_cap,
            None => m.hdr_seen + m.buf.len() > m.hdr_cap + 1,
        },
    ensures
        prun(m).phase == PPh::Failed(ParseError::HeadersTooLarge),
{
    lemma_pstep_bounded(m);
    let m2 = pstep(m).unwrap();
    lemma_pstep_bounded(m2);
    assert(prun(m) == prun(m2));
}

/// Cap enforcement at the body: a declared `Content-Length` beyond the
/// cap fails as soon as the headers end.
pub proof fn lemma_cap_body(m: PM)
    requires
        m.phase is Hdrs,
        find_crlf(m.buf) == Some(0int),
        m.hdr_seen + 2 <= m.hdr_cap,
        !m.req.is_chunked(),
        match m.req.content_length() {
            Some(n) => n > m.body_cap,
            None => false,
        },
    ensures
        prun(m).phase == PPh::Failed(ParseError::BodyTooLarge),
{
    lemma_pstep_bounded(m);
    let m2 = pstep(m).unwrap();
    lemma_pstep_bounded(m2);
    assert(prun(m) == prun(m2));
}

/// In a fixed-length body, consuming `k` bytes at once reaches the same
/// state as `k` single-byte steps.
pub proof fn lemma_pdata_bulk(m: PM, n: nat, k: nat)
    requires
        m.phase == PPh::Body,
        !m.chunked,
        m.expected == Some(n),
        1 <= k,
        m.req.body.len() + k <= n,
        k <= m.buf.len(),
    ensures
        prun(m) == prun(
            PM {
                phase: if m.req.body.len() + k == n {
                    PPh::Done
                } else {
                    PPh::Body
                },
                buf: m.buf.skip(k as int),
                req: ReqM { body: m.req.body + m.buf.take(k as int), ..m.req },
                ..m
            },
        ),
    decreases k,
{
    lemma_pstep_bounded(m);
    let m1 = pstep(m).unwrap();
    assert(prun(m) == prun(m1));
    if k == 1 {
        assert(m1.buf =~= m.buf.skip(1));
        assert(m1.req.body =~= m.req.body + m.buf.take(1));
    } else {
        lemma_pdata_bulk(m1, n, (k - 1) as nat);
        let t1 = PM {
            phase: if m1.req.body.len() + (k - 1) == n {
                PPh::Done
            } else {
                PPh::Body
            },
            buf: m1.buf.skip(k - 1),
            req: ReqM { body: m1.req.body + m1.buf.take(k - 1), ..m1.req },
            ..m1
        };
        let t = PM {
            phase: if m.req.body.len() + k == n {
                PPh::Done
            } else {
                PPh::Body
            },
            buf: m.buf.skip(k as int),
            req: ReqM { body: m.req.body + m.buf.take(k as int), ..m.req },
            ..m
        };
        assert(t1.buf =~= t.buf);
        assert(t1.req.body =~= t.req.body);
        assert(t1 == t);
    }
}

/// In a chunked body's data, consuming `k` bytes at once reaches the same
/// state as `k` single-byte steps.
pub proof fn lemma_pchunk_bulk(m: PM, size: nat, read: nat, k: nat)
    requires
        m.phase == PPh::Body,
        m.chunked,
        m.cphase == (CPhase::Data { size, read }),
        1 <= k,
        read + k <= size,
        k <= m.buf.len(),
        m.req.body.len() + k <= m.body_cap,
    ensures
        prun(m) == prun(
            PM {
                cphase: if read + k == size {
                    CPhase::DataEnd
                } else {
                    CPhase::Data { size, read: read + k }
                },
                buf: m.buf.skip(k as int),
                req: ReqM { body: m.req.body + m.buf.take(k as int), ..m.req },
                ..m
            },
        ),
    decreases k,
{
    lemma_pstep_bounded(m);
    let m1 = pstep(m).unwrap();
    assert(prun(m) == prun(m1));
    if k == 1 {
        assert(m1.buf =~= m.buf.skip(1));
        assert(m1.req.body =~= m.req.body + m.buf.take(1));
    } else {
        lemma_pchunk_bulk(m1, size, read + 1, (k - 1) as nat);
        let t1 = PM {
            cphase: if read + 1 + (k - 1) == size {
                CPhase::DataEnd
            } else {
                CPhase::Data { size, read: read + k }
            },
            buf: m1.buf.skip(k - 1),
            req: ReqM { body: m1.req.body + m1.buf.take(k - 1), ..m1.req },
            ..m1
        };
        let t = PM {
            cphase: if read + k == size {
                CPhase::DataEnd
            } else {
                CPhase::Data { size, read: read + k }
            },
            buf: m.buf.skip(k as int),
            req: ReqM { body: m.req.body + m.buf.take(k as int), ..m.req },
            ..m
        };
        assert(t1.buf =~= t.buf);
        assert(t1.req.body =~= t.req.body);
        assert(t1 == t);
    }
}

/// The model phase of an executable state.
pub open spec fn pphase_of(s: ParseState, c: ChunkedState) -> PPh {
    match s {
        ParseState::RequestLine => PPh::ReqLine,
        ParseState::Headers => PPh::Hdrs,
        ParseState::Body => PPh::Body,
        ParseState::Complete => PPh::Done,
        ParseState::Failed(e) => PPh::Failed(e),
    }
}

/// The incremental request parser: feed it bytes as they arrive; it hands
/// back a complete request, asks for more, or fails for good.
#[derive(Debug)]
pub struct HttpParser {
    state: ParseState,
    buffer: Vec<u8>,
    request: HttpRequest,
    hdr_seen: usize,
    expected_body_length: Option<usize>,
    chunked: bool,
    chunk_state: ChunkedState,
    trailers: Vec<(String, String)>,
    line_cap: usize,
    hdr_cap: usize,
    body_cap: usize,
    chunk_cap: usize,
}

impl HttpParser {
    /// The byte-level model of this parser.
    pub closed spec fn m(&self) -> PM {
        PM {
            phase: pphase_of(self.state, self.chunk_state),
            buf: self.buffer@,
            req: self.request.m(),
            hdr_seen: self.hdr_seen as nat,
            expected: match self.expected_body_length {
                Some(n) => Some(n as nat),
                None => None,
            },
            chunked: self.chunked,
            cphase: phase_of(self.chunk_state),
            trailers: self.trailers@.map_values(
                |p: (String, String)| (utf8_bytes(p.0@), utf8_bytes(p.1@)),
            ),
            line_cap: self.line_cap as nat,
            hdr_cap: self.hdr_cap as nat,
            body_cap: self.body_cap as nat,
            chunk_cap: self.chunk_cap as nat,
        }
    }

    /// A parser with the default caps: an 8 KiB request line, a 64 KiB
    /// header section, and a 10 MiB body and chunk.
    pub fn new() -> (r: HttpParser)
        ensures
            r.m() == PM::init(8192, 65536, 10485760, 10485760),
    {
        Self::with_limits(8192, 65536, 10485760, 10485760)
    }

    /// A parser with the given request-line, header-section, body and
    /// chunk caps.
    pub fn with_limits(line_cap: usize, hdr_cap: usize, body_cap: usize, chunk_cap: usize) -> (r:
        HttpParser)
        ensures
            r.m() == PM::init(line_cap as nat, hdr_cap as nat, body_cap as nat, chunk_cap as nat),
    {
        let r = HttpParser {
            state: ParseState::RequestLine,
            buffer: Vec::new(),
            request: HttpRequest::new(),
            hdr_seen: 0,
            expected_body_length: None,
            chunked: false,
            chunk_state: ChunkedState::ChunkSize,
            trailers: Vec::new(),
            line_cap,
            hdr_cap,
            body_cap,
            chunk_cap,
        };
        proof {
            assert(r.m().trailers =~= Seq::<(Seq<u8>, Seq<u8>)>::empty());
        }
        r
    }

    /// Whether the parser holds a complete request.
    pub fn is_complete(&self) -> (r: bool)
        ensures
            r == (self.m().phase is Done),
    {
        matches!(self.state, ParseState::Complete)
    }

    /// Whether the parser is inside a body.
    pub fn is_reading_body(&self) -> (r: bool)
        ensures
            r == (self.m().phase is Body),
    {
        matches!(self.state, ParseState::Body)
    }

    /// Resets for the next request on the same connection: back to the
    /// request line with a fresh request. The unconsumed bytes stay, so a
    /// pipelined request that arrived early is not lost.
    pub fn reset(&mut self)
        ensures
            final(self).m() == old(self).m().reset(),
    {
        self.state = ParseState::RequestLine;
        self.request = HttpRequest::new();
        self.hdr_seen = 0;
        self.expected_body_length = None;
        self.chunked = false;
        self.chunk_state = ChunkedState::ChunkSize;
        self.trailers.clear();
        proof {
            assert(self.m().trailers =~= Seq::<(Seq<u8>, Seq<u8>)>::empty());
        }
    }

    /// The trailer headers of a chunked body, once complete.
    pub fn trailer_headers(&self) -> (r: &[(String, String)])
        ensures
            r@.map_values(|p: (String, String)| (utf8_bytes(p.0@), utf8_bytes(p.1@)))
                == self.m().trailers,
    {
        self.trailers.as_slice()
    }

    /// Handles a found request line ending at `p`: splits it into its
    /// three tokens and builds the fresh request, or fails.
    #[verifier::rlimit(100)]
    fn step_request_line(&mut self, p: usize, Ghost(pre): Ghost<PM>)
        requires
            old(self).m() == pre,
            pre.phase is ReqLine,
            find_crlf(pre.buf) == Some(p as int),
            p <= pre.line_cap,
        ensures
            Some(final(self).m()) == pstep(pre),
    {
        proof {
            lemma_find_crlf_from_ok(pre.buf, 0);
        }
        let ghost lineg = pre.buf.take(p as int);
        proof {
            assert(lineg =~= self.buffer@.subrange(0, p as int));
        }
        let sp1 = find_byte_exec(&self.buffer.as_slice()[0..p], 32, 0);
        proof {
            lemma_find_byte_from_ok(lineg, 32, 0);
        }
        let p1 = match sp1 {
            None => {
                self.state = ParseState::Failed(ParseError::BadRequestLine);
                proof {
                    assert(pstep(pre) == Some(self.m()));
                }
                return;
            },
            Some(p1) => p1,
        };
        let sp2 = find_byte_exec(&self.buffer.as_slice()[0..p], 32, p1 + 1);
        proof {
            lemma_find_byte_from_ok(lineg, 32, p1 + 1);
        }
        let p2 = match sp2 {
            None => {
                self.state = ParseState::Failed(ParseError::BadRequestLine);
                proof {
                    assert(pstep(pre) == Some(self.m()));
                }
                return;
            },
            Some(p2) => p2,
        };
        let sp3 = find_byte_exec(&self.buffer.as_slice()[0..p], 32, p2 + 1);
        if sp3.is_some() {
            self.state = ParseState::Failed(ParseError::BadRequestLine);
            proof {
                assert(pstep(pre) == Some(self.m()));
            }
            return;
        }
        let ghost mtg = lineg.take(p1 as int);
        let ghost targetg = lineg.subrange(p1 + 1, p2 as int);
        let ghost verg = lineg.skip(p2 + 1);
        proof {
            assert(split_three(lineg) == Some((mtg, targetg, verg)));
            assert(mtg =~= self.buffer@.subrange(0, p1 as int));
            assert(targetg =~= self.buffer@.subrange(p1 + 1, p2 as int));
            assert(verg =~= self.buffer@.subrange(p2 + 1, p as int));
        }
        let method = match Method::from_bytes(&self.buffer.as_slice()[0..p1]) {
            None => {
                self.state = ParseState::Failed(ParseError::UnknownMethod);
                proof {
                    assert(pstep(pre) == Some(self.m()));
                }
                return;
            },
            Some(method) => method,
        };
        proof {
            crate::http::request::lemma_wire_literals();
        }
        let ver_len = p - (p2 + 1);
        let okver: bool = if ver_len >= 5 {
            let r = crate::util::bytes_eq(
                &self.buffer.as_slice()[p2 + 1..p2 + 6],
                "HTTP/".as_bytes(),
            );
            proof {
                assert(verg.take(5) =~= self.buffer@.subrange(p2 + 1, p2 + 6));
            }
            r
        } else {
            false
        };
        if !okver {
            self.state = ParseState::Failed(ParseError::BadVersion);
            proof {
                assert(pstep(pre) == Some(self.m()));
            }
            return;
        }
        let qpos = find_byte_exec(&self.buffer.as_slice()[p1 + 1..p2], 63, 0);
        proof {
            lemma_find_byte_from_ok(targetg, 63, 0);
        }
        let ghost pathg = match find_byte(targetg, 63) {
            None => targetg,
            Some(qp) => targetg.take(qp),
        };
        let ghost queryg = match find_byte(targetg, 63) {
            None => None::<Seq<u8>>,
            Some(qp) => Some(targetg.skip(qp + 1)),
        };
        let (path_v, q_v): (Vec<u8>, Option<Vec<u8>>) = match qpos {
            None => (vstd::slice::slice_to_vec(&self.buffer.as_slice()[p1 + 1..p2]), None),
            Some(qp) => {
                proof {
                    assert(targetg.take(qp as int) =~= self.buffer@.subrange(
                        p1 + 1,
                        p1 + 1 + qp,
                    ));
                    assert(targetg.skip(qp + 1) =~= self.buffer@.subrange(
                        p1 + 1 + qp + 1,
                        p2 as int,
                    ));
                }
                (
                    vstd::slice::slice_to_vec(&self.buffer.as_slice()[p1 + 1..p1 + 1 + qp]),
                    Some(
                        vstd::slice::slice_to_vec(
                            &self.buffer.as_slice()[p1 + 1 + qp + 1..p2],
                        ),
                    ),
                )
            },
        };
        proof {
            assert(path_v@ == pathg);
        }
        let ver_v = vstd::slice::slice_to_vec(&self.buffer.as_slice()[p2 + 1..p]);
        let path_s = string_from_bytes(path_v);
        let ver_s = string_from_bytes(ver_v);
        match (path_s, ver_s) {
            (Some(path_s), Some(ver_s)) => {
                let q_s: Option<String> = match q_v {
                    None => None,
                    Some(qv) => match string_from_bytes(qv) {
                        Some(qs) => Some(qs),
                        None => {
                            self.state = ParseState::Failed(ParseError::InvalidUtf8);
                            proof {
                                assert(pstep(pre) == Some(self.m()));
                            }
                            return;
                        },
                    },
                };
                self.request = HttpRequest {
                    method,
                    path: path_s,
                    version: ver_s,
                    headers: Headers::new(),
                    body: Vec::new(),
                    query_string: q_s,
                };
                let blen = self.buffer.len();
                proof {
                    assert(p + 2 <= blen);
                }
                let rest = self.buffer.split_off(p + 2);
                self.buffer = rest;
                self.hdr_seen = 0;
                self.state = ParseState::Headers;
                proof {
                    assert(self.m().buf =~= pre.buf.skip(p + 2));
                    assert(self.m().req.body =~= Seq::<u8>::empty());
                    assert(self.m().req == pstep_request_line(pre, lineg, pre.buf.skip(p + 2)).req);
                    assert(pstep(pre) == Some(self.m()));
                }
            },
            _ => {
                self.state = ParseState::Failed(ParseError::InvalidUtf8);
                proof {
                    assert(pstep(pre) == Some(self.m()));
                }
            },
        }
    }

    /// Handles the empty line that ends the header section: chooses the
    /// body framing, or completes the request, or fails on the body cap.
    fn step_headers_end(&mut self, Ghost(pre): Ghost<PM>)
        requires
            old(self).m() == pre,
            pre.phase is Hdrs,
            find_crlf(pre.buf) == Some(0int),
            pre.hdr_seen + 2 <= pre.hdr_cap,
        ensures
            Some(final(self).m()) == pstep(pre),
    {
        proof {
            lemma_find_crlf_from_ok(pre.buf, 0);
        }
        if self.request.is_chunked() {
            let rest = self.buffer.split_off(2);
            self.buffer = rest;
            self.chunked = true;
            self.chunk_state = ChunkedState::ChunkSize;
            self.state = ParseState::Body;
            proof {
                assert(self.m().buf =~= pre.buf.skip(2));
                assert(pstep(pre) == Some(self.m()));
            }
        } else {
            match self.request.content_length() {
                Some(n) => {
                    if n > self.body_cap {
                        self.state = ParseState::Failed(ParseError::BodyTooLarge);
                        proof {
                            assert(pstep(pre) == Some(self.m()));
                        }
                    } else {
                        let rest = self.buffer.split_off(2);
                        self.buffer = rest;
                        if n == 0 {
                            self.state = ParseState::Complete;
                        } else {
                            self.expected_body_length = Some(n);
                            self.chunked = false;
                            self.state = ParseState::Body;
                        }
                        proof {
                            assert(self.m().buf =~= pre.buf.skip(2));
                            assert(pstep(pre) == Some(self.m()));
                        }
                    }
                },
                None => {
                    let rest = self.buffer.split_off(2);
                    self.buffer = rest;
                    self.state = ParseState::Complete;
                    proof {
                        assert(self.m().buf =~= pre.buf.skip(2));
                        assert(pstep(pre) == Some(self.m()));
                    }
                },
            }
        }
    }

    /// Handles one non-empty header line ending at `p`.
    fn step_header_line(&mut self, p: usize, Ghost(pre): Ghost<PM>)
        requires
            old(self).m() == pre,
            pre.phase is Hdrs,
            find_crlf(pre.buf) == Some(p as int),
            p >= 1,
            pre.hdr_seen + p + 2 <= pre.hdr_cap,
        ensures
            Some(final(self).m()) == pstep(pre),
    {
        proof {
            lemma_find_crlf_from_ok(pre.buf, 0);
        }
        let ghost lineg = pre.buf.take(p as int);
        proof {
            assert(lineg =~= self.buffer@.subrange(0, p as int));
        }
        let cpos = find_byte_exec(&self.buffer.as_slice()[0..p], 58, 0);
        proof {
            lemma_find_byte_from_ok(lineg, 58, 0);
        }
        let c = match cpos {
            None => {
                self.state = ParseState::Failed(ParseError::MissingColon);
                proof {
                    assert(pstep(pre) == Some(self.m()));
                }
                return;
            },
            Some(c) => c,
        };
        let name_b = trim_exec(&self.buffer.as_slice()[0..c]);
        let value_b = trim_exec(&self.buffer.as_slice()[c + 1..p]);
        proof {
            assert(lineg.take(c as int) =~= self.buffer@.subrange(0, c as int));
            assert(lineg.skip(c + 1) =~= self.buffer@.subrange(c + 1, p as int));
            assert(name_b@ == trim(lineg.take(c as int)));
            assert(value_b@ == trim(lineg.skip(c + 1)));
        }
        if name_b.len() == 0 {
            self.state = ParseState::Failed(ParseError::EmptyHeaderName);
            proof {
                assert(pstep(pre) == Some(self.m()));
            }
            return;
        }
        let ghost nb = name_b@;
        let ghost vb = value_b@;
        let name_s = string_from_bytes(name_b);
        let value_s = string_from_bytes(value_b);
        match (name_s, value_s) {
            (Some(ns), Some(vs)) => {
                self.request.headers.insert(ns, vs);
                let rest = self.buffer.split_off(p + 2);
                self.buffer = rest;
                self.hdr_seen = self.hdr_seen + p + 2;
                proof {
                    assert(self.m().buf =~= pre.buf.skip(p + 2));
                    assert(self.m() == pstep_header_line(
                        pre,
                        lineg,
                        pre.buf.skip(p + 2),
                        (p + 2) as nat,
                    ));
                    assert(pstep(pre) == Some(self.m()));
                }
            },
            _ => {
                self.state = ParseState::Failed(ParseError::InvalidUtf8);
                proof {
                    assert(pstep(pre) == Some(self.m()));
                }
            },
        }
    }

    /// Runs one chunked-body step (bulk for chunk data); reports whether
    /// any progress was made.
    #[verifier::rlimit(100)]
    fn step_chunked(&mut self, Ghost(pre): Ghost<PM>) -> (progressed: bool)
        requires
            old(self).m() == pre,
            pre.phase is Body,
            pre.chunked,
        ensures
            progressed ==> prun(pre) == prun(final(self).m()) && (final(self).m().buf.len()
                < pre.buf.len() || (final(self).m().buf.len() == pre.buf.len() && prank(
                final(self).m().phase,
            ) < prank(pre.phase))),
            !progressed ==> *final(self) == *old(self) && pstep(pre) is None,
    {
        proof {
            lemma_pstep_bounded(pre);
            crate::http::chunked::lemma_cstep_bounded(pre.cm());
        }
        match &self.chunk_state {
            ChunkedState::ChunkSize => {
                match find_crlf_exec(self.buffer.as_slice()) {
                    None => {
                        return false;
                    },
                    Some(p) => {
                        let blen = self.buffer.len();
                        proof {
                            lemma_find_crlf_from_ok(pre.buf, 0);
                            assert(p + 2 <= blen);
                            lemma_find_byte_from_ok(pre.buf.take(p as int), 59, 0);
                        }
                        let line = &self.buffer.as_slice()[0..p];
                        let semi = find_byte_exec(line, 59, 0);
                        let szpart = match semi {
                            None => trim_exec(line),
                            Some(q) => trim_exec(&line[0..q]),
                        };
                        proof {
                            assert(szpart@ == trim(
                                crate::http::chunked::size_part(pre.buf.take(p as int)),
                            ));
                        }
                        if !crate::util::is_hex_numeral_exec(szpart.as_slice()) {
                            self.chunk_state = ChunkedState::Error(ChunkedError::InvalidChunkSize);
                            self.state = ParseState::Failed(
                                ParseError::Chunked(ChunkedError::InvalidChunkSize),
                            );
                            proof {
                                assert(cstep(pre.cm()) == Some(
                                    crate::http::chunked::cfail(
                                        pre.cm(),
                                        ChunkedError::InvalidChunkSize,
                                    ),
                                ));
                                assert(pstep(pre) == Some(self.m()));
                            }
                            return true;
                        }
                        match crate::util::parse_hex(szpart.as_slice(), self.chunk_cap as u64) {
                            None => {
                                self.chunk_state = ChunkedState::Error(
                                    ChunkedError::ChunkTooLarge,
                                );
                                self.state = ParseState::Failed(
                                    ParseError::Chunked(ChunkedError::ChunkTooLarge),
                                );
                                proof {
                                    assert(pstep(pre) == Some(self.m()));
                                }
                                return true;
                            },
                            Some(sz) => {
                                let rest = self.buffer.split_off(p + 2);
                                self.buffer = rest;
                                if sz == 0 {
                                    self.chunk_state = ChunkedState::Trailer;
                                } else {
                                    self.chunk_state = ChunkedState::ChunkData {
                                        size: sz as usize,
                                        read: 0,
                                    };
                                }
                                proof {
                                    assert(self.m().buf =~= pre.buf.skip(p + 2));
                                    assert(pstep(pre) == Some(self.m()));
                                }
                                return true;
                            },
                        }
                    },
                }
            },
            ChunkedState::ChunkData { size, read } => {
                let size = *size;
                let read = *read;
                let avail = self.buffer.len();
                if avail == 0 || read >= size {
                    return false;
                }
                if self.request.body.len() >= self.body_cap {
                    self.chunk_state = ChunkedState::Error(ChunkedError::BodyTooLarge);
                    self.state = ParseState::Failed(
                        ParseError::Chunked(ChunkedError::BodyTooLarge),
                    );
                    proof {
                        assert(pstep(pre) == Some(self.m()));
                    }
                    return true;
                }
                let rem = size - read;
                let room = self.body_cap - self.request.body.len();
                let mut k = if rem < avail {
                    rem
                } else {
                    avail
                };
                if room < k {
                    k = room;
                }
                self.request.body.extend_from_slice(&self.buffer.as_slice()[0..k]);
                let rest = self.buffer.split_off(k);
                self.buffer = rest;
                if read + k == size {
                    self.chunk_state = ChunkedState::ChunkTrailer;
                } else {
                    self.chunk_state = ChunkedState::ChunkData { size, read: read + k };
                }
                proof {
                    assert(self.m().buf =~= pre.buf.skip(k as int));
                    assert(self.m().req.body =~= pre.req.body + pre.buf.take(k as int));
                    lemma_pchunk_bulk(pre, size as nat, read as nat, k as nat);
                    assert(prun(pre) == prun(self.m()));
                }
                return true;
            },
            ChunkedState::ChunkTrailer => {
                if self.buffer.len() >= 2 {
                    if self.buffer[0] == 13 && self.buffer[1] == 10 {
                        let rest = self.buffer.split_off(2);
                        self.buffer = rest;
                        self.chunk_state = ChunkedState::ChunkSize;
                        proof {
                            assert(self.m().buf =~= pre.buf.skip(2));
                            assert(pstep(pre) == Some(self.m()));
                        }
                    } else {
                        self.chunk_state = ChunkedState::Error(ChunkedError::InvalidEncoding);
                        self.state = ParseState::Failed(
                            ParseError::Chunked(ChunkedError::InvalidEncoding),
                        );
                        proof {
                            assert(pstep(pre) == Some(self.m()));
                        }
                    }
                    return true;
                } else if self.buffer.len() == 1 && self.buffer[0] != 13 {
                    self.chunk_state = ChunkedState::Error(ChunkedError::InvalidEncoding);
                    self.state = ParseState::Failed(
                        ParseError::Chunked(ChunkedError::InvalidEncoding),
                    );
                    proof {
                        assert(pstep(pre) == Some(self.m()));
                    }
                    return true;
                } else {
                    return false;
                }
            },
            ChunkedState::Trailer => {
                match find_crlf_exec(self.buffer.as_slice()) {
                    None => {
                        return false;
                    },
                    Some(p) => {
                        let blen = self.buffer.len();
                        proof {
                            lemma_find_crlf_from_ok(pre.buf, 0);
                            assert(p + 2 <= blen);
                        }
                        if p == 0 {
                            let rest = self.buffer.split_off(2);
                            self.buffer = rest;
                            self.chunk_state = ChunkedState::Complete;
                            self.state = ParseState::Complete;
                            proof {
                                assert(self.m().buf =~= pre.buf.skip(2));
                                assert(pstep(pre) == Some(self.m()));
                            }
                            return true;
                        }
                        proof {
                            lemma_find_byte_from_ok(pre.buf.take(p as int), 58, 0);
                        }
                        let line = &self.buffer.as_slice()[0..p];
                        match find_byte_exec(line, 58, 0) {
                            None => {
                                self.chunk_state = ChunkedState::Error(
                                    ChunkedError::IncompleteData,
                                );
                                self.state = ParseState::Failed(
                                    ParseError::Chunked(ChunkedError::IncompleteData),
                                );
                                proof {
                                    assert(pstep(pre) == Some(self.m()));
                                }
                                return true;
                            },
                            Some(c) => {
                                let name_b = trim_exec(&line[0..c]);
                                let value_b = trim_exec(&line[c + 1..line.len()]);
                                proof {
                                    assert(line@ == pre.buf.take(p as int));
                                    assert(line@.subrange(c + 1, line@.len() as int)
                                        =~= pre.buf.take(p as int).skip(c + 1));
                                }
                                if name_b.len() == 0 {
                                    self.chunk_state = ChunkedState::Error(
                                        ChunkedError::IncompleteData,
                                    );
                                    self.state = ParseState::Failed(
                                        ParseError::Chunked(ChunkedError::IncompleteData),
                                    );
                                    proof {
                                        assert(pstep(pre) == Some(self.m()));
                                    }
                                    return true;
                                }
                                let ghost nb = name_b@;
                                let ghost vb = value_b@;
                                let name_s = string_from_bytes(name_b);
                                let value_s = string_from_bytes(value_b);
                                match (name_s, value_s) {
                                    (Some(n), Some(v)) => {
                                        let ghost tpre = self.m().trailers;
                                        let rest = self.buffer.split_off(p + 2);
                                        self.buffer = rest;
                                        self.trailers.push((n, v));
                                        proof {
                                            assert(self.m().buf =~= pre.buf.skip(p + 2));
                                            assert(self.m().trailers =~= tpre.push((nb, vb)));
                                            assert(crate::http::chunked::trailer_line(
                                                pre.buf.take(p as int),
                                            ) == Some((nb, vb)));
                                            assert(pstep(pre) == Some(self.m()));
                                        }
                                        return true;
                                    },
                                    _ => {
                                        self.chunk_state = ChunkedState::Error(
                                            ChunkedError::IncompleteData,
                                        );
                                        self.state = ParseState::Failed(
                                            ParseError::Chunked(ChunkedError::IncompleteData),
                                        );
                                        proof {
                                            assert(crate::http::chunked::trailer_line(
                                                pre.buf.take(p as int),
                                            ) is None);
                                            assert(pstep(pre) == Some(self.m()));
                                        }
                                        return true;
                                    },
                                }
                            },
                        }
                    },
                }
            },
            ChunkedState::Complete => {
                return false;
            },
            ChunkedState::Error(_) => {
                return false;
            },
        }
    }

    /// Feeds `data` and parses as far as possible. `Ok(Some(..))` hands
    /// back the complete request; `Ok(None)` asks for more data; `Err`
    /// reports a fatal parse error. The state after the call is exactly
    /// the model's `pfeed` of the state before it.
    #[verifier::rlimit(100)]
    pub fn parse(&mut self, data: &[u8]) -> (r: Result<Option<HttpRequest>, ParseError>)
        ensures
            final(self).m() == pfeed(old(self).m(), data@),
            match r {
                Ok(Some(req)) => final(self).m().phase is Done && req.m() == final(self).m().req,
                Ok(None) => !(final(self).m().phase is Done) && !(final(self).m().phase
                    is Failed),
                Err(e) => final(self).m().phase == PPh::Failed(e),
            },
    {
        self.buffer.extend_from_slice(data);
        let ghost target = pfeed(old(self).m(), data@);
        proof {
            assert(self.buffer@ =~= old(self).m().buf + data@);
            assert(self.m() == (PM { buf: old(self).m().buf + data@, ..old(self).m() }));
        }
        loop
            invariant
                prun(self.m()) == target,
                target == pfeed(old(self).m(), data@),
            decreases self.m().buf.len(), prank(self.m().phase),
        {
            proof {
                lemma_pstep_bounded(self.m());
            }
            let ghost pre = self.m();
            match &self.state {
                ParseState::RequestLine => {
                    match find_crlf_exec(self.buffer.as_slice()) {
                        None => {
                            let blen = self.buffer.len();
                            if blen > 0 && blen - 1 > self.line_cap {
                                self.state = ParseState::Failed(ParseError::RequestLineTooLong);
                                proof {
                                    assert(pstep(pre) == Some(self.m()));
                                }
                            } else {
                                proof {
                                    assert(prun(pre) == pre);
                                }
                                return Ok(None);
                            }
                        },
                        Some(p) => {
                            let blen = self.buffer.len();
                            proof {
                                lemma_find_crlf_from_ok(pre.buf, 0);
                                assert(p + 2 <= blen);
                            }
                            if p > self.line_cap {
                                self.state = ParseState::Failed(ParseError::RequestLineTooLong);
                                proof {
                                    assert(pstep(pre) == Some(self.m()));
                                }
                            } else {
                                self.step_request_line(p, Ghost(pre));
                            }
                        },
                    }
                },
                ParseState::Headers => {
                    match find_crlf_exec(self.buffer.as_slice()) {
                        None => {
                            let blen = self.buffer.len();
                            if (self.hdr_seen as u128) + (blen as u128) > (self.hdr_cap as u128)
                                + 1 {
                                self.state = ParseState::Failed(ParseError::HeadersTooLarge);
                                proof {
                                    assert(pstep(pre) == Some(self.m()));
                                }
                            } else {
                                proof {
                                    assert(prun(pre) == pre);
                                }
                                return Ok(None);
                            }
                        },
                        Some(p) => {
                            let blen = self.buffer.len();
                            proof {
                                lemma_find_crlf_from_ok(pre.buf, 0);
                                assert(p + 2 <= blen);
                            }
                            if (self.hdr_seen as u128) + (p as u128) + 2 > (self.hdr_cap
                                as u128) {
                                self.state = ParseState::Failed(ParseError::HeadersTooLarge);
                                proof {
                                    assert(pstep(pre) == Some(self.m()));
                                }
                            } else if p == 0 {
                                self.step_headers_end(Ghost(pre));
                            } else {
                                self.step_header_line(p, Ghost(pre));
                            }
                        },
                    }
                },
                ParseState::Body => {
                    if !self.chunked {
                        match self.expected_body_length {
                            Some(n) => {
                                let blen = self.buffer.len();
                                let cur = self.request.body.len();
                                if blen == 0 || cur >= n {
                                    proof {
                                        assert(prun(pre) == pre);
                                    }
                                    return Ok(None);
                                }
                                let k = if n - cur < blen {
                                    n - cur
                                } else {
                                    blen
                                };
                                self.request.body.extend_from_slice(
                                    &self.buffer.as_slice()[0..k],
                                );
                                let rest = self.buffer.split_off(k);
                                self.buffer = rest;
                                if cur + k == n {
                                    self.state = ParseState::Complete;
                                }
                                proof {
                                    assert(self.m().buf =~= pre.buf.skip(k as int));
                                    assert(self.m().req.body =~= pre.req.body + pre.buf.take(
                                        k as int,
                                    ));
                                    lemma_pdata_bulk(pre, n as nat, k as nat);
                                    assert(prun(pre) == prun(self.m()));
                                }
                                continue;
                            },
                            None => {
                                proof {
                                    assert(prun(pre) == pre);
                                }
                                return Ok(None);
                            },
                        }
                    } else {
                        let progressed = self.step_chunked(Ghost(pre));
                        if !progressed {
                            proof {
                                assert(prun(pre) == pre);
                            }
                            return Ok(None);
                        }
                    }
                },
                ParseState::Complete => {
                    proof {
                        assert(prun(pre) == pre);
                    }
                    return Ok(Some(self.request.clone()));
                },
                ParseState::Failed(e) => {
                    let e = *e;
                    proof {
                        assert(prun(pre) == pre);
                    }
                    return Err(e);
                },
            }
            proof {
                assert(prun(pre) == prun(self.m()));
            }
        }
    }
}

} // verus!
