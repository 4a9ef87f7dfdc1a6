//! HTTP responses: status, reason phrase, headers, body, and the exact
//! serialization the connection writes to the wire.

use vstd::prelude::*;

use crate::util::{dec_digits, u64_to_dec, utf8_bytes, lemma_utf8_bytes_ascii, string_from_bytes,
    all_ascii, lemma_ascii_valid_utf8};
use crate::http::request::{Headers, spec_insert, spec_get_ci, spec_get_exact, spec_remove};
use crate::clock::now_unix_secs;

verus! {

/// The reason phrase the server uses for a status code.
pub open spec fn status_text_of(code: u16) -> Seq<u8> {
    if code == 200 {
        seq![79u8, 75]
    } else if code == 204 {
        seq![78u8, 111, 32, 67, 111, 110, 116, 101, 110, 116]
    } else if code == 301 {
        seq![77u8, 111, 118, 101, 100, 32, 80, 101, 114, 109, 97, 110, 101, 110, 116, 108, 121]
    } else if code == 302 {
        seq![70u8, 111, 117, 110, 100]
    } else if code == 400 {
        seq![66u8, 97, 100, 32, 82, 101, 113, 117, 101, 115, 116]
    } else if code == 403 {
        seq![70u8, 111, 114, 98, 105, 100, 100, 101, 110]
    } else if code == 404 {
        seq![78u8, 111, 116, 32, 70, 111, 117, 110, 100]
    } else if code == 405 {
        seq![77u8, 101, 116, 104, 111, 100, 32, 78, 111, 116, 32, 65, 108, 108, 111, 119, 101, 100]
    } else if code == 413 {
        seq![80u8, 97, 121, 108, 111, 97, 100, 32, 84, 111, 111, 32, 76, 97, 114, 103, 101]
    } else if code == 500 {
        seq![73u8, 110, 116, 101, 114, 110, 97, 108, 32, 83, 101, 114, 118, 101, 114, 32, 69, 114,
            114, 111, 114]
    } else {
        seq![85u8, 110, 107, 110, 111, 119, 110]
    }
}

/// The bytes of `Server`.
pub open spec fn hdr_server() -> Seq<u8> {
    seq![83u8, 101, 114, 118, 101, 114]
}

/// The bytes of `Localhost`, the configured server name.
pub open spec fn server_name_bytes() -> Seq<u8> {
    seq![76u8, 111, 99, 97, 108, 104, 111, 115, 116]
}

/// The bytes of `Date`.
pub open spec fn hdr_date() -> Seq<u8> {
    seq![68u8, 97, 116, 101]
}

/// The bytes of `Content-Length`.
pub open spec fn hdr_content_length() -> Seq<u8> {
    seq![67u8, 111, 110, 116, 101, 110, 116, 45, 76, 101, 110, 103, 116, 104]
}

/// The bytes of `Connection`.
pub open spec fn hdr_connection() -> Seq<u8> {
    seq![67u8, 111, 110, 110, 101, 99, 116, 105, 111, 110]
}

/// The date line the server emits for a clock reading: `timestamp-` and
/// the seconds in decimal.
pub open spec fn date_line(secs: nat) -> Seq<u8> {
    seq![116u8, 105, 109, 101, 115, 116, 97, 109, 112, 45] + dec_digits(secs)
}

/// The byte-level model of a response.
pub ghost struct RespM {
    pub status: u16,
    pub status_text: Seq<u8>,
    pub headers: Seq<(Seq<u8>, Seq<u8>)>,
    pub body: Seq<u8>,
    pub version: Seq<u8>,
}

impl RespM {
    /// The model `HttpResponse::new(code)` builds at clock reading `secs`:
    /// the reason phrase for `code`, the `Server` and `Date` headers, an
    /// empty body, and version `HTTP/1.1`.
    pub open spec fn init(code: u16, secs: nat) -> RespM {
        RespM {
            status: code,
            status_text: status_text_of(code),
            headers: seq![(hdr_server(), server_name_bytes()), (hdr_date(), date_line(secs))],
            body: Seq::empty(),
            version: crate::http::request::tok_http11(),
        }
    }

    /// This model with `name: value` inserted.
    pub open spec fn with_header(self, name: Seq<u8>, value: Seq<u8>) -> RespM {
        RespM { headers: spec_insert(self.headers, name, value), ..self }
    }

    /// This model with `body` set and `Content-Length` updated to its
    /// exact byte length.
    pub open spec fn with_body(self, body: Seq<u8>) -> RespM {
        RespM {
            body,
            headers: spec_insert(self.headers, hdr_content_length(), dec_digits(body.len())),
            ..self
        }
    }

    /// The `code` + space + reason-phrase body of the simple error pages.
    pub open spec fn simple_body(code: u16) -> Seq<u8> {
        dec_digits(code as nat) + seq![32u8] + status_text_of(code)
    }

    /// The serialized wire form: status line, header lines, a blank line,
    /// then the body.
    pub open spec fn wire(self) -> Seq<u8> {
        self.version + seq![32u8] + dec_digits(self.status as nat) + seq![32u8] + self.status_text
            + seq![13u8, 10] + header_block(self.headers) + seq![13u8, 10] + self.body
    }
}

/// The serialized header section: one `name: value` line per pair, in order.
pub open spec fn header_block(pairs: Seq<(Seq<u8>, Seq<u8>)>) -> Seq<u8>
    decreases pairs.len(),
{
    if pairs.len() == 0 {
        Seq::empty()
    } else {
        pairs[0].0 + seq![58u8, 32] + pairs[0].1 + seq![13u8, 10] + header_block(pairs.drop_first())
    }
}

/// `header_block` distributes over appending one pair.
pub proof fn lemma_header_block_snoc(pairs: Seq<(Seq<u8>, Seq<u8>)>, p: (Seq<u8>, Seq<u8>))
    ensures
        header_block(pairs.push(p)) == header_block(pairs) + p.0 + seq![58u8, 32] + p.1 + seq![
            13u8,
            10,
        ],
    decreases pairs.len(),
{
    reveal_with_fuel(header_block, 3);
    if pairs.len() == 0 {
        assert(pairs.push(p)[0] == p);
        assert(pairs.push(p).drop_first() =~= Seq::<(Seq<u8>, Seq<u8>)>::empty());
        assert(header_block(pairs.push(p)) =~= header_block(pairs) + p.0 + seq![58u8, 32] + p.1
            + seq![13u8, 10]);
    } else {
        assert(pairs.push(p)[0] == pairs[0]);
        assert(pairs.push(p).drop_first() =~= pairs.drop_first().push(p));
        lemma_header_block_snoc(pairs.drop_first(), p);
        assert(header_block(pairs.push(p)) =~= header_block(pairs) + p.0 + seq![58u8, 32] + p.1
            + seq![13u8, 10]);
    }
}

/// A response under construction: status, reason phrase, ordered headers,
/// body, and protocol version.
#[derive(Debug, Clone)]
pub struct HttpResponse {
    pub status_code: u16,
    pub status_text: String,
    pub headers: Headers,
    pub body: Vec<u8>,
    pub version: String,
}

/// The literals used when building responses.
proof fn lemma_resp_literals()
    ensures
        utf8_bytes("Server"@) == hdr_server(),
        utf8_bytes("Localhost"@) == server_name_bytes(),
        utf8_bytes("Date"@) == hdr_date(),
        utf8_bytes("Content-Length"@) == hdr_content_length(),
        utf8_bytes("Connection"@) == hdr_connection(),
        utf8_bytes("timestamp-"@) == seq![116u8, 105, 109, 101, 115, 116, 97, 109, 112, 45],
        utf8_bytes("keep-alive"@) == crate::http::request::tok_keep_alive(),
        utf8_bytes("close"@) == crate::http::request::tok_close(),
{
    reveal_strlit("Server");
    reveal_strlit("Localhost");
    reveal_strlit("Date");
    reveal_strlit("Content-Length");
    reveal_strlit("Connection");
    reveal_strlit("timestamp-");
    reveal_strlit("keep-alive");
    reveal_strlit("close");
    lemma_utf8_bytes_ascii("Server"@);
    lemma_utf8_bytes_ascii("Localhost"@);
    lemma_utf8_bytes_ascii("Date"@);
    lemma_utf8_bytes_ascii("Content-Length"@);
    lemma_utf8_bytes_ascii("Connection"@);
    lemma_utf8_bytes_ascii("timestamp-"@);
    lemma_utf8_bytes_ascii("keep-alive"@);
    lemma_utf8_bytes_ascii("close"@);
    assert(utf8_bytes("Server"@) =~= hdr_server());
    assert(utf8_bytes("Localhost"@) =~= server_name_bytes());
    assert(utf8_bytes("Date"@) =~= hdr_date());
    assert(utf8_bytes("Content-Length"@) =~= hdr_content_length());
    assert(utf8_bytes("Connection"@) =~= hdr_connection());
    assert(utf8_bytes("timestamp-"@) =~= seq![116u8, 105, 109, 101, 115, 116, 97, 109, 112, 45]);
    assert(utf8_bytes("keep-alive"@) =~= crate::http::request::tok_keep_alive());
    assert(utf8_bytes("close"@) =~= crate::http::request::tok_close());
}

/// Builds the ASCII string whose bytes are the given sequence.
fn ascii_string(bytes: Vec<u8>) -> (r: String)
    requires
        all_ascii(bytes@),
    ensures
        utf8_bytes(r@) == bytes@,
{
    proof {
        lemma_ascii_valid_utf8(bytes@);
    }
    let ghost b = bytes@;
    match string_from_bytes(bytes) {
        Some(s) => s,
        None => {
            proof {
                assert(false);
            }
            String::new()
        },
    }
}

impl HttpResponse {
    /// The byte-level model of this response.
    pub open spec fn m(&self) -> RespM {
        RespM {
            status: self.status_code,
            status_text: utf8_bytes(self.status_text@),
            headers: self.headers.pairs(),
            body: self.body@,
            version: utf8_bytes(self.version@),
        }
    }

    /// A response with the given status: reason phrase chosen by the code,
    /// `Server` and `Date` headers set, empty body, version `HTTP/1.1`.
    pub fn new(status_code: u16) -> (r: HttpResponse)
        ensures
            exists|secs: nat| r.m() == RespM::init(status_code, secs),
    {
        let secs = now_unix_secs();
        Self::new_at(status_code, secs)
    }

    /// `new`, with the clock reading passed in.
    pub fn new_at(status_code: u16, secs: u64) -> (r: HttpResponse)
        ensures
            r.m() == RespM::init(status_code, secs as nat),
    {
        proof {
            lemma_resp_literals();
            crate::http::request::lemma_wire_literals();
        }
        let status_text: &str = status_text_str_of(status_code);
        let mut headers = Headers::new();
        headers.insert(String::from_str("Server"), String::from_str("Localhost"));
        proof {
            reveal_with_fuel(spec_insert, 3);
            assert(headers.pairs() =~= seq![(hdr_server(), server_name_bytes())]);
        }
        let mut date = Vec::new();
        date.extend_from_slice("timestamp-".as_bytes());
        let mut digits = u64_to_dec(secs);
        date.append(&mut digits);
        proof {
            lemma_dec_digits_ascii(secs as nat);
            assert(date@ =~= date_line(secs as nat));
            assert(all_ascii(date@));
        }
        let date_s = ascii_string(date);
        headers.insert(String::from_str("Date"), date_s);
        proof {
            reveal_with_fuel(spec_insert, 3);
            assert(hdr_server().len() != hdr_date().len());
            assert(headers.pairs() =~= seq![
                (hdr_server(), server_name_bytes()),
                (hdr_date(), date_line(secs as nat)),
            ]);
        }
        let r = HttpResponse {
            status_code,
            status_text: String::from_str(status_text),
            headers,
            body: Vec::new(),
            version: String::from_str("HTTP/1.1"),
        };
        proof {
            assert(r.headers.pairs() =~= RespM::init(status_code, secs as nat).headers);
        }
        r
    }

    /// A `200 OK` response.
    pub fn ok() -> (r: HttpResponse)
        ensures
            exists|secs: nat| r.m() == RespM::init(200, secs),
    {
        Self::new(200)
    }

    /// A `404` response carrying the plain-text page `404 Not Found`.
    pub fn not_found() -> (r: HttpResponse)
        ensures
            exists|secs: nat| r.m() == simple_page(404, secs),
    {
        Self::simple(404)
    }

    /// A `400` response carrying the plain-text page `400 Bad Request`.
    pub fn bad_request() -> (r: HttpResponse)
        ensures
            exists|secs: nat| r.m() == simple_page(400, secs),
    {
        Self::simple(400)
    }

    /// A `405` response carrying the plain-text page `405 Method Not Allowed`.
    pub fn method_not_allowed() -> (r: HttpResponse)
        ensures
            exists|secs: nat| r.m() == simple_page(405, secs),
    {
        Self::simple(405)
    }

    /// A `500` response carrying the plain-text page `500 Internal Server Error`.
    pub fn internal_server_error() -> (r: HttpResponse)
        ensures
            exists|secs: nat| r.m() == simple_page(500, secs),
    {
        Self::simple(500)
    }

    /// The shared shape of the plain error responses: status `code`, body
    /// `code` + space + reason phrase, `Content-Type: text/plain`.
    fn simple(code: u16) -> (r: HttpResponse)
        ensures
            exists|secs: nat| r.m() == simple_page(code, secs),
    {
        let mut r = Self::new(code);
        let ghost secs = choose|secs: nat| r.m() == RespM::init(code, secs);
        let mut body = u64_to_dec(code as u64);
        body.push(32);
        let text = r.status_text.clone();
        body.extend_from_slice(text.as_str().as_bytes());
        proof {
            assert(body@ =~= RespM::simple_body(code));
        }
        r.set_body(body.as_slice());
        r.set_header("Content-Type", "text/plain");
        proof {
            lemma_content_type_literals();
            assert(r.m() == simple_page(code, secs));
        }
        r
    }

    /// Inserts `name: value`, as `Headers::insert` does.
    pub fn set_header(&mut self, name: &str, value: &str)
        ensures
            final(self).m() == old(self).m().with_header(utf8_bytes(name@), utf8_bytes(value@)),
    {
        self.headers.insert(String::from_str(name), String::from_str(value));
    }

    /// Replaces the body and sets `Content-Length` to its exact length.
    pub fn set_body(&mut self, body: &[u8])
        ensures
            final(self).m() == old(self).m().with_body(body@),
    {
        proof {
            lemma_resp_literals();
            lemma_dec_digits_ascii(body@.len());
        }
        let mut owned = Vec::new();
        owned.extend_from_slice(body);
        proof {
            assert(owned@ =~= body@);
        }
        self.body = owned;
        let digits = u64_to_dec(body.len() as u64);
        let len_s = ascii_string(digits);
        self.headers.insert(String::from_str("Content-Length"), len_s);
    }

    /// `set_body` for text.
    pub fn set_body_string(&mut self, body: &str)
        ensures
            final(self).m() == old(self).m().with_body(utf8_bytes(body@)),
    {
        self.set_body(body.as_bytes());
    }

    /// Sets the `Connection` header from the chosen disposition.
    pub fn set_keep_alive(&mut self, keep_alive: bool)
        ensures
            final(self).m() == old(self).m().with_header(
                hdr_connection(),
                if keep_alive {
                    crate::http::request::tok_keep_alive()
                } else {
                    crate::http::request::tok_close()
                },
            ),
    {
        proof {
            lemma_resp_literals();
        }
        if keep_alive {
            self.set_header("Connection", "keep-alive");
        } else {
            self.set_header("Connection", "close");
        }
    }

    /// The status code.
    pub fn status_code(&self) -> (r: u16)
        ensures
            r == self.m().status,
    {
        self.status_code
    }

    /// First header value whose name matches `name` exactly.
    pub fn get_header(&self, name: &str) -> (r: Option<&str>)
        ensures
            match r {
                Some(v) => spec_get_exact(self.m().headers, utf8_bytes(name@)) == Some(
                    utf8_bytes(v@),
                ),
                None => spec_get_exact(self.m().headers, utf8_bytes(name@)) is None,
            },
    {
        match self.headers.get(name) {
            Some(v) => Some(v.as_str()),
            None => None,
        }
    }

    /// The body bytes; `None` when the body is empty.
    pub fn body(&self) -> (r: Option<&[u8]>)
        ensures
            match r {
                Some(b) => self.m().body == b@ && b@.len() > 0,
                None => self.m().body.len() == 0,
            },
    {
        if self.body.len() == 0 {
            None
        } else {
            Some(self.body.as_slice())
        }
    }

    /// The body as text, for callers that inspect error pages; the empty
    /// string when the body is not UTF-8.
    pub fn body_string(&self) -> (r: String)
        ensures
            vstd::utf8::valid_utf8(self.m().body) ==> utf8_bytes(r@) == self.m().body,
    {
        let mut owned = Vec::new();
        owned.extend_from_slice(self.body.as_slice());
        proof {
            assert(owned@ =~= self.body@);
        }
        match string_from_bytes(owned) {
            Some(s) => s,
            None => String::new(),
        }
    }

    /// Serializes the response: status line, headers in order, a blank
    /// line, then the body.
    pub fn to_bytes(&self) -> (r: Vec<u8>)
        ensures
            r@ == self.m().wire(),
    {
        let mut out: Vec<u8> = Vec::new();
        out.extend_from_slice(self.version.as_str().as_bytes());
        out.push(32);
        let mut code = u64_to_dec(self.status_code as u64);
        out.append(&mut code);
        out.push(32);
        out.extend_from_slice(self.status_text.as_str().as_bytes());
        out.push(13);
        out.push(10);
        let ghost status_part = self.m().version + seq![32u8] + dec_digits(self.m().status as nat)
            + seq![32u8] + self.m().status_text + seq![13u8, 10];
        proof {
            assert(out@ =~= status_part);
        }
        let mut i: usize = 0;
        let n = self.headers.len();
        while i < n
            invariant
                i <= n,
                n == self.m().headers.len(),
                status_part == self.m().version + seq![32u8] + dec_digits(self.m().status as nat)
                    + seq![32u8] + self.m().status_text + seq![13u8, 10],
                out@ == status_part + header_block(self.m().headers.take(i as int)),
            decreases n - i,
        {
            let (name, value) = self.headers.pair_at(i);
            out.extend_from_slice(name.as_str().as_bytes());
            out.push(58);
            out.push(32);
            out.extend_from_slice(value.as_str().as_bytes());
            out.push(13);
            out.push(10);
            proof {
                let pairs = self.m().headers;
                lemma_header_block_snoc(pairs.take(i as int), pairs[i as int]);
                assert(pairs.take(i + 1) =~= pairs.take(i as int).push(pairs[i as int]));
                assert(out@ =~= status_part + header_block(pairs.take(i + 1)));
            }
            i += 1;
        }
        out.push(13);
        out.push(10);
        out.extend_from_slice(self.body.as_slice());
        proof {
            assert(self.m().headers.take(n as int) =~= self.m().headers);
            assert(out@ =~= self.m().wire());
        }
        out
    }
}

/// The model of a plain error page: status `code`, body `code` + space +
/// reason phrase, `Content-Type: text/plain`, built at clock reading `secs`.
pub open spec fn simple_page(code: u16, secs: nat) -> RespM {
    RespM::init(code, secs).with_body(RespM::simple_body(code)).with_header(
        utf8_bytes("Content-Type"@),
        utf8_bytes("text/plain"@),
    )
}

/// Decimal numerals are ASCII.
pub proof fn lemma_dec_digits_ascii(n: nat)
    ensures
        all_ascii(dec_digits(n)),
    decreases n,
{
    if n >= 10 {
        lemma_dec_digits_ascii(n / 10);
        assert forall|i: int| 0 <= i < dec_digits(n).len() implies #[trigger] dec_digits(n)[i]
            < 128 by {
            if i < dec_digits(n).len() - 1 {
                assert(dec_digits(n)[i] == dec_digits(n / 10)[i]);
            }
        }
    }
}

/// The reason phrase, as a string literal.
pub fn status_text_str_of(status_code: u16) -> (r: &'static str)
    ensures
        utf8_bytes(r@) == status_text_of(status_code),
{
    proof {
        lemma_status_text_literals();
    }
    if status_code == 200 {
        "OK"
    } else if status_code == 204 {
        "No Content"
    } else if status_code == 301 {
        "Moved Permanently"
    } else if status_code == 302 {
        "Found"
    } else if status_code == 400 {
        "Bad Request"
    } else if status_code == 403 {
        "Forbidden"
    } else if status_code == 404 {
        "Not Found"
    } else if status_code == 405 {
        "Method Not Allowed"
    } else if status_code == 413 {
        "Payload Too Large"
    } else if status_code == 500 {
        "Internal Server Error"
    } else {
        "Unknown"
    }
}

/// The UTF-8 bytes of the reason-phrase literals.
proof fn lemma_status_text_literals()
    ensures
        utf8_bytes("OK"@) == status_text_of(200),
        utf8_bytes("No Content"@) == status_text_of(204),
        utf8_bytes("Moved Permanently"@) == status_text_of(301),
        utf8_bytes("Found"@) == status_text_of(302),
        utf8_bytes("Bad Request"@) == status_text_of(400),
        utf8_bytes("Forbidden"@) == status_text_of(403),
        utf8_bytes("Not Found"@) == status_text_of(404),
        utf8_bytes("Method Not Allowed"@) == status_text_of(405),
        utf8_bytes("Payload Too Large"@) == status_text_of(413),
        utf8_bytes("Internal Server Error"@) == status_text_of(500),
        utf8_bytes("Unknown"@) == status_text_of(0),
{
    reveal_strlit("OK");
    reveal_strlit("No Content");
    reveal_strlit("Moved Permanently");
    reveal_strlit("Found");
    reveal_strlit("Bad Request");
    reveal_strlit("Forbidden");
    reveal_strlit("Not Found");
    reveal_strlit("Method Not Allowed");
    reveal_strlit("Payload Too Large");
    reveal_strlit("Internal Server Error");
    reveal_strlit("Unknown");
    lemma_utf8_bytes_ascii("OK"@);
    lemma_utf8_bytes_ascii("No Content"@);
    lemma_utf8_bytes_ascii("Moved Permanently"@);
    lemma_utf8_bytes_ascii("Found"@);
    lemma_utf8_bytes_ascii("Bad Request"@);
    lemma_utf8_bytes_ascii("Forbidden"@);
    lemma_utf8_bytes_ascii("Not Found"@);
    lemma_utf8_bytes_ascii("Method Not Allowed"@);
    lemma_utf8_bytes_ascii("Payload Too Large"@);
    lemma_utf8_bytes_ascii("Internal Server Error"@);
    lemma_utf8_bytes_ascii("Unknown"@);
    assert(utf8_bytes("OK"@) =~= status_text_of(200));
    assert(utf8_bytes("No Content"@) =~= status_text_of(204));
    assert(utf8_bytes("Moved Permanently"@) =~= status_text_of(301));
    assert(utf8_bytes("Found"@) =~= status_text_of(302));
    assert(utf8_bytes("Bad Request"@) =~= status_text_of(400));
    assert(utf8_bytes("Forbidden"@) =~= status_text_of(403));
    assert(utf8_bytes("Not Found"@) =~= status_text_of(404));
    assert(utf8_bytes("Method Not Allowed"@) =~= status_text_of(405));
    assert(utf8_bytes("Payload Too Large"@) =~= status_text_of(413));
    assert(utf8_bytes("Internal Server Error"@) =~= status_text_of(500));
    assert(utf8_bytes("Unknown"@) =~= status_text_of(0));
}

/// The UTF-8 bytes of the `Content-Type` literals.
proof fn lemma_content_type_literals()
    ensures
        utf8_bytes("Content-Type"@) == seq![67u8, 111, 110, 116, 101, 110, 116, 45, 84, 121, 112,
            101],
        utf8_bytes("text/plain"@) == seq![116u8, 101, 120, 116, 47, 112, 108, 97, 105, 110],
{
    reveal_strlit("Content-Type");
    reveal_strlit("text/plain");
    lemma_utf8_bytes_ascii("Content-Type"@);
    lemma_utf8_bytes_ascii("text/plain"@);
    assert(utf8_bytes("Content-Type"@) =~= seq![67u8, 111, 110, 116, 101, 110, 116, 45, 84, 121,
        112, 101]);
    assert(utf8_bytes("text/plain"@) =~= seq![116u8, 101, 120, 116, 47, 112, 108, 97, 105, 110]);
}

} // verus!
