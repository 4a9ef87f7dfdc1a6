//! Parsing a CGI script's output: its header lines, then its body.

use vstd::prelude::*;

use crate::http::request::{Headers, spec_get_exact, spec_insert, lemma_get_insert_same};
use crate::http::response::HttpResponse;
use crate::util::{utf8_bytes, string_from_bytes, find_byte, find_byte_from, find_byte_exec, trim,
    trim_exec, bytes_eq, eq_ignore_case, eq_ignore_case_exec, lemma_find_byte_from_ok};

verus! {

/// The end of the output line of `s` that starts at `from`: the next
/// newline, or the end of `s`.
pub open spec fn line_end(s: Seq<u8>, from: int) -> int {
    let e = match find_byte_from(s, 10, from) {
        Some(p) => p,
        None => s.len() as int,
    };
    if e < from {
        from
    } else if e > s.len() {
        s.len() as int
    } else {
        e
    }
}

/// A line with one trailing carriage return removed.
pub open spec fn strip_cr(l: Seq<u8>) -> Seq<u8> {
    if l.len() > 0 && l[l.len() - 1] == 13 {
        l.drop_last()
    } else {
        l
    }
}

/// What parsing a script's output from `from` on yields, the headers so
/// far in `acc`: header lines are split at the first colon, names and
/// values trimmed, a repeated name replacing the earlier value; a
/// `Status` line is recognized and dropped; an empty line ends the
/// headers, the rest being the body; a header line without a colon
/// fails the parse.
pub open spec fn cgi_parse_from(
    s: Seq<u8>,
    from: int,
    acc: Seq<(Seq<u8>, Seq<u8>)>,
) -> Result<(Seq<(Seq<u8>, Seq<u8>)>, Seq<u8>), ()>
    decreases s.len() - from,
{
    let end = line_end(s, from);
    let line = strip_cr(s.subrange(from, end));
    if line.len() == 0 {
        let body = if end < s.len() {
            s.skip(end + 1)
        } else {
            Seq::<u8>::empty()
        };
        Ok((acc, body))
    } else {
        match find_byte(line, 58) {
            Some(c) => {
                let n = trim(line.take(c));
                let v = trim(line.skip(c + 1));
                if eq_ignore_case(n, utf8_bytes("status"@)) {
                    if end >= s.len() {
                        Ok((acc, Seq::<u8>::empty()))
                    } else {
                        cgi_parse_from(s, end + 1, acc)
                    }
                } else if vstd::utf8::valid_utf8(n) && vstd::utf8::valid_utf8(v) {
                    if end >= s.len() {
                        Ok((spec_insert(acc, n, v), Seq::<u8>::empty()))
                    } else {
                        cgi_parse_from(s, end + 1, spec_insert(acc, n, v))
                    }
                } else {
                    Err(())
                }
            },
            None => Err(()),
        }
    }
}

/// A script's output, split into status, headers and body.
#[derive(Debug, Clone)]
pub struct CgiResponse {
    pub status: Option<u16>,
    pub headers: Headers,
    pub body: Vec<u8>,
}

impl CgiResponse {
    /// An empty output.
    pub fn new() -> (r: CgiResponse)
        ensures
            r.status is None,
            r.headers.pairs().len() == 0,
            r.body@.len() == 0,
    {
        CgiResponse { status: None, headers: Headers::new(), body: Vec::new() }
    }

    /// The HTTP response for this output: its status or `200`, its
    /// headers, its body with an exact `Content-Length`.
    pub fn to_http_response(self) -> (r: HttpResponse)
        ensures
            r.m().status == match self.status {
                Some(s) => s,
                None => 200u16,
            },
            r.m().body == self.body@,
            spec_get_exact(r.m().headers, crate::http::response::hdr_content_length()) == Some(
                crate::util::dec_digits(self.body@.len()),
            ),
    {
        let status = match self.status {
            Some(s) => s,
            None => 200,
        };
        let mut response = HttpResponse::new(status);
        let n = self.headers.len();
        let mut i: usize = 0;
        while i < n
            invariant
                i <= n,
                n == self.headers.pairs().len(),
                response.m().status == status,
            decreases n - i,
        {
            let (name, value) = self.headers.pair_at(i);
            let name_o = name.clone();
            let value_o = value.clone();
            response.set_header(name_o.as_str(), value_o.as_str());
            i += 1;
        }
        let ghost h1 = response.m().headers;
        response.set_body(self.body.as_slice());
        proof {
            lemma_get_insert_same(
                h1,
                crate::http::response::hdr_content_length(),
                crate::util::dec_digits(self.body@.len()),
            );
        }
        response
    }
}

impl Default for CgiResponse {
    /// An empty output.
    fn default() -> (r: Self)
        ensures
            r.status is None,
    {
        Self::new()
    }
}

/// The parser for a script's output.
#[derive(Debug)]
pub struct CgiResponseParser {
    headers: Headers,
    body: Vec<u8>,
}

impl CgiResponseParser {
    /// A fresh parser.
    pub fn new() -> (r: CgiResponseParser)
    {
        CgiResponseParser { headers: Headers::new(), body: Vec::new() }
    }

    /// Parses output as `cgi_parse_from` describes; a `Location` header
    /// makes the status `302`.
    pub fn parse(&mut self, data: &[u8]) -> (r: Result<CgiResponse, ()>)
        ensures
            match r {
                Ok(resp) => cgi_parse_from(data@, 0, Seq::empty()) matches Ok(hb)
                    && resp.headers.pairs() == hb.0 && resp.body@ == hb.1 && resp.status == (
                if spec_get_exact(hb.0, utf8_bytes("Location"@)) is Some {
                    Some(302u16)
                } else {
                    None
                }),
                Err(_) => cgi_parse_from(data@, 0, Seq::empty()) is Err,
            },
    {
        let mut headers = Headers::new();
        proof {
            assert(headers.pairs() =~= Seq::<(Seq<u8>, Seq<u8>)>::empty());
        }
        let mut from: usize = 0;
        loop
            invariant
                from <= data@.len(),
                cgi_parse_from(data@, 0, Seq::empty()) == cgi_parse_from(
                    data@,
                    from as int,
                    headers.pairs(),
                ),
            decreases data@.len() - from,
        {
            let ghost hp = headers.pairs();
            proof {
                lemma_find_byte_from_ok(data@, 10, from as int);
            }
            let end = match find_byte_exec(data, 10, from) {
                Some(p) => p,
                None => data.len(),
            };
            proof {
                assert(line_end(data@, from as int) == end as int);
            }
            let line_raw = &data[from..end];
            let line = if line_raw.len() > 0 && line_raw[line_raw.len() - 1] == 13 {
                &line_raw[0..line_raw.len() - 1]
            } else {
                line_raw
            };
            proof {
                assert(line_raw@ == data@.subrange(from as int, end as int));
                assert(line@ =~= strip_cr(data@.subrange(from as int, end as int)));
            }
            if line.len() == 0 {
                let body: Vec<u8> = if end < data.len() {
                    vstd::slice::slice_to_vec(&data[end + 1..data.len()])
                } else {
                    Vec::new()
                };
                proof {
                    if end < data.len() {
                        assert(body@ =~= data@.skip(end + 1));
                    } else {
                        assert(body@ =~= Seq::<u8>::empty());
                    }
                    assert(cgi_parse_from(data@, from as int, hp) == Ok::<_, ()>((hp, body@)));
                }
                return Ok(Self::finish(headers, body, self));
            }
            proof {
                lemma_find_byte_from_ok(line@, 58, 0);
            }
            match find_byte_exec(line, 58, 0) {
                Some(c) => {
                    let name = trim_exec(&line[0..c]);
                    let value = trim_exec(&line[c + 1..line.len()]);
                    proof {
                        assert(line@.subrange(0, c as int) =~= line@.take(c as int));
                        assert(line@.subrange(c + 1, line@.len() as int) =~= line@.skip(c + 1));
                        reveal_strlit("status");
                    }
                    let ghost nb = name@;
                    let ghost vb = value@;
                    let is_status = eq_ignore_case_exec(name.as_slice(), "status".as_bytes());
                    if !is_status {
                        match (string_from_bytes(name), string_from_bytes(value)) {
                            (Some(n), Some(v)) => {
                                headers.insert(n, v);
                                proof {
                                    assert(headers.pairs() == spec_insert(hp, nb, vb));
                                }
                            },
                            _ => {
                                proof {
                                    assert(cgi_parse_from(data@, from as int, hp) is Err);
                                }
                                return Err(());
                            },
                        }
                    }
                    if end >= data.len() {
                        proof {
                            assert(cgi_parse_from(data@, from as int, hp) == Ok::<_, ()>(
                                (headers.pairs(), Seq::<u8>::empty()),
                            ));
                        }
                        return Ok(Self::finish(headers, Vec::new(), self));
                    }
                    proof {
                        assert(cgi_parse_from(data@, from as int, hp) == cgi_parse_from(
                            data@,
                            end + 1,
                            headers.pairs(),
                        ));
                    }
                },
                None => {
                    proof {
                        assert(cgi_parse_from(data@, from as int, hp) is Err);
                    }
                    return Err(());
                },
            }
            from = end + 1;
        }
    }

    /// Builds the parsed output and mirrors it into the parser's state.
    fn finish(headers: Headers, body: Vec<u8>, parser: &mut CgiResponseParser) -> (r: CgiResponse)
        ensures
            r.headers.pairs() == headers.pairs(),
            r.body@ == body@,
            r.status == (if spec_get_exact(headers.pairs(), utf8_bytes("Location"@)) is Some {
                Some(302u16)
            } else {
                None
            }),
    {
        let status: Option<u16> = if headers.contains_key("Location") {
            Some(302)
        } else {
            None
        };
        parser.headers = headers.clone();
        let mut body2: Vec<u8> = Vec::new();
        body2.extend_from_slice(body.as_slice());
        parser.body = body2;
        proof {
            assert(body@ =~= body@);
        }
        CgiResponse { status, headers, body }
    }

    /// Parses a whole output in one call with a fresh parser.
    pub fn parse_complete(data: &[u8]) -> (r: Result<CgiResponse, ()>)
        ensures
            match r {
                Ok(resp) => cgi_parse_from(data@, 0, Seq::empty()) matches Ok(hb)
                    && resp.headers.pairs() == hb.0 && resp.body@ == hb.1 && resp.status == (
                if spec_get_exact(hb.0, utf8_bytes("Location"@)) is Some {
                    Some(302u16)
                } else {
                    None
                }),
                Err(_) => cgi_parse_from(data@, 0, Seq::empty()) is Err,
            },
    {
        let mut parser = CgiResponseParser::new();
        parser.parse(data)
    }
}

impl Default for CgiResponseParser {
    /// A fresh parser.
    fn default() -> (r: Self)
    {
        Self::new()
    }
}

} // verus!
