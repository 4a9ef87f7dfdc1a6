//! The CGI environment: the variables a script receives, computed from
//! the request.

use vstd::prelude::*;

use crate::http::request::{HttpRequest, ReqM, Headers, method_token, spec_get_exact, spec_insert,
    lemma_get_insert_same, lemma_get_insert_other};
use crate::util::{utf8_bytes, string_from_bytes, find_byte, find_byte_exec, bytes_eq, u64_to_dec,
    dec_digits, lemma_find_byte_from_ok, all_ascii, lemma_ascii_valid_utf8, lemma_utf8_bytes_ascii};

verus! {

/// The `SCRIPT_NAME` for a script path under a document root: the part
/// after the root, given a leading slash when it lacks one.
pub open spec fn script_name_of(sp: Seq<u8>, dr: Seq<u8>) -> Seq<u8> {
    let rel = sp.skip(dr.len() as int);
    if rel.len() > 0 && rel[0] == 47 {
        rel
    } else {
        seq![47u8] + rel
    }
}

/// The part of a request target before its first `?`.
pub open spec fn uri_path_part(uri: Seq<u8>) -> Seq<u8> {
    let c = match find_byte(uri, 63) {
        Some(q) => q,
        None => uri.len() as int,
    };
    let c2 = if c < 0 {
        0
    } else if c > uri.len() {
        uri.len() as int
    } else {
        c
    };
    uri.take(c2)
}

/// The `QUERY_STRING` for a request: what follows the first `?` of its
/// target, else its parsed query string, else empty.
pub open spec fn query_string_of(m: ReqM) -> Seq<u8> {
    match find_byte(m.path, 63) {
        Some(q) => if 0 <= q < m.path.len() && vstd::utf8::valid_utf8(m.path.skip(q + 1)) {
            m.path.skip(q + 1)
        } else {
            Seq::<u8>::empty()
        },
        None => match m.query {
            Some(qs) => qs,
            None => Seq::<u8>::empty(),
        },
    }
}

/// The variable names whose values the contract tracks are pairwise
/// distinct.
proof fn lemma_cgi_names()
    ensures
        utf8_bytes("SCRIPT_NAME"@) != utf8_bytes("PATH_INFO"@),
        utf8_bytes("SCRIPT_NAME"@) != utf8_bytes("SCRIPT_FILENAME"@),
        utf8_bytes("PATH_INFO"@) != utf8_bytes("SCRIPT_FILENAME"@),
        utf8_bytes("SCRIPT_NAME"@) != utf8_bytes("QUERY_STRING"@),
        utf8_bytes("SCRIPT_NAME"@) != utf8_bytes("SERVER_NAME"@),
        utf8_bytes("SCRIPT_NAME"@) != utf8_bytes("SERVER_PORT"@),
        utf8_bytes("SCRIPT_NAME"@) != utf8_bytes("REQUEST_METHOD"@),
        utf8_bytes("PATH_INFO"@) != utf8_bytes("QUERY_STRING"@),
        utf8_bytes("PATH_INFO"@) != utf8_bytes("SERVER_NAME"@),
        utf8_bytes("PATH_INFO"@) != utf8_bytes("SERVER_PORT"@),
        utf8_bytes("PATH_INFO"@) != utf8_bytes("REQUEST_METHOD"@),
        utf8_bytes("QUERY_STRING"@) != utf8_bytes("SERVER_NAME"@),
        utf8_bytes("QUERY_STRING"@) != utf8_bytes("SERVER_PORT"@),
        utf8_bytes("QUERY_STRING"@) != utf8_bytes("REQUEST_METHOD"@),
        utf8_bytes("SERVER_NAME"@) != utf8_bytes("SERVER_PORT"@),
        utf8_bytes("SERVER_NAME"@) != utf8_bytes("REQUEST_METHOD"@),
        utf8_bytes("SERVER_PORT"@) != utf8_bytes("REQUEST_METHOD"@),
{
    reveal_strlit("SCRIPT_NAME");
    reveal_strlit("PATH_INFO");
    reveal_strlit("SCRIPT_FILENAME");
    reveal_strlit("QUERY_STRING");
    reveal_strlit("SERVER_NAME");
    reveal_strlit("SERVER_PORT");
    reveal_strlit("REQUEST_METHOD");
    lemma_utf8_bytes_ascii("SCRIPT_NAME"@);
    lemma_utf8_bytes_ascii("PATH_INFO"@);
    lemma_utf8_bytes_ascii("SCRIPT_FILENAME"@);
    lemma_utf8_bytes_ascii("QUERY_STRING"@);
    lemma_utf8_bytes_ascii("SERVER_NAME"@);
    lemma_utf8_bytes_ascii("SERVER_PORT"@);
    lemma_utf8_bytes_ascii("REQUEST_METHOD"@);
    assert(utf8_bytes("SCRIPT_NAME"@)[1] != utf8_bytes("SERVER_NAME"@)[1]);
    assert(utf8_bytes("SCRIPT_NAME"@)[1] != utf8_bytes("SERVER_PORT"@)[1]);
    assert(utf8_bytes("SERVER_NAME"@)[7] != utf8_bytes("SERVER_PORT"@)[7]);
}

/// The variable map handed to a CGI child.
#[derive(Debug, Clone)]
pub struct CgiEnvironment {
    variables: Headers,
}

impl CgiEnvironment {
    /// The (name, value) pairs, in insertion order.
    pub closed spec fn vars(&self) -> Seq<(Seq<u8>, Seq<u8>)> {
        self.variables.pairs()
    }

    /// An empty environment.
    pub fn new() -> (r: CgiEnvironment)
        ensures
            r.vars().len() == 0,
    {
        CgiEnvironment { variables: Headers::new() }
    }

    /// Sets a variable, replacing an equal name.
    pub fn set(&mut self, name: &str, value: &str)
        ensures
            final(self).vars() == spec_insert(
                old(self).vars(),
                utf8_bytes(name@),
                utf8_bytes(value@),
            ),
    {
        self.variables.insert(String::from_str(name), String::from_str(value));
    }

    /// The value of a variable.
    pub fn get(&self, name: &str) -> (r: Option<&str>)
        ensures
            match r {
                Some(v) => spec_get_exact(self.vars(), utf8_bytes(name@)) == Some(utf8_bytes(v@)),
                None => spec_get_exact(self.vars(), utf8_bytes(name@)) is None,
            },
    {
        match self.variables.get(name) {
            Some(v) => Some(v.as_str()),
            None => None,
        }
    }

    /// The variables as an ordered map.
    pub fn variables(&self) -> (r: &Headers)
        ensures
            r.pairs() == self.vars(),
    {
        &self.variables
    }

    /// The variables as `NAME=value` strings, in order.
    pub fn to_env_strings(&self) -> (r: Vec<String>)
        ensures
            r@.len() == self.vars().len(),
    {
        let mut out: Vec<String> = Vec::new();
        let n = self.variables.len();
        let mut i: usize = 0;
        while i < n
            invariant
                i <= n,
                n == self.vars().len(),
                out@.len() == i,
            decreases n - i,
        {
            let (k, v) = self.variables.pair_at(i);
            let mut line: Vec<u8> = Vec::new();
            line.extend_from_slice(k.as_str().as_bytes());
            line.push(61);
            line.extend_from_slice(v.as_str().as_bytes());
            proof {
                broadcast use vstd::utf8::valid_utf8_concat;
                broadcast use vstd::utf8::encode_utf8_valid_utf8;

                crate::util::lemma_ascii_valid_utf8(seq![61u8]);
                assert(line@ =~= utf8_bytes(k@) + seq![61u8] + utf8_bytes(v@));
                assert(vstd::utf8::valid_utf8(utf8_bytes(k@)));
                assert(vstd::utf8::valid_utf8(utf8_bytes(v@)));
                assert(vstd::utf8::valid_utf8(utf8_bytes(k@) + seq![61u8]));
                assert(vstd::utf8::valid_utf8((utf8_bytes(k@) + seq![61u8]) + utf8_bytes(v@)));
                assert(line@ =~= (utf8_bytes(k@) + seq![61u8]) + utf8_bytes(v@));
            }
            match string_from_bytes(line) {
                Some(s) => {
                    out.push(s);
                },
                None => {
                    proof {
                        assert(false);
                    }
                },
            }
            i += 1;
        }
        out
    }

    /// The environment for a request to a script: the standard CGI
    /// variables, the script and path bookkeeping, the content metadata,
    /// and the common `HTTP_*` headers.
    #[verifier::rlimit(100)]
    pub fn from_request(
        request: &HttpRequest,
        script_path: &str,
        document_root: &str,
        server_name: &str,
        server_port: u16,
    ) -> (r: CgiEnvironment)
        ensures
            r.vars().len() > 0,
            spec_get_exact(r.vars(), utf8_bytes("REQUEST_METHOD"@)) == Some(
                method_token(request.m().method),
            ),
            spec_get_exact(r.vars(), utf8_bytes("SERVER_NAME"@)) == Some(utf8_bytes(server_name@)),
            spec_get_exact(r.vars(), utf8_bytes("SERVER_PORT"@)) == Some(
                dec_digits(server_port as nat),
            ),
            spec_get_exact(r.vars(), utf8_bytes("QUERY_STRING"@)) == Some(
                query_string_of(request.m()),
            ),
            ({
                let sp = utf8_bytes(script_path@);
                let dr = utf8_bytes(document_root@);
                let sn = script_name_of(sp, dr);
                sp.len() > dr.len() && sp.take(dr.len() as int) == dr && vstd::utf8::valid_utf8(sn)
                    ==> spec_get_exact(r.vars(), utf8_bytes("SCRIPT_NAME"@)) == Some(sn)
            }),
            ({
                let sp = utf8_bytes(script_path@);
                let dr = utf8_bytes(document_root@);
                let sn = script_name_of(sp, dr);
                let pp = uri_path_part(request.m().path);
                sp.len() > dr.len() && sp.take(dr.len() as int) == dr && vstd::utf8::valid_utf8(sn)
                    && pp.len() > sn.len() && pp.take(sn.len() as int) == sn
                    && vstd::utf8::valid_utf8(pp.skip(sn.len() as int)) ==> spec_get_exact(
                    r.vars(),
                    utf8_bytes("PATH_INFO"@),
                ) == Some(pp.skip(sn.len() as int))
            }),
    {
        proof {
            lemma_cgi_names();
        }
        let mut env = CgiEnvironment::new();
        env.set("SERVER_SOFTWARE", "localhost/1.0");
        env.set("GATEWAY_INTERFACE", "CGI/1.1");
        env.set("SERVER_PROTOCOL", "HTTP/1.1");
        env.set("REQUEST_URI", request.path());
        add_content_vars(&mut env, request);
        add_http_headers(&mut env, request);
        env.set("REMOTE_ADDR", "127.0.0.1");
        env.set("REMOTE_HOST", "localhost");
        env.set("DOCUMENT_ROOT", document_root);
        add_script_vars(&mut env, request, script_path, document_root);
        let ghost v1 = env.vars();
        add_query_var(&mut env, request);
        let ghost v2 = env.vars();
        env.set("SERVER_NAME", server_name);
        proof {
            lemma_get_insert_same(v2, utf8_bytes("SERVER_NAME"@), utf8_bytes(server_name@));
            lemma_get_insert_other(
                v2,
                utf8_bytes("SERVER_NAME"@),
                utf8_bytes(server_name@),
                utf8_bytes("SCRIPT_NAME"@),
            );
            lemma_get_insert_other(
                v2,
                utf8_bytes("SERVER_NAME"@),
                utf8_bytes(server_name@),
                utf8_bytes("PATH_INFO"@),
            );
            lemma_get_insert_other(
                v2,
                utf8_bytes("SERVER_NAME"@),
                utf8_bytes(server_name@),
                utf8_bytes("QUERY_STRING"@),
            );
        }
        let ghost v3 = env.vars();
        let port_digits = u64_to_dec(server_port as u64);
        proof {
            crate::http::response::lemma_dec_digits_ascii(server_port as nat);
            lemma_ascii_valid_utf8(port_digits@);
        }
        match string_from_bytes(port_digits) {
            Some(p) => {
                env.set("SERVER_PORT", p.as_str());
                proof {
                    lemma_get_insert_same(
                        v3,
                        utf8_bytes("SERVER_PORT"@),
                        dec_digits(server_port as nat),
                    );
                    lemma_get_insert_other(
                        v3,
                        utf8_bytes("SERVER_PORT"@),
                        dec_digits(server_port as nat),
                        utf8_bytes("SCRIPT_NAME"@),
                    );
                    lemma_get_insert_other(
                        v3,
                        utf8_bytes("SERVER_PORT"@),
                        dec_digits(server_port as nat),
                        utf8_bytes("PATH_INFO"@),
                    );
                    lemma_get_insert_other(
                        v3,
                        utf8_bytes("SERVER_PORT"@),
                        dec_digits(server_port as nat),
                        utf8_bytes("QUERY_STRING"@),
                    );
                    lemma_get_insert_other(
                        v3,
                        utf8_bytes("SERVER_PORT"@),
                        dec_digits(server_port as nat),
                        utf8_bytes("SERVER_NAME"@),
                    );
                }
            },
            None => {
                proof {
                    assert(false);
                }
            },
        }
        let ghost v4 = env.vars();
        env.set("REQUEST_METHOD", request.method.as_str());
        proof {
            lemma_get_insert_same(
                v4,
                utf8_bytes("REQUEST_METHOD"@),
                method_token(request.m().method),
            );
            lemma_get_insert_other(
                v4,
                utf8_bytes("REQUEST_METHOD"@),
                method_token(request.m().method),
                utf8_bytes("SCRIPT_NAME"@),
            );
            lemma_get_insert_other(
                v4,
                utf8_bytes("REQUEST_METHOD"@),
                method_token(request.m().method),
                utf8_bytes("PATH_INFO"@),
            );
            lemma_get_insert_other(
                v4,
                utf8_bytes("REQUEST_METHOD"@),
                method_token(request.m().method),
                utf8_bytes("QUERY_STRING"@),
            );
            lemma_get_insert_other(
                v4,
                utf8_bytes("REQUEST_METHOD"@),
                method_token(request.m().method),
                utf8_bytes("SERVER_NAME"@),
            );
            lemma_get_insert_other(
                v4,
                utf8_bytes("REQUEST_METHOD"@),
                method_token(request.m().method),
                utf8_bytes("SERVER_PORT"@),
            );
            crate::http::request::lemma_spec_insert_len(
                v4,
                utf8_bytes("REQUEST_METHOD"@),
                method_token(request.m().method),
            );
        }
        env
    }
}

impl Default for CgiEnvironment {
    /// An empty environment.
    fn default() -> (r: Self)
        ensures
            r.vars().len() == 0,
    {
        Self::new()
    }
}

/// Sets the script bookkeeping: `SCRIPT_FILENAME`, `SCRIPT_NAME` and
/// `PATH_INFO`.
fn add_script_vars(
    env: &mut CgiEnvironment,
    request: &HttpRequest,
    script_path: &str,
    document_root: &str,
)
    ensures
        ({
            let sp = utf8_bytes(script_path@);
            let dr = utf8_bytes(document_root@);
            let sn = script_name_of(sp, dr);
            let pp = uri_path_part(request.m().path);
            &&& (sp.len() > dr.len() && sp.take(dr.len() as int) == dr && vstd::utf8::valid_utf8(
                sn,
            ) ==> spec_get_exact(final(env).vars(), utf8_bytes("SCRIPT_NAME"@)) == Some(sn))
            &&& (sp.len() > dr.len() && sp.take(dr.len() as int) == dr && vstd::utf8::valid_utf8(
                sn,
            ) && pp.len() > sn.len() && pp.take(sn.len() as int) == sn && vstd::utf8::valid_utf8(
                pp.skip(sn.len() as int),
            ) ==> spec_get_exact(final(env).vars(), utf8_bytes("PATH_INFO"@)) == Some(
                pp.skip(sn.len() as int),
            ))
        }),
{
    proof {
        lemma_cgi_names();
    }
    env.set("SCRIPT_FILENAME", script_path);
    let sp = script_path.as_bytes();
    let dr = document_root.as_bytes();
    if sp.len() > dr.len() && bytes_eq(&sp[0..dr.len()], dr) {
        proof {
            assert(sp@.subrange(0, dr@.len() as int) =~= utf8_bytes(script_path@).take(
                utf8_bytes(document_root@).len() as int,
            ));
        }
        let rel = &sp[dr.len()..sp.len()];
        proof {
            assert(rel@ =~= utf8_bytes(script_path@).skip(utf8_bytes(document_root@).len() as int));
        }
        let script_name: Vec<u8> = if rel.len() > 0 && rel[0] == 47 {
            vstd::slice::slice_to_vec(rel)
        } else {
            let mut v: Vec<u8> = Vec::new();
            v.push(47);
            v.extend_from_slice(rel);
            v
        };
        proof {
            assert(script_name@ =~= script_name_of(
                utf8_bytes(script_path@),
                utf8_bytes(document_root@),
            ));
        }
        let ghost snb = script_name@;
        if let Some(sn) = string_from_bytes(script_name) {
            let ghost w1 = env.vars();
            env.set("SCRIPT_NAME", sn.as_str());
            proof {
                lemma_get_insert_same(w1, utf8_bytes("SCRIPT_NAME"@), snb);
            }
            let pb_full = request.path.as_str().as_bytes();
            proof {
                lemma_find_byte_from_ok(pb_full@, 63, 0);
            }
            let cut = match find_byte_exec(pb_full, 63, 0) {
                Some(q) => q,
                None => pb_full.len(),
            };
            let pb = &pb_full[0..cut];
            proof {
                assert(pb@ =~= uri_path_part(request.m().path));
            }
            let snb_slice = sn.as_str().as_bytes();
            if pb.len() > snb_slice.len() && bytes_eq(&pb[0..snb_slice.len()], snb_slice) {
                proof {
                    assert(pb@.subrange(0, snb_slice@.len() as int) =~= uri_path_part(
                        request.m().path,
                    ).take(snb.len() as int));
                }
                let info = vstd::slice::slice_to_vec(&pb[snb_slice.len()..pb.len()]);
                proof {
                    assert(info@ =~= uri_path_part(request.m().path).skip(snb.len() as int));
                }
                let ghost ib = info@;
                if let Some(pi) = string_from_bytes(info) {
                    proof {
                        if pi@.len() == 0 {
                            assert(utf8_bytes(pi@) =~= Seq::<u8>::empty());
                        }
                    }
                    if pi.as_str().unicode_len() > 0 {
                        let ghost w2 = env.vars();
                        env.set("PATH_INFO", pi.as_str());
                        proof {
                            lemma_get_insert_same(w2, utf8_bytes("PATH_INFO"@), ib);
                            lemma_get_insert_other(
                                w2,
                                utf8_bytes("PATH_INFO"@),
                                ib,
                                utf8_bytes("SCRIPT_NAME"@),
                            );
                        }
                    }
                }
            }
        }
    }
}

/// Sets `QUERY_STRING` from the target's query part, or the parsed query
/// string, or empty.
fn add_query_var(env: &mut CgiEnvironment, request: &HttpRequest)
    ensures
        spec_get_exact(final(env).vars(), utf8_bytes("QUERY_STRING"@)) == Some(
            query_string_of(request.m()),
        ),
        forall|nm: Seq<u8>|
            nm != utf8_bytes("QUERY_STRING"@) ==> #[trigger] spec_get_exact(
                final(env).vars(),
                nm,
            ) == spec_get_exact(old(env).vars(), nm),
{
    let ghost w0 = env.vars();
    let uri_b = request.path.as_str().as_bytes();
    proof {
        lemma_find_byte_from_ok(uri_b@, 63, 0);
    }
    let ulen = uri_b.len();
    match find_byte_exec(uri_b, 63, 0) {
        Some(qpos) => {
            proof {
                assert(qpos < ulen);
            }
            let q = vstd::slice::slice_to_vec(&uri_b[qpos + 1..uri_b.len()]);
            proof {
                assert(q@ =~= request.m().path.skip(qpos + 1));
            }
            let ghost qb = q@;
            match string_from_bytes(q) {
                Some(qs) => {
                    env.set("QUERY_STRING", qs.as_str());
                    proof {
                        lemma_get_insert_same(w0, utf8_bytes("QUERY_STRING"@), qb);
                    }
                },
                None => {
                    env.set("QUERY_STRING", "");
                    proof {
                        reveal_strlit("");
                        lemma_utf8_bytes_ascii(""@);
                        assert(utf8_bytes(""@) =~= Seq::<u8>::empty());
                        lemma_get_insert_same(
                            w0,
                            utf8_bytes("QUERY_STRING"@),
                            utf8_bytes(""@),
                        );
                    }
                },
            }
        },
        None => {
            match &request.query_string {
                Some(q) => {
                    env.set("QUERY_STRING", q.as_str());
                    proof {
                        lemma_get_insert_same(w0, utf8_bytes("QUERY_STRING"@), utf8_bytes(q@));
                    }
                },
                None => {
                    env.set("QUERY_STRING", "");
                    proof {
                        reveal_strlit("");
                        lemma_utf8_bytes_ascii(""@);
                        assert(utf8_bytes(""@) =~= Seq::<u8>::empty());
                        lemma_get_insert_same(
                            w0,
                            utf8_bytes("QUERY_STRING"@),
                            utf8_bytes(""@),
                        );
                    }
                },
            }
        },
    }
    proof {
        assert forall|nm: Seq<u8>| nm != utf8_bytes("QUERY_STRING"@) implies #[trigger]
            spec_get_exact(env.vars(), nm) == spec_get_exact(w0, nm) by {
            lemma_get_insert_other(
                w0,
                utf8_bytes("QUERY_STRING"@),
                query_string_of(request.m()),
                nm,
            );
        }
    }
}

/// Sets the content metadata of the request on an environment.
fn add_content_vars(env: &mut CgiEnvironment, request: &HttpRequest)
{
    if let Some(ct) = request.get_header("Content-Type") {
        let owned = String::from_str(ct);
        env.set("CONTENT_TYPE", owned.as_str());
    }
    if let Some(cl) = request.get_header("Content-Length") {
        let owned = String::from_str(cl);
        env.set("CONTENT_LENGTH", owned.as_str());
    } else if request.body.len() > 0 {
        let digits = u64_to_dec(request.body.len() as u64);
        proof {
            crate::http::response::lemma_dec_digits_ascii(request.body@.len());
            lemma_ascii_valid_utf8(digits@);
        }
        if let Some(d) = string_from_bytes(digits) {
            env.set("CONTENT_LENGTH", d.as_str());
        }
    }
}

/// Sets the common `HTTP_*` variables from the request's headers.
fn add_http_headers(env: &mut CgiEnvironment, request: &HttpRequest)
{
    if let Some(host) = request.get_header("Host") {
        let owned = String::from_str(host);
        env.set("HTTP_HOST", owned.as_str());
    }
    if let Some(ua) = request.get_header("User-Agent") {
        let owned = String::from_str(ua);
        env.set("HTTP_USER_AGENT", owned.as_str());
    }
    if let Some(a) = request.get_header("Accept") {
        let owned = String::from_str(a);
        env.set("HTTP_ACCEPT", owned.as_str());
    }
    if let Some(ae) = request.get_header("Accept-Encoding") {
        let owned = String::from_str(ae);
        env.set("HTTP_ACCEPT_ENCODING", owned.as_str());
    }
    if let Some(al) = request.get_header("Accept-Language") {
        let owned = String::from_str(al);
        env.set("HTTP_ACCEPT_LANGUAGE", owned.as_str());
    }
}

} // verus!
