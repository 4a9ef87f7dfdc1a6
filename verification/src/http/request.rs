//! Parsed HTTP requests: the method, target, version, an ordered header
//! map with case-insensitive lookup, and the body bytes.

use vstd::prelude::*;

use crate::util::{
    eq_ignore_case, eq_ignore_case_exec, lower, trim, utf8_bytes, bytes_eq, trim_exec,
    is_dec_numeral, dec_value, lemma_utf8_bytes_ascii, parse_dec, str_eq_ignore_case,
};

verus! {

/// The request methods this server knows.
#[derive(Debug, Clone, Copy, PartialEq, Eq, Hash, Structural)]
pub enum Method {
    GET,
    POST,
    DELETE,
    HEAD,
    PUT,
    OPTIONS,
}

/// The wire token of a method.
pub open spec fn method_token(m: Method) -> Seq<u8> {
    match m {
        Method::GET => seq![71u8, 69, 84],
        Method::POST => seq![80u8, 79, 83, 84],
        Method::DELETE => seq![68u8, 69, 76, 69, 84, 69],
        Method::HEAD => seq![72u8, 69, 65, 68],
        Method::PUT => seq![80u8, 85, 84],
        Method::OPTIONS => seq![79u8, 80, 84, 73, 79, 78, 83],
    }
}

/// The method a wire token names, if any; tokens are case-sensitive.
pub open spec fn method_of_token(t: Seq<u8>) -> Option<Method> {
    if t == method_token(Method::GET) {
        Some(Method::GET)
    } else if t == method_token(Method::POST) {
        Some(Method::POST)
    } else if t == method_token(Method::DELETE) {
        Some(Method::DELETE)
    } else if t == method_token(Method::HEAD) {
        Some(Method::HEAD)
    } else if t == method_token(Method::PUT) {
        Some(Method::PUT)
    } else if t == method_token(Method::OPTIONS) {
        Some(Method::OPTIONS)
    } else {
        None
    }
}

/// The UTF-8 bytes of the method token literals.
proof fn lemma_method_literals()
    ensures
        utf8_bytes("GET"@) == method_token(Method::GET),
        utf8_bytes("POST"@) == method_token(Method::POST),
        utf8_bytes("DELETE"@) == method_token(Method::DELETE),
        utf8_bytes("HEAD"@) == method_token(Method::HEAD),
        utf8_bytes("PUT"@) == method_token(Method::PUT),
        utf8_bytes("OPTIONS"@) == method_token(Method::OPTIONS),
{
    reveal_strlit("GET");
    reveal_strlit("POST");
    reveal_strlit("DELETE");
    reveal_strlit("HEAD");
    reveal_strlit("PUT");
    reveal_strlit("OPTIONS");
    lemma_utf8_bytes_ascii("GET"@);
    lemma_utf8_bytes_ascii("POST"@);
    lemma_utf8_bytes_ascii("DELETE"@);
    lemma_utf8_bytes_ascii("HEAD"@);
    lemma_utf8_bytes_ascii("PUT"@);
    lemma_utf8_bytes_ascii("OPTIONS"@);
    assert(utf8_bytes("GET"@) =~= method_token(Method::GET));
    assert(utf8_bytes("POST"@) =~= method_token(Method::POST));
    assert(utf8_bytes("DELETE"@) =~= method_token(Method::DELETE));
    assert(utf8_bytes("HEAD"@) =~= method_token(Method::HEAD));
    assert(utf8_bytes("PUT"@) =~= method_token(Method::PUT));
    assert(utf8_bytes("OPTIONS"@) =~= method_token(Method::OPTIONS));
}

/// An insertion leaves at least one pair and adds at most one.
pub proof fn lemma_spec_insert_len(pairs: Seq<(Seq<u8>, Seq<u8>)>, name: Seq<u8>, value: Seq<u8>)
    ensures
        spec_insert(pairs, name, value).len() >= 1,
        spec_insert(pairs, name, value).len() <= pairs.len() + 1,
    decreases pairs.len(),
{
    if pairs.len() > 0 && pairs[0].0 != name {
        lemma_spec_insert_len(pairs.drop_first(), name, value);
    }
}

/// Looking up the name just inserted finds the new value.
pub proof fn lemma_get_insert_same(pairs: Seq<(Seq<u8>, Seq<u8>)>, name: Seq<u8>, value: Seq<u8>)
    ensures
        spec_get_exact(spec_insert(pairs, name, value), name) == Some(value),
    decreases pairs.len(),
{
    if pairs.len() == 0 {
    } else if pairs[0].0 == name {
        assert(spec_insert(pairs, name, value)[0] == (name, value));
    } else {
        lemma_get_insert_same(pairs.drop_first(), name, value);
        assert(spec_insert(pairs, name, value)[0] == pairs[0]);
        assert(spec_insert(pairs, name, value).drop_first() =~= spec_insert(
            pairs.drop_first(),
            name,
            value,
        ));
    }
}

/// Inserting one name leaves every other name's lookup unchanged.
pub proof fn lemma_get_insert_other(
    pairs: Seq<(Seq<u8>, Seq<u8>)>,
    name: Seq<u8>,
    value: Seq<u8>,
    other: Seq<u8>,
)
    requires
        other != name,
    ensures
        spec_get_exact(spec_insert(pairs, name, value), other) == spec_get_exact(pairs, other),
    decreases pairs.len(),
{
    reveal_with_fuel(spec_get_exact, 3);
    if pairs.len() == 0 {
        assert(spec_insert(pairs, name, value)[0] == (name, value));
        assert(spec_insert(pairs, name, value).drop_first() =~= Seq::<(Seq<u8>, Seq<u8>)>::empty());
    } else if pairs[0].0 == name {
        assert(spec_insert(pairs, name, value)[0] == (name, value));
        assert(spec_insert(pairs, name, value).drop_first() =~= pairs.drop_first());
    } else {
        lemma_get_insert_other(pairs.drop_first(), name, value, other);
        assert(spec_insert(pairs, name, value)[0] == pairs[0]);
        assert(spec_insert(pairs, name, value).drop_first() =~= spec_insert(
            pairs.drop_first(),
            name,
            value,
        ));
    }
}

/// Method tokens are ASCII.
pub proof fn lemma_method_token_ascii(m: Method)
    ensures
        crate::util::all_ascii(method_token(m)),
{
}

impl Method {
    /// The method named by `s`, if `s` is one of the known tokens.
    pub fn from_str(s: &str) -> (r: Option<Method>)
        ensures
            r == method_of_token(utf8_bytes(s@)),
    {
        proof {
            lemma_method_literals();
        }
        Self::from_bytes(s.as_bytes())
    }

    /// The method named by the byte token `s`, if known.
    pub fn from_bytes(s: &[u8]) -> (r: Option<Method>)
        ensures
            r == method_of_token(s@),
    {
        proof {
            lemma_method_literals();
        }
        if bytes_eq(s, "GET".as_bytes()) {
            Some(Method::GET)
        } else if bytes_eq(s, "POST".as_bytes()) {
            Some(Method::POST)
        } else if bytes_eq(s, "DELETE".as_bytes()) {
            Some(Method::DELETE)
        } else if bytes_eq(s, "HEAD".as_bytes()) {
            Some(Method::HEAD)
        } else if bytes_eq(s, "PUT".as_bytes()) {
            Some(Method::PUT)
        } else if bytes_eq(s, "OPTIONS".as_bytes()) {
            Some(Method::OPTIONS)
        } else {
            None
        }
    }

    /// The wire token of this method.
    pub fn as_str(&self) -> (r: &'static str)
        ensures
            utf8_bytes(r@) == method_token(*self),
    {
        proof {
            lemma_method_literals();
        }
        match self {
            Method::GET => "GET",
            Method::POST => "POST",
            Method::DELETE => "DELETE",
            Method::HEAD => "HEAD",
            Method::PUT => "PUT",
            Method::OPTIONS => "OPTIONS",
        }
    }
}

/// An ordered header map. Names keep the case they arrived with; insertion
/// replaces the value of an exactly equal name and appends otherwise;
/// `get_ci` looks names up without regard to ASCII case.
#[derive(Debug)]
pub struct Headers {
    items: Vec<(String, String)>,
}

/// First value in `pairs` whose name equals `name` byte for byte.
pub open spec fn spec_get_exact(pairs: Seq<(Seq<u8>, Seq<u8>)>, name: Seq<u8>) -> Option<Seq<u8>>
    decreases pairs.len(),
{
    if pairs.len() == 0 {
        None
    } else if pairs[0].0 == name {
        Some(pairs[0].1)
    } else {
        spec_get_exact(pairs.drop_first(), name)
    }
}

/// First value in `pairs` whose name equals `name` up to ASCII case.
pub open spec fn spec_get_ci(pairs: Seq<(Seq<u8>, Seq<u8>)>, name: Seq<u8>) -> Option<Seq<u8>>
    decreases pairs.len(),
{
    if pairs.len() == 0 {
        None
    } else if eq_ignore_case(pairs[0].0, name) {
        Some(pairs[0].1)
    } else {
        spec_get_ci(pairs.drop_first(), name)
    }
}

/// `pairs` after inserting `name: value`: the first exactly equal name has
/// its value replaced in place; otherwise the pair is appended.
pub open spec fn spec_insert(
    pairs: Seq<(Seq<u8>, Seq<u8>)>,
    name: Seq<u8>,
    value: Seq<u8>,
) -> Seq<(Seq<u8>, Seq<u8>)>
    decreases pairs.len(),
{
    if pairs.len() == 0 {
        seq![(name, value)]
    } else if pairs[0].0 == name {
        seq![(name, value)] + pairs.drop_first()
    } else {
        seq![pairs[0]] + spec_insert(pairs.drop_first(), name, value)
    }
}

/// `pairs` with every pair whose name equals `name` byte for byte removed.
pub open spec fn spec_remove(pairs: Seq<(Seq<u8>, Seq<u8>)>, name: Seq<u8>) -> Seq<(Seq<u8>, Seq<u8>)>
    decreases pairs.len(),
{
    if pairs.len() == 0 {
        pairs
    } else if pairs[0].0 == name {
        spec_remove(pairs.drop_first(), name)
    } else {
        seq![pairs[0]] + spec_remove(pairs.drop_first(), name)
    }
}

impl Headers {
    /// The byte-level view: the ordered (name, value) pairs.
    pub closed spec fn pairs(&self) -> Seq<(Seq<u8>, Seq<u8>)> {
        self.items@.map_values(|p: (String, String)| (utf8_bytes(p.0@), utf8_bytes(p.1@)))
    }

    /// An empty header map.
    pub fn new() -> (r: Headers)
        ensures
            r.pairs() == Seq::<(Seq<u8>, Seq<u8>)>::empty(),
    {
        let r = Headers { items: Vec::new() };
        proof {
            assert(r.pairs() =~= Seq::<(Seq<u8>, Seq<u8>)>::empty());
        }
        r
    }

    /// How many pairs the map holds.
    pub fn len(&self) -> (r: usize)
        ensures
            r == self.pairs().len(),
    {
        self.items.len()
    }

    /// Whether the map holds no pair.
    pub fn is_empty(&self) -> (r: bool)
        ensures
            r == (self.pairs().len() == 0),
    {
        self.items.len() == 0
    }

    /// The pair at position `i`, as (name, value).
    pub fn pair_at(&self, i: usize) -> (r: (&String, &String))
        requires
            i < self.pairs().len(),
        ensures
            utf8_bytes(r.0@) == self.pairs()[i as int].0,
            utf8_bytes(r.1@) == self.pairs()[i as int].1,
    {
        (&self.items[i].0, &self.items[i].1)
    }

    /// Inserts `name: value`, replacing the value of the first exactly
    /// equal name and appending otherwise.
    pub fn insert(&mut self, name: String, value: String)
        ensures
            final(self).pairs() == spec_insert(old(self).pairs(), utf8_bytes(name@), utf8_bytes(value@)),
    {
        let ghost orig = self.pairs();
        let ghost n = utf8_bytes(name@);
        let ghost v = utf8_bytes(value@);
        let mut i: usize = 0;
        while i < self.items.len()
            invariant
                i <= self.items.len(),
                self.pairs() == orig,
                orig == old(self).pairs(),
                n == utf8_bytes(name@),
                v == utf8_bytes(value@),
                forall|j: int| 0 <= j < i ==> #[trigger] orig[j].0 != n,
            decreases self.items.len() - i,
        {
            if bytes_eq(self.items[i].0.as_str().as_bytes(), name.as_str().as_bytes()) {
                let ghost gi = i as int;
                proof {
                    assert(orig[gi].0 == n);
                }
                self.items.set(i, (name, value));
                proof {
                    lemma_spec_insert_at(orig, n, v, gi);
                    assert(self.pairs() =~= orig.update(gi, (n, v)));
                    assert(self.pairs() == spec_insert(orig, n, v));
                }
                return;
            }
            i += 1;
        }
        self.items.push((name, value));
        proof {
            lemma_spec_insert_missing(orig, n, v);
            assert(self.pairs() =~= orig.push((n, v)));
        }
    }

    /// First value whose name matches `name` exactly, as a `String`.
    pub fn get(&self, name: &str) -> (r: Option<&String>)
        ensures
            match r {
                Some(v) => spec_get_exact(self.pairs(), utf8_bytes(name@)) == Some(utf8_bytes(v@)),
                None => spec_get_exact(self.pairs(), utf8_bytes(name@)) is None,
            },
    {
        let ghost n = utf8_bytes(name@);
        proof {
            assert(self.pairs().skip(0) =~= self.pairs());
        }
        let mut i: usize = 0;
        while i < self.items.len()
            invariant
                i <= self.items.len(),
                n == utf8_bytes(name@),
                spec_get_exact(self.pairs(), n) == spec_get_exact(self.pairs().skip(i as int), n),
            decreases self.items.len() - i,
        {
            proof {
                assert(self.pairs().skip(i as int).drop_first() =~= self.pairs().skip(i + 1));
                assert(self.pairs().skip(i as int)[0] == self.pairs()[i as int]);
            }
            if bytes_eq(self.items[i].0.as_str().as_bytes(), name.as_bytes()) {
                return Some(&self.items[i].1);
            }
            i += 1;
        }
        proof {
            assert(self.pairs().skip(self.items@.len() as int) =~= Seq::<(Seq<u8>, Seq<u8>)>::empty());
        }
        None
    }

    /// First value whose name matches `name` up to ASCII case.
    pub fn get_ci(&self, name: &str) -> (r: Option<&str>)
        ensures
            match r {
                Some(v) => spec_get_ci(self.pairs(), utf8_bytes(name@)) == Some(utf8_bytes(v@)),
                None => spec_get_ci(self.pairs(), utf8_bytes(name@)) is None,
            },
    {
        let ghost n = utf8_bytes(name@);
        proof {
            assert(self.pairs().skip(0) =~= self.pairs());
        }
        let mut i: usize = 0;
        while i < self.items.len()
            invariant
                i <= self.items.len(),
                n == utf8_bytes(name@),
                spec_get_ci(self.pairs(), n) == spec_get_ci(self.pairs().skip(i as int), n),
            decreases self.items.len() - i,
        {
            proof {
                assert(self.pairs().skip(i as int).drop_first() =~= self.pairs().skip(i + 1));
                assert(self.pairs().skip(i as int)[0] == self.pairs()[i as int]);
            }
            if eq_ignore_case_exec(self.items[i].0.as_str().as_bytes(), name.as_bytes()) {
                return Some(self.items[i].1.as_str());
            }
            i += 1;
        }
        proof {
            assert(self.pairs().skip(self.items@.len() as int) =~= Seq::<(Seq<u8>, Seq<u8>)>::empty());
        }
        None
    }

    /// Whether the map holds a pair whose name matches `name` exactly.
    pub fn contains_key(&self, name: &str) -> (r: bool)
        ensures
            r == (spec_get_exact(self.pairs(), utf8_bytes(name@)) is Some),
    {
        self.get(name).is_some()
    }

    /// Removes every pair whose name matches `name` exactly.
    pub fn remove(&mut self, name: &str)
        ensures
            final(self).pairs() == spec_remove(old(self).pairs(), utf8_bytes(name@)),
    {
        let ghost orig = self.pairs();
        let ghost n = utf8_bytes(name@);
        let mut out: Vec<(String, String)> = Vec::new();
        let mut i: usize = 0;
        while i < self.items.len()
            invariant
                i <= self.items.len(),
                n == utf8_bytes(name@),
                self.pairs() == orig,
                out@.map_values(|p: (String, String)| (utf8_bytes(p.0@), utf8_bytes(p.1@)))
                    == spec_remove_partial(orig, n, i as int),
            decreases self.items.len() - i,
        {
            proof {
                lemma_spec_remove_partial_step(orig, n, i as int);
            }
            if !bytes_eq(self.items[i].0.as_str().as_bytes(), name.as_bytes()) {
                let pair = (self.items[i].0.clone(), self.items[i].1.clone());
                proof {
                    assert(utf8_bytes(pair.0@) == orig[i as int].0);
                    assert(utf8_bytes(pair.1@) == orig[i as int].1);
                    assert(out@.push(pair).map_values(
                        |p: (String, String)| (utf8_bytes(p.0@), utf8_bytes(p.1@)),
                    ) =~= out@.map_values(
                        |p: (String, String)| (utf8_bytes(p.0@), utf8_bytes(p.1@)),
                    ).push((orig[i as int].0, orig[i as int].1)));
                }
                out.push(pair);
            }
            i += 1;
        }
        proof {
            lemma_spec_remove_partial_full(orig, n);
        }
        self.items = out;
    }
}

impl Clone for Headers {
    /// A clone holds the same pairs.
    fn clone(&self) -> (r: Self)
        ensures
            r.pairs() == self.pairs(),
    {
        let mut items: Vec<(String, String)> = Vec::new();
        let mut i: usize = 0;
        while i < self.items.len()
            invariant
                i <= self.items.len(),
                items@.map_values(|p: (String, String)| (utf8_bytes(p.0@), utf8_bytes(p.1@)))
                    == self.pairs().take(i as int),
            decreases self.items.len() - i,
        {
            let pair = (self.items[i].0.clone(), self.items[i].1.clone());
            proof {
                assert(utf8_bytes(pair.0@) == self.pairs()[i as int].0);
                assert(utf8_bytes(pair.1@) == self.pairs()[i as int].1);
                assert(self.pairs().take(i + 1) =~= self.pairs().take(i as int).push(
                    self.pairs()[i as int],
                ));
                assert(items@.push(pair).map_values(
                    |p: (String, String)| (utf8_bytes(p.0@), utf8_bytes(p.1@)),
                ) =~= self.pairs().take(i + 1));
            }
            items.push(pair);
            i += 1;
        }
        proof {
            assert(self.pairs().take(self.items@.len() as int) =~= self.pairs());
        }
        Headers { items }
    }
}

impl Clone for HttpRequest {
    /// A clone has the same model.
    fn clone(&self) -> (r: Self)
        ensures
            r.m() == self.m(),
    {
        let mut body: Vec<u8> = Vec::new();
        body.extend_from_slice(self.body.as_slice());
        proof {
            assert(body@ =~= self.body@);
        }
        HttpRequest {
            method: self.method,
            path: self.path.clone(),
            version: self.version.clone(),
            headers: self.headers.clone(),
            body,
            query_string: match &self.query_string {
                Some(q) => Some(q.clone()),
                None => None,
            },
        }
    }
}

/// `spec_remove` restricted to the first `i` pairs.
pub open spec fn spec_remove_partial(
    pairs: Seq<(Seq<u8>, Seq<u8>)>,
    name: Seq<u8>,
    i: int,
) -> Seq<(Seq<u8>, Seq<u8>)> {
    spec_remove(pairs.take(i), name)
}

/// One unfolding step of `spec_remove` over a prefix.
proof fn lemma_spec_remove_partial_step(pairs: Seq<(Seq<u8>, Seq<u8>)>, name: Seq<u8>, i: int)
    requires
        0 <= i < pairs.len(),
    ensures
        spec_remove_partial(pairs, name, i + 1) == if pairs[i].0 == name {
            spec_remove_partial(pairs, name, i)
        } else {
            spec_remove_partial(pairs, name, i).push((pairs[i].0, pairs[i].1))
        },
{
    lemma_spec_remove_snoc(pairs.take(i), (pairs[i].0, pairs[i].1), name);
    assert(pairs.take(i + 1) =~= pairs.take(i).push((pairs[i].0, pairs[i].1)));
}

/// `spec_remove` distributes over appending one pair.
proof fn lemma_spec_remove_snoc(pairs: Seq<(Seq<u8>, Seq<u8>)>, p: (Seq<u8>, Seq<u8>), name: Seq<u8>)
    ensures
        spec_remove(pairs.push(p), name) == if p.0 == name {
            spec_remove(pairs, name)
        } else {
            spec_remove(pairs, name).push(p)
        },
    decreases pairs.len(),
{
    reveal_with_fuel(spec_remove, 3);
    assert(pairs.push(p).len() == pairs.len() + 1);
    if pairs.len() == 0 {
        assert(pairs.push(p)[0] == p);
        assert(pairs.push(p).drop_first() =~= Seq::<(Seq<u8>, Seq<u8>)>::empty());
        if p.0 != name {
            assert(spec_remove(pairs.push(p), name) =~= spec_remove(pairs, name).push(p));
        }
    } else {
        assert(pairs.push(p)[0] == pairs[0]);
        assert(pairs.push(p).drop_first() =~= pairs.drop_first().push(p));
        lemma_spec_remove_snoc(pairs.drop_first(), p, name);
        if pairs[0].0 != name {
            if p.0 == name {
                assert(spec_remove(pairs.push(p), name) =~= spec_remove(pairs, name));
            } else {
                assert(spec_remove(pairs.push(p), name) =~= spec_remove(pairs, name).push(p));
            }
        }
    }
}

/// The prefix of length `pairs.len()` is the whole sequence.
proof fn lemma_spec_remove_partial_full(pairs: Seq<(Seq<u8>, Seq<u8>)>, name: Seq<u8>)
    ensures
        spec_remove_partial(pairs, name, pairs.len() as int) == spec_remove(pairs, name),
{
    assert(pairs.take(pairs.len() as int) =~= pairs);
}

/// The bytes of `content-length`.
pub open spec fn tok_content_length() -> Seq<u8> {
    seq![99u8, 111, 110, 116, 101, 110, 116, 45, 108, 101, 110, 103, 116, 104]
}

/// The bytes of `transfer-encoding`.
pub open spec fn tok_transfer_encoding() -> Seq<u8> {
    seq![116u8, 114, 97, 110, 115, 102, 101, 114, 45, 101, 110, 99, 111, 100, 105, 110, 103]
}

/// The bytes of `connection`.
pub open spec fn tok_connection() -> Seq<u8> {
    seq![99u8, 111, 110, 110, 101, 99, 116, 105, 111, 110]
}

/// The bytes of `host`.
pub open spec fn tok_host() -> Seq<u8> {
    seq![104u8, 111, 115, 116]
}

/// The bytes of `chunked`.
pub open spec fn tok_chunked() -> Seq<u8> {
    seq![99u8, 104, 117, 110, 107, 101, 100]
}

/// The bytes of `close`.
pub open spec fn tok_close() -> Seq<u8> {
    seq![99u8, 108, 111, 115, 101]
}

/// The bytes of `keep-alive`.
pub open spec fn tok_keep_alive() -> Seq<u8> {
    seq![107u8, 101, 101, 112, 45, 97, 108, 105, 118, 101]
}

/// The bytes of `HTTP/1.1`.
pub open spec fn tok_http11() -> Seq<u8> {
    seq![72u8, 84, 84, 80, 47, 49, 46, 49]
}

/// The bytes of `HTTP/`.
pub open spec fn tok_http_prefix() -> Seq<u8> {
    seq![72u8, 84, 84, 80, 47]
}

/// The UTF-8 bytes of the wire literals the request layer compares against.
pub proof fn lemma_wire_literals()
    ensures
        utf8_bytes("content-length"@) == tok_content_length(),
        utf8_bytes("transfer-encoding"@) == tok_transfer_encoding(),
        utf8_bytes("connection"@) == tok_connection(),
        utf8_bytes("host"@) == tok_host(),
        utf8_bytes("chunked"@) == tok_chunked(),
        utf8_bytes("close"@) == tok_close(),
        utf8_bytes("keep-alive"@) == tok_keep_alive(),
        utf8_bytes("HTTP/1.1"@) == tok_http11(),
        utf8_bytes("HTTP/"@) == tok_http_prefix(),
        utf8_bytes("/"@) == seq![47u8],
{
    reveal_strlit("content-length");
    reveal_strlit("transfer-encoding");
    reveal_strlit("connection");
    reveal_strlit("host");
    reveal_strlit("chunked");
    reveal_strlit("close");
    reveal_strlit("keep-alive");
    reveal_strlit("HTTP/1.1");
    reveal_strlit("HTTP/");
    reveal_strlit("/");
    lemma_utf8_bytes_ascii("content-length"@);
    lemma_utf8_bytes_ascii("transfer-encoding"@);
    lemma_utf8_bytes_ascii("connection"@);
    lemma_utf8_bytes_ascii("host"@);
    lemma_utf8_bytes_ascii("chunked"@);
    lemma_utf8_bytes_ascii("keep-alive"@);
    lemma_utf8_bytes_ascii("close"@);
    lemma_utf8_bytes_ascii("HTTP/1.1"@);
    lemma_utf8_bytes_ascii("HTTP/"@);
    lemma_utf8_bytes_ascii("/"@);
    assert(utf8_bytes("content-length"@) =~= tok_content_length());
    assert(utf8_bytes("transfer-encoding"@) =~= tok_transfer_encoding());
    assert(utf8_bytes("connection"@) =~= tok_connection());
    assert(utf8_bytes("host"@) =~= tok_host());
    assert(utf8_bytes("chunked"@) =~= tok_chunked());
    assert(utf8_bytes("close"@) =~= tok_close());
    assert(utf8_bytes("keep-alive"@) =~= tok_keep_alive());
    assert(utf8_bytes("HTTP/1.1"@) =~= tok_http11());
    assert(utf8_bytes("HTTP/"@) =~= tok_http_prefix());
    assert(utf8_bytes("/"@) =~= seq![47u8]);
}

/// True when some comma-separated element of `s` at or after `from`,
/// trimmed of optional whitespace, equals `tok` up to ASCII case.
pub open spec fn list_has_token_ci_from(s: Seq<u8>, tok: Seq<u8>, from: int) -> bool
    decreases s.len() - from,
{
    if from < 0 || from > s.len() {
        false
    } else {
        match crate::util::find_byte_from(s, 44, from) {
            None => eq_ignore_case(trim(s.subrange(from, s.len() as int)), tok),
            Some(p) => if p < from || p >= s.len() {
                false
            } else {
                eq_ignore_case(trim(s.subrange(from, p)), tok) || list_has_token_ci_from(s, tok, p + 1)
            },
        }
    }
}

/// True when some comma-separated element of `s`, trimmed, equals `tok`
/// up to ASCII case.
pub open spec fn list_has_token_ci(s: Seq<u8>, tok: Seq<u8>) -> bool {
    list_has_token_ci_from(s, tok, 0)
}

/// Executable membership test in a comma-separated token list.
pub fn list_has_token_ci_exec(s: &[u8], tok: &[u8]) -> (r: bool)
    ensures
        r == list_has_token_ci(s@, tok@),
{
    let mut from: usize = 0;
    loop
        invariant
            from <= s.len(),
            list_has_token_ci(s@, tok@) == list_has_token_ci_from(s@, tok@, from as int),
        decreases s.len() - from,
    {
        proof {
            crate::util::lemma_find_byte_from_ok(s@, 44, from as int);
        }
        match crate::util::find_byte_exec(s, 44, from) {
            None => {
                let seg = trim_exec(&s[from..s.len()]);
                return eq_ignore_case_exec(seg.as_slice(), tok);
            },
            Some(p) => {
                let seg = trim_exec(&s[from..p]);
                if eq_ignore_case_exec(seg.as_slice(), tok) {
                    return true;
                }
                from = p + 1;
            },
        }
    }
}

/// What the wire parser knows of one request: the method, the target path,
/// the optional query string, the protocol version, the ordered headers,
/// and the body bytes.
#[derive(Debug)]
pub struct HttpRequest {
    pub method: Method,
    pub path: String,
    pub version: String,
    pub headers: Headers,
    pub body: Vec<u8>,
    pub query_string: Option<String>,
}

/// The byte-level model of a request.
pub ghost struct ReqM {
    pub method: Method,
    pub path: Seq<u8>,
    pub version: Seq<u8>,
    pub query: Option<Seq<u8>>,
    pub headers: Seq<(Seq<u8>, Seq<u8>)>,
    pub body: Seq<u8>,
}

impl ReqM {
    /// The model of a freshly built request: `GET / HTTP/1.1` with no
    /// headers and no body.
    pub open spec fn init() -> ReqM {
        ReqM {
            method: Method::GET,
            path: seq![47u8],
            version: tok_http11(),
            query: None,
            headers: Seq::empty(),
            body: Seq::empty(),
        }
    }

    /// The declared body length: the value of `content-length` when it is
    /// a decimal numeral no larger than `usize::MAX`.
    pub open spec fn content_length(self) -> Option<nat> {
        match spec_get_ci(self.headers, tok_content_length()) {
            Some(v) => if is_dec_numeral(v) && dec_value(v) <= usize::MAX {
                Some(dec_value(v))
            } else {
                None
            },
            None => None,
        }
    }

    /// Whether `transfer-encoding` lists `chunked`, in any case and at any
    /// position of its comma list.
    pub open spec fn is_chunked(self) -> bool {
        match spec_get_ci(self.headers, tok_transfer_encoding()) {
            Some(v) => list_has_token_ci(v, tok_chunked()),
            None => false,
        }
    }

    /// The connection disposition the request asks for: `HTTP/1.1`
    /// defaults to keep-alive unless `connection` lists `close`; anything
    /// else defaults to close unless `connection` lists `keep-alive`.
    pub open spec fn keep_alive(self) -> bool {
        let conn = spec_get_ci(self.headers, tok_connection());
        if self.version == tok_http11() {
            match conn {
                Some(v) => !list_has_token_ci(v, tok_close()),
                None => true,
            }
        } else {
            match conn {
                Some(v) => list_has_token_ci(v, tok_keep_alive()),
                None => false,
            }
        }
    }
}

impl HttpRequest {
    /// The byte-level model of this request.
    pub open spec fn m(&self) -> ReqM {
        ReqM {
            method: self.method,
            path: utf8_bytes(self.path@),
            version: utf8_bytes(self.version@),
            query: match self.query_string {
                Some(q) => Some(utf8_bytes(q@)),
                None => None,
            },
            headers: self.headers.pairs(),
            body: self.body@,
        }
    }

    /// A fresh request: `GET / HTTP/1.1`, no headers, no body.
    pub fn new() -> (r: HttpRequest)
        ensures
            r.m() == ReqM::init(),
    {
        proof {
            lemma_wire_literals();
        }
        let r = HttpRequest {
            method: Method::GET,
            path: String::from_str("/"),
            version: String::from_str("HTTP/1.1"),
            headers: Headers::new(),
            body: Vec::new(),
            query_string: None,
        };
        r
    }

    /// First header value whose name matches `name` up to ASCII case.
    pub fn get_header(&self, name: &str) -> (r: Option<&str>)
        ensures
            match r {
                Some(v) => spec_get_ci(self.m().headers, utf8_bytes(name@)) == Some(utf8_bytes(v@)),
                None => spec_get_ci(self.m().headers, utf8_bytes(name@)) is None,
            },
    {
        self.headers.get_ci(name)
    }

    /// The declared `Content-Length`, when present and well-formed.
    pub fn content_length(&self) -> (r: Option<usize>)
        ensures
            match r {
                Some(n) => self.m().content_length() == Some(n as nat),
                None => self.m().content_length() is None,
            },
    {
        proof {
            lemma_wire_literals();
        }
        match self.headers.get_ci("content-length") {
            Some(v) => {
                match crate::util::parse_dec(v.as_bytes(), usize::MAX as u64) {
                    Some(n) => Some(n as usize),
                    None => None,
                }
            },
            None => None,
        }
    }

    /// Whether the request declares chunked transfer encoding.
    pub fn is_chunked(&self) -> (r: bool)
        ensures
            r == self.m().is_chunked(),
    {
        proof {
            lemma_wire_literals();
        }
        match self.headers.get_ci("transfer-encoding") {
            Some(v) => list_has_token_ci_exec(v.as_bytes(), "chunked".as_bytes()),
            None => false,
        }
    }

    /// The connection disposition the request asks for.
    pub fn connection_keep_alive(&self) -> (r: bool)
        ensures
            r == self.m().keep_alive(),
    {
        proof {
            lemma_wire_literals();
        }
        let is11 = bytes_eq(self.version.as_str().as_bytes(), "HTTP/1.1".as_bytes());
        match self.headers.get_ci("connection") {
            Some(v) => {
                if is11 {
                    !list_has_token_ci_exec(v.as_bytes(), "close".as_bytes())
                } else {
                    list_has_token_ci_exec(v.as_bytes(), "keep-alive".as_bytes())
                }
            },
            None => is11,
        }
    }

    /// The `Host` header value, when present.
    pub fn host(&self) -> (r: Option<&str>)
        ensures
            match r {
                Some(v) => spec_get_ci(self.m().headers, tok_host()) == Some(utf8_bytes(v@)),
                None => spec_get_ci(self.m().headers, tok_host()) is None,
            },
    {
        proof {
            lemma_wire_literals();
        }
        self.headers.get_ci("host")
    }

    /// The request method.
    pub fn method(&self) -> (r: &Method)
        ensures
            r == self.method,
    {
        &self.method
    }

    /// The target path.
    pub fn path(&self) -> (r: &str)
        ensures
            utf8_bytes(r@) == self.m().path,
    {
        self.path.as_str()
    }

    /// The body bytes; `None` when the body is empty.
    pub fn body(&self) -> (r: Option<&[u8]>)
        ensures
            match r {
                Some(b) => self.m().body == b@ && b@.len() > 0,
                None => self.m().body.len() == 0,
            },
    {
        if self.body.len() == 0 {
            None
        } else {
            Some(self.body.as_slice())
        }
    }

    /// Replaces the method.
    pub fn set_method(&mut self, method: Method)
        ensures
            final(self).m() == (ReqM { method, ..old(self).m() }),
    {
        self.method = method;
    }

    /// Replaces the target path.
    pub fn set_path(&mut self, path: String)
        ensures
            final(self).m() == (ReqM { path: utf8_bytes(path@), ..old(self).m() }),
    {
        self.path = path;
    }

    /// Inserts a header, as `Headers::insert` does.
    pub fn set_header(&mut self, name: String, value: String)
        ensures
            final(self).m() == (ReqM {
                headers: spec_insert(old(self).m().headers, utf8_bytes(name@), utf8_bytes(value@)),
                ..old(self).m()
            }),
    {
        self.headers.insert(name, value);
    }
}

/// When no name among the first `i` matches, inserting updates position `i`.
pub proof fn lemma_spec_insert_at(pairs: Seq<(Seq<u8>, Seq<u8>)>, name: Seq<u8>, value: Seq<u8>, i: int)
    requires
        0 <= i < pairs.len(),
        pairs[i].0 == name,
        forall|j: int| 0 <= j < i ==> #[trigger] pairs[j].0 != name,
    ensures
        spec_insert(pairs, name, value) == pairs.update(i, (name, value)),
    decreases i,
{
    if i == 0 {
        assert(spec_insert(pairs, name, value) =~= pairs.update(0, (name, value)));
    } else {
        assert(pairs.drop_first()[i - 1].0 == name);
        lemma_spec_insert_at(pairs.drop_first(), name, value, i - 1);
        assert(spec_insert(pairs, name, value) =~= pairs.update(i, (name, value)));
    }
}

/// When no name matches, inserting appends.
pub proof fn lemma_spec_insert_missing(pairs: Seq<(Seq<u8>, Seq<u8>)>, name: Seq<u8>, value: Seq<u8>)
    requires
        forall|j: int| 0 <= j < pairs.len() ==> #[trigger] pairs[j].0 != name,
    ensures
        spec_insert(pairs, name, value) == pairs.push((name, value)),
    decreases pairs.len(),
{
    if pairs.len() == 0 {
        assert(spec_insert(pairs, name, value) =~= pairs.push((name, value)));
    } else {
        assert(forall|j: int|
            0 <= j < pairs.drop_first().len() ==> #[trigger] pairs.drop_first()[j].0 != name);
        lemma_spec_insert_missing(pairs.drop_first(), name, value);
        assert(spec_insert(pairs, name, value) =~= pairs.push((name, value)));
    }
}

} // verus!
