//! HTTP cookies: building `Set-Cookie` values and parsing `Cookie`
//! headers.

use vstd::prelude::*;

use crate::util::{
    dec_digits, u64_to_dec, utf8_bytes, string_from_bytes, find_byte, find_byte_from,
    find_byte_exec, trim, trim_exec, lemma_utf8_bytes_ascii, lemma_find_byte_from_ok, all_ascii,
    lemma_ascii_valid_utf8,
};

verus! {

/// The `SameSite` attribute.
#[derive(Debug, Clone, Copy, PartialEq, Eq, Structural)]
pub enum SameSite {
    Strict,
    Lax,
    NoneValue,
}

/// The attribute's wire text.
pub open spec fn same_site_bytes(s: SameSite) -> Seq<u8> {
    match s {
        SameSite::Strict => seq![83u8, 116, 114, 105, 99, 116],
        SameSite::Lax => seq![76u8, 97, 120],
        SameSite::NoneValue => seq![78u8, 111, 110, 101],
    }
}

impl SameSite {
    /// The attribute's wire text.
    pub fn as_str(&self) -> (r: &'static str)
        ensures
            utf8_bytes(r@) == same_site_bytes(*self),
    {
        proof {
            reveal_strlit("Strict");
            reveal_strlit("Lax");
            reveal_strlit("None");
            lemma_utf8_bytes_ascii("Strict"@);
            lemma_utf8_bytes_ascii("Lax"@);
            lemma_utf8_bytes_ascii("None"@);
            assert(utf8_bytes("Strict"@) =~= same_site_bytes(SameSite::Strict));
            assert(utf8_bytes("Lax"@) =~= same_site_bytes(SameSite::Lax));
            assert(utf8_bytes("None"@) =~= same_site_bytes(SameSite::NoneValue));
        }
        match self {
            SameSite::Strict => "Strict",
            SameSite::Lax => "Lax",
            SameSite::NoneValue => "None",
        }
    }
}

/// One cookie: a name and value with the attributes this server emits.
/// Times are seconds since the Unix epoch; `max_age` is in seconds.
#[derive(Debug, Clone)]
pub struct Cookie {
    pub name: String,
    pub value: String,
    pub domain: Option<String>,
    pub path: Option<String>,
    pub expires: Option<u64>,
    pub max_age: Option<u64>,
    pub secure: bool,
    pub http_only: bool,
    pub same_site: Option<SameSite>,
}

/// Two digits, zero-padded, for a value below 100.
pub open spec fn pad2(n: nat) -> Seq<u8> {
    if n < 10 {
        seq![48u8, (48 + n) as u8]
    } else {
        dec_digits(n)
    }
}

/// The date line this server emits for a timestamp: the time of day in
/// `HH:MM:SS` on a fixed epoch date.
pub open spec fn http_date_bytes(ts: nat) -> Seq<u8> {
    utf8_bytes("Thu, 01 Jan 1970 "@) + pad2((ts % 86400) / 3600) + seq![58u8] + pad2(
        (ts % 3600) / 60,
    ) + seq![58u8] + pad2(ts % 60) + utf8_bytes(" GMT"@)
}

/// Formats a timestamp as this server's cookie date line.
pub fn format_http_date(timestamp: u64) -> (r: String)
    ensures
        utf8_bytes(r@) == http_date_bytes(timestamp as nat),
{
    proof {
        reveal_strlit("Thu, 01 Jan 1970 ");
        reveal_strlit(" GMT");
        lemma_utf8_bytes_ascii("Thu, 01 Jan 1970 "@);
        lemma_utf8_bytes_ascii(" GMT"@);
    }
    let mut out: Vec<u8> = Vec::new();
    out.extend_from_slice("Thu, 01 Jan 1970 ".as_bytes());
    let mut h = pad2_exec((timestamp % 86400) / 3600);
    out.append(&mut h);
    out.push(58);
    let mut mi = pad2_exec((timestamp % 3600) / 60);
    out.append(&mut mi);
    out.push(58);
    let mut sec = pad2_exec(timestamp % 60);
    out.append(&mut sec);
    out.extend_from_slice(" GMT".as_bytes());
    proof {
        assert(out@ =~= http_date_bytes(timestamp as nat));
        assert forall|i: int| 0 <= i < out@.len() implies #[trigger] out@[i] < 128 by {
            lemma_pad2_ascii((timestamp as nat % 86400) / 3600);
            lemma_pad2_ascii((timestamp as nat % 3600) / 60);
            lemma_pad2_ascii(timestamp as nat % 60);
        }
        lemma_ascii_valid_utf8(out@);
    }
    match string_from_bytes(out) {
        Some(s) => s,
        None => {
            proof {
                assert(false);
            }
            String::new()
        },
    }
}

/// Two zero-padded digits.
fn pad2_exec(n: u64) -> (r: Vec<u8>)
    ensures
        r@ == pad2(n as nat),
{
    if n < 10 {
        let mut v: Vec<u8> = Vec::new();
        v.push(48);
        v.push(48 + n as u8);
        proof {
            assert(v@ =~= pad2(n as nat));
        }
        v
    } else {
        u64_to_dec(n)
    }
}

/// `pad2` yields ASCII digits.
proof fn lemma_pad2_ascii(n: nat)
    ensures
        all_ascii(pad2(n)),
{
    crate::http::response::lemma_dec_digits_ascii(n);
}

/// The date line is valid UTF-8: every piece is ASCII.
proof fn lemma_http_date_valid(ts: nat)
    ensures
        vstd::utf8::valid_utf8(http_date_bytes(ts)),
{
    broadcast use vstd::utf8::valid_utf8_concat;
    broadcast use vstd::utf8::encode_utf8_valid_utf8;

    reveal_strlit("Thu, 01 Jan 1970 ");
    reveal_strlit(" GMT");
    lemma_pad2_ascii((ts % 86400) / 3600);
    lemma_pad2_ascii((ts % 3600) / 60);
    lemma_pad2_ascii(ts % 60);
    crate::util::lemma_ascii_valid_utf8(pad2((ts % 86400) / 3600));
    crate::util::lemma_ascii_valid_utf8(pad2((ts % 3600) / 60));
    crate::util::lemma_ascii_valid_utf8(pad2(ts % 60));
    crate::util::lemma_ascii_valid_utf8(seq![58u8]);
    let a = utf8_bytes("Thu, 01 Jan 1970 "@);
    assert(vstd::utf8::valid_utf8(a));
    let b = a + pad2((ts % 86400) / 3600);
    assert(vstd::utf8::valid_utf8(b));
    let c = b + seq![58u8];
    assert(vstd::utf8::valid_utf8(c));
    let d = c + pad2((ts % 3600) / 60);
    assert(vstd::utf8::valid_utf8(d));
    let e = d + seq![58u8];
    assert(vstd::utf8::valid_utf8(e));
    let f = e + pad2(ts % 60);
    assert(vstd::utf8::valid_utf8(f));
    let g = f + utf8_bytes(" GMT"@);
    assert(vstd::utf8::valid_utf8(g));
    assert(http_date_bytes(ts) == g);
}

/// The `Set-Cookie` value of a cookie: `name=value` and then one `; `
/// separated part per attribute that is set, in a fixed order.
pub open spec fn cookie_wire(c: Cookie) -> Seq<u8> {
    utf8_bytes(c.name@) + seq![61u8] + utf8_bytes(c.value@) + (match c.domain {
        Some(d) => utf8_bytes("; Domain="@) + utf8_bytes(d@),
        None => Seq::empty(),
    }) + (match c.path {
        Some(p) => utf8_bytes("; Path="@) + utf8_bytes(p@),
        None => Seq::empty(),
    }) + (match c.expires {
        Some(t) => utf8_bytes("; Expires="@) + http_date_bytes(t as nat),
        None => Seq::empty(),
    }) + (match c.max_age {
        Some(a) => utf8_bytes("; Max-Age="@) + dec_digits(a as nat),
        None => Seq::empty(),
    }) + (if c.secure {
        utf8_bytes("; Secure"@)
    } else {
        Seq::empty()
    }) + (if c.http_only {
        utf8_bytes("; HttpOnly"@)
    } else {
        Seq::empty()
    }) + (match c.same_site {
        Some(s) => utf8_bytes("; SameSite="@) + same_site_bytes(s),
        None => Seq::empty(),
    })
}

/// The first half of the wire value: `name=value` with the domain, path
/// and expiry attributes.
pub open spec fn cookie_wire_front(c: Cookie) -> Seq<u8> {
    utf8_bytes(c.name@) + seq![61u8] + utf8_bytes(c.value@) + (match c.domain {
        Some(d) => utf8_bytes("; Domain="@) + utf8_bytes(d@),
        None => Seq::empty(),
    }) + (match c.path {
        Some(p) => utf8_bytes("; Path="@) + utf8_bytes(p@),
        None => Seq::empty(),
    }) + (match c.expires {
        Some(t) => utf8_bytes("; Expires="@) + http_date_bytes(t as nat),
        None => Seq::empty(),
    })
}

impl Cookie {
    /// A bare cookie with no attributes set.
    pub fn new(name: String, value: String) -> (r: Cookie)
        ensures
            r.name == name,
            r.value == value,
            r.domain is None,
            r.path is None,
            r.expires is None,
            r.max_age is None,
            !r.secure,
            !r.http_only,
            r.same_site is None,
    {
        Cookie {
            name,
            value,
            domain: None,
            path: None,
            expires: None,
            max_age: None,
            secure: false,
            http_only: false,
            same_site: None,
        }
    }

    /// A session cookie: HTTP-only, `SameSite=Lax`.
    pub fn session(name: String, value: String) -> (r: Cookie)
        ensures
            r.name == name,
            r.value == value,
            r.http_only,
            r.same_site == Some(SameSite::Lax),
            r.domain is None,
            r.path is None,
            r.expires is None,
            r.max_age is None,
            !r.secure,
    {
        let mut cookie = Cookie::new(name, value);
        cookie.http_only = true;
        cookie.same_site = Some(SameSite::Lax);
        cookie
    }

    /// Sets the domain.
    pub fn domain(self, domain: String) -> (r: Cookie)
        ensures
            r == (Cookie { domain: Some(domain), ..self }),
    {
        Cookie { domain: Some(domain), ..self }
    }

    /// Sets the path.
    pub fn path(self, path: String) -> (r: Cookie)
        ensures
            r == (Cookie { path: Some(path), ..self }),
    {
        Cookie { path: Some(path), ..self }
    }

    /// Sets the expiry timestamp, in seconds since the epoch.
    pub fn expires(self, expires: u64) -> (r: Cookie)
        ensures
            r == (Cookie { expires: Some(expires), ..self }),
    {
        Cookie { expires: Some(expires), ..self }
    }

    /// Sets `Max-Age`, in seconds.
    pub fn max_age(self, max_age: u64) -> (r: Cookie)
        ensures
            r == (Cookie { max_age: Some(max_age), ..self }),
    {
        Cookie { max_age: Some(max_age), ..self }
    }

    /// Sets the `Secure` attribute.
    pub fn secure(self, secure: bool) -> (r: Cookie)
        ensures
            r == (Cookie { secure, ..self }),
    {
        Cookie { secure, ..self }
    }

    /// Sets the `HttpOnly` attribute.
    pub fn http_only(self, http_only: bool) -> (r: Cookie)
        ensures
            r == (Cookie { http_only, ..self }),
    {
        Cookie { http_only, ..self }
    }

    /// Sets the `SameSite` attribute.
    pub fn same_site(self, same_site: SameSite) -> (r: Cookie)
        ensures
            r == (Cookie { same_site: Some(same_site), ..self }),
    {
        Cookie { same_site: Some(same_site), ..self }
    }

    /// The `Set-Cookie` header value.
    #[verifier::rlimit(100)]
    #[verifier::spinoff_prover]
    pub fn to_header_value(&self) -> (r: String)
        ensures
            utf8_bytes(r@) == cookie_wire(*self),
    {
        proof {
            reveal_strlit("; Max-Age=");
            reveal_strlit("; Secure");
            reveal_strlit("; HttpOnly");
            reveal_strlit("; SameSite=");
            lemma_utf8_bytes_ascii("; Max-Age="@);
            lemma_utf8_bytes_ascii("; Secure"@);
            lemma_utf8_bytes_ascii("; HttpOnly"@);
            lemma_utf8_bytes_ascii("; SameSite="@);
        }
        let mut out: Vec<u8> = self.front_value();
        let ghost acc3 = out@;
        if let Some(a) = self.max_age {
            out.extend_from_slice("; Max-Age=".as_bytes());
            let mut digits = u64_to_dec(a);
            out.append(&mut digits);
        }
        proof {
            assert(out@ =~= acc3 + (match self.max_age {
                Some(a) => utf8_bytes("; Max-Age="@) + dec_digits(a as nat),
                None => Seq::<u8>::empty(),
            }));
        }
        let ghost acc4 = out@;
        if self.secure {
            out.extend_from_slice("; Secure".as_bytes());
        }
        proof {
            assert(out@ =~= acc4 + (if self.secure {
                utf8_bytes("; Secure"@)
            } else {
                Seq::<u8>::empty()
            }));
        }
        let ghost acc5 = out@;
        if self.http_only {
            out.extend_from_slice("; HttpOnly".as_bytes());
        }
        proof {
            assert(out@ =~= acc5 + (if self.http_only {
                utf8_bytes("; HttpOnly"@)
            } else {
                Seq::<u8>::empty()
            }));
        }
        let ghost acc6 = out@;
        if let Some(s) = self.same_site {
            out.extend_from_slice("; SameSite=".as_bytes());
            out.extend_from_slice(s.as_str().as_bytes());
        }
        proof {
            assert(out@ =~= acc6 + (match self.same_site {
                Some(s) => utf8_bytes("; SameSite="@) + same_site_bytes(s),
                None => Seq::<u8>::empty(),
            }));
            assert(out@ == cookie_wire(*self));
        }
        finish_cookie_value(out, Ghost(*self))
    }

    /// Builds the first half of the wire value.
    fn front_value(&self) -> (v: Vec<u8>)
        ensures
            v@ == cookie_wire_front(*self),
    {
        proof {
            reveal_strlit("; Domain=");
            reveal_strlit("; Path=");
            reveal_strlit("; Expires=");
            lemma_utf8_bytes_ascii("; Domain="@);
            lemma_utf8_bytes_ascii("; Path="@);
            lemma_utf8_bytes_ascii("; Expires="@);
        }
        let mut out: Vec<u8> = Vec::new();
        out.extend_from_slice(self.name.as_str().as_bytes());
        out.push(61);
        out.extend_from_slice(self.value.as_str().as_bytes());
        proof {
            assert(out@ =~= utf8_bytes(self.name@) + seq![61u8] + utf8_bytes(self.value@));
        }
        let ghost acc0 = out@;
        if let Some(d) = &self.domain {
            out.extend_from_slice("; Domain=".as_bytes());
            out.extend_from_slice(d.as_str().as_bytes());
        }
        proof {
            assert(out@ =~= acc0 + (match self.domain {
                Some(d) => utf8_bytes("; Domain="@) + utf8_bytes(d@),
                None => Seq::<u8>::empty(),
            }));
        }
        let ghost acc1 = out@;
        if let Some(p) = &self.path {
            out.extend_from_slice("; Path=".as_bytes());
            out.extend_from_slice(p.as_str().as_bytes());
        }
        proof {
            assert(out@ =~= acc1 + (match self.path {
                Some(p) => utf8_bytes("; Path="@) + utf8_bytes(p@),
                None => Seq::<u8>::empty(),
            }));
        }
        let ghost acc2 = out@;
        if let Some(t) = self.expires {
            out.extend_from_slice("; Expires=".as_bytes());
            let d = format_http_date(t);
            out.extend_from_slice(d.as_str().as_bytes());
        }
        proof {
            assert(out@ =~= acc2 + (match self.expires {
                Some(t) => utf8_bytes("; Expires="@) + http_date_bytes(t as nat),
                None => Seq::<u8>::empty(),
            }));
            assert(out@ == cookie_wire_front(*self));
        }
        out
    }
}

/// Turns finished wire bytes into the header string.
fn finish_cookie_value(out: Vec<u8>, Ghost(c): Ghost<Cookie>) -> (r: String)
    requires
        out@ == cookie_wire(c),
    ensures
        utf8_bytes(r@) == cookie_wire(c),
{
    proof {
        lemma_cookie_wire_valid(c);
    }
    match string_from_bytes(out) {
        Some(s) => s,
        None => {
            proof {
                assert(false);
            }
            String::new()
        },
    }
}

/// A cookie's wire value is valid UTF-8: every piece is.
#[verifier::rlimit(100)]
#[verifier::spinoff_prover]
proof fn lemma_cookie_wire_valid(c: Cookie)
    ensures
        vstd::utf8::valid_utf8(cookie_wire(c)),
{
    broadcast use vstd::utf8::valid_utf8_concat;
    broadcast use vstd::utf8::encode_utf8_valid_utf8;

    assert(vstd::utf8::valid_utf8(seq![61u8])) by {
        crate::util::lemma_ascii_valid_utf8(seq![61u8]);
    }
    assert(vstd::utf8::valid_utf8(seq![58u8])) by {
        crate::util::lemma_ascii_valid_utf8(seq![58u8]);
    }
    match c.expires {
        Some(t) => {
            lemma_http_date_valid(t as nat);
        },
        None => {},
    }
    match c.max_age {
        Some(a) => {
            crate::http::response::lemma_dec_digits_ascii(a as nat);
            crate::util::lemma_ascii_valid_utf8(dec_digits(a as nat));
        },
        None => {},
    }
    match c.same_site {
        Some(s) => {
            crate::util::lemma_ascii_valid_utf8(same_site_bytes(s));
        },
        None => {},
    }
    assert(vstd::utf8::valid_utf8(Seq::<u8>::empty())) by {
        crate::util::lemma_ascii_valid_utf8(Seq::<u8>::empty());
    }
    let p0 = utf8_bytes(c.name@) + seq![61u8];
    assert(vstd::utf8::valid_utf8(p0));
    let p1 = p0 + utf8_bytes(c.value@);
    assert(vstd::utf8::valid_utf8(p1));
    let d = match c.domain {
        Some(dd) => utf8_bytes("; Domain="@) + utf8_bytes(dd@),
        None => Seq::<u8>::empty(),
    };
    assert(vstd::utf8::valid_utf8(d));
    let p2 = p1 + d;
    assert(vstd::utf8::valid_utf8(p2));
    let pa = match c.path {
        Some(pp) => utf8_bytes("; Path="@) + utf8_bytes(pp@),
        None => Seq::<u8>::empty(),
    };
    assert(vstd::utf8::valid_utf8(pa));
    let p3 = p2 + pa;
    assert(vstd::utf8::valid_utf8(p3));
    let ex = match c.expires {
        Some(t) => utf8_bytes("; Expires="@) + http_date_bytes(t as nat),
        None => Seq::<u8>::empty(),
    };
    assert(vstd::utf8::valid_utf8(ex)) by {
        if let Some(t) = c.expires {
            lemma_http_date_valid(t as nat);
        }
    }
    let p4 = p3 + ex;
    assert(vstd::utf8::valid_utf8(p4));
    let ma = match c.max_age {
        Some(a) => utf8_bytes("; Max-Age="@) + dec_digits(a as nat),
        None => Seq::<u8>::empty(),
    };
    assert(vstd::utf8::valid_utf8(ma));
    let p5 = p4 + ma;
    assert(vstd::utf8::valid_utf8(p5));
    let se = if c.secure {
        utf8_bytes("; Secure"@)
    } else {
        Seq::<u8>::empty()
    };
    let p6 = p5 + se;
    assert(vstd::utf8::valid_utf8(p6));
    let ho = if c.http_only {
        utf8_bytes("; HttpOnly"@)
    } else {
        Seq::<u8>::empty()
    };
    let p7 = p6 + ho;
    assert(vstd::utf8::valid_utf8(p7));
    let ss = match c.same_site {
        Some(s) => utf8_bytes("; SameSite="@) + same_site_bytes(s),
        None => Seq::<u8>::empty(),
    };
    assert(vstd::utf8::valid_utf8(ss));
    assert(vstd::utf8::valid_utf8(p7 + ss));
    assert(cookie_wire(c) == p7 + ss);
}

/// A jar of cookies parsed from a `Cookie` header or built by hand. The
/// jar keeps one cookie per name, in first-insertion order.
#[derive(Debug, Clone)]
pub struct CookieJar {
    cookies: Vec<Cookie>,
}

/// The names in a cookie list.
/// The end of the `;`-separated piece of `s` that starts at `from`.
pub open spec fn ck_end(s: Seq<u8>, from: int) -> int {
    let e = match crate::util::find_byte_from(s, 59, from) {
        Some(p) => p,
        None => s.len() as int,
    };
    if e < from {
        from
    } else if e > s.len() {
        s.len() as int
    } else {
        e
    }
}

/// The pairs a `Cookie` header yields from `from` on, folded over `acc`:
/// each `;`-separated piece is split at its first `=`, name and value
/// trimmed; a piece without `=` or with an empty name is skipped, and a
/// repeated name replaces the earlier value.
pub open spec fn cookie_pairs_from(
    s: Seq<u8>,
    from: int,
    acc: Seq<(Seq<u8>, Seq<u8>)>,
) -> Seq<(Seq<u8>, Seq<u8>)>
    decreases s.len() - from,
{
    let pair = s.subrange(from, ck_end(s, from));
    let acc2 = match crate::util::find_byte(pair, 61) {
        Some(e) => {
            let n = trim(pair.take(e));
            let v = trim(pair.skip(e + 1));
            if n.len() > 0 && vstd::utf8::valid_utf8(n) && vstd::utf8::valid_utf8(v) {
                crate::http::request::spec_insert(acc, n, v)
            } else {
                acc
            }
        },
        None => acc,
    };
    if ck_end(s, from) >= s.len() {
        acc2
    } else {
        cookie_pairs_from(s, ck_end(s, from) + 1, acc2)
    }
}

/// The (name, value) byte pairs of a cookie list, in order.
pub open spec fn jar_pairs(s: Seq<Cookie>) -> Seq<(Seq<u8>, Seq<u8>)> {
    s.map_values(|c: Cookie| (utf8_bytes(c.name@), utf8_bytes(c.value@)))
}

pub open spec fn jar_names(s: Seq<Cookie>) -> Seq<Seq<u8>> {
    s.map_values(|c: Cookie| utf8_bytes(c.name@))
}

/// First cookie in `s` whose name's bytes are `name`.
pub open spec fn jar_get(s: Seq<Cookie>, name: Seq<u8>) -> Option<Cookie>
    decreases s.len(),
{
    if s.len() == 0 {
        None
    } else if utf8_bytes(s[0].name@) == name {
        Some(s[0])
    } else {
        jar_get(s.drop_first(), name)
    }
}

impl CookieJar {
    /// The cookies, in insertion order.
    pub closed spec fn list(&self) -> Seq<Cookie> {
        self.cookies@
    }

    /// An empty jar.
    pub fn new() -> (r: CookieJar)
        ensures
            r.list() == Seq::<Cookie>::empty(),
    {
        CookieJar { cookies: Vec::new() }
    }

    /// Adds a cookie: replaces the first one with the same name, appends
    /// otherwise.
    pub fn add_cookie(&mut self, cookie: Cookie)
        ensures
            final(self).list().len() <= old(self).list().len() + 1,
            jar_get(final(self).list(), utf8_bytes(cookie.name@)) matches Some(c) && c.value
                == cookie.value,
            jar_pairs(final(self).list()) == crate::http::request::spec_insert(
                jar_pairs(old(self).list()),
                utf8_bytes(cookie.name@),
                utf8_bytes(cookie.value@),
            ),
    {
        let ghost orig = self.cookies@;
        let mut i: usize = 0;
        while i < self.cookies.len()
            invariant
                i <= self.cookies.len(),
                self.cookies@ == orig,
                orig == old(self).list(),
                forall|j: int|
                    0 <= j < i ==> utf8_bytes(#[trigger] orig[j].name@) != utf8_bytes(
                        cookie.name@,
                    ),
            decreases self.cookies.len() - i,
        {
            if crate::util::bytes_eq(
                self.cookies[i].name.as_str().as_bytes(),
                cookie.name.as_str().as_bytes(),
            ) {
                let ghost gi = i as int;
                self.cookies.set(i, cookie);
                proof {
                    lemma_jar_get_at(self.cookies@, utf8_bytes(self.cookies@[gi].name@), gi);
                    assert(forall|j: int|
                        0 <= j < gi ==> #[trigger] jar_pairs(orig)[j].0 != utf8_bytes(
                            cookie.name@,
                        ));
                    crate::http::request::lemma_spec_insert_at(
                        jar_pairs(orig),
                        utf8_bytes(cookie.name@),
                        utf8_bytes(cookie.value@),
                        gi,
                    );
                    assert(jar_pairs(self.cookies@) =~= jar_pairs(orig).update(
                        gi,
                        (utf8_bytes(cookie.name@), utf8_bytes(cookie.value@)),
                    ));
                }
                return;
            }
            i += 1;
        }
        self.cookies.push(cookie);
        proof {
            let fin = self.cookies@;
            lemma_jar_get_at(fin, utf8_bytes(cookie.name@), fin.len() - 1);
            assert(forall|j: int|
                0 <= j < orig.len() ==> #[trigger] jar_pairs(orig)[j].0 != utf8_bytes(
                    cookie.name@,
                ));
            crate::http::request::lemma_spec_insert_missing(
                jar_pairs(orig),
                utf8_bytes(cookie.name@),
                utf8_bytes(cookie.value@),
            );
            assert(jar_pairs(fin) =~= jar_pairs(orig).push(
                (utf8_bytes(cookie.name@), utf8_bytes(cookie.value@)),
            ));
        }
    }

    /// First cookie with the given name.
    pub fn get_cookie(&self, name: &str) -> (r: Option<&Cookie>)
        ensures
            match r {
                Some(c) => jar_get(self.list(), utf8_bytes(name@)) == Some(*c),
                None => jar_get(self.list(), utf8_bytes(name@)) is None,
            },
    {
        let mut i: usize = 0;
        proof {
            assert(self.list().skip(0) =~= self.list());
        }
        while i < self.cookies.len()
            invariant
                i <= self.cookies.len(),
                jar_get(self.list(), utf8_bytes(name@)) == jar_get(
                    self.list().skip(i as int),
                    utf8_bytes(name@),
                ),
            decreases self.cookies.len() - i,
        {
            proof {
                assert(self.list().skip(i as int).drop_first() =~= self.list().skip(i + 1));
                assert(self.list().skip(i as int)[0] == self.list()[i as int]);
            }
            if crate::util::bytes_eq(self.cookies[i].name.as_str().as_bytes(), name.as_bytes()) {
                return Some(&self.cookies[i]);
            }
            i += 1;
        }
        proof {
            assert(self.list().skip(self.list().len() as int) =~= Seq::<Cookie>::empty());
        }
        None
    }

    /// First value with the given name.
    pub fn get_value(&self, name: &str) -> (r: Option<&str>)
        ensures
            match r {
                Some(v) => jar_get(self.list(), utf8_bytes(name@)) matches Some(c) && c.value@
                    == v@,
                None => jar_get(self.list(), utf8_bytes(name@)) is None,
            },
    {
        match self.get_cookie(name) {
            Some(c) => Some(c.value.as_str()),
            None => None,
        }
    }

    /// Removes the first cookie with the given name and hands it back.
    pub fn remove_cookie(&mut self, name: &str) -> (r: Option<Cookie>)
        ensures
            match r {
                Some(c) => jar_get(old(self).list(), utf8_bytes(name@)) == Some(c)
                    && final(self).list().len() + 1 == old(self).list().len(),
                None => jar_get(old(self).list(), utf8_bytes(name@)) is None && final(self).list()
                    == old(self).list(),
            },
    {
        let mut i: usize = 0;
        proof {
            assert(self.list().skip(0) =~= self.list());
        }
        while i < self.cookies.len()
            invariant
                i <= self.cookies.len(),
                self.cookies@ == old(self).list(),
                jar_get(self.list(), utf8_bytes(name@)) == jar_get(
                    self.list().skip(i as int),
                    utf8_bytes(name@),
                ),
            decreases self.cookies.len() - i,
        {
            proof {
                assert(self.list().skip(i as int).drop_first() =~= self.list().skip(i + 1));
                assert(self.list().skip(i as int)[0] == self.list()[i as int]);
            }
            if crate::util::bytes_eq(self.cookies[i].name.as_str().as_bytes(), name.as_bytes()) {
                let c = self.cookies.remove(i);
                return Some(c);
            }
            i += 1;
        }
        proof {
            assert(self.list().skip(self.list().len() as int) =~= Seq::<Cookie>::empty());
        }
        None
    }

    /// Whether the jar holds a cookie with the given name.
    pub fn contains(&self, name: &str) -> (r: bool)
        ensures
            r == (jar_get(self.list(), utf8_bytes(name@)) is Some),
    {
        self.get_cookie(name).is_some()
    }

    /// All cookies, in insertion order.
    pub fn cookies(&self) -> (r: &[Cookie])
        ensures
            r@ == self.list(),
    {
        self.cookies.as_slice()
    }

    /// How many cookies the jar holds.
    pub fn len(&self) -> (r: usize)
        ensures
            r == self.list().len(),
    {
        self.cookies.len()
    }

    /// The `Set-Cookie` header values of every cookie, in order.
    pub fn to_set_cookie_headers(&self) -> (r: Vec<String>)
        ensures
            r@.len() == self.list().len(),
            forall|i: int|
                0 <= i < r@.len() ==> utf8_bytes(#[trigger] r@[i]@) == cookie_wire(self.list()[i]),
    {
        let mut out: Vec<String> = Vec::new();
        let mut i: usize = 0;
        while i < self.cookies.len()
            invariant
                i <= self.cookies.len(),
                out@.len() == i,
                forall|j: int|
                    0 <= j < i ==> utf8_bytes(#[trigger] out@[j]@) == cookie_wire(
                        self.list()[j],
                    ),
            decreases self.cookies.len() - i,
        {
            out.push(self.cookies[i].to_header_value());
            i += 1;
        }
        out
    }

    /// Parses a `Cookie` header: `name=value` pairs separated by `;`,
    /// names and values trimmed, empty names skipped. Each well-formed
    /// pair lands in the jar.
    pub fn parse_cookie_header(header_value: &str) -> (r: CookieJar)
        ensures
            jar_pairs(r.list()) == cookie_pairs_from(utf8_bytes(header_value@), 0, Seq::empty()),
    {
        let mut jar = CookieJar::new();
        let bytes = header_value.as_bytes();
        proof {
            assert(jar_pairs(jar.list()) =~= Seq::<(Seq<u8>, Seq<u8>)>::empty());
        }
        let mut from: usize = 0;
        loop
            invariant
                from <= bytes@.len(),
                bytes@ == utf8_bytes(header_value@),
                cookie_pairs_from(bytes@, 0, Seq::empty()) == cookie_pairs_from(
                    bytes@,
                    from as int,
                    jar_pairs(jar.list()),
                ),
            decreases bytes@.len() - from,
        {
            let ghost jp = jar_pairs(jar.list());
            proof {
                lemma_find_byte_from_ok(bytes@, 59, from as int);
            }
            let end = match find_byte_exec(bytes, 59, from) {
                Some(p) => p,
                None => bytes.len(),
            };
            let pair = &bytes[from..end];
            proof {
                assert(ck_end(bytes@, from as int) == end as int);
                assert(pair@ == bytes@.subrange(from as int, ck_end(bytes@, from as int)));
                lemma_find_byte_from_ok(pair@, 61, 0);
            }
            if let Some(eq) = find_byte_exec(pair, 61, 0) {
                let name_b = trim_exec(&pair[0..eq]);
                let value_b = trim_exec(&pair[eq + 1..pair.len()]);
                proof {
                    assert(pair@.subrange(0, eq as int) =~= pair@.take(eq as int));
                    assert(pair@.subrange(eq + 1, pair@.len() as int) =~= pair@.skip(eq + 1));
                }
                let ghost nb = name_b@;
                let ghost vb = value_b@;
                if name_b.len() > 0 {
                    let name_s = string_from_bytes(name_b);
                    let value_s = string_from_bytes(value_b);
                    if let (Some(n), Some(v)) = (name_s, value_s) {
                        jar.add_cookie(Cookie::new(n, v));
                        proof {
                            assert(jar_pairs(jar.list()) == crate::http::request::spec_insert(
                                jp,
                                nb,
                                vb,
                            ));
                        }
                    }
                }
            }
            if end >= bytes.len() {
                proof {
                    assert(cookie_pairs_from(bytes@, from as int, jp) == jar_pairs(jar.list()));
                }
                return jar;
            }
            proof {
                assert(cookie_pairs_from(bytes@, from as int, jp) == cookie_pairs_from(
                    bytes@,
                    end + 1,
                    jar_pairs(jar.list()),
                ));
            }
            from = end + 1;
        }
    }
}

impl Default for CookieJar {
    /// An empty jar.
    fn default() -> (r: Self)
        ensures
            r.list() == Seq::<Cookie>::empty(),
    {
        Self::new()
    }
}

/// When no earlier name matches, `jar_get` finds position `i`.
proof fn lemma_jar_get_at(s: Seq<Cookie>, name: Seq<u8>, i: int)
    requires
        0 <= i < s.len(),
        utf8_bytes(s[i].name@) == name,
        forall|j: int| 0 <= j < i ==> utf8_bytes(#[trigger] s[j].name@) != name,
    ensures
        jar_get(s, name) == Some(s[i]),
    decreases i,
{
    if i == 0 {
    } else {
        assert(s.drop_first()[i - 1] == s[i]);
        assert(forall|j: int|
            0 <= j < i - 1 ==> utf8_bytes(#[trigger] s.drop_first()[j].name@) != name);
        lemma_jar_get_at(s.drop_first(), name, i - 1);
    }
}

} // verus!
