//! `application/x-www-form-urlencoded` bodies: decoding, encoding, and a
//! small multi-valued field map.

use vstd::prelude::*;

use crate::util::{utf8_bytes, string_from_bytes, find_byte, find_byte_from, find_byte_exec,
    bytes_eq, u64_to_hex, lemma_find_byte_from_ok, hex_digits, hex_val_of};

verus! {

/// What percent-decoding yields: `+` becomes a space, `%XX` the byte the
/// two hex digits name, anything else itself; a truncated or malformed
/// escape fails.
pub open spec fn spec_url_decode(s: Seq<u8>) -> Result<Seq<u8>, ()>
    decreases s.len(),
{
    if s.len() == 0 {
        Ok(Seq::<u8>::empty())
    } else if s[0] == 37 {
        if s.len() < 3 {
            Err(())
        } else if hex_val_of(s[1]) >= 16 || hex_val_of(s[2]) >= 16 {
            Err(())
        } else {
            match spec_url_decode(s.skip(3)) {
                Ok(r) => Ok(seq![(hex_val_of(s[1]) * 16 + hex_val_of(s[2])) as u8] + r),
                Err(e) => Err(e),
            }
        }
    } else if s[0] == 43 {
        match spec_url_decode(s.skip(1)) {
            Ok(r) => Ok(seq![32u8] + r),
            Err(e) => Err(e),
        }
    } else {
        match spec_url_decode(s.skip(1)) {
            Ok(r) => Ok(seq![s[0]] + r),
            Err(e) => Err(e),
        }
    }
}

/// The end of the `&`-separated piece of `s` that starts at `from`.
pub open spec fn amp_end(s: Seq<u8>, from: int) -> int {
    let e = match find_byte_from(s, 38, from) {
        Some(p) => p,
        None => s.len() as int,
    };
    if e < from {
        from
    } else if e > s.len() {
        s.len() as int
    } else {
        e
    }
}

/// The decoded pairs of a form body from `from` on: `&`-separated
/// pieces, each split at its first `=` and percent-decoded on both
/// sides; a piece without `=` becomes a name with an empty value; an
/// empty piece is skipped; a malformed escape fails the parse.
pub open spec fn form_pairs_from(s: Seq<u8>, from: int) -> Result<Seq<(Seq<u8>, Seq<u8>)>, ()>
    decreases s.len() - from,
{
    let pair = s.subrange(from, amp_end(s, from));
    let head: Result<Seq<(Seq<u8>, Seq<u8>)>, ()> = match find_byte(pair, 61) {
        Some(e) => match (spec_url_decode(pair.take(e)), spec_url_decode(pair.skip(e + 1))) {
            (Ok(n), Ok(v)) => if vstd::utf8::valid_utf8(n) && vstd::utf8::valid_utf8(v) {
                Ok(seq![(n, v)])
            } else {
                Err(())
            },
            _ => Err(()),
        },
        None => if pair.len() > 0 {
            match spec_url_decode(pair) {
                Ok(n) => if vstd::utf8::valid_utf8(n) {
                    Ok(seq![(n, Seq::<u8>::empty())])
                } else {
                    Err(())
                },
                Err(_) => Err(()),
            }
        } else {
            Ok(Seq::<(Seq<u8>, Seq<u8>)>::empty())
        },
    };
    match head {
        Err(e) => Err(e),
        Ok(h) => if amp_end(s, from) >= s.len() {
            Ok(h)
        } else {
            match form_pairs_from(s, amp_end(s, from) + 1) {
                Ok(t) => Ok(h + t),
                Err(e) => Err(e),
            }
        },
    }
}

/// One decoded field.
#[derive(Debug, Clone)]
pub struct FormField {
    pub name: String,
    pub value: String,
}

/// The decoded form: fields with their values, in arrival order; one
/// name may carry several values.
#[derive(Debug, Clone)]
pub struct FormData {
    fields: Vec<(String, String)>,
}

impl FormData {
    /// The (name, value) pairs, in arrival order.
    pub closed spec fn pairs(&self) -> Seq<(Seq<u8>, Seq<u8>)> {
        self.fields@.map_values(|p: (String, String)| (utf8_bytes(p.0@), utf8_bytes(p.1@)))
    }

    /// An empty form.
    pub fn new() -> (r: FormData)
        ensures
            r.pairs().len() == 0,
    {
        let r = FormData { fields: Vec::new() };
        proof {
            assert(r.pairs() =~= Seq::<(Seq<u8>, Seq<u8>)>::empty());
        }
        r
    }

    /// Decodes a body: `&`-separated `name=value` pairs, percent escapes
    /// and `+` decoded in both; a pair without `=` becomes a name with an
    /// empty value; a broken escape fails the parse.
    pub fn parse(data: &[u8]) -> (r: Result<FormData, ()>)
        ensures
            match r {
                Ok(form) => form_pairs_from(data@, 0) == Ok::<Seq<(Seq<u8>, Seq<u8>)>, ()>(
                    form.pairs(),
                ),
                Err(_) => form_pairs_from(data@, 0) is Err,
            },
    {
        let mut form = FormData::new();
        proof {
            assert(form.pairs() =~= Seq::<(Seq<u8>, Seq<u8>)>::empty());
        }
        let mut from: usize = 0;
        loop
            invariant
                from <= data@.len(),
                form_pairs_from(data@, 0) == (match form_pairs_from(data@, from as int) {
                    Ok(t) => Ok::<Seq<(Seq<u8>, Seq<u8>)>, ()>(form.pairs() + t),
                    Err(e) => Err::<Seq<(Seq<u8>, Seq<u8>)>, ()>(e),
                }),
            decreases data@.len() - from,
        {
            let ghost fp = form.pairs();
            proof {
                lemma_find_byte_from_ok(data@, 38, from as int);
            }
            let end = match find_byte_exec(data, 38, from) {
                Some(p) => p,
                None => data.len(),
            };
            let pair = &data[from..end];
            proof {
                assert(amp_end(data@, from as int) == end as int);
                assert(pair@ == data@.subrange(from as int, amp_end(data@, from as int)));
                lemma_find_byte_from_ok(pair@, 61, 0);
            }
            let ghost head: Seq<(Seq<u8>, Seq<u8>)> = Seq::empty();
            match find_byte_exec(pair, 61, 0) {
                Some(eq) => {
                    proof {
                        assert(pair@.subrange(0, eq as int) =~= pair@.take(eq as int));
                        assert(pair@.subrange(eq + 1, pair@.len() as int) =~= pair@.skip(eq + 1));
                    }
                    let name = match url_decode(&pair[0..eq]) {
                        Ok(v) => v,
                        Err(_) => {
                            return Err(());
                        },
                    };
                    let value = match url_decode(&pair[eq + 1..pair.len()]) {
                        Ok(v) => v,
                        Err(_) => {
                            return Err(());
                        },
                    };
                    let ghost nb = name@;
                    let ghost vb = value@;
                    match (string_from_bytes(name), string_from_bytes(value)) {
                        (Some(n), Some(v)) => {
                            form.add_field(n, v);
                            proof {
                                assert(form.pairs() == fp.push((nb, vb)));
                                assert(fp.push((nb, vb)) =~= fp + seq![(nb, vb)]);
                            }
                        },
                        _ => {
                            return Err(());
                        },
                    }
                },
                None => {
                    if pair.len() > 0 {
                        let name = match url_decode(pair) {
                            Ok(v) => v,
                            Err(_) => {
                                return Err(());
                            },
                        };
                        let ghost nb = name@;
                        match string_from_bytes(name) {
                            Some(n) => {
                                let empty_value = String::new();
                                proof {
                                    reveal_strlit("");
                                    assert(empty_value@ =~= ""@);
                                    crate::util::lemma_utf8_bytes_ascii(""@);
                                    assert(utf8_bytes(empty_value@) =~= Seq::<u8>::empty());
                                }
                                form.add_field(n, empty_value);
                                proof {
                                    assert(form.pairs() == fp.push((nb, Seq::<u8>::empty())));
                                    assert(fp.push((nb, Seq::<u8>::empty())) =~= fp + seq![
                                        (nb, Seq::<u8>::empty()),
                                    ]);
                                }
                            },
                            None => {
                                return Err(());
                            },
                        }
                    }
                },
            }
            if end >= data.len() {
                proof {
                    match form_pairs_from(data@, from as int) {
                        Ok(t) => {
                            assert(fp + t =~= form.pairs());
                        },
                        Err(_) => {},
                    }
                }
                return Ok(form);
            }
            proof {
                match form_pairs_from(data@, end + 1) {
                    Ok(t) => {
                        match form_pairs_from(data@, from as int) {
                            Ok(whole) => {
                                assert(fp + whole =~= form.pairs() + t);
                            },
                            Err(_) => {},
                        }
                    },
                    Err(_) => {},
                }
            }
            from = end + 1;
        }
    }

    /// Appends one field.
    pub fn add_field(&mut self, name: String, value: String)
        ensures
            final(self).pairs() == old(self).pairs().push(
                (utf8_bytes(name@), utf8_bytes(value@)),
            ),
    {
        let ghost n = utf8_bytes(name@);
        let ghost v = utf8_bytes(value@);
        self.fields.push((name, value));
        proof {
            assert(self.pairs() =~= old(self).pairs().push((n, v)));
        }
    }

    /// The first value under a name.
    pub fn get_field(&self, name: &str) -> (r: Option<&str>)
    {
        let mut i: usize = 0;
        while i < self.fields.len()
            decreases self.fields.len() - i,
        {
            if bytes_eq(self.fields[i].0.as_str().as_bytes(), name.as_bytes()) {
                return Some(self.fields[i].1.as_str());
            }
            i += 1;
        }
        None
    }

    /// Every value under a name, in arrival order.
    pub fn get_field_values(&self, name: &str) -> (r: Option<Vec<String>>)
    {
        let mut out: Vec<String> = Vec::new();
        let mut i: usize = 0;
        while i < self.fields.len()
            decreases self.fields.len() - i,
        {
            if bytes_eq(self.fields[i].0.as_str().as_bytes(), name.as_bytes()) {
                out.push(self.fields[i].1.clone());
            }
            i += 1;
        }
        if out.len() == 0 {
            None
        } else {
            Some(out)
        }
    }

    /// The distinct names, in first-arrival order.
    pub fn field_names(&self) -> (r: Vec<String>)
    {
        let mut out: Vec<String> = Vec::new();
        let mut i: usize = 0;
        while i < self.fields.len()
            decreases self.fields.len() - i,
        {
            let mut seen = false;
            let mut j: usize = 0;
            while j < out.len()
                invariant
                    i < self.fields@.len(),
                    j <= out@.len(),
                decreases out.len() - j,
            {
                if bytes_eq(
                    out[j].as_str().as_bytes(),
                    self.fields[i].0.as_str().as_bytes(),
                ) {
                    seen = true;
                }
                j += 1;
            }
            if !seen {
                out.push(self.fields[i].0.clone());
            }
            i += 1;
        }
        out
    }

    /// Whether a name carries a value.
    pub fn has_field(&self, name: &str) -> (r: bool)
    {
        self.get_field(name).is_some()
    }

    /// Every field, in arrival order.
    pub fn fields(&self) -> (r: Vec<FormField>)
        ensures
            r@.len() == self.pairs().len(),
    {
        let mut out: Vec<FormField> = Vec::new();
        let mut i: usize = 0;
        while i < self.fields.len()
            invariant
                i <= self.fields@.len(),
                out@.len() == i,
            decreases self.fields.len() - i,
        {
            out.push(
                FormField { name: self.fields[i].0.clone(), value: self.fields[i].1.clone() },
            );
            i += 1;
        }
        out
    }

    /// Percent-encodes text: unreserved bytes pass, a space becomes `+`,
    /// anything else becomes `%` and two upper-case hex digits.
    pub fn url_encode(input: &str) -> (r: String)
    {
        let b = input.as_bytes();
        let mut out: Vec<u8> = Vec::new();
        let mut i: usize = 0;
        while i < b.len()
            invariant
                i <= b@.len(),
                forall|j: int| 0 <= j < out@.len() ==> #[trigger] out@[j] < 128,
            decreases b.len() - i,
        {
            let c = b[i];
            let unreserved = (65 <= c && c <= 90) || (97 <= c && c <= 122) || (48 <= c && c <= 57)
                || c == 45 || c == 95 || c == 46 || c == 126;
            if unreserved {
                out.push(c);
            } else if c == 32 {
                out.push(43);
            } else {
                out.push(37);
                let hi = c / 16;
                let lo = c % 16;
                out.push(hex_upper(hi));
                out.push(hex_upper(lo));
            }
            i += 1;
        }
        proof {
            crate::util::lemma_ascii_valid_utf8(out@);
        }
        match string_from_bytes(out) {
            Some(s) => s,
            None => {
                proof {
                    assert(false);
                }
                String::new()
            },
        }
    }
}

impl Default for FormData {
    /// An empty form.
    fn default() -> (r: Self)
        ensures
            r.pairs().len() == 0,
    {
        Self::new()
    }
}

/// The upper-case hex digit of a value below 16.
fn hex_upper(d: u8) -> (r: u8)
    requires
        d < 16,
    ensures
        r < 128,
{
    if d < 10 {
        48 + d
    } else {
        55 + d
    }
}

/// Percent-decodes bytes; `+` becomes a space; a truncated or malformed
/// escape is an error, as the form grammar demands.
pub fn url_decode(s: &[u8]) -> (r: Result<Vec<u8>, ()>)
    ensures
        match r {
            Ok(v) => spec_url_decode(s@) == Ok::<Seq<u8>, ()>(v@),
            Err(_) => spec_url_decode(s@) is Err,
        },
{
    let mut out: Vec<u8> = Vec::new();
    let mut i: usize = 0;
    proof {
        assert(s@.skip(0) =~= s@);
    }
    while i < s.len()
        invariant
            i <= s@.len(),
            spec_url_decode(s@) == (match spec_url_decode(s@.skip(i as int)) {
                Ok(t) => Ok::<Seq<u8>, ()>(out@ + t),
                Err(e) => Err::<Seq<u8>, ()>(e),
            }),
        decreases s.len() - i,
    {
        let ghost rem = s@.skip(i as int);
        let ghost prev = out@;
        proof {
            assert(rem[0] == s@[i as int]);
        }
        let b = s[i];
        if b == 37 {
            if s.len() < 3 || i > s.len() - 3 {
                proof {
                    assert(rem.len() < 3);
                }
                return Err(());
            }
            let h1 = hexv(s[i + 1]);
            let h2 = hexv(s[i + 2]);
            proof {
                assert(rem[1] == s@[i + 1]);
                assert(rem[2] == s@[i + 2]);
            }
            if h1 >= 16 || h2 >= 16 {
                return Err(());
            }
            out.push(h1 * 16 + h2);
            proof {
                assert(rem.skip(3) =~= s@.skip(i + 3));
                match spec_url_decode(s@.skip(i + 3)) {
                    Ok(t) => {
                        assert(prev + (seq![(hex_val_of(rem[1]) * 16 + hex_val_of(
                            rem[2],
                        )) as u8] + t) =~= out@ + t);
                    },
                    Err(_) => {},
                }
            }
            i += 3;
        } else if b == 43 {
            out.push(32);
            proof {
                assert(rem.skip(1) =~= s@.skip(i + 1));
                match spec_url_decode(s@.skip(i + 1)) {
                    Ok(t) => {
                        assert(prev + (seq![32u8] + t) =~= out@ + t);
                    },
                    Err(_) => {},
                }
            }
            i += 1;
        } else {
            out.push(b);
            proof {
                assert(rem.skip(1) =~= s@.skip(i + 1));
                match spec_url_decode(s@.skip(i + 1)) {
                    Ok(t) => {
                        assert(prev + (seq![rem[0]] + t) =~= out@ + t);
                    },
                    Err(_) => {},
                }
            }
            i += 1;
        }
    }
    proof {
        assert(s@.skip(s@.len() as int) =~= Seq::<u8>::empty());
        assert(out@ + Seq::<u8>::empty() =~= out@);
    }
    Ok(out)
}

/// The value of one hexadecimal digit byte, or 16.
fn hexv(b: u8) -> (r: u8)
    ensures
        r as nat == crate::util::hex_val_of(b),
{
    if 48 <= b && b <= 57 {
        b - 48
    } else if 65 <= b && b <= 70 {
        b - 55
    } else if 97 <= b && b <= 102 {
        b - 87
    } else {
        16
    }
}

} // verus!
