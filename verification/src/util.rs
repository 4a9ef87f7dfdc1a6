//! Byte-level helpers shared by the wire parser and its collaborators:
//! ASCII case folding, line scanning, and decimal / hexadecimal numerals.

use vstd::prelude::*;

verus! {

use vstd::string::StringSliceAdditionalSpecFns;

/// ASCII lower-casing of one byte: `A`..`Z` map to `a`..`z`, all else is kept.
pub open spec fn lower_byte(b: u8) -> u8 {
    if 65 <= b && b <= 90 {
        (b + 32) as u8
    } else {
        b
    }
}

/// ASCII lower-casing of a byte sequence.
pub open spec fn lower(s: Seq<u8>) -> Seq<u8> {
    s.map_values(|b: u8| lower_byte(b))
}

/// Executable ASCII lower-casing of one byte.
pub fn lower_byte_exec(b: u8) -> (r: u8)
    ensures
        r == lower_byte(b),
{
    if 65 <= b && b <= 90 {
        b + 32
    } else {
        b
    }
}

/// Executable ASCII lower-casing of a byte vector.
pub fn lower_bytes_exec(s: &[u8]) -> (r: Vec<u8>)
    ensures
        r@ == lower(s@),
{
    let mut out: Vec<u8> = Vec::new();
    let mut i: usize = 0;
    while i < s.len()
        invariant
            i <= s.len(),
            out@ == lower(s@.take(i as int)),
        decreases s.len() - i,
    {
        proof {
            assert(lower(s@.take(i + 1)) =~= lower(s@.take(i as int)).push(lower_byte(s@[i as int])));
        }
        out.push(lower_byte_exec(s[i]));
        i += 1;
    }
    proof {
        assert(s@.take(s@.len() as int) =~= s@);
    }
    out
}

/// Two byte sequences are equal up to ASCII case.
pub open spec fn eq_ignore_case(a: Seq<u8>, b: Seq<u8>) -> bool {
    lower(a) == lower(b)
}

/// Executable case-insensitive comparison of two byte slices.
pub fn eq_ignore_case_exec(a: &[u8], b: &[u8]) -> (r: bool)
    ensures
        r == eq_ignore_case(a@, b@),
{
    if a.len() != b.len() {
        proof {
            assert(lower(a@).len() != lower(b@).len());
        }
        return false;
    }
    let mut i: usize = 0;
    while i < a.len()
        invariant
            a@.len() == b@.len(),
            i <= a.len(),
            forall|j: int| 0 <= j < i ==> lower_byte(a@[j]) == lower_byte(b@[j]),
        decreases a.len() - i,
    {
        if lower_byte_exec(a[i]) != lower_byte_exec(b[i]) {
            proof {
                assert(lower(a@)[i as int] != lower(b@)[i as int]);
            }
            return false;
        }
        i += 1;
    }
    proof {
        assert(lower(a@) =~= lower(b@));
    }
    true
}

/// Decimal numeral of `n`, most significant digit first.
pub open spec fn dec_digits(n: nat) -> Seq<u8>
    decreases n,
{
    if n < 10 {
        seq![(48 + n) as u8]
    } else {
        dec_digits(n / 10) + seq![(48 + n % 10) as u8]
    }
}

/// Upper-case hexadecimal numeral of `n`, most significant digit first.
pub open spec fn hex_digits(n: nat) -> Seq<u8>
    decreases n,
{
    if n < 16 {
        seq![hex_digit_of(n % 16)]
    } else {
        hex_digits(n / 16) + seq![hex_digit_of(n % 16)]
    }
}

/// The upper-case hexadecimal digit for a value below 16.
pub open spec fn hex_digit_of(d: nat) -> u8 {
    if d < 10 {
        (48 + d) as u8
    } else {
        (55 + d) as u8
    }
}

/// Executable decimal numeral of `n`.
pub fn u64_to_dec(n: u64) -> (r: Vec<u8>)
    ensures
        r@ == dec_digits(n as nat),
    decreases n,
{
    if n < 10 {
        let mut v: Vec<u8> = Vec::new();
        v.push(48 + n as u8);
        v
    } else {
        let mut v = u64_to_dec(n / 10);
        v.push(48 + (n % 10) as u8);
        proof {
            assert(v@ =~= dec_digits((n / 10) as nat) + seq![(48 + n % 10) as u8]);
        }
        v
    }
}

/// Executable upper-case hexadecimal numeral of `n`.
pub fn u64_to_hex(n: u64) -> (r: Vec<u8>)
    ensures
        r@ == hex_digits(n as nat),
    decreases n,
{
    let d = (n % 16) as u8;
    let c: u8 = if d < 10 {
        48 + d
    } else {
        55 + d
    };
    if n < 16 {
        let mut v: Vec<u8> = Vec::new();
        v.push(c);
        v
    } else {
        let mut v = u64_to_hex(n / 16);
        v.push(c);
        proof {
            assert(v@ =~= hex_digits((n / 16) as nat) + seq![hex_digit_of((n % 16) as nat)]);
        }
        v
    }
}

/// The numeric value of one ASCII hexadecimal digit, or 16 for any other byte.
pub open spec fn hex_val_of(b: u8) -> nat {
    if 48 <= b && b <= 57 {
        (b - 48) as nat
    } else if 65 <= b && b <= 70 {
        (b - 55) as nat
    } else if 97 <= b && b <= 102 {
        (b - 87) as nat
    } else {
        16
    }
}

/// True when `b` is an ASCII hexadecimal digit.
pub open spec fn is_hex_digit(b: u8) -> bool {
    hex_val_of(b) < 16
}

/// True when `s` is a non-empty run of hexadecimal digits.
pub open spec fn is_hex_numeral(s: Seq<u8>) -> bool {
    s.len() > 0 && forall|i: int| 0 <= i < s.len() ==> is_hex_digit(#[trigger] s[i])
}

/// The value of a hexadecimal numeral, most significant digit first.
pub open spec fn hex_value(s: Seq<u8>) -> nat
    decreases s.len(),
{
    if s.len() == 0 {
        0
    } else {
        hex_value(s.drop_last()) * 16 + hex_val_of(s.last())
    }
}

/// True when `b` is an ASCII decimal digit.
pub open spec fn is_dec_digit(b: u8) -> bool {
    48 <= b && b <= 57
}

/// True when `s` is a non-empty run of decimal digits.
pub open spec fn is_dec_numeral(s: Seq<u8>) -> bool {
    s.len() > 0 && forall|i: int| 0 <= i < s.len() ==> is_dec_digit(#[trigger] s[i])
}

/// The value of a decimal numeral, most significant digit first.
pub open spec fn dec_value(s: Seq<u8>) -> nat
    decreases s.len(),
{
    if s.len() == 0 {
        0
    } else {
        dec_value(s.drop_last()) * 10 + (if is_dec_digit(s.last()) {
            (s.last() - 48) as nat
        } else {
            0
        })
    }
}

/// Executable test for a non-empty run of hexadecimal digits.
pub fn is_hex_numeral_exec(s: &[u8]) -> (r: bool)
    ensures
        r == is_hex_numeral(s@),
{
    if s.len() == 0 {
        return false;
    }
    let mut i: usize = 0;
    while i < s.len()
        invariant
            i <= s.len(),
            s@.len() > 0,
            forall|j: int| 0 <= j < i ==> is_hex_digit(#[trigger] s@[j]),
        decreases s.len() - i,
    {
        let b = s[i];
        let ok = (48 <= b && b <= 57) || (65 <= b && b <= 70) || (97 <= b && b <= 102);
        if !ok {
            proof {
                assert(!is_hex_digit(s@[i as int]));
            }
            return false;
        }
        i += 1;
    }
    true
}

/// Parses a hexadecimal numeral; `None` when `s` is not a hexadecimal
/// numeral or its value exceeds `cap`.
pub fn parse_hex(s: &[u8], cap: u64) -> (r: Option<u64>)
    ensures
        match r {
            Some(v) => is_hex_numeral(s@) && hex_value(s@) == v && v <= cap,
            None => !is_hex_numeral(s@) || hex_value(s@) > cap,
        },
{
    if s.len() == 0 {
        return None;
    }
    let mut i: usize = 0;
    let mut acc: u64 = 0;
    while i < s.len()
        invariant
            i <= s.len(),
            s@.len() > 0,
            acc == hex_value(s@.take(i as int)),
            acc <= cap,
            forall|j: int| 0 <= j < i ==> is_hex_digit(#[trigger] s@[j]),
        decreases s.len() - i,
    {
        let b = s[i];
        let d: u64 = if 48 <= b && b <= 57 {
            (b - 48) as u64
        } else if 65 <= b && b <= 70 {
            (b - 55) as u64
        } else if 97 <= b && b <= 102 {
            (b - 87) as u64
        } else {
            proof {
                assert(!is_hex_digit(s@[i as int]));
                lemma_hex_value_mono(s@, i as int);
            }
            return None;
        };
        proof {
            assert(s@.take(i + 1).drop_last() =~= s@.take(i as int));
            assert(s@.take(i + 1).last() == s@[i as int]);
        }
        if d > cap || acc > (cap - d) / 16 {
            proof {
                lemma_hex_value_mono(s@, i + 1);
                assert(hex_value(s@.take(i + 1)) == acc * 16 + d);
            }
            return None;
        }
        acc = acc * 16 + d;
        i += 1;
    }
    proof {
        assert(s@.take(s@.len() as int) =~= s@);
    }
    Some(acc)
}

/// A numeral's value is monotone in its prefixes: the value of the whole is
/// at least the value of any prefix, and exceeds a threshold whenever the
/// prefix does.
pub proof fn lemma_hex_value_mono(s: Seq<u8>, i: int)
    requires
        0 <= i <= s.len(),
    ensures
        hex_value(s) >= hex_value(s.take(i)),
    decreases s.len() - i,
{
    if i < s.len() {
        lemma_hex_value_mono(s, i + 1);
        assert(s.take(i + 1).drop_last() =~= s.take(i));
        assert(hex_value(s.take(i + 1)) == hex_value(s.take(i)) * 16 + hex_val_of(s.take(i + 1).last()));
    } else {
        assert(s.take(i) =~= s);
    }
}

/// Same monotonicity for decimal numerals.
pub proof fn lemma_dec_value_mono(s: Seq<u8>, i: int)
    requires
        0 <= i <= s.len(),
    ensures
        dec_value(s) >= dec_value(s.take(i)),
    decreases s.len() - i,
{
    if i < s.len() {
        lemma_dec_value_mono(s, i + 1);
        assert(s.take(i + 1).drop_last() =~= s.take(i));
    } else {
        assert(s.take(i) =~= s);
    }
}

/// Parses a decimal numeral; `None` when `s` is not a decimal numeral or
/// its value exceeds `cap`.
pub fn parse_dec(s: &[u8], cap: u64) -> (r: Option<u64>)
    ensures
        match r {
            Some(v) => is_dec_numeral(s@) && dec_value(s@) == v && v <= cap,
            None => !is_dec_numeral(s@) || dec_value(s@) > cap,
        },
{
    if s.len() == 0 {
        return None;
    }
    let mut i: usize = 0;
    let mut acc: u64 = 0;
    while i < s.len()
        invariant
            i <= s.len(),
            s@.len() > 0,
            acc == dec_value(s@.take(i as int)),
            acc <= cap,
            forall|j: int| 0 <= j < i ==> is_dec_digit(#[trigger] s@[j]),
        decreases s.len() - i,
    {
        let b = s[i];
        if b < 48 || b > 57 {
            proof {
                lemma_dec_value_mono(s@, i as int);
            }
            return None;
        }
        let d: u64 = (b - 48) as u64;
        proof {
            assert(s@.take(i + 1).drop_last() =~= s@.take(i as int));
            assert(s@.take(i + 1).last() == s@[i as int]);
        }
        if d > cap || acc > (cap - d) / 10 {
            proof {
                lemma_dec_value_mono(s@, i + 1);
                assert(dec_value(s@.take(i + 1)) == acc * 10 + d);
            }
            return None;
        }
        acc = acc * 10 + d;
        i += 1;
    }
    proof {
        assert(s@.take(s@.len() as int) =~= s@);
    }
    Some(acc)
}

/// The hexadecimal numeral of a value reads back to that value.
pub proof fn lemma_hex_digits_value(n: nat)
    ensures
        is_hex_numeral(hex_digits(n)),
        hex_value(hex_digits(n)) == n,
    decreases n,
{
    assert(is_hex_digit(hex_digit_of(n % 16)));
    assert(hex_val_of(hex_digit_of(n % 16)) == n % 16);
    if n < 16 {
        let s = hex_digits(n);
        assert(s =~= seq![hex_digit_of(n % 16)]);
        assert(s.drop_last() =~= Seq::<u8>::empty());
        assert(hex_value(s) == hex_value(Seq::<u8>::empty()) * 16 + hex_val_of(s.last()));
    } else {
        lemma_hex_digits_value(n / 16);
        let s = hex_digits(n);
        assert(s.drop_last() =~= hex_digits(n / 16));
        assert(s.last() == hex_digit_of(n % 16));
        assert(hex_value(s) == hex_value(hex_digits(n / 16)) * 16 + hex_val_of(hex_digit_of(n % 16)));
        assert forall|i: int| 0 <= i < s.len() implies is_hex_digit(#[trigger] s[i]) by {
            if i < s.len() - 1 {
                assert(s[i] == hex_digits(n / 16)[i]);
            }
        }
    }
}

/// The decimal numeral of a value reads back to that value.
pub proof fn lemma_dec_digits_value(n: nat)
    ensures
        is_dec_numeral(dec_digits(n)),
        dec_value(dec_digits(n)) == n,
    decreases n,
{
    if n < 10 {
        let s = dec_digits(n);
        assert(s =~= seq![(48 + n) as u8]);
        assert(s.drop_last() =~= Seq::<u8>::empty());
        assert(hex_value(Seq::<u8>::empty()) == 0);
        assert(is_dec_digit(s.last()));
        assert(dec_value(s) == dec_value(Seq::<u8>::empty()) * 10 + (s.last() - 48));
    } else {
        lemma_dec_digits_value(n / 10);
        let s = dec_digits(n);
        assert(s.drop_last() =~= dec_digits(n / 10));
        assert(s.last() == (48 + n % 10) as u8);
        assert(is_dec_digit(s.last()));
        assert(dec_value(s) == dec_value(dec_digits(n / 10)) * 10 + (s.last() - 48));
        assert forall|i: int| 0 <= i < s.len() implies is_dec_digit(#[trigger] s[i]) by {
            if i < s.len() - 1 {
                assert(s[i] == dec_digits(n / 10)[i]);
            }
        }
    }
}

/// True for the two optional-whitespace bytes of HTTP: space and tab.
pub open spec fn is_ows(b: u8) -> bool {
    b == 32 || b == 9
}

/// The index of the first byte of `s` at or after `i` that is not
/// optional whitespace.
pub open spec fn skip_ows(s: Seq<u8>, i: int) -> int
    decreases s.len() - i,
{
    if 0 <= i < s.len() && is_ows(s[i]) {
        skip_ows(s, i + 1)
    } else {
        i
    }
}

/// The index just past the last byte of `s` before `j` that is not
/// optional whitespace.
pub open spec fn rskip_ows(s: Seq<u8>, j: int) -> int
    decreases j,
{
    if 0 < j <= s.len() && is_ows(s[j - 1]) {
        rskip_ows(s, j - 1)
    } else {
        j
    }
}

/// `s` with optional whitespace removed from both ends.
pub open spec fn trim(s: Seq<u8>) -> Seq<u8> {
    let a = skip_ows(s, 0);
    let e = rskip_ows(s, s.len() as int);
    if a >= e {
        Seq::empty()
    } else {
        s.subrange(a, e)
    }
}

/// Bounds of the whitespace-skipping indices.
proof fn lemma_skip_ows_bounds(s: Seq<u8>, i: int)
    requires
        0 <= i <= s.len(),
    ensures
        i <= skip_ows(s, i) <= s.len(),
        forall|q: int| i <= q < skip_ows(s, i) ==> is_ows(#[trigger] s[q]),
        skip_ows(s, i) < s.len() ==> !is_ows(s[skip_ows(s, i)]),
    decreases s.len() - i,
{
    if i < s.len() && is_ows(s[i]) {
        lemma_skip_ows_bounds(s, i + 1);
    }
}

/// Bounds of the reverse whitespace-skipping indices.
proof fn lemma_rskip_ows_bounds(s: Seq<u8>, j: int)
    requires
        0 <= j <= s.len(),
    ensures
        0 <= rskip_ows(s, j) <= j,
        forall|q: int| rskip_ows(s, j) <= q < j ==> is_ows(#[trigger] s[q]),
        rskip_ows(s, j) > 0 ==> !is_ows(s[rskip_ows(s, j) - 1]),
    decreases j,
{
    if 0 < j && is_ows(s[j - 1]) {
        lemma_rskip_ows_bounds(s, j - 1);
    }
}

/// Executable trimming of optional whitespace from both ends of `s`.
pub fn trim_exec(s: &[u8]) -> (r: Vec<u8>)
    ensures
        r@ == trim(s@),
{
    proof {
        lemma_skip_ows_bounds(s@, 0);
        lemma_rskip_ows_bounds(s@, s@.len() as int);
    }
    let mut a: usize = 0;
    while a < s.len() && (s[a] == 32 || s[a] == 9)
        invariant
            a <= s.len(),
            skip_ows(s@, 0) == skip_ows(s@, a as int),
        decreases s.len() - a,
    {
        a += 1;
    }
    let mut e: usize = s.len();
    while e > 0 && (s[e - 1] == 32 || s[e - 1] == 9)
        invariant
            e <= s.len(),
            rskip_ows(s@, s@.len() as int) == rskip_ows(s@, e as int),
        decreases e,
    {
        e -= 1;
    }
    let mut out: Vec<u8> = Vec::new();
    if a >= e {
        proof {
            assert(out@ =~= trim(s@));
        }
        return out;
    }
    let mut i: usize = a;
    while i < e
        invariant
            a <= i <= e <= s.len(),
            a < e,
            a == skip_ows(s@, 0),
            e == rskip_ows(s@, s@.len() as int),
            out@ == s@.subrange(a as int, i as int),
        decreases e - i,
    {
        proof {
            assert(s@.subrange(a as int, i + 1) =~= s@.subrange(a as int, i as int).push(s@[i as int]));
        }
        out.push(s[i]);
        i += 1;
    }
    out
}

/// The position of the first occurrence of `b` in `s` at or after `from`.
pub open spec fn find_byte_from(s: Seq<u8>, b: u8, from: int) -> Option<int>
    decreases s.len() - from,
{
    if from < 0 || from >= s.len() {
        None
    } else if s[from] == b {
        Some(from)
    } else {
        find_byte_from(s, b, from + 1)
    }
}

/// The position of the first occurrence of `b` in `s`.
pub open spec fn find_byte(s: Seq<u8>, b: u8) -> Option<int> {
    find_byte_from(s, b, 0)
}

/// What `find_byte_from` finds: `b` at the reported position, none earlier.
pub proof fn lemma_find_byte_from_ok(s: Seq<u8>, b: u8, from: int)
    requires
        0 <= from,
    ensures
        match find_byte_from(s, b, from) {
            Some(p) => from <= p < s.len() && s[p] == b && forall|q: int|
                from <= q < p ==> #[trigger] s[q] != b,
            None => forall|q: int| from <= q < s.len() ==> #[trigger] s[q] != b,
        },
    decreases s.len() - from,
{
    if from < s.len() && s[from] != b {
        lemma_find_byte_from_ok(s, b, from + 1);
    }
}

/// Executable scan for the first occurrence of `b` in `s` at or after `from`.
pub fn find_byte_exec(s: &[u8], b: u8, from: usize) -> (r: Option<usize>)
    ensures
        match r {
            Some(p) => find_byte_from(s@, b, from as int) == Some(p as int),
            None => find_byte_from(s@, b, from as int) is None,
        },
{
    let mut i: usize = from;
    while i < s.len()
        invariant
            from <= i,
            find_byte_from(s@, b, from as int) == find_byte_from(s@, b, i as int),
        decreases s.len() - i,
    {
        if s[i] == b {
            return Some(i);
        }
        i += 1;
    }
    None
}

/// The position of the first CRLF pair in `s` at or after `from`.
pub open spec fn find_crlf_from(s: Seq<u8>, from: int) -> Option<int>
    decreases s.len() - from,
{
    if from < 0 || from + 2 > s.len() {
        None
    } else if s[from] == 13 && s[from + 1] == 10 {
        Some(from)
    } else {
        find_crlf_from(s, from + 1)
    }
}

/// The position of the first CRLF pair in `s`.
pub open spec fn find_crlf(s: Seq<u8>) -> Option<int> {
    find_crlf_from(s, 0)
}

/// What `find_crlf_from` finds: a CRLF at the reported position, and none
/// earlier.
pub proof fn lemma_find_crlf_from_ok(s: Seq<u8>, from: int)
    requires
        0 <= from,
    ensures
        match find_crlf_from(s, from) {
            Some(p) => from <= p && p + 2 <= s.len() && s[p] == 13 && s[p + 1] == 10
                && forall|q: int| from <= q < p ==> !(#[trigger] s[q] == 13 && s[q + 1] == 10),
            None => forall|q: int| from <= q && q + 2 <= s.len() ==> !(#[trigger] s[q] == 13 && s[q + 1] == 10),
        },
    decreases s.len() - from,
{
    if from + 2 <= s.len() && !(s[from] == 13 && s[from + 1] == 10) {
        lemma_find_crlf_from_ok(s, from + 1);
    }
}

/// Appending bytes does not move a CRLF that was already found.
pub proof fn lemma_find_crlf_extend(s: Seq<u8>, t: Seq<u8>, from: int)
    requires
        0 <= from,
        find_crlf_from(s, from) is Some,
    ensures
        find_crlf_from(s + t, from) == find_crlf_from(s, from),
    decreases s.len() - from,
{
    assert((s + t).len() == s.len() + t.len());
    assert(forall|i: int| 0 <= i < s.len() ==> (s + t)[i] == s[i]);
    if !(s[from] == 13 && s[from + 1] == 10) {
        lemma_find_crlf_extend(s, t, from + 1);
    }
}

/// When no CRLF is in `s`, any CRLF in an extension sits at or past
/// `s.len() - 1`.
pub proof fn lemma_find_crlf_extend_none(s: Seq<u8>, t: Seq<u8>, from: int)
    requires
        0 <= from <= s.len(),
        find_crlf_from(s, from) is None,
    ensures
        match find_crlf_from(s + t, from) {
            Some(p) => p + 2 > s.len(),
            None => true,
        },
{
    lemma_find_crlf_from_ok(s, from);
    lemma_find_crlf_from_ok(s + t, from);
    if let Some(p) = find_crlf_from(s + t, from) {
        if p + 2 <= s.len() {
            assert((s + t)[p] == s[p] && (s + t)[p + 1] == s[p + 1]);
        }
    }
}

/// The UTF-8 bytes of a character sequence: the byte-level view this
/// library states its string contracts over.
pub open spec fn utf8_bytes(s: Seq<char>) -> Seq<u8> {
    vstd::utf8::encode_utf8(s)
}

/// A CRLF at `p` with none before it is the one `find_crlf` finds.
pub proof fn lemma_find_crlf_is(s: Seq<u8>, p: int)
    requires
        0 <= p,
        p + 2 <= s.len(),
        s[p] == 13,
        s[p + 1] == 10,
        forall|q: int| 0 <= q < p ==> !(#[trigger] s[q] == 13 && s[q + 1] == 10),
    ensures
        find_crlf(s) == Some(p),
{
    lemma_find_crlf_from_ok(s, 0);
    match find_crlf(s) {
        Some(p2) => {
            if p2 < p {
            } else if p < p2 {
                assert(!(s[p] == 13 && s[p + 1] == 10));
            }
        },
        None => {
            assert(!(s[p] == 13 && s[p + 1] == 10));
        },
    }
}

/// A byte `b` at `p` with none before it is the one `find_byte` finds.
pub proof fn lemma_find_byte_is(s: Seq<u8>, b: u8, p: int)
    requires
        0 <= p < s.len(),
        s[p] == b,
        forall|q: int| 0 <= q < p ==> #[trigger] s[q] != b,
    ensures
        find_byte(s, b) == Some(p),
{
    lemma_find_byte_from_ok(s, b, 0);
    match find_byte(s, b) {
        Some(p2) => {
            if p < p2 {
                assert(s[p] != b);
            }
        },
        None => {
            assert(s[p] != b);
        },
    }
}

/// A sequence without `b` has no `find_byte` position.
pub proof fn lemma_find_byte_none(s: Seq<u8>, b: u8)
    requires
        forall|q: int| 0 <= q < s.len() ==> #[trigger] s[q] != b,
    ensures
        find_byte(s, b) is None,
{
    lemma_find_byte_from_ok(s, b, 0);
    if let Some(p) = find_byte(s, b) {
        assert(s[p] != b);
    }
}

/// A sequence that carries no whitespace at either end is its own trim.
pub proof fn lemma_trim_id(s: Seq<u8>)
    requires
        s.len() > 0 ==> !is_ows(s[0]) && !is_ows(s[s.len() - 1]),
    ensures
        trim(s) == s,
{
    if s.len() == 0 {
        assert(trim(s) =~= s);
    } else {
        assert(skip_ows(s, 0) == 0);
        assert(rskip_ows(s, s.len() as int) == s.len());
        assert(trim(s) =~= s);
    }
}

/// Trimming is idempotent: the trimmed sequence has no whitespace at
/// either end.
pub proof fn lemma_trim_trimmed(s: Seq<u8>)
    ensures
        trim(s).len() > 0 ==> !is_ows(trim(s)[0]) && !is_ows(trim(s)[trim(s).len() - 1]),
{
    lemma_skip_ows_bounds(s, 0);
    lemma_rskip_ows_bounds(s, s.len() as int);
}

/// One leading space falls away under trimming of an already trimmed tail.
pub proof fn lemma_trim_space_then(v: Seq<u8>)
    requires
        trim(v) == v,
    ensures
        trim(seq![32u8] + v) == v,
{
    let s = seq![32u8] + v;
    lemma_trim_trimmed(v);
    lemma_skip_ows_bounds(v, 0);
    lemma_rskip_ows_bounds(v, v.len() as int);
    if v.len() == 0 {
        assert(s =~= seq![32u8]);
        assert(skip_ows(s, 0) == skip_ows(s, 1));
        assert(skip_ows(s, 1) == 1);
        assert(rskip_ows(s, 1) == rskip_ows(s, 0));
        assert(trim(s) =~= v);
    } else {
        assert(s[0] == 32 && is_ows(s[0]));
        assert(s[1] == v[0]);
        assert(!is_ows(v[0]) && !is_ows(v[v.len() - 1]));
        assert(skip_ows(s, 0) == skip_ows(s, 1));
        assert(skip_ows(s, 1) == 1);
        assert(s[s.len() - 1] == v[v.len() - 1]);
        assert(rskip_ows(s, s.len() as int) == s.len());
        assert(trim(s) =~= v);
    }
}

/// Case-insensitive comparison of two string slices, over their UTF-8 bytes.
pub fn str_eq_ignore_case(a: &str, b: &str) -> (r: bool)
    ensures
        r == eq_ignore_case(utf8_bytes(a@), utf8_bytes(b@)),
{
    eq_ignore_case_exec(a.as_bytes(), b.as_bytes())
}

/// True when every byte of `s` is ASCII.
pub open spec fn all_ascii(s: Seq<u8>) -> bool {
    forall|i: int| 0 <= i < s.len() ==> #[trigger] s[i] < 128
}

/// Relies on `String::from_utf8`: it succeeds exactly on valid UTF-8 input,
/// and the returned string's UTF-8 bytes are that input.
#[verifier::external_body]
pub fn string_from_bytes(v: Vec<u8>) -> (r: Option<String>)
    ensures
        r is Some <==> vstd::utf8::valid_utf8(v@),
        r matches Some(s) ==> utf8_bytes(s@) == v@,
{
    match String::from_utf8(v) {
        Ok(s) => Some(s),
        Err(_) => None,
    }
}

/// ASCII bytes are valid UTF-8: each byte below 128 is one scalar.
pub proof fn lemma_ascii_valid_utf8(s: Seq<u8>)
    requires
        all_ascii(s),
    ensures
        vstd::utf8::valid_utf8(s),
    decreases s.len(),
{
    if s.len() > 0 {
        assert(vstd::utf8::is_leading_byte_width_1(s[0]));
        assert(vstd::utf8::length_of_first_codepoint(s) == 1);
        assert(vstd::utf8::valid_first_scalar(s));
        assert(vstd::utf8::pop_first_scalar(s) =~= s.drop_first());
        lemma_ascii_valid_utf8(s.drop_first());
    }
}

/// For ASCII text the UTF-8 bytes are the characters themselves.
pub proof fn lemma_utf8_bytes_ascii(s: Seq<char>)
    requires
        vstd::utf8::is_ascii_chars(s),
    ensures
        utf8_bytes(s).len() == s.len(),
        forall|i: int|
            #![trigger utf8_bytes(s)[i]]
            0 <= i < s.len() ==> utf8_bytes(s)[i] == s[i] as u8,
{
    vstd::utf8::is_ascii_chars_encode_utf8(s);
}

/// Executable equality of two byte slices.
pub fn bytes_eq(a: &[u8], b: &[u8]) -> (r: bool)
    ensures
        r == (a@ == b@),
{
    if a.len() != b.len() {
        proof {
            assert(a@.len() != b@.len());
        }
        return false;
    }
    let mut i: usize = 0;
    while i < a.len()
        invariant
            a@.len() == b@.len(),
            i <= a.len(),
            forall|j: int| 0 <= j < i ==> a@[j] == b@[j],
        decreases a.len() - i,
    {
        if a[i] != b[i] {
            return false;
        }
        i += 1;
    }
    proof {
        assert(a@ =~= b@);
    }
    true
}

/// Executable ASCII check over a byte slice.
pub fn all_ascii_exec(s: &[u8]) -> (r: bool)
    ensures
        r == all_ascii(s@),
{
    let mut i: usize = 0;
    while i < s.len()
        invariant
            i <= s.len(),
            forall|j: int| 0 <= j < i ==> #[trigger] s@[j] < 128,
        decreases s.len() - i,
    {
        if s[i] >= 128 {
            return false;
        }
        i += 1;
    }
    true
}

/// Executable scan for the first CRLF pair in `s`.
pub fn find_crlf_exec(s: &[u8]) -> (r: Option<usize>)
    ensures
        match r {
            Some(p) => find_crlf(s@) == Some(p as int),
            None => find_crlf(s@) is None,
        },
{
    if s.len() < 2 {
        return None;
    }
    let mut i: usize = 0;
    while i <= s.len() - 2
        invariant
            2 <= s.len(),
            i <= s.len(),
            find_crlf(s@) == find_crlf_from(s@, i as int),
        decreases s.len() - i,
    {
        if s[i] == 13 && s[i + 1] == 10 {
            return Some(i);
        }
        i += 1;
    }
    None
}

} // verus!

