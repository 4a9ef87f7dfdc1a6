//! Safe joining of request paths onto a document root: dot-dot segments
//! and stray bytes are rejected before any file is touched.

use vstd::prelude::*;

use crate::util::{utf8_bytes, string_from_bytes, find_byte_exec, find_byte_from,
    lemma_find_byte_from_ok};

verus! {

/// Why a request path was refused.
#[derive(Debug, Clone, Copy, PartialEq, Eq, Structural)]
pub enum PathError {
    /// The path climbs with a `..` segment.
    Traversal,
    /// The path holds a NUL byte.
    NulByte,
}

impl PathError {
    /// A short description of the error.
    pub fn message(&self) -> (r: &'static str) {
        match self {
            PathError::Traversal => "Directory traversal not allowed",
            PathError::NulByte => "Null bytes in path not allowed",
        }
    }
}

/// The end of the segment of `s` that starts at `from`: the next
/// slash, or the end of `s`.
pub open spec fn seg_end(s: Seq<u8>, from: int) -> int {
    let e = match find_byte_from(s, 47, from) {
        Some(p) => p,
        None => s.len() as int,
    };
    if e < from {
        from
    } else if e > s.len() {
        s.len() as int
    } else {
        e
    }
}

/// The segment of `s` that starts at `from`, up to the next slash.
pub open spec fn seg_at(s: Seq<u8>, from: int) -> Seq<u8> {
    s.subrange(from, seg_end(s, from))
}

/// The join, segment by segment: the bytes of the request path from
/// `from` on are split at slashes; a `..` segment fails with
/// `Traversal`, a segment holding a NUL byte or malformed text fails
/// with `NulByte`, an empty or `.` segment is skipped, and every other
/// segment is appended to `acc` behind a slash.
pub open spec fn spec_safe_join(acc: Seq<u8>, s: Seq<u8>, from: int) -> Result<Seq<u8>, PathError>
    decreases s.len() - from,
{
    let seg = seg_at(s, from);
    if seg == seq![46u8, 46u8] {
        Err(PathError::Traversal)
    } else if exists|j: int| 0 <= j < seg.len() && seg[j] == 0 {
        Err(PathError::NulByte)
    } else {
        let keep = seg.len() > 0 && seg != seq![46u8];
        if keep && !vstd::utf8::valid_utf8(seg) {
            Err(PathError::NulByte)
        } else {
            let acc2 = if keep {
                acc + seq![47u8] + seg
            } else {
                acc
            };
            if seg_end(s, from) >= s.len() {
                Ok(acc2)
            } else {
                spec_safe_join(acc2, s, seg_end(s, from) + 1)
            }
        }
    }
}

/// Joins a request path onto a document root: leading slashes fall away,
/// empty and `.` segments are skipped, a `..` segment or a NUL byte is
/// refused. The result never climbs out of the root, and follows
/// `spec_safe_join` exactly.
pub fn safe_path_join(document_root: &str, request_path: &str) -> (r: Result<String, PathError>)
    ensures
        match r {
            Ok(p) => spec_safe_join(utf8_bytes(document_root@), utf8_bytes(request_path@), 0)
                == Ok::<Seq<u8>, PathError>(utf8_bytes(p@)),
            Err(e) => spec_safe_join(utf8_bytes(document_root@), utf8_bytes(request_path@), 0)
                == Err::<Seq<u8>, PathError>(e),
        },
        r matches Ok(p) ==> utf8_bytes(p@).len() >= utf8_bytes(document_root@).len(),
{
    let rb = request_path.as_bytes();
    let mut out: Vec<u8> = Vec::new();
    out.extend_from_slice(document_root.as_bytes());
    let ghost base = utf8_bytes(document_root@);
    proof {
        broadcast use vstd::utf8::encode_utf8_valid_utf8;

        assert(out@ =~= utf8_bytes(document_root@));
        assert(vstd::utf8::valid_utf8(out@));
    }
    let mut from: usize = 0;
    loop
        invariant
            from <= rb@.len(),
            rb@ == utf8_bytes(request_path@),
            base == utf8_bytes(document_root@),
            out@.len() >= base.len(),
            vstd::utf8::valid_utf8(out@),
            spec_safe_join(base, rb@, 0) == spec_safe_join(out@, rb@, from as int),
        decreases rb@.len() - from,
    {
        let ghost pre = out@;
        proof {
            lemma_find_byte_from_ok(rb@, 47, from as int);
        }
        let end = match find_byte_exec(rb, 47, from) {
            Some(p) => p,
            None => rb.len(),
        };
        let seg = &rb[from..end];
        proof {
            assert(seg@ == rb@.subrange(from as int, end as int));
            assert(seg_end(rb@, from as int) == end as int);
            assert(seg_at(rb@, from as int) == seg@);
        }
        if seg.len() == 2 && seg[0] == 46 && seg[1] == 46 {
            proof {
                assert(seg@ =~= seq![46u8, 46u8]);
                assert(spec_safe_join(pre, rb@, from as int) == Err::<Seq<u8>, PathError>(
                    PathError::Traversal,
                ));
            }
            return Err(PathError::Traversal);
        }
        let mut has_nul = false;
        let mut i: usize = 0;
        while i < seg.len()
            invariant
                i <= seg@.len(),
                has_nul == exists|j: int| 0 <= j < i && seg@[j] == 0,
            decreases seg.len() - i,
        {
            if seg[i] == 0 {
                has_nul = true;
            }
            i += 1;
        }
        if has_nul {
            proof {
                assert(seg@ != seq![46u8, 46u8]);
                let j0 = choose|j: int| 0 <= j < seg@.len() && seg@[j] == 0;
                assert(seg_at(rb@, from as int)[j0] == 0);
                assert(spec_safe_join(pre, rb@, from as int) == Err::<Seq<u8>, PathError>(
                    PathError::NulByte,
                ));
            }
            return Err(PathError::NulByte);
        }
        if seg.len() > 0 && !(seg.len() == 1 && seg[0] == 46) {
            proof {
                assert(seg@ != seq![46u8]);
            }
            let piece = vstd::slice::slice_to_vec(seg);
            if let Some(_s) = string_from_bytes(piece) {
                let ghost pre_out = out@;
                out.push(47);
                out.extend_from_slice(seg);
                proof {
                    broadcast use vstd::utf8::valid_utf8_concat;

                    crate::util::lemma_ascii_valid_utf8(seq![47u8]);
                    assert(vstd::utf8::valid_utf8(pre_out + seq![47u8]));
                    assert(vstd::utf8::valid_utf8((pre_out + seq![47u8]) + seg@));
                    assert(out@ =~= (pre_out + seq![47u8]) + seg@);
                    assert(out@ =~= pre_out + seq![47u8] + seg@);
                }
            } else {
                proof {
                    assert(spec_safe_join(pre, rb@, from as int) == Err::<Seq<u8>, PathError>(
                        PathError::NulByte,
                    ));
                }
                return Err(PathError::NulByte);
            }
        } else {
            proof {
                if seg.len() == 1 {
                    assert(seg@ =~= seq![46u8]);
                }
            }
        }
        if end >= rb.len() {
            proof {
                assert(spec_safe_join(pre, rb@, from as int) == Ok::<Seq<u8>, PathError>(out@));
            }
            let ghost outb = out@;
            match string_from_bytes(out) {
                Some(s) => {
                    proof {
                        assert(utf8_bytes(s@) == outb);
                    }
                    return Ok(s);
                },
                None => {
                    proof {
                        assert(false);
                    }
                    return Err(PathError::NulByte);
                },
            }
        }
        proof {
            assert(spec_safe_join(pre, rb@, from as int) == spec_safe_join(
                out@,
                rb@,
                end + 1,
            ));
        }
        from = end + 1;
    }
}

/// The index file inside a directory: the directory path, a slash, the
/// file name.
pub fn get_index_path(dir_path: &str, index_file: &str) -> (r: String)
    ensures
        utf8_bytes(r@) == utf8_bytes(dir_path@) + seq![47u8] + utf8_bytes(index_file@),
{
    let mut out: Vec<u8> = Vec::new();
    out.extend_from_slice(dir_path.as_bytes());
    out.push(47);
    out.extend_from_slice(index_file.as_bytes());
    proof {
        broadcast use vstd::utf8::valid_utf8_concat;
        broadcast use vstd::utf8::encode_utf8_valid_utf8;

        crate::util::lemma_ascii_valid_utf8(seq![47u8]);
        assert(vstd::utf8::valid_utf8(utf8_bytes(dir_path@) + seq![47u8]));
        assert(vstd::utf8::valid_utf8((utf8_bytes(dir_path@) + seq![47u8]) + utf8_bytes(index_file@)));
        assert(out@ =~= (utf8_bytes(dir_path@) + seq![47u8]) + utf8_bytes(index_file@));
        assert(out@ =~= utf8_bytes(dir_path@) + seq![47u8] + utf8_bytes(index_file@));
    }
    match string_from_bytes(out) {
        Some(s) => s,
        None => {
            proof {
                assert(false);
            }
            String::new()
        },
    }
}

} // verus!
