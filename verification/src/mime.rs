//! The MIME table: file extensions to content types.

use vstd::prelude::*;

use crate::util::{utf8_bytes, lower, lower_bytes_exec, bytes_eq};

verus! {

/// The bytes of `application/octet-stream`, the default content type.
pub open spec fn octet_stream() -> Seq<u8> {
    utf8_bytes("application/octet-stream"@)
}

/// The table the server ships: the usual text, image, font, application,
/// video and audio types, keyed by lower-case extension.
pub open spec fn mime_table() -> Seq<(Seq<u8>, Seq<u8>)> {
    seq![
        (utf8_bytes("html"@), utf8_bytes("text/html"@)),
        (utf8_bytes("htm"@), utf8_bytes("text/html"@)),
        (utf8_bytes("css"@), utf8_bytes("text/css"@)),
        (utf8_bytes("js"@), utf8_bytes("application/javascript"@)),
        (utf8_bytes("json"@), utf8_bytes("application/json"@)),
        (utf8_bytes("xml"@), utf8_bytes("application/xml"@)),
        (utf8_bytes("txt"@), utf8_bytes("text/plain"@)),
        (utf8_bytes("md"@), utf8_bytes("text/markdown"@)),
        (utf8_bytes("png"@), utf8_bytes("image/png"@)),
        (utf8_bytes("jpg"@), utf8_bytes("image/jpeg"@)),
        (utf8_bytes("jpeg"@), utf8_bytes("image/jpeg"@)),
        (utf8_bytes("gif"@), utf8_bytes("image/gif"@)),
        (utf8_bytes("svg"@), utf8_bytes("image/svg+xml"@)),
        (utf8_bytes("ico"@), utf8_bytes("image/x-icon"@)),
        (utf8_bytes("webp"@), utf8_bytes("image/webp"@)),
        (utf8_bytes("woff"@), utf8_bytes("font/woff"@)),
        (utf8_bytes("woff2"@), utf8_bytes("font/woff2"@)),
        (utf8_bytes("ttf"@), utf8_bytes("font/ttf"@)),
        (utf8_bytes("otf"@), utf8_bytes("font/otf"@)),
        (utf8_bytes("pdf"@), utf8_bytes("application/pdf"@)),
        (utf8_bytes("zip"@), utf8_bytes("application/zip"@)),
        (utf8_bytes("tar"@), utf8_bytes("application/x-tar"@)),
        (utf8_bytes("gz"@), utf8_bytes("application/gzip"@)),
        (utf8_bytes("mp4"@), utf8_bytes("video/mp4"@)),
        (utf8_bytes("webm"@), utf8_bytes("video/webm"@)),
        (utf8_bytes("ogg"@), utf8_bytes("video/ogg"@)),
        (utf8_bytes("mp3"@), utf8_bytes("audio/mpeg"@)),
        (utf8_bytes("wav"@), utf8_bytes("audio/wav"@)),
        (utf8_bytes("flac"@), utf8_bytes("audio/flac"@)),
    ]
}

/// The first entry for an extension, `application/octet-stream` when
/// none matches.
pub open spec fn spec_lookup(entries: Seq<(Seq<u8>, Seq<u8>)>, ext: Seq<u8>) -> Seq<u8>
    decreases entries.len(),
{
    if entries.len() == 0 {
        octet_stream()
    } else if entries[0].0 == ext {
        entries[0].1
    } else {
        spec_lookup(entries.drop_first(), ext)
    }
}

/// `d` starts the extension of `s`: a dot followed by at least one byte,
/// with no further dot and no slash after it.
pub open spec fn ext_dot_at(s: Seq<u8>, d: int) -> bool {
    0 <= d && d + 1 < s.len() && s[d] == 46 && forall|j: int|
        d < j < s.len() ==> #[trigger] s[j] != 46 && s[j] != 47
}

/// At most one position starts an extension.
pub proof fn lemma_ext_dot_unique(s: Seq<u8>, d1: int, d2: int)
    requires
        ext_dot_at(s, d1),
        ext_dot_at(s, d2),
    ensures
        d1 == d2,
{
    if d1 < d2 {
        assert(s[d2] != 46);
    } else if d2 < d1 {
        assert(s[d1] != 46);
    }
}

/// When entry `i` is the first match, the lookup returns its type.
proof fn lemma_lookup_at(entries: Seq<(Seq<u8>, Seq<u8>)>, ext: Seq<u8>, i: int)
    requires
        0 <= i < entries.len(),
        entries[i].0 == ext,
        forall|j: int| 0 <= j < i ==> #[trigger] entries[j].0 != ext,
    ensures
        spec_lookup(entries, ext) == entries[i].1,
    decreases i,
{
    if i > 0 {
        assert(entries.drop_first()[i - 1] == entries[i]);
        assert(forall|j: int|
            0 <= j < i - 1 ==> #[trigger] entries.drop_first()[j].0 == entries[j + 1].0);
        lemma_lookup_at(entries.drop_first(), ext, i - 1);
    }
}

/// When no entry matches, the lookup returns the default.
proof fn lemma_lookup_none(entries: Seq<(Seq<u8>, Seq<u8>)>, ext: Seq<u8>)
    requires
        forall|j: int| 0 <= j < entries.len() ==> #[trigger] entries[j].0 != ext,
    ensures
        spec_lookup(entries, ext) == octet_stream(),
    decreases entries.len(),
{
    if entries.len() > 0 {
        assert(forall|j: int|
            0 <= j < entries.len() - 1 ==> #[trigger] entries.drop_first()[j].0 == entries[
                j + 1
            ].0);
        lemma_lookup_none(entries.drop_first(), ext);
    }
}

/// The MIME table.
#[derive(Debug)]
pub struct MimeTypes {
    entries: Vec<(String, String)>,
}

impl MimeTypes {
    /// The (extension, content type) entries.
    pub closed spec fn entries(&self) -> Seq<(Seq<u8>, Seq<u8>)> {
        self.entries@.map_values(|p: (String, String)| (utf8_bytes(p.0@), utf8_bytes(p.1@)))
    }

    /// The shipped table.
    #[verifier::rlimit(100)]
    pub fn new() -> (r: MimeTypes)
        ensures
            r.entries() == mime_table(),
    {
        let mut entries: Vec<(String, String)> = Vec::new();
        entries.push((String::from_str("html"), String::from_str("text/html")));
        entries.push((String::from_str("htm"), String::from_str("text/html")));
        entries.push((String::from_str("css"), String::from_str("text/css")));
        entries.push((String::from_str("js"), String::from_str("application/javascript")));
        entries.push((String::from_str("json"), String::from_str("application/json")));
        entries.push((String::from_str("xml"), String::from_str("application/xml")));
        entries.push((String::from_str("txt"), String::from_str("text/plain")));
        entries.push((String::from_str("md"), String::from_str("text/markdown")));
        entries.push((String::from_str("png"), String::from_str("image/png")));
        entries.push((String::from_str("jpg"), String::from_str("image/jpeg")));
        entries.push((String::from_str("jpeg"), String::from_str("image/jpeg")));
        entries.push((String::from_str("gif"), String::from_str("image/gif")));
        entries.push((String::from_str("svg"), String::from_str("image/svg+xml")));
        entries.push((String::from_str("ico"), String::from_str("image/x-icon")));
        entries.push((String::from_str("webp"), String::from_str("image/webp")));
        entries.push((String::from_str("woff"), String::from_str("font/woff")));
        entries.push((String::from_str("woff2"), String::from_str("font/woff2")));
        entries.push((String::from_str("ttf"), String::from_str("font/ttf")));
        entries.push((String::from_str("otf"), String::from_str("font/otf")));
        entries.push((String::from_str("pdf"), String::from_str("application/pdf")));
        entries.push((String::from_str("zip"), String::from_str("application/zip")));
        entries.push((String::from_str("tar"), String::from_str("application/x-tar")));
        entries.push((String::from_str("gz"), String::from_str("application/gzip")));
        entries.push((String::from_str("mp4"), String::from_str("video/mp4")));
        entries.push((String::from_str("webm"), String::from_str("video/webm")));
        entries.push((String::from_str("ogg"), String::from_str("video/ogg")));
        entries.push((String::from_str("mp3"), String::from_str("audio/mpeg")));
        entries.push((String::from_str("wav"), String::from_str("audio/wav")));
        entries.push((String::from_str("flac"), String::from_str("audio/flac")));
        let r = MimeTypes { entries };
        proof {
            assert(r.entries() =~= mime_table());
        }
        r
    }

    /// The content type for a path: the table's entry for its extension,
    /// lower-cased, or `application/octet-stream` when the extension is
    /// absent or unknown.
    pub fn get_mime_type(&self, path: &str) -> (r: String)
        ensures
            forall|d: int|
                ext_dot_at(utf8_bytes(path@), d) ==> utf8_bytes(r@) == spec_lookup(
                    self.entries(),
                    lower(utf8_bytes(path@).skip(d + 1)),
                ),
            (forall|d: int| !ext_dot_at(utf8_bytes(path@), d)) ==> utf8_bytes(r@)
                == octet_stream(),
    {
        let ext = extension_of(path);
        match ext {
            Some(e) => {
                let ghost pb = utf8_bytes(path@);
                let ghost d0 = choose|d: int|
                    #[trigger] ext_dot_at(utf8_bytes(path@), d) && e@ == utf8_bytes(path@).skip(
                        d + 1,
                    );
                proof {
                    assert(ext_dot_at(utf8_bytes(path@), d0) && e@ == utf8_bytes(path@).skip(
                        d0 + 1,
                    ));
                    assert(pb == utf8_bytes(path@));
                }
                let low = lower_bytes_exec(e.as_slice());
                let mut i: usize = 0;
                while i < self.entries.len()
                    invariant
                        i <= self.entries@.len(),
                        low@ == lower(e@),
                        ext_dot_at(utf8_bytes(path@), d0),
                        e@ == utf8_bytes(path@).skip(d0 + 1),
                        forall|j: int| 0 <= j < i ==> #[trigger] self.entries()[j].0 != low@,
                    decreases self.entries.len() - i,
                {
                    if bytes_eq(self.entries[i].0.as_str().as_bytes(), low.as_slice()) {
                        let r = self.entries[i].1.clone();
                        proof {
                            lemma_lookup_at(self.entries(), low@, i as int);
                            assert forall|d: int|
                                ext_dot_at(utf8_bytes(path@), d) implies utf8_bytes(r@)
                                == spec_lookup(
                                self.entries(),
                                lower(utf8_bytes(path@).skip(d + 1)),
                            ) by {
                                lemma_ext_dot_unique(utf8_bytes(path@), d, d0);
                            }
                        }
                        return r;
                    }
                    i += 1;
                }
                proof {
                    lemma_lookup_none(self.entries(), low@);
                    assert forall|d: int|
                        ext_dot_at(utf8_bytes(path@), d) implies octet_stream() == spec_lookup(
                        self.entries(),
                        lower(utf8_bytes(path@).skip(d + 1)),
                    ) by {
                        lemma_ext_dot_unique(utf8_bytes(path@), d, d0);
                    }
                }
                String::from_str("application/octet-stream")
            },
            None => String::from_str("application/octet-stream"),
        }
    }

    /// Whether a content type is textual: any `text/*`, and the script,
    /// JSON and XML application types.
    pub fn is_text_type(&self, mime_type: &str) -> (r: bool)
        ensures
            r == ({
                let b = utf8_bytes(mime_type@);
                (b.len() >= 5 && b.take(5) == utf8_bytes("text/"@)) || b == utf8_bytes(
                    "application/javascript"@,
                ) || b == utf8_bytes("application/json"@) || b == utf8_bytes("application/xml"@)
            }),
    {
        proof {
            reveal_strlit("text/");
            crate::util::lemma_utf8_bytes_ascii("text/"@);
        }
        let b = mime_type.as_bytes();
        let p = "text/".as_bytes();
        let is_text = if b.len() >= p.len() {
            bytes_eq(&b[0..p.len()], p)
        } else {
            false
        };
        proof {
            if b@.len() >= 5 {
                assert(b@.subrange(0, 5) =~= b@.take(5));
            }
        }
        is_text || bytes_eq(b, "application/javascript".as_bytes()) || bytes_eq(
            b,
            "application/json".as_bytes(),
        ) || bytes_eq(b, "application/xml".as_bytes())
    }
}

/// The extension of a path: what follows the last dot of its last
/// segment, when there is one.
pub fn extension_of(path: &str) -> (r: Option<Vec<u8>>)
    ensures
        r matches Some(e) ==> exists|d: int|
            #[trigger] ext_dot_at(utf8_bytes(path@), d) && e@ == utf8_bytes(path@).skip(d + 1),
        r is None ==> forall|d: int| !ext_dot_at(utf8_bytes(path@), d),
{
    let b = path.as_bytes();
    let mut last_dot: Option<usize> = None;
    let mut i: usize = 0;
    while i < b.len()
        invariant
            i <= b@.len(),
            match last_dot {
                Some(d) => d < i && b@[d as int] == 46 && forall|j: int|
                    d < j < i ==> #[trigger] b@[j] != 46 && b@[j] != 47,
                None => forall|d: int|
                    0 <= d < i && b@[d] == 46 ==> exists|j: int| d < j < i && #[trigger] b@[j]
                        == 47,
            },
        decreases b.len() - i,
    {
        if b[i] == 46 {
            last_dot = Some(i);
        } else if b[i] == 47 {
            last_dot = None;
            proof {
                assert forall|d: int| 0 <= d < i + 1 && b@[d] == 46 implies exists|j: int|
                    d < j < i + 1 && #[trigger] b@[j] == 47 by {
                    assert(b@[i as int] == 47);
                }
            }
        }
        i += 1;
    }
    proof {
        assert(b@ == utf8_bytes(path@));
    }
    match last_dot {
        Some(d) => {
            if d + 1 < b.len() {
                proof {
                    assert(ext_dot_at(utf8_bytes(path@), d as int));
                    assert(b@.subrange(d + 1, b@.len() as int) =~= utf8_bytes(path@).skip(d + 1));
                }
                Some(vstd::slice::slice_to_vec(&b[d + 1..b.len()]))
            } else {
                proof {
                    assert forall|d2: int| !ext_dot_at(utf8_bytes(path@), d2) by {
                        if ext_dot_at(utf8_bytes(path@), d2) {
                            if d2 < d {
                                assert(utf8_bytes(path@)[d as int] == 46);
                            } else if d2 > d {
                                assert(utf8_bytes(path@)[d2] != 46);
                            }
                        }
                    }
                }
                None
            }
        },
        None => {
            proof {
                assert forall|d2: int| !ext_dot_at(utf8_bytes(path@), d2) by {
                    if ext_dot_at(utf8_bytes(path@), d2) {
                        assert(b@[d2] == 46);
                        let j = choose|j: int| d2 < j < b@.len() && b@[j] == 47;
                        assert(utf8_bytes(path@)[j] != 47);
                    }
                }
            }
            None
        },
    }
}

} // verus!
