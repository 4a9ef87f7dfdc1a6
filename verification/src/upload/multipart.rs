//! `multipart/form-data` bodies: boundary scanning and per-part headers.

use vstd::prelude::*;

use crate::http::request::HttpRequest;
use crate::util::{utf8_bytes, string_from_bytes, find_byte_exec, trim_exec, bytes_eq,
    lemma_find_byte_from_ok};

verus! {

/// Whether a part fits the per-file cap: file data within `cap`, text
/// parts always.
pub open spec fn field_within(f: MultipartField, cap: usize) -> bool {
    match f.field_type {
        FieldType::File { filename, content_type, data } => data@.len() <= cap,
        FieldType::Text(_) => true,
    }
}

/// What one part carries.
#[derive(Debug, Clone)]
pub enum FieldType {
    /// A text field.
    Text(String),
    /// A file field.
    File { filename: Option<String>, content_type: Option<String>, data: Vec<u8> },
}

/// One decoded part.
#[derive(Debug, Clone)]
pub struct MultipartField {
    pub name: String,
    pub field_type: FieldType,
}

/// The multipart parser: the boundary and the two caps.
#[derive(Debug)]
pub struct MultipartParser {
    pub boundary: String,
    pub max_file_size: usize,
    pub max_total_size: usize,
}

impl MultipartParser {
    /// A parser for a boundary with per-file and total caps.
    pub fn new(boundary: String, max_file_size: usize, max_total_size: usize) -> (r:
        MultipartParser)
        ensures
            r.boundary == boundary,
            r.max_file_size == max_file_size,
            r.max_total_size == max_total_size,
    {
        MultipartParser { boundary, max_file_size, max_total_size }
    }

    /// Decodes a body into its parts: each part sits between boundary
    /// lines, opens with headers, and must name its field in
    /// `Content-Disposition`; a body over the total cap or a file over
    /// the per-file cap is refused.
    pub fn parse(&self, data: &[u8]) -> (r: Result<Vec<MultipartField>, ()>)
        ensures
            data@.len() > self.max_total_size ==> r is Err,
            r matches Ok(fields) ==> forall|i: int|
                0 <= i < fields@.len() ==> field_within(#[trigger] fields@[i], self.max_file_size),
    {
        if data.len() > self.max_total_size {
            return Err(());
        }
        let mut marker: Vec<u8> = Vec::new();
        marker.push(45);
        marker.push(45);
        marker.extend_from_slice(self.boundary.as_str().as_bytes());
        let mut fields: Vec<MultipartField> = Vec::new();
        let mut pos: usize = match self.find_boundary(data, marker.as_slice(), 0) {
            Some(p) => p + marker.len(),
            None => {
                return Err(());
            },
        };
        if pos < data.len() && data[pos] == 13 {
            pos += 1;
        }
        if pos < data.len() && data[pos] == 10 {
            pos += 1;
        }
        loop
            invariant
                marker@.len() >= 2,
                pos <= data@.len(),
                forall|i: int|
                    0 <= i < fields@.len() ==> field_within(#[trigger] fields@[i], self.max_file_size),
            decreases data@.len() - pos,
        {
            if pos >= data.len() {
                break;
            }
            let part_end = match self.find_boundary(data, marker.as_slice(), pos) {
                Some(p) => p,
                None => {
                    break;
                },
            };
            if let Ok(field) = self.parse_part(&data[pos..part_end]) {
                fields.push(field);
            }
            let next = part_end + marker.len();
            if next >= data.len() {
                break;
            }
            let mut p2 = next;
            if p2 < data.len() && data[p2] == 45 {
                break;
            }
            if p2 < data.len() && data[p2] == 13 {
                p2 += 1;
            }
            if p2 < data.len() && data[p2] == 10 {
                p2 += 1;
            }
            if p2 <= pos {
                break;
            }
            pos = p2;
        }
        Ok(fields)
    }

    /// The first position of the boundary marker at or after `start`.
    pub fn find_boundary(&self, data: &[u8], marker: &[u8], start: usize) -> (r: Option<usize>)
        ensures
            r matches Some(p) ==> start <= p && p + marker@.len() <= data@.len(),
    {
        if marker.len() == 0 || start >= data.len() || data.len() < marker.len() {
            return None;
        }
        let mut i: usize = start;
        while i <= data.len() - marker.len()
            invariant
                start <= i,
                marker@.len() >= 1,
                data@.len() >= marker@.len(),
                i <= data@.len(),
            decreases data.len() - i,
        {
            if bytes_eq(&data[i..i + marker.len()], marker) {
                return Some(i);
            }
            i += 1;
        }
        None
    }

    /// Decodes one part: headers up to the blank line, then the data; a
    /// part without `Content-Disposition` or without a name is refused,
    /// and a file over the per-file cap is refused.
    pub fn parse_part(&self, data: &[u8]) -> (r: Result<MultipartField, ()>)
        ensures
            r matches Ok(f) ==> field_within(f, self.max_file_size),
    {
        let header_end = match self.find_header_end(data) {
            Some(p) => p,
            None => {
                return Err(());
            },
        };
        let dlen = data.len();
        proof {
            assert(header_end + 4 <= dlen);
        }
        let headers = &data[0..header_end];
        let body = &data[header_end + 4..data.len()];
        let disposition = match self.header_value(headers, "content-disposition") {
            Some(v) => v,
            None => {
                return Err(());
            },
        };
        let content_type = self.header_value(headers, "content-type");
        let (name, filename) = match self.parse_content_disposition(disposition.as_str()) {
            Ok(pair) => pair,
            Err(_) => {
                return Err(());
            },
        };
        let field_type = match filename {
            Some(f) => {
                if body.len() > self.max_file_size {
                    return Err(());
                }
                FieldType::File {
                    filename: Some(f),
                    content_type,
                    data: vstd::slice::slice_to_vec(body),
                }
            },
            None => {
                let text = vstd::slice::slice_to_vec(body);
                match string_from_bytes(text) {
                    Some(t) => FieldType::Text(t),
                    None => {
                        return Err(());
                    },
                }
            },
        };
        Ok(MultipartField { name, field_type })
    }

    /// The position of the blank line ending a part's headers.
    pub fn find_header_end(&self, data: &[u8]) -> (r: Option<usize>)
        ensures
            r matches Some(p) ==> p + 4 <= data@.len(),
    {
        if data.len() < 4 {
            return None;
        }
        let mut i: usize = 0;
        while i <= data.len() - 4
            invariant
                data@.len() >= 4,
                i <= data@.len(),
            decreases data.len() - i,
        {
            if data[i] == 13 && data[i + 1] == 10 && data[i + 2] == 13 && data[i + 3] == 10 {
                return Some(i);
            }
            i += 1;
        }
        None
    }

    /// The value of one header among a part's header lines, by
    /// case-insensitive name.
    fn header_value(&self, headers: &[u8], name: &str) -> (r: Option<String>)
    {
        let mut from: usize = 0;
        loop
            invariant
                from <= headers@.len(),
            decreases headers@.len() - from,
        {
            proof {
                lemma_find_byte_from_ok(headers@, 10, from as int);
            }
            let end = match find_byte_exec(headers, 10, from) {
                Some(p) => p,
                None => headers.len(),
            };
            let line_raw = &headers[from..end];
            let line = if line_raw.len() > 0 && line_raw[line_raw.len() - 1] == 13 {
                &line_raw[0..line_raw.len() - 1]
            } else {
                line_raw
            };
            proof {
                lemma_find_byte_from_ok(line@, 58, 0);
            }
            if let Some(c) = find_byte_exec(line, 58, 0) {
                let n = trim_exec(&line[0..c]);
                if crate::util::eq_ignore_case_exec(n.as_slice(), name.as_bytes()) {
                    let v = trim_exec(&line[c + 1..line.len()]);
                    return string_from_bytes(v);
                }
            }
            if end >= headers.len() {
                return None;
            }
            from = end + 1;
        }
    }

    /// The field name and optional file name of a `Content-Disposition`
    /// value; a value without `name=` is refused.
    pub fn parse_content_disposition(&self, header: &str) -> (r: Result<(String, Option<String>), ()>)
    {
        let hb = header.as_bytes();
        let mut name: Option<String> = None;
        let mut filename: Option<String> = None;
        let mut from: usize = 0;
        loop
            invariant
                from <= hb@.len(),
            decreases hb@.len() - from,
        {
            proof {
                lemma_find_byte_from_ok(hb@, 59, from as int);
            }
            let end = match find_byte_exec(hb, 59, from) {
                Some(p) => p,
                None => hb.len(),
            };
            let piece = trim_exec(&hb[from..end]);
            let pb = piece.as_slice();
            proof {
                reveal_strlit("name=");
                reveal_strlit("filename=");
            }
            if pb.len() > 9 && bytes_eq(&pb[0..9], "filename=".as_bytes()) {
                let v = self.parse_quoted_value_bytes(&pb[9..pb.len()]);
                if let Some(s) = string_from_bytes(v) {
                    filename = Some(s);
                }
            } else if pb.len() > 5 && bytes_eq(&pb[0..5], "name=".as_bytes()) {
                let v = self.parse_quoted_value_bytes(&pb[5..pb.len()]);
                if let Some(s) = string_from_bytes(v) {
                    name = Some(s);
                }
            }
            if end >= hb.len() {
                break;
            }
            from = end + 1;
        }
        match name {
            Some(n) => Ok((n, filename)),
            None => Err(()),
        }
    }

    /// A header parameter value with one pair of surrounding double
    /// quotes removed.
    fn parse_quoted_value_bytes(&self, v: &[u8]) -> (r: Vec<u8>)
    {
        let t = trim_exec(v);
        let tb = t.as_slice();
        if tb.len() >= 2 && tb[0] == 34 && tb[tb.len() - 1] == 34 {
            vstd::slice::slice_to_vec(&tb[1..tb.len() - 1])
        } else {
            t
        }
    }

    /// `parse_quoted_value_bytes` over text, for callers holding a
    /// string.
    pub fn parse_quoted_value(&self, value: &str) -> (r: Result<String, ()>)
    {
        let v = self.parse_quoted_value_bytes(value.as_bytes());
        match string_from_bytes(v) {
            Some(s) => Ok(s),
            None => Err(()),
        }
    }
}

/// The end of the `;`-separated parameter of `s` that starts at `from`.
pub open spec fn param_end(s: Seq<u8>, from: int) -> int {
    let e = match crate::util::find_byte_from(s, 59, from) {
        Some(p) => p,
        None => s.len() as int,
    };
    if e < from {
        from
    } else if e > s.len() {
        s.len() as int
    } else {
        e
    }
}

/// A parameter value with one pair of surrounding double quotes removed.
pub open spec fn spec_unquote(v: Seq<u8>) -> Seq<u8> {
    if v.len() >= 2 && v[0] == 34 && v[v.len() - 1] == 34 {
        v.subrange(1, v.len() - 1)
    } else {
        v
    }
}

/// The boundary a `Content-Type` value names from `from` on: the first
/// `;`-separated parameter that starts, after trimming, with
/// `boundary=`, its value unquoted; `None` when no parameter does, or
/// when the value is not well-formed text.
pub open spec fn spec_boundary_from(s: Seq<u8>, from: int) -> Option<Seq<u8>>
    decreases s.len() - from,
{
    let piece = crate::util::trim(s.subrange(from, param_end(s, from)));
    if piece.len() > 9 && piece.take(9) == utf8_bytes("boundary="@) {
        let v = spec_unquote(piece.skip(9));
        if vstd::utf8::valid_utf8(v) {
            Some(v)
        } else {
            None
        }
    } else if param_end(s, from) >= s.len() {
        None
    } else {
        spec_boundary_from(s, param_end(s, from) + 1)
    }
}

/// The boundary parameter of a `multipart/form-data` content type.
pub fn extract_boundary(content_type: &str) -> (r: Option<String>)
    ensures
        match r {
            Some(b) => spec_boundary_from(utf8_bytes(content_type@), 0) == Some(utf8_bytes(b@)),
            None => spec_boundary_from(utf8_bytes(content_type@), 0) is None,
        },
{
    let cb = content_type.as_bytes();
    let mut from: usize = 0;
    loop
        invariant
            from <= cb@.len(),
            cb@ == utf8_bytes(content_type@),
            spec_boundary_from(cb@, 0) == spec_boundary_from(cb@, from as int),
        decreases cb@.len() - from,
    {
        proof {
            lemma_find_byte_from_ok(cb@, 59, from as int);
        }
        let end = match find_byte_exec(cb, 59, from) {
            Some(p) => p,
            None => cb.len(),
        };
        proof {
            assert(param_end(cb@, from as int) == end as int);
        }
        let piece = trim_exec(&cb[from..end]);
        proof {
            assert(cb@.subrange(from as int, end as int) == cb@.subrange(
                from as int,
                param_end(cb@, from as int),
            ));
            reveal_strlit("boundary=");
            crate::util::lemma_utf8_bytes_ascii("boundary="@);
        }
        let pb = piece.as_slice();
        if pb.len() > 9 && bytes_eq(&pb[0..9], "boundary=".as_bytes()) {
            proof {
                assert(pb@.subrange(0, 9) =~= pb@.take(9));
            }
            let v = &pb[9..pb.len()];
            proof {
                assert(v@ =~= pb@.skip(9));
            }
            let unq: Vec<u8> = if v.len() >= 2 && v[0] == 34 && v[v.len() - 1] == 34 {
                vstd::slice::slice_to_vec(&v[1..v.len() - 1])
            } else {
                vstd::slice::slice_to_vec(v)
            };
            proof {
                assert(unq@ =~= spec_unquote(pb@.skip(9)));
            }
            return string_from_bytes(unq);
        }
        if end >= cb.len() {
            return None;
        }
        from = end + 1;
    }
}

/// The verified plan for a multipart upload: the request's buffered body
/// is parsed against the boundary within the total cap, and every file
/// part of the plan fits the per-file cap. Writing the files to storage
/// is the loop's job, after this check.
pub fn plan_multipart_upload(
    request: &HttpRequest,
    boundary: &str,
    max_file: usize,
    cap: usize,
) -> (r: Result<Vec<MultipartField>, ()>)
    ensures
        request.m().body.len() > cap ==> r is Err,
        r matches Ok(fields) ==> forall|i: int|
            0 <= i < fields@.len() ==> field_within(#[trigger] fields@[i], max_file),
{
    if request.body.len() > cap {
        return Err(());
    }
    let parser = MultipartParser::new(String::from_str(boundary), max_file, cap);
    parser.parse(request.body.as_slice())
}

} // verus!
