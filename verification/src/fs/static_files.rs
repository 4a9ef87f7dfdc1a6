//! Building responses for static files: the computation between a file's
//! bytes and the wire. Reading the file happens outside the library and
//! its outcome is handed in.

use vstd::prelude::*;

use crate::http::response::HttpResponse;
use crate::mime::MimeTypes;
use crate::util::{utf8_bytes, bytes_eq, lower_bytes_exec, string_from_bytes, u64_to_dec,
    lemma_ascii_valid_utf8};

verus! {

/// What the file system reported for a path, handed in by the caller.
#[derive(Debug)]
pub enum FileOutcome {
    /// The file's bytes, read in full.
    Content(Vec<u8>),
    /// No such file.
    NotFound,
    /// The file may not be read.
    PermissionDenied,
    /// Any other failure.
    OtherError,
}

/// The static file server's rules: the document root, the index file,
/// and the MIME table.
#[derive(Debug)]
pub struct StaticFileServer {
    document_root: String,
    mime_types: MimeTypes,
    index_file: String,
}

impl StaticFileServer {
    /// The document root.
    pub closed spec fn root(&self) -> Seq<char> {
        self.document_root@
    }

    /// The index file name.
    pub closed spec fn index(&self) -> Seq<char> {
        self.index_file@
    }

    /// A server over a root; the index file defaults to `index.html`.
    pub fn new(document_root: &str, index_file: Option<String>) -> (r: Result<StaticFileServer, ()>)
        ensures
            r matches Ok(s) && s.root() == document_root@,
    {
        let index = match index_file {
            Some(f) => f,
            None => String::from_str("index.html"),
        };
        Ok(
            StaticFileServer {
                document_root: String::from_str(document_root),
                mime_types: MimeTypes::new(),
                index_file: index,
            },
        )
    }

    /// The safe path for a request path under the root, to be read by
    /// the caller.
    pub fn resolve(&self, request_path: &str) -> (r: Result<String, crate::fs::path_utils::PathError>)
    {
        crate::fs::path_utils::safe_path_join(self.document_root.as_str(), request_path)
    }

    /// The response for a file-read outcome: a `200` carrying the bytes
    /// with the extension's content type and caching for assets, a
    /// `404`, a `403`, or a `500`.
    pub fn response_for(&self, path: &str, outcome: FileOutcome) -> (r: HttpResponse)
        ensures
            outcome is NotFound ==> r.m().status == 404,
            outcome is PermissionDenied ==> r.m().status == 403,
            outcome is OtherError ==> r.m().status == 500,
            outcome matches FileOutcome::Content(c) ==> r.m().status == 200 && r.m().body == c@
                && crate::http::request::spec_get_exact(
                r.m().headers,
                crate::http::response::hdr_content_length(),
            ) == Some(crate::util::dec_digits(c@.len())),
    {
        match outcome {
            FileOutcome::Content(content) => {
                let mut response = HttpResponse::ok();
                let mime = self.mime_types.get_mime_type(path);
                response.set_header("Content-Type", mime.as_str());
                let ghost h1 = response.m().headers;
                response.set_body(content.as_slice());
                proof {
                    crate::http::request::lemma_get_insert_same(
                        h1,
                        crate::http::response::hdr_content_length(),
                        crate::util::dec_digits(content@.len()),
                    );
                }
                let ghost h2 = response.m().headers;
                if self.is_cacheable_asset(path) {
                    response.set_header("Cache-Control", "public, max-age=3600");
                    proof {
                        reveal_strlit("Cache-Control");
                        crate::util::lemma_utf8_bytes_ascii("Cache-Control"@);
                        crate::http::request::lemma_get_insert_other(
                            h2,
                            utf8_bytes("Cache-Control"@),
                            utf8_bytes("public, max-age=3600"@),
                            crate::http::response::hdr_content_length(),
                        );
                    }
                }
                response
            },
            FileOutcome::NotFound => HttpResponse::not_found(),
            FileOutcome::PermissionDenied => {
                let mut response = HttpResponse::new(403);
                response.set_body_string("403 Forbidden");
                response.set_header("Content-Type", "text/plain");
                response
            },
            FileOutcome::OtherError => HttpResponse::internal_server_error(),
        }
    }

    /// Whether a path's extension names a long-lived asset.
    pub fn is_cacheable_asset(&self, path: &str) -> (r: bool)
    {
        proof {
            reveal_strlit("css");
            reveal_strlit("js");
            reveal_strlit("png");
            reveal_strlit("jpg");
            reveal_strlit("jpeg");
            reveal_strlit("gif");
            reveal_strlit("svg");
            reveal_strlit("ico");
            reveal_strlit("woff");
            reveal_strlit("woff2");
            reveal_strlit("ttf");
            reveal_strlit("otf");
        }
        match crate::mime::extension_of(path) {
            Some(ext) => {
                let low = lower_bytes_exec(ext.as_slice());
                let b = low.as_slice();
                bytes_eq(b, "css".as_bytes()) || bytes_eq(b, "js".as_bytes()) || bytes_eq(
                    b,
                    "png".as_bytes(),
                ) || bytes_eq(b, "jpg".as_bytes()) || bytes_eq(b, "jpeg".as_bytes()) || bytes_eq(
                    b,
                    "gif".as_bytes(),
                ) || bytes_eq(b, "svg".as_bytes()) || bytes_eq(b, "ico".as_bytes()) || bytes_eq(
                    b,
                    "woff".as_bytes(),
                ) || bytes_eq(b, "woff2".as_bytes()) || bytes_eq(b, "ttf".as_bytes()) || bytes_eq(
                    b,
                    "otf".as_bytes(),
                )
            },
            None => false,
        }
    }

    /// The document root.
    pub fn document_root(&self) -> (r: &str)
        ensures
            r@ == self.root(),
    {
        self.document_root.as_str()
    }

    /// The index file name.
    pub fn index_file(&self) -> (r: &str)
        ensures
            r@ == self.index(),
    {
        self.index_file.as_str()
    }
}

/// A HEAD response keeps the headers, including `Content-Length`, and
/// drops the body: this sets the body-less form for an already built
/// response.
pub fn elide_body_for_head(response: &mut HttpResponse)
    ensures
        final(response).m().body.len() == 0,
        final(response).m().headers == old(response).m().headers,
        final(response).m().status == old(response).m().status,
{
    response.body = Vec::new();
}

} // verus!
