//! The file store's naming rules: sanitized file names and extensions
//! from content types. Writing to disk happens outside the library.

use vstd::prelude::*;

use crate::util::{utf8_bytes, string_from_bytes, bytes_eq, lower_bytes_exec,
    lemma_ascii_valid_utf8};

verus! {

/// How uploads are stored.
#[derive(Debug, Clone)]
pub struct StorageConfig {
    /// Where uploads land.
    pub upload_dir: String,
    /// The most bytes one file may hold.
    pub max_file_size: usize,
    /// Extensions accepted; `None` accepts all.
    pub allowed_extensions: Option<Vec<String>>,
    /// Whether client file names are kept.
    pub preserve_filenames: bool,
    /// Whether uploads land in per-day directories.
    pub use_date_subdirs: bool,
}

impl Default for StorageConfig {
    /// `./uploads`, 10 MiB files, names kept, no date directories.
    fn default() -> (r: Self)
        ensures
            r.max_file_size == 10485760,
            r.preserve_filenames,
            !r.use_date_subdirs,
            r.allowed_extensions is None,
    {
        StorageConfig {
            upload_dir: String::from_str("./uploads"),
            max_file_size: 10485760,
            allowed_extensions: None,
            preserve_filenames: true,
            use_date_subdirs: false,
        }
    }
}

/// One stored upload, as the store reports it.
#[derive(Debug, Clone)]
pub struct UploadedFile {
    /// The name the client sent, if any.
    pub original_filename: Option<String>,
    /// The name on disk.
    pub stored_filename: String,
    /// The full path on disk.
    pub file_path: String,
    /// The size in bytes.
    pub size: usize,
    /// The declared content type, if any.
    pub content_type: Option<String>,
    /// When the upload landed, in seconds since the epoch.
    pub upload_time: u64,
}

/// The naming rules of the file store.
#[derive(Debug, Clone)]
pub struct FileStorage {
    config: StorageConfig,
}

impl FileStorage {
    /// The settings.
    pub closed spec fn cfg(&self) -> StorageConfig {
        self.config
    }

    /// A store over the given settings.
    pub fn new(config: StorageConfig) -> (r: Result<FileStorage, ()>)
        ensures
            r matches Ok(s) && s.cfg() == config,
    {
        Ok(FileStorage { config })
    }

    /// A client file name made safe: `..` sequences and path or shell
    /// bytes become underscores, anything but letters, digits, dots,
    /// dashes and underscores becomes an underscore, and leading or
    /// trailing dots fall away.
    pub fn sanitize_filename(&self, filename: &str) -> (r: String)
    {
        let b = filename.as_bytes();
        let mut out: Vec<u8> = Vec::new();
        let mut i: usize = 0;
        while i < b.len()
            invariant
                i <= b@.len(),
                forall|j: int| 0 <= j < out@.len() ==> #[trigger] out@[j] < 128,
            decreases b.len() - i,
        {
            let c = b[i];
            if c == 46 && i + 1 < b.len() && b[i + 1] == 46 {
                out.push(95);
                i += 2;
                continue;
            }
            let keep = (65 <= c && c <= 90) || (97 <= c && c <= 122) || (48 <= c && c <= 57)
                || c == 46 || c == 45 || c == 95;
            if keep {
                out.push(c);
            } else {
                out.push(95);
            }
            i += 1;
        }
        let mut start: usize = 0;
        while start < out.len() && out[start] == 46
            invariant
                start <= out@.len(),
                forall|j: int| 0 <= j < out@.len() ==> #[trigger] out@[j] < 128,
            decreases out.len() - start,
        {
            start += 1;
        }
        let mut stop: usize = out.len();
        while stop > start && out[stop - 1] == 46
            invariant
                start <= stop <= out@.len(),
                forall|j: int| 0 <= j < out@.len() ==> #[trigger] out@[j] < 128,
            decreases stop,
        {
            stop -= 1;
        }
        let trimmed = vstd::slice::slice_to_vec(&out.as_slice()[start..stop]);
        proof {
            lemma_ascii_valid_utf8(trimmed@);
        }
        match string_from_bytes(trimmed) {
            Some(s) => s,
            None => {
                proof {
                    assert(false);
                }
                String::new()
            },
        }
    }

    /// The usual extension for a content type, when one is known.
    pub fn extension_from_content_type(&self, content_type: &str) -> (r: Option<String>)
    {
        proof {
            reveal_strlit("image/jpeg");
            reveal_strlit("image/png");
            reveal_strlit("image/gif");
            reveal_strlit("image/webp");
            reveal_strlit("text/plain");
            reveal_strlit("text/html");
            reveal_strlit("text/css");
            reveal_strlit("text/javascript");
            reveal_strlit("application/json");
            reveal_strlit("application/pdf");
            reveal_strlit("application/zip");
        }
        let low = lower_bytes_exec(content_type.as_bytes());
        let b = low.as_slice();
        if bytes_eq(b, "image/jpeg".as_bytes()) {
            Some(String::from_str("jpg"))
        } else if bytes_eq(b, "image/png".as_bytes()) {
            Some(String::from_str("png"))
        } else if bytes_eq(b, "image/gif".as_bytes()) {
            Some(String::from_str("gif"))
        } else if bytes_eq(b, "image/webp".as_bytes()) {
            Some(String::from_str("webp"))
        } else if bytes_eq(b, "text/plain".as_bytes()) {
            Some(String::from_str("txt"))
        } else if bytes_eq(b, "text/html".as_bytes()) {
            Some(String::from_str("html"))
        } else if bytes_eq(b, "text/css".as_bytes()) {
            Some(String::from_str("css"))
        } else if bytes_eq(b, "text/javascript".as_bytes()) {
            Some(String::from_str("js"))
        } else if bytes_eq(b, "application/json".as_bytes()) {
            Some(String::from_str("json"))
        } else if bytes_eq(b, "application/pdf".as_bytes()) {
            Some(String::from_str("pdf"))
        } else if bytes_eq(b, "application/zip".as_bytes()) {
            Some(String::from_str("zip"))
        } else {
            None
        }
    }

    /// Whether a client file name passes the extension allow-list; a
    /// missing list allows everything.
    pub fn extension_allowed(&self, filename: &str) -> (r: bool)
        ensures
            self.cfg().allowed_extensions is None ==> r,
    {
        match &self.config.allowed_extensions {
            None => true,
            Some(allowed) => {
                match crate::mime::extension_of(filename) {
                    Some(ext) => {
                        let low = lower_bytes_exec(ext.as_slice());
                        let mut i: usize = 0;
                        while i < allowed.len()
                            decreases allowed.len() - i,
                        {
                            let al = lower_bytes_exec(allowed[i].as_str().as_bytes());
                            if bytes_eq(al.as_slice(), low.as_slice()) {
                                return true;
                            }
                            i += 1;
                        }
                        false
                    },
                    None => false,
                }
            },
        }
    }

    /// The settings.
    pub fn config(&self) -> (r: &StorageConfig)
        ensures
            *r == self.cfg(),
    {
        &self.config
    }
}

} // verus!
