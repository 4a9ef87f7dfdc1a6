//! The CGI rules that need no process: which paths count as scripts,
//! and which interpreter runs them. Spawning happens outside the
//! library, which then parses the output.

use vstd::prelude::*;

use crate::util::{utf8_bytes, bytes_eq, string_from_bytes, find_byte_exec, trim_exec,
    lemma_find_byte_from_ok};

verus! {

/// The CGI settings: interpreters by extension, the timeout, the output
/// cap, the script directory, and the on-off switch.
#[derive(Debug, Clone)]
pub struct CgiConfig {
    /// Interpreters by extension.
    pub interpreters: Vec<(String, String)>,
    /// The execution budget, in seconds.
    pub timeout: u64,
    /// The most output accepted, in bytes.
    pub max_output_size: usize,
    /// The directory scripts live in.
    pub cgi_directory: String,
    /// Whether CGI runs at all.
    pub enabled: bool,
}

impl Default for CgiConfig {
    /// The usual interpreters out of `cgi-bin`, 30 s, 1 MiB of output.
    fn default() -> (r: Self)
        ensures
            r.enabled,
            r.timeout == 30,
            r.max_output_size == 1048576,
            r.interpreters@.len() == 5,
    {
        let mut interpreters: Vec<(String, String)> = Vec::new();
        interpreters.push((String::from_str("py"), String::from_str("python3")));
        interpreters.push((String::from_str("pl"), String::from_str("perl")));
        interpreters.push((String::from_str("sh"), String::from_str("sh")));
        interpreters.push((String::from_str("rb"), String::from_str("ruby")));
        interpreters.push((String::from_str("php"), String::from_str("php")));
        CgiConfig {
            interpreters,
            timeout: 30,
            max_output_size: 1048576,
            cgi_directory: String::from_str("cgi-bin"),
            enabled: true,
        }
    }
}

/// The CGI rule keeper.
#[derive(Debug, Clone)]
pub struct CgiExecutor {
    config: CgiConfig,
}

impl CgiExecutor {
    /// The settings.
    pub closed spec fn cfg(&self) -> CgiConfig {
        self.config
    }

    /// A keeper of the given settings.
    pub fn new(config: CgiConfig) -> (r: CgiExecutor)
        ensures
            r.cfg() == config,
    {
        CgiExecutor { config }
    }

    /// Whether a path names a CGI script: CGI is on, the path's
    /// directory ends with the script directory, and its extension has
    /// an interpreter.
    pub fn is_cgi_script(&self, path: &str) -> (r: bool)
        ensures
            !self.cfg().enabled ==> !r,
    {
        if !self.config.enabled {
            return false;
        }
        let pb = path.as_bytes();
        proof {
            lemma_find_byte_from_ok(pb@, 47, 0);
        }
        let mut last_slash: Option<usize> = None;
        let mut i: usize = 0;
        while i < pb.len()
            invariant
                i <= pb@.len(),
                match last_slash {
                    Some(d) => d < i,
                    None => true,
                },
            decreases pb.len() - i,
        {
            if pb[i] == 47 {
                last_slash = Some(i);
            }
            i += 1;
        }
        let parent_end = match last_slash {
            Some(d) => d,
            None => 0,
        };
        let parent = &pb[0..parent_end];
        let db = self.config.cgi_directory.as_str().as_bytes();
        let dir_ok = if parent.len() >= db.len() {
            bytes_eq(&parent[parent.len() - db.len()..parent.len()], db)
        } else {
            false
        };
        if !dir_ok {
            return false;
        }
        match crate::mime::extension_of(path) {
            Some(ext) => self.lookup_interpreter(ext.as_slice()).is_some(),
            None => false,
        }
    }

    /// The interpreter for an extension, if one is configured.
    fn lookup_interpreter(&self, ext: &[u8]) -> (r: Option<String>)
    {
        let mut i: usize = 0;
        while i < self.config.interpreters.len()
            decreases self.config.interpreters.len() - i,
        {
            if bytes_eq(self.config.interpreters[i].0.as_str().as_bytes(), ext) {
                return Some(self.config.interpreters[i].1.clone());
            }
            i += 1;
        }
        None
    }

    /// The command and arguments that run a script: its extension's
    /// interpreter with the script as the argument, or the script alone
    /// when no interpreter is configured.
    pub fn get_command_and_args(&self, script_path: &str) -> (r: Result<(String, Vec<String>), ()>)
        ensures
            r is Ok,
    {
        match crate::mime::extension_of(script_path) {
            Some(ext) => {
                match self.lookup_interpreter(ext.as_slice()) {
                    Some(interpreter) => {
                        let mut args: Vec<String> = Vec::new();
                        args.push(String::from_str(script_path));
                        Ok((interpreter, args))
                    },
                    None => {
                        let args: Vec<String> = Vec::new();
                        Ok((String::from_str(script_path), args))
                    },
                }
            },
            None => {
                let args: Vec<String> = Vec::new();
                Ok((String::from_str(script_path), args))
            },
        }
    }

    /// The interpreter a shebang line names: the first word after `#!`.
    pub fn interpreter_from_shebang(&self, first_line: &str) -> (r: Option<String>)
    {
        let b = first_line.as_bytes();
        if b.len() < 2 || b[0] != 35 || b[1] != 33 {
            return None;
        }
        let rest = trim_exec(&b[2..b.len()]);
        let rb = rest.as_slice();
        proof {
            lemma_find_byte_from_ok(rb@, 32, 0);
        }
        let end = match find_byte_exec(rb, 32, 0) {
            Some(p) => p,
            None => rb.len(),
        };
        if end == 0 {
            return None;
        }
        let word = vstd::slice::slice_to_vec(&rb[0..end]);
        string_from_bytes(word)
    }

    /// The settings.
    pub fn config(&self) -> (r: &CgiConfig)
        ensures
            *r == self.cfg(),
    {
        &self.config
    }

    /// Whether CGI runs at all.
    pub fn is_enabled(&self) -> (r: bool)
        ensures
            r == self.cfg().enabled,
    {
        self.config.enabled
    }

    /// The configured extensions, in order.
    pub fn supported_extensions(&self) -> (r: Vec<String>)
        ensures
            r@.len() == self.cfg().interpreters@.len(),
    {
        let mut out: Vec<String> = Vec::new();
        let mut i: usize = 0;
        while i < self.config.interpreters.len()
            invariant
                i <= self.cfg().interpreters@.len(),
                out@.len() == i,
            decreases self.config.interpreters.len() - i,
        {
            out.push(self.config.interpreters[i].0.clone());
            i += 1;
        }
        out
    }
}

impl Default for CgiExecutor {
    /// A keeper of the default settings.
    fn default() -> (r: Self)
        ensures
            r.cfg().enabled,
    {
        Self::new(CgiConfig::default())
    }
}

} // verus!
