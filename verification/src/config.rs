//! The server's configuration and its validation rules. Gathering the
//! values from command-line arguments and environment variables is the
//! embedding program's job; the rules on them live here.

use vstd::prelude::*;
use crate::model::str_eq;

verus! {

/// The largest accepted output-buffer capacity, in bytes (100 MB).
pub const MAX_BUFFER_BYTES: u32 = 100 * 1024 * 1024;

/// The server's configuration values.
pub struct AppConfig {
    /// Explicit path to the agent binary; when absent the execution
    /// environment's search path decides.
    pub cursor_agent_path: Option<String>,
    /// Which summarizer backend to build.
    pub summary_backend: String,
    /// The model the backend is asked for, or a model file path.
    pub summary_model: String,
    /// Base URL of the HTTP summarizer backend.
    pub ollama_host: String,
    /// Byte capacity of each agent's output buffer.
    pub buffer_bytes: u32,
    /// Informational idle-reap setting; unused by this core.
    pub idle_reap_mins: Option<u32>,
}

/// Whether the text parses as an absolute URL. The outcome is a function
/// of the text alone; `parse_url_ok` names it.
pub uninterp spec fn url_ok(s: Seq<char>) -> bool;

/// Relies on `url::Url::parse`: whether the text parses as an absolute
/// URL; the same text always parses the same way.
#[verifier::external_body]
fn parse_url_ok(s: &str) -> (r: bool)
    ensures
        r == url_ok(s@),
{
    url::Url::parse(s).is_ok()
}

/// Relies on `std::path::Path::exists`: whether a file is present at the
/// path right now. The outcome depends on the disk, so nothing is promised
/// of it.
#[verifier::external_body]
fn path_exists(s: &str) -> bool {
    std::path::Path::new(s).exists()
}

impl AppConfig {
    /// The buffer capacity bounds that every configuration must meet.
    pub open spec fn buffer_bytes_ok(&self) -> bool {
        self.buffer_bytes != 0 && self.buffer_bytes <= MAX_BUFFER_BYTES
    }

    /// Check the configuration: the buffer capacity must be positive and
    /// at most the ceiling; an HTTP-backend host must parse as a URL; a
    /// local-model backend's model file must exist on disk.
    pub fn validate(&self) -> (r: Result<(), String>)
        ensures
            self.buffer_bytes == 0 ==> (r matches Err(m) && m@ == "buffer_bytes must be > 0"@),
            self.buffer_bytes != 0 && self.buffer_bytes > MAX_BUFFER_BYTES ==> (r matches Err(m)
                && m@ == "buffer_bytes too large (max 100MB)"@),
            self.buffer_bytes_ok() && self.summary_backend@ == "ollama"@ && !url_ok(
                self.ollama_host@,
            ) ==> (r matches Err(m) && m@ == "Invalid OLLAMA_HOST URL format"@),
            self.buffer_bytes_ok() && self.summary_backend@ == "ollama"@ && url_ok(
                self.ollama_host@,
            ) ==> r matches Ok(_),
            self.buffer_bytes_ok() && self.summary_backend@ != "ollama"@
                && self.summary_backend@ != "llama_cpp"@ ==> r matches Ok(_),
            self.buffer_bytes_ok() && self.summary_backend@ == "llama_cpp"@ ==> (r matches Ok(_)
                || (r matches Err(m) && m@ == "llama.cpp model file does not exist"@)),
    {
        proof {
            reveal_strlit("ollama");
            reveal_strlit("llama_cpp");
            assert("ollama"@.len() == 6);
            assert("llama_cpp"@.len() == 9);
        }
        if self.buffer_bytes == 0 {
            return Err(String::from_str("buffer_bytes must be > 0"));
        }
        if self.buffer_bytes > MAX_BUFFER_BYTES {
            return Err(String::from_str("buffer_bytes too large (max 100MB)"));
        }
        if str_eq(self.summary_backend.as_str(), "ollama") {
            if !parse_url_ok(self.ollama_host.as_str()) {
                return Err(String::from_str("Invalid OLLAMA_HOST URL format"));
            }
        }
        if str_eq(self.summary_backend.as_str(), "llama_cpp") {
            if !path_exists(self.summary_model.as_str()) {
                return Err(String::from_str("llama.cpp model file does not exist"));
            }
        }
        Ok(())
    }
}

} // verus!
