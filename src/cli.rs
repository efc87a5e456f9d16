use vstd::prelude::*;
use crate::text::{find_char, first_index_of};

verus! {

/// How a retrieved document is printed.
pub enum OutputFormat {
    Markdown,
    Json,
}

/// The commands of the command-line shell.
pub enum Commands {
    /// Create a vault at a path.
    Init { path: String },
    /// Print a document found by identifier.
    Get { id: String, format: OutputFormat },
    /// Append to a document (with an identifier) or create one (with a type).
    Write {
        uuid: Option<String>,
        artifact_type: Option<String>,
        content: String,
        title: Option<String>,
        fields: Vec<(String, String)>,
    },
    /// Check the vault, optionally fixing it and rebuilding the index.
    Doctor { fix: bool, rebuild_index: bool },
}

/// A parsed command line.
pub struct Cli {
    pub command: Commands,
}

/// Splits `key=value` at the first `=`.
pub fn parse_key_val(s: &str) -> (r: Result<(String, String), String>)
    ensures
        match r {
            Ok((k, v)) => first_index_of(s@, '=') matches Some(i) && k@ == s@.subrange(0, i)
                && v@ == s@.subrange(i + 1, s@.len() as int),
            Err(m) => first_index_of(s@, '=') is None && m@ == "no `=` found in `"@ + s@ + "`"@,
        },
{
    match find_char(s, '=') {
        Some(i) => {
            let n = s.unicode_len();
            Ok((String::from_str(s.substring_char(0, i)), String::from_str(s.substring_char(i + 1, n))))
        },
        None => Err(String::from_str("no `=` found in `").concat(s).concat("`")),
    }
}

} // verus!
