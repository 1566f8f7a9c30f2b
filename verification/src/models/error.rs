//! Error type shared by the parsing and analysis stages.

use vstd::prelude::*;

verus! {

/// Errors reported by the analysis engine.
///
/// I/O failures and format-library errors stay with the callers that touch
/// the filesystem; the engine itself only reports the structured failures
/// below.
#[derive(Debug, Clone, PartialEq, Eq)]
pub enum ScanError {
    /// Parse error in a specific file
    Parse { file: String, message: String },
    /// A line of an infected-package list that does not have the
    /// `name,versions` shape; `line` is 1-based.
    InvalidCsvLine { file: String, line: usize },
    /// Unsupported file format
    UnsupportedFormat(String),
    /// Version string that does not follow the ecosystem's grammar
    VersionParse(String),
}

impl ScanError {
    /// Build a parse error for a file.
    pub fn parse_error(file: String, message: String) -> (r: ScanError)
        ensures
            r == (ScanError::Parse { file, message }),
    {
        ScanError::Parse { file, message }
    }
}

} // verus!
