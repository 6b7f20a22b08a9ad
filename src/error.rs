//! The errors that the library reports.
use vstd::prelude::*;

verus! {

/// Text that does not follow the expected grammar: the index of the offending
/// line (from zero) and what it holds.
#[derive(Clone, Debug, PartialEq, Eq)]
pub struct ParseError {
    pub line: usize,
    pub text: String,
}

/// The failures of an operation that runs `git` and reads what it prints.
#[derive(Clone, Debug, PartialEq, Eq)]
pub enum GitError {
    /// The program could not be started.
    Spawn(String),
    /// The program printed bytes that are not UTF-8.
    Encoding,
    /// What it printed, or what the repository holds, is malformed.
    Parse(ParseError),
    /// Bookkeeping of a rebase refers to a file that is missing or malformed.
    MissingRef(String),
}

} // verus!
