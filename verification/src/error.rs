//! The bridge's error taxonomy.
//!
//! A non-zero `git` exit status is not an error here: the response
//! record carries it faithfully.  These kinds cover what keeps a
//! response record from existing at all, plus the two ways the
//! default-branch summary can fail to read `git`'s answers.

use vstd::prelude::*;
use vstd::string::StringExecFns;

verus! {

/// A failure surfaced to the front-end, with a stable kind and a
/// human-readable message.
#[derive(Debug, Clone, PartialEq)]
pub enum GitError {
    /// The child process could not be created: binary unavailable,
    /// working directory missing or not a directory, OS refusal.
    SpawnFailure { message: String },
    /// A read or write on one of the child's pipes failed mid-stream.
    IoFailure { message: String },
    /// The child exited without a numeric exit code, e.g. killed by a
    /// signal.
    AbnormalTermination { message: String },
    /// `git`'s output did not match the shape the default-branch
    /// summary expects.
    ParseFailure { message: String },
    /// The repository is not configured the way the default-branch
    /// summary needs, e.g. no `origin/HEAD` symbolic ref.
    ConfigurationError { message: String },
}

impl GitError {
    /// The message the error was built with, whatever its kind.
    pub open spec fn message_view(&self) -> Seq<char> {
        match self {
            GitError::SpawnFailure { message } => message@,
            GitError::IoFailure { message } => message@,
            GitError::AbnormalTermination { message } => message@,
            GitError::ParseFailure { message } => message@,
            GitError::ConfigurationError { message } => message@,
        }
    }

    /// The stable kind tag the front-end can switch on.
    pub fn kind(&self) -> (r: String)
        ensures
            self is SpawnFailure ==> r@ == "spawn failure"@,
            self is IoFailure ==> r@ == "io failure"@,
            self is AbnormalTermination ==> r@ == "abnormal termination"@,
            self is ParseFailure ==> r@ == "parse failure"@,
            self is ConfigurationError ==> r@ == "configuration error"@,
    {
        match self {
            GitError::SpawnFailure { .. } => String::from_str("spawn failure"),
            GitError::IoFailure { .. } => String::from_str("io failure"),
            GitError::AbnormalTermination { .. } => String::from_str("abnormal termination"),
            GitError::ParseFailure { .. } => String::from_str("parse failure"),
            GitError::ConfigurationError { .. } => String::from_str("configuration error"),
        }
    }

    /// The human-readable message.
    pub fn message(&self) -> (r: &String)
        ensures
            r@ == self.message_view(),
    {
        match self {
            GitError::SpawnFailure { message } => message,
            GitError::IoFailure { message } => message,
            GitError::AbnormalTermination { message } => message,
            GitError::ParseFailure { message } => message,
            GitError::ConfigurationError { message } => message,
        }
    }
}

} // verus!
