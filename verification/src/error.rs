//! What can go wrong, and the line that reports it.

use vstd::prelude::*;
use crate::text::join;

verus! {

/// A failure of the search: either of the pattern, which ends the run before
/// any file is touched, or of one path, which leaves the other paths alone.
#[derive(Debug, PartialEq, Eq)]
pub enum GrepError {
    /// The pattern is not a regular expression that can be compiled.
    InvalidPattern { pattern: String },
    /// The path names a directory, and directories are not descended into.
    IsDirectory { path: String },
    /// The path, or something below it, could not be reached or read.
    Inaccessible { path: String, reason: String },
}

/// The mathematical content of a [`GrepError`].
pub enum GrepErrorView {
    InvalidPattern { pattern: Seq<char> },
    IsDirectory { path: Seq<char> },
    Inaccessible { path: Seq<char>, reason: Seq<char> },
}

impl GrepErrorView {
    /// The line that reports the failure to the user.
    pub open spec fn message(self) -> Seq<char> {
        match self {
            GrepErrorView::InvalidPattern { pattern } => "Invalid pattern \""@ + pattern + "\""@,
            GrepErrorView::IsDirectory { path } => path + " is a directory"@,
            GrepErrorView::Inaccessible { path, reason } => path + ": "@ + reason,
        }
    }
}

impl View for GrepError {
    type V = GrepErrorView;

    open spec fn view(&self) -> GrepErrorView {
        match self {
            GrepError::InvalidPattern { pattern } => GrepErrorView::InvalidPattern {
                pattern: pattern@,
            },
            GrepError::IsDirectory { path } => GrepErrorView::IsDirectory { path: path@ },
            GrepError::Inaccessible { path, reason } => GrepErrorView::Inaccessible {
                path: path@,
                reason: reason@,
            },
        }
    }
}

impl Clone for GrepError {
    fn clone(&self) -> (copy: Self)
        ensures
            copy@ == self@,
    {
        match self {
            GrepError::InvalidPattern { pattern } => GrepError::InvalidPattern {
                pattern: pattern.clone(),
            },
            GrepError::IsDirectory { path } => GrepError::IsDirectory { path: path.clone() },
            GrepError::Inaccessible { path, reason } => GrepError::Inaccessible {
                path: path.clone(),
                reason: reason.clone(),
            },
        }
    }
}

impl GrepError {
    /// The line that reports the failure to the user.
    pub fn message(&self) -> (line: String)
        ensures
            line@ == self@.message(),
    {
        match self {
            GrepError::InvalidPattern { pattern } => {
                let quoted = join("Invalid pattern \"", pattern.as_str());
                join(quoted.as_str(), "\"")
            },
            GrepError::IsDirectory { path } => join(path.as_str(), " is a directory"),
            GrepError::Inaccessible { path, reason } => {
                let prefix = join(path.as_str(), ": ");
                join(prefix.as_str(), reason.as_str())
            },
        }
    }
}

} // verus!
