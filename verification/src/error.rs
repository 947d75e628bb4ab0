//! The error taxonomy of the library.

use vstd::prelude::*;

verus! {

/// What went wrong in an object lookup, reduced to what the library reads.
#[derive(Debug, Clone, Copy, PartialEq, Eq, Structural)]
pub enum IoKind {
    /// The object file does not exist.
    NotFound,
    /// Any other failure of the underlying storage.
    Other,
}

/// Errors of the repository read path.
#[derive(Debug, Clone)]
pub enum SeafError {
    /// An object could not be read at the given path.
    IO(String, IoKind),
    /// The object at the given path held a malformed JSON or zlib stream.
    ParseJson(String),
    /// Enumerating the commit objects failed.
    WalkDir(String),
    /// A size beyond what the machine can count.
    NotImpl,
    /// The commits directory contained no commit.
    NoHeadCommit,
    /// A directory stood where a file was required, or the reverse.
    WrongFsType,
}

impl SeafError {
    /// True of the `IO` variant with a not-found cause.
    pub fn is_not_found(&self) -> (r: bool)
        ensures
            r == (self matches SeafError::IO(_, IoKind::NotFound)),
    {
        match self {
            SeafError::IO(_, IoKind::NotFound) => true,
            _ => false,
        }
    }
}

} // verus!
