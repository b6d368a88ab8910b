//! The errors a resolution can fail with.

use vstd::prelude::*;

verus! {

/// Mathematical model of a resolution error.
pub enum ErrorV {
    /// A traversal segment had no matching key in `data` or in the document
    /// under resolution; carries the path text.
    PathNotFound(Seq<char>),
    /// A typed placeholder named a tag absent from the registry; carries the
    /// tag.
    FunctionNotFound(Seq<char>),
    /// A file placeholder was used with no directory set.
    NoDirectory,
    /// A file placeholder named a file that is not in the context's file
    /// store; carries the joined path.
    FileUnavailable(Seq<char>),
    /// The resolution depth guard ran out, as happens on a placeholder cycle.
    DepthExceeded,
    /// An error reported by a custom resolver function.
    Message(Seq<char>),
}

/// A resolution error.
#[derive(Debug, Clone, PartialEq, Eq)]
pub enum Error {
    /// A traversal segment had no matching key in `data` or in the document
    /// under resolution; carries the path text.
    PathNotFound(String),
    /// A typed placeholder named a tag absent from the registry; carries the
    /// tag.
    FunctionNotFound(String),
    /// A file placeholder was used with no directory set.
    NoDirectory,
    /// A file placeholder named a file that is not in the context's file
    /// store; carries the joined path.
    FileUnavailable(String),
    /// The resolution depth guard ran out, as happens on a placeholder cycle.
    DepthExceeded,
    /// An error reported by a custom resolver function.
    Message(String),
}

impl View for Error {
    type V = ErrorV;

    open spec fn view(&self) -> ErrorV {
        match self {
            Error::PathNotFound(s) => ErrorV::PathNotFound(s@),
            Error::FunctionNotFound(s) => ErrorV::FunctionNotFound(s@),
            Error::NoDirectory => ErrorV::NoDirectory,
            Error::FileUnavailable(s) => ErrorV::FileUnavailable(s@),
            Error::DepthExceeded => ErrorV::DepthExceeded,
            Error::Message(s) => ErrorV::Message(s@),
        }
    }
}

} // verus!
