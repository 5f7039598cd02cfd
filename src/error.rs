//! Errors of the engine.

use vstd::prelude::*;

verus! {

/// What can go wrong while serving a request.
#[derive(Debug, Clone, Copy, PartialEq, Eq, Structural)]
pub enum Error {
    /// An index out of range in buffer arithmetic.
    BoundsError,
    /// No document is open at the given URI.
    DocumentNotFound,
    /// A configuration or bibliography could not be parsed.
    ParseError,
    /// A file or directory could not be read.
    IoError,
    /// The search automaton could not be built.
    SearchError,
}

impl Error {
    /// A short message for logs.
    pub fn message(&self) -> (s: &'static str)
        ensures
            s@ == match self {
                Error::BoundsError => "bounds error"@,
                Error::DocumentNotFound => "document not found"@,
                Error::ParseError => "parse error"@,
                Error::IoError => "io error"@,
                Error::SearchError => "search error"@,
            },
    {
        match self {
            Error::BoundsError => "bounds error",
            Error::DocumentNotFound => "document not found",
            Error::ParseError => "parse error",
            Error::IoError => "io error",
            Error::SearchError => "search error",
        }
    }
}

} // verus!
