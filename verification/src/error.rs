//! Errors the query front end surfaces.

use vstd::prelude::*;

verus! {

/// An error from parsing or translating a query.
#[derive(Debug, PartialEq, Eq)]
pub enum Error {
    /// The query string is malformed.
    Parse(String),
    /// The query parsed, but the translator cannot lower it: an
    /// invariant of the translation was violated or the construct is
    /// unsupported.
    Internal(String),
}

impl Error {
    /// The error's message text.
    pub fn message(&self) -> (r: &str)
        ensures
            (match self {
                Error::Parse(m) => r@ == m@,
                Error::Internal(m) => r@ == m@,
            }),
    {
        match self {
            Error::Parse(m) => m.as_str(),
            Error::Internal(m) => m.as_str(),
        }
    }
}

} // verus!
