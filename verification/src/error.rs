//! The errors that path resolution and directory listing can raise.

use vstd::prelude::*;

verus! {

/// Everything that can go wrong while resolving a request path or listing a
/// directory. `CannotGetItemList` carries the text of the underlying I/O
/// failure.
#[derive(Debug, Clone)]
pub enum Error {
    CannotGetItemList(String),
    PathTraversal,
    PathNotValid,
    CannotGetWorkDir,
}

impl Error {
    /// The human-readable message a response body shows for this error.
    pub open spec fn message_spec(&self) -> Seq<char> {
        match self {
            Error::CannotGetItemList(cause) => cause@,
            Error::PathTraversal => "path traversal rejected"@,
            Error::PathNotValid => "path is not valid"@,
            Error::CannotGetWorkDir => "cannot determine the working directory"@,
        }
    }

    /// The human-readable message a response body shows for this error.
    pub fn message(&self) -> (s: String)
        ensures
            s@ == self.message_spec(),
    {
        match self {
            Error::CannotGetItemList(cause) => cause.clone(),
            Error::PathTraversal => "path traversal rejected".to_owned(),
            Error::PathNotValid => "path is not valid".to_owned(),
            Error::CannotGetWorkDir => "cannot determine the working directory".to_owned(),
        }
    }

    /// Every resolution or listing error is reported to the caller as an
    /// internal server error.
    pub fn status(&self) -> (code: u16)
        ensures
            code == 500,
    {
        500
    }
}

} // verus!
