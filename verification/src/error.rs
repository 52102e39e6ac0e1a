//! Errors of the reader.

use vstd::prelude::*;

verus! {

/// `std::io::Error`, carried by [`MppError::Io`].
#[verifier::external_type_specification]
#[verifier::external_body]
pub struct ExIoError(std::io::Error);

/// Error while reading a `.mpp` file.
#[derive(Debug)]
#[non_exhaustive]
pub enum MppError {
    /// The data is not a valid Compound File Binary (OLE2) container.
    NotACompoundFile(String),
    /// A valid container written by a Project version other than MPP14
    /// (Project 2010 to 365).
    UnsupportedVersion { found: String },
    /// The file is protected by a read password.
    PasswordProtected,
    /// Internal structure corrupt or unexpected.
    Corrupt {
        /// Stream or block where the problem was found (e.g. `TBkndTask`).
        context: String,
        detail: String,
    },
    /// Reading a stream of the container failed.
    Io(std::io::Error),
}

/// `e` is a `Corrupt` error raised in `context` with message `detail`.
pub open spec fn is_corrupt(e: MppError, context: Seq<char>, detail: Seq<char>) -> bool {
    e matches MppError::Corrupt { context: c, detail: d } && c@ == context && d@ == detail
}

impl MppError {
    /// A `Corrupt` error.
    pub fn corrupt(context: &str, detail: String) -> (e: MppError)
        ensures
            is_corrupt(e, context@, detail@),
    {
        MppError::Corrupt { context: context.to_owned(), detail }
    }
}

} // verus!
