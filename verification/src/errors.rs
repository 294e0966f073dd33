//! The error taxonomy of the profile store.

use vstd::prelude::*;

verus! {

/// What went wrong, as a closed set of causes.
///
/// `InvalidFormat` often really means "the file is encrypted but the caller
/// did not say so"; `CryptoError` covers both a wrong key and corrupted
/// ciphertext, which the cipher cannot tell apart.  `UserCancelled` is the
/// explicit decline of a confirmation and is not a fault.
#[derive(Clone, Copy, Debug, PartialEq, Eq, Structural)]
pub enum ErrorKind {
    NotFound,
    NotAFile,
    InvalidFormat,
    CryptoError,
    IoError,
    UserCancelled,
    ValidationError,
}

/// An error with its cause and a human-readable description.
#[derive(Clone, Debug)]
pub struct Error {
    pub kind: ErrorKind,
    pub desc: String,
}

impl Error {
    /// Build an error of the given kind.
    pub fn new(kind: ErrorKind, desc: &str) -> (r: Error)
        ensures
            r.kind == kind,
            r.desc@ == desc@,
    {
        Error { kind, desc: desc.to_owned() }
    }

    /// The description, for callers that want to print it.
    pub fn message(&self) -> (r: String)
        ensures
            r@ == self.desc@,
    {
        self.desc.clone()
    }
}

} // verus!
