//! Errors of the cache.

use vstd::prelude::*;
use crate::integrity::Integrity;

verus! {

/// The kinds of I/O failure the cache tells apart.
#[derive(Clone, Copy, Debug, PartialEq, Eq, Structural)]
pub enum IoKind {
    NotFound,
    AlreadyExists,
    PermissionDenied,
    Unsupported,
    Other,
}

/// A failed file-system operation, as a kind and a message.
#[derive(Clone, Debug, PartialEq, Eq)]
pub struct IoFailure {
    pub kind: IoKind,
    pub message: String,
}

/// Why integrity text or content failed a check.
#[derive(Clone, Debug, PartialEq, Eq)]
pub enum IntegrityError {
    /// The text is not integrity text.
    ParseIntegrityError(String),
    /// The content's digest (second) does not match the wanted one (first).
    IntegrityCheckError(Integrity, Integrity),
}

/// Error type returned by the cache's operations.
#[derive(Clone, Debug, PartialEq, Eq)]
pub enum Error {
    /// No index entry for the key (second) in the cache (first).
    EntryNotFound(String, String),
    /// The amount of data written (second) is not the announced size (first).
    SizeMismatch(usize, usize),
    /// A file-system operation failed; the text says what was being done.
    IoError(IoFailure, String),
    /// A record could not be encoded or decoded; the text says which.
    SerdeError(String),
    /// An integrity check failed.
    IntegrityError(IntegrityError),
}

/// The failure the cache raises for an unexpected condition of its own.
pub fn io_error(message: &str) -> (r: IoFailure)
    ensures
        r.kind == IoKind::Other,
        r.message@ == message@,
{
    IoFailure { kind: IoKind::Other, message: String::from_str(message) }
}

/// Attaches a description of the operation to an I/O failure.
pub trait IoErrorExt<T>: Sized {
    spec fn with_context_spec(self, context: String) -> Result<T, Error>;

    fn with_context(self, context: String) -> (r: Result<T, Error>)
        ensures
            r == Self::with_context_spec(self, context),
    ;
}

impl<T> IoErrorExt<T> for Result<T, IoFailure> {
    /// Success passes through; a failure becomes `Error::IoError` with the context.
    open spec fn with_context_spec(self, context: String) -> Result<T, Error> {
        match self {
            Ok(t) => Ok(t),
            Err(e) => Err(Error::IoError(e, context)),
        }
    }

    fn with_context(self, context: String) -> (r: Result<T, Error>) {
        match self {
            Ok(t) => Ok(t),
            Err(e) => Err(Error::IoError(e, context)),
        }
    }
}

} // verus!
