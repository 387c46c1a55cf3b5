//! The errors a backup or restore run can end with.

use vstd::prelude::*;

verus! {

/// Why a run was aborted. The first error of a run ends it and reaches the
/// caller as it is.
#[derive(Clone, Copy, Debug, PartialEq, Eq, Structural)]
pub enum BackupError {
    /// The backup service could not be reached, or its stream broke off.
    ConnectionError,
    /// The requested version was never committed.
    NotFoundError,
    /// The storage backend failed to read or write.
    StorageError,
    /// A stored artifact is malformed or fails a consistency check.
    CorruptionError,
    /// The restored state does not have the root hash of the manifest.
    VerificationError,
}

impl BackupError {
    /// Whether running the same request again can succeed without changing
    /// it: true of connection and storage failures only.
    pub fn is_retryable(&self) -> (r: bool)
        ensures
            r == (*self == BackupError::ConnectionError || *self == BackupError::StorageError),
    {
        match self {
            BackupError::ConnectionError => true,
            BackupError::StorageError => true,
            _ => false,
        }
    }
}

} // verus!
