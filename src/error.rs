use vstd::prelude::*;

verus! {

/// Every failure the publishing core reports.
#[derive(Debug, Clone)]
pub enum AppError {
    /// A site name outside `[A-Za-z0-9_-]{1,64}`.
    InvalidName(String),
    /// A malformed request value (an unparsable id, a file field without a file name).
    InvalidInput(String),
    /// A required upload field that never arrived; holds the field's name.
    MissingField(String),
    /// An archive whose file name has no known suffix.
    UnsupportedFormat,
    /// An archive entry whose path would escape the destination; holds the entry's name.
    UnsafePath(String),
    /// A site name already claimed by another owner; holds the name.
    NameConflict(String),
    /// A record with the same identifier is already stored.
    DuplicateId,
    /// An account with the same username already exists.
    UserAlreadyExists,
    /// Wrong username or password.
    AuthenticationFailed,
    /// The account still owns sites and cannot be deleted.
    UserDeletionBlocked,
    /// No record under the requested id or name.
    NotFound,
    /// The caller does not own the record it tried to change.
    AuthorizationFailed,
    /// The persistence layer failed.
    StorageFailure(String),
    /// Disk input or output failed.
    FilesystemFailure(String),
    /// A computation the service relies on failed (hashing, signing).
    Internal(String),
}

} // verus!
