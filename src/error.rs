use vstd::prelude::*;

verus! {

/// Errors of the storage layer.
#[derive(Debug, Clone, PartialEq, Eq)]
pub enum Error {
    /// No record is stored under the requested key.
    RecordNotFound,
    /// A failure reported by a backend; the detail is opaque.
    Storage(String),
    /// A stored value failed to decode or to authenticate under the key.
    DecryptionError,
    /// The persisted schema version (as stored) differs from the running one.
    UnsupportedSchemaVersion(String),
    /// The registry lists an account index whose record is missing.
    InconsistentRegistry(u32),
}

/// Shorthand for results of the storage layer.
pub type Result<T> = core::result::Result<T, Error>;

/// Wraps a backend-reported failure, leaving its detail uninterpreted.
pub fn storage_err(detail: String) -> (r: Error)
    ensures
        r == Error::Storage(detail),
{
    Error::Storage(detail)
}

} // verus!
