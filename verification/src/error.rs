use vstd::prelude::*;

verus! {

/// A typed failure of the connection manager or of one database operation.
///
/// `ConfigMissing` and `ConfigInvalid` are configuration errors (no or
/// malformed connection string); `Connectivity` is a failed liveness check;
/// `Operation` carries the underlying cause of one failed database call;
/// `AlreadyInitialized` and `NotInitialized` mark misuse of the connection
/// lifecycle, which callers are expected to treat as fatal; and
/// `InvalidInsertedId` marks a server reply whose generated identifier is
/// not in the expected form.
#[derive(Debug, PartialEq, Eq)]
pub enum DbError {
    ConfigMissing,
    ConfigInvalid(String),
    Connectivity(String),
    Operation(String),
    AlreadyInitialized,
    NotInitialized,
    InvalidInsertedId,
}

} // verus!
