use vstd::prelude::*;

verus! {

/// Errors that a backend, and so a cache operation, can report.
#[derive(Debug, PartialEq, Eq)]
pub enum PersistentError {
    /// The relational backend failed.
    Sqlite(String),
    /// The flat-file backend could not read or write a record.
    Csv(String),
    /// The medium could not be reached or written.
    Io(String),
    /// A value could not be encoded or decoded.
    Serde(String),
}

/// A result whose error defaults to [`PersistentError`].
pub type Result<T, E = PersistentError> = core::result::Result<T, E>;

} // verus!
