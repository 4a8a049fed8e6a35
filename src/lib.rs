//! A write-through cache: an in-memory key-value map whose every mutation is
//! handed on to a durable storage backend, and which is reloaded from that
//! backend when it is constructed.
//!
//! The library holds the decisions of the cache; performing a backend's
//! writes (files, database connections) is left to the caller, who takes the
//! [`BackendOp`] that a mutation hands out, runs it, and passes the outcome
//! back to [`PendingWrite::finish`].

mod backends;
pub mod cache;
pub mod error;
mod memory;
pub mod snapshot;

pub use backends::{csv, in_memory, sqlite};
pub use cache::{BackendOp, PendingWrite, PersistentMap};
pub use error::{PersistentError, Result};
pub use snapshot::Snapshot;
