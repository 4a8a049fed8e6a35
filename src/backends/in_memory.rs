//! A backend that persists nothing.
use vstd::prelude::*;

use crate::error::PersistentError;
use crate::snapshot::{KeyValues, Snapshot};

verus! {

/// A backend that keeps nothing: it loads an empty mapping and accepts every
/// write without storing it. For tests, or where persistence is not wanted.
#[derive(Debug, Default, Clone, Copy)]
pub struct InMemoryBackend;

impl InMemoryBackend {
    /// A new backend.
    pub fn new() -> (r: Self) {
        InMemoryBackend
    }

    /// Loads the persisted state, which is always empty.
    pub fn load_all(&self) -> (r: Result<Snapshot, PersistentError>)
        ensures
            r matches Ok(s) && s@ == KeyValues::empty(),
    {
        Ok(Snapshot::new())
    }

    /// Accepts a save and discards it.
    pub fn save(&self, _key: String, _value: String) -> (r: Result<(), PersistentError>)
        ensures
            r is Ok,
    {
        Ok(())
    }

    /// Accepts a delete; there is nothing to delete.
    pub fn delete(&self, _key: &String) -> (r: Result<(), PersistentError>)
        ensures
            r is Ok,
    {
        Ok(())
    }

    /// Nothing is buffered, so nothing is flushed.
    pub fn flush(&self) -> (r: Result<(), PersistentError>)
        ensures
            r is Ok,
    {
        Ok(())
    }
}

} // verus!
