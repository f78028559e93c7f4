//! The errors that the store reports.

use vstd::prelude::*;

verus! {

/// Why an operation failed. A key or collection that is not there is no
/// error: reads report it as `None`.
#[derive(Debug)]
pub enum StorageError {
    /// The configuration cannot be used: the storage directory is empty,
    /// or, on opening, the page cache is smaller than the engine needs.
    Config,
    /// The engine failed; its error is handed on as it came.
    Io(sled::Error),
    /// A stored record does not have the form that this library writes.
    Corruption,
    /// A list cannot take what is pushed: its tail would leave the 64-bit
    /// range.
    ListFull,
    /// A counter could not be updated within the allowed attempts.
    ConflictRetryExhausted,
}

} // verus!
