//! The ordered store that everything else is written on: get, put,
//! remove, compare-and-swap, prefix and range scans and atomic batches on
//! one `sled` tree.

use vstd::prelude::*;
use crate::engine::{
    batch_writes, db_size_on_disk, is_prefix_scan, is_range_scan, lookup, made_with, opt_slice_view,
    opt_view, pairs_view, tree_apply_batch, tree_compare_and_swap, tree_entries, tree_get,
    tree_insert, tree_range, tree_remove, tree_scan_prefix, with_write, with_writes,
};
use crate::error::StorageError;
use crate::model::{lemma_ordered_entries, ordered_entries, Store};

verus! {

/// An open `sled` database, used through its default tree.
pub struct SledStorageDB {
    db: sled::Db,
}

impl SledStorageDB {
    /// What the tree holds.
    pub closed spec fn view(&self) -> Store {
        tree_entries(self.db)
    }

    /// What the database was asked to open with: the directory, the cache
    /// capacity, the flush interval, and whether the mode is `LowSpace`.
    pub closed spec fn opened_with(&self) -> (Seq<char>, u64, Option<u64>, bool) {
        made_with(self.db)
    }

    /// Takes over a database that has just been opened: the store holds
    /// what the tree of that database holds, and was opened with what
    /// that database was opened with.
    pub(crate) fn hold(db: sled::Db) -> (store: Self)
        ensures
            store@ == tree_entries(db),
            store.opened_with() == made_with(db),
    {
        SledStorageDB { db }
    }

    /// The value stored under `key`.
    pub fn get(&self, key: &[u8]) -> (r: Result<Option<Vec<u8>>, StorageError>)
        ensures
            match r {
                Ok(found) => opt_view(found) == lookup(self@, key@),
                Err(e) => e is Io,
            },
    {
        match tree_get(&self.db, key) {
            Ok(found) => Ok(found),
            Err(e) => Err(StorageError::Io(e)),
        }
    }

    /// Stores `value` under `key`.
    pub fn put(&mut self, key: &[u8], value: &[u8]) -> (r: Result<(), StorageError>)
        ensures
            match r {
                Ok(()) => final(self)@ == old(self)@.insert(key@, value@),
                Err(e) => e is Io,
            },
    {
        match tree_insert(&mut self.db, key, value) {
            Ok(_) => Ok(()),
            Err(e) => Err(StorageError::Io(e)),
        }
    }

    /// Deletes `key` and hands back the value it held.
    pub fn remove(&mut self, key: &[u8]) -> (r: Result<Option<Vec<u8>>, StorageError>)
        ensures
            match r {
                Ok(previous) => {
                    &&& final(self)@ == old(self)@.remove(key@)
                    &&& opt_view(previous) == lookup(old(self)@, key@)
                },
                Err(e) => e is Io,
            },
    {
        match tree_remove(&mut self.db, key) {
            Ok(previous) => Ok(previous),
            Err(e) => Err(StorageError::Io(e)),
        }
    }

    /// Writes `proposed` under `key` if the key holds `expected`, where
    /// `None` stands for no value. Says whether it did.
    pub fn swap(&mut self, key: &[u8], expected: Option<&[u8]>, proposed: Option<&[u8]>) -> (r:
        Result<bool, StorageError>)
        ensures
            match r {
                Ok(swapped) => {
                    &&& swapped == (lookup(old(self)@, key@) == opt_slice_view(expected))
                    &&& final(self)@ == if swapped {
                        with_write(old(self)@, key@, opt_slice_view(proposed))
                    } else {
                        old(self)@
                    }
                },
                Err(e) => e is Io,
            },
    {
        match tree_compare_and_swap(&mut self.db, key, expected, proposed) {
            Ok(swapped) => Ok(swapped),
            Err(e) => Err(StorageError::Io(e)),
        }
    }

    /// Every entry whose key begins with `prefix`, in ascending order of
    /// the keys.
    pub fn scan_prefix(&self, prefix: &[u8]) -> (r: Result<Vec<(Vec<u8>, Vec<u8>)>, StorageError>)
        ensures
            match r {
                Ok(found) => {
                    &&& pairs_view(found@) == ordered_entries(self@, prefix@)
                    &&& is_prefix_scan(pairs_view(found@), self@, prefix@)
                },
                Err(e) => e is Io,
            },
    {
        match tree_scan_prefix(&self.db, prefix) {
            Ok(found) => {
                proof {
                    lemma_ordered_entries(pairs_view(found@), self@, prefix@);
                }
                Ok(found)
            },
            Err(e) => Err(StorageError::Io(e)),
        }
    }

    /// Every entry whose key sorts at or behind `lo` and before `hi`, in
    /// ascending order of the keys.
    pub fn scan_range(&self, lo: &[u8], hi: &[u8]) -> (r: Result<
        Vec<(Vec<u8>, Vec<u8>)>,
        StorageError,
    >)
        ensures
            match r {
                Ok(found) => is_range_scan(pairs_view(found@), self@, lo@, hi@),
                Err(e) => e is Io,
            },
    {
        match tree_range(&self.db, lo, hi) {
            Ok(found) => Ok(found),
            Err(e) => Err(StorageError::Io(e)),
        }
    }

    /// Makes all writes of `batch` at once.
    pub fn apply(&mut self, batch: sled::Batch) -> (r: Result<(), StorageError>)
        ensures
            match r {
                Ok(()) => final(self)@ == with_writes(old(self)@, batch_writes(batch)),
                Err(e) => e is Io,
            },
    {
        match tree_apply_batch(&mut self.db, batch) {
            Ok(()) => Ok(()),
            Err(e) => Err(StorageError::Io(e)),
        }
    }

    /// The size of the database's files in bytes.
    pub fn size_on_disk(&self) -> (r: Result<u64, StorageError>)
        ensures
            r matches Err(e) ==> e is Io,
    {
        match db_size_on_disk(&self.db) {
            Ok(size) => Ok(size),
            Err(e) => Err(StorageError::Io(e)),
        }
    }
}

} // verus!
