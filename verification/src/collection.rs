//! What maps and lists share: the marker that says a collection exists
//! and when it expires, and the batch that drops a collection's entries.

use vstd::prelude::*;
use crate::db::StorageDB;
use crate::engine::{batch_new, batch_remove, batch_writes, pairs_view, with_writes};
use crate::error::StorageError;
use crate::meta::Meta;
use crate::model::{
    fresh_marker, marker_corrupt, marker_expire_at, marker_live, marker_meta, marker_ttl,
    without_prefix,
};
use crate::ttl::{expired, expiry_after, time_left, TimestampMillis};

verus! {

/// Reads the marker stored under `marker`.
pub(crate) fn read_marker(db: &StorageDB, marker: &[u8]) -> (r: Result<Option<Meta>, StorageError>)
    ensures
        match r {
            Ok(meta) => !marker_corrupt(db@, marker@) && meta == marker_meta(db@, marker@),
            Err(StorageError::Corruption) => marker_corrupt(db@, marker@),
            Err(e) => e is Io,
        },
{
    match db.read(marker)? {
        None => Ok(None),
        Some(record) => match Meta::decode(record.as_slice()) {
            Some(meta) => Ok(Some(meta)),
            None => Err(StorageError::Corruption),
        },
    }
}

/// Whether the collection with the marker stored under `marker` exists at
/// `now`.
pub(crate) fn read_live(db: &StorageDB, marker: &[u8], now: TimestampMillis) -> (r: Result<
    bool,
    StorageError,
>)
    ensures
        match r {
            Ok(live) => !marker_corrupt(db@, marker@) && live == marker_live(db@, marker@, now),
            Err(StorageError::Corruption) => marker_corrupt(db@, marker@),
            Err(e) => e is Io,
        },
{
    match read_marker(db, marker)? {
        None => Ok(false),
        Some(meta) => Ok(!expired(meta.expiry, now)),
    }
}

/// The marker record of a collection made at `now`.
pub(crate) fn new_marker(now: TimestampMillis, lifetime: Option<TimestampMillis>) -> (out: Vec<u8>)
    ensures
        out@ == fresh_marker(now, lifetime),
{
    let meta = Meta { created: now, expiry: expiry_after(now, lifetime) };
    meta.encode()
}

/// Lets the collection with the marker stored under `marker` expire at
/// `at`. Says whether the marker was there.
pub(crate) fn set_expiry(db: &mut StorageDB, marker: &[u8], at: TimestampMillis) -> (r: Result<
    bool,
    StorageError,
>)
    ensures
        match r {
            Ok(existed) => {
                &&& !marker_corrupt(old(db)@, marker@)
                &&& existed == old(db)@.contains_key(marker@)
                &&& final(db)@ == marker_expire_at(old(db)@, marker@, at)
            },
            Err(StorageError::Corruption) => marker_corrupt(old(db)@, marker@) && final(db)@
                == old(db)@,
            Err(e) => e is Io,
        },
{
    match read_marker(db, marker)? {
        None => Ok(false),
        Some(meta) => {
            let next = Meta { created: meta.created, expiry: Some(at) };
            let record = next.encode();
            db.write(marker, record.as_slice())?;
            Ok(true)
        },
    }
}

/// The milliseconds that the collection with the marker stored under
/// `marker` has left at `now`.
pub(crate) fn read_ttl(db: &StorageDB, marker: &[u8], now: TimestampMillis) -> (r: Result<
    Option<TimestampMillis>,
    StorageError,
>)
    ensures
        match r {
            Ok(left) => !marker_corrupt(db@, marker@) && left == marker_ttl(db@, marker@, now),
            Err(StorageError::Corruption) => marker_corrupt(db@, marker@),
            Err(e) => e is Io,
        },
{
    match read_marker(db, marker)? {
        None => Ok(None),
        Some(meta) => Ok(time_left(meta.expiry, now)),
    }
}

/// A batch that deletes every entry whose key begins with `prefix`.
pub(crate) fn drop_batch(db: &StorageDB, prefix: &[u8]) -> (r: Result<sled::Batch, StorageError>)
    ensures
        match r {
            Ok(batch) => with_writes(db@, batch_writes(batch)) == without_prefix(db@, prefix@),
            Err(e) => e is Io,
        },
{
    let found = db.scan_prefix(prefix)?;
    let ghost entries = pairs_view(found@);
    let mut batch = batch_new();
    let n: usize = found.len();
    let mut i: usize = 0;
    while i < n
        invariant
            n == found@.len(),
            i <= n,
            entries == pairs_view(found@),
            forall|k: Seq<u8>| #[trigger]
                batch_writes(batch).contains_key(k) <==> exists|j: int|
                    0 <= j < i && #[trigger] entries[j].0 == k,
            forall|k: Seq<u8>| #[trigger]
                batch_writes(batch).contains_key(k) ==> batch_writes(batch)[k] is None,
        decreases n - i,
    {
        let ghost before = batch_writes(batch);
        batch_remove(&mut batch, found[i].0.as_slice());
        proof {
            let added = entries[i as int].0;
            assert(added == found@[i as int].0@);
            assert forall|k: Seq<u8>| #[trigger]
                batch_writes(batch).contains_key(k) <==> exists|j: int|
                    0 <= j < i + 1 && #[trigger] entries[j].0 == k by {
                if before.contains_key(k) {
                    let j = choose|j: int| 0 <= j < i && #[trigger] entries[j].0 == k;
                    assert(0 <= j < i + 1 && entries[j].0 == k);
                }
                if exists|j: int| 0 <= j < i + 1 && #[trigger] entries[j].0 == k {
                    let j = choose|j: int| 0 <= j < i + 1 && #[trigger] entries[j].0 == k;
                    if j < i {
                        assert(before.contains_key(k));
                    }
                }
            }
        }
        i += 1;
    }
    proof {
        let after = with_writes(db@, batch_writes(batch));
        let want = without_prefix(db@, prefix@);
        assert forall|k: Seq<u8>| after.contains_key(k) <==> want.contains_key(k) by {
            if batch_writes(batch).contains_key(k) {
                let j = choose|j: int| 0 <= j < n && #[trigger] entries[j].0 == k;
                assert(prefix@.is_prefix_of(entries[j].0));
            }
        }
        assert(after =~= want);
    }
    Ok(batch)
}

} // verus!
