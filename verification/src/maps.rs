//! Named maps: sub-keys with values under one name.
//!
//! A map is a marker and one entry for each sub-key. The entries of a map
//! lie side by side in the tree, in ascending order of the sub-keys, so
//! iteration and removal by prefix are scans. No count of the entries is
//! kept: the length of a map is the length of such a scan. Each write is
//! one atomic batch.

use vstd::prelude::*;
use vstd::slice::slice_to_vec;
use crate::bytes::{append, tail_from};
use crate::collection::{drop_batch, new_marker, read_live, read_ttl, set_expiry};
use crate::db::StorageDB;
use crate::engine::{
    batch_insert, batch_new, batch_remove, batch_writes, opt_view, pairs_view, with_writes,
};
use crate::error::StorageError;
use crate::keys::{
    encode_entries_prefix, encode_map_entry_key, is_name, map_entries_prefix, map_marker_key,
    measured, Namespace,
};
use crate::model::{
    delete_entries, keys_view, lemma_batch_delete, lemma_batch_put, lemma_no_writes, listable,
    map_delete, map_delete_all, map_delete_prefix, map_dropped, map_get, map_items, map_len,
    map_live, map_put, map_put_all, map_ready, marker_corrupt, marker_expire_at, marker_ttl,
    put_entries, stripped,
};
use crate::ttl::{deadline, expires_after, TimestampMillis};

verus! {

/// A handle to a map kept by `sled`: the map's name, and the lifetime that
/// the map gets when a write makes it.
#[derive(Clone, Debug)]
pub struct SledStorageMap {
    /// The map's name.
    pub name: Vec<u8>,
    /// Milliseconds from creation to expiry; `None`: the map never
    /// expires.
    pub expire: Option<TimestampMillis>,
}

/// A handle to a map, whatever engine keeps it. The handle owns no
/// storage: every operation names the database it works on.
#[derive(Clone, Debug)]
pub enum StorageMap {
    /// A map kept by `sled`.
    Sled(SledStorageMap),
}

impl StorageMap {
    /// The map's name.
    pub open spec fn label(&self) -> Seq<u8> {
        match self {
            StorageMap::Sled(map) => map.name@,
        }
    }

    /// The lifetime that the map gets when a write makes it.
    pub open spec fn lifetime(&self) -> Option<i64> {
        match self {
            StorageMap::Sled(map) => map.expire,
        }
    }

    /// The key of the map's marker.
    pub open spec fn marker(&self) -> Seq<u8> {
        map_marker_key(self.label())
    }

    /// The map's name.
    pub fn name(&self) -> (r: &[u8])
        ensures
            r@ == self.label(),
            is_name(self.label()),
    {
        match self {
            StorageMap::Sled(map) => {
                let name = map.name.as_slice();
                let _len = measured(name);
                name
            },
        }
    }

    /// The lifetime that the handle was opened with.
    fn expire_setting(&self) -> (r: Option<TimestampMillis>)
        ensures
            r == self.lifetime(),
    {
        match self {
            StorageMap::Sled(map) => map.expire,
        }
    }

    /// Whether the map exists at `now`.
    fn live(&self, db: &StorageDB, now: TimestampMillis) -> (r: Result<bool, StorageError>)
        ensures
            match r {
                Ok(live) => !marker_corrupt(db@, self.marker()) && live == map_live(
                    db@,
                    self.label(),
                    now,
                ),
                Err(StorageError::Corruption) => marker_corrupt(db@, self.marker()),
                Err(e) => e is Io,
            },
    {
        let marker = Namespace::MapMarker.encode_key(self.name());
        read_live(db, marker.as_slice(), now)
    }

    /// The batch that a write to the map starts with: for a map that
    /// exists, no writes; otherwise the deletion of what an expired map
    /// left behind, and a new marker.
    fn ready(&self, db: &StorageDB, now: TimestampMillis) -> (r: Result<sled::Batch, StorageError>)
        ensures
            match r {
                Ok(batch) => {
                    &&& !marker_corrupt(db@, self.marker())
                    &&& with_writes(db@, batch_writes(batch)) == map_ready(
                        db@,
                        self.label(),
                        now,
                        self.lifetime(),
                    )
                },
                Err(StorageError::Corruption) => marker_corrupt(db@, self.marker()),
                Err(e) => e is Io,
            },
    {
        if self.live(db, now)? {
            let batch = batch_new();
            proof {
                lemma_no_writes(db@);
            }
            return Ok(batch);
        }
        let entries = encode_entries_prefix(Namespace::MapEntry, self.name());
        let mut batch = drop_batch(db, entries.as_slice())?;
        let marker = Namespace::MapMarker.encode_key(self.name());
        let record = new_marker(now, self.expire_setting());
        proof {
            lemma_batch_put(db@, batch_writes(batch), marker@, record@);
        }
        batch_insert(&mut batch, marker.as_slice(), record.as_slice());
        proof {
            let made = with_writes(db@, batch_writes(batch));
            let want = map_ready(db@, self.label(), now, self.lifetime());
            assert(made =~= want);
        }
        Ok(batch)
    }

    /// Sets entry `key` to `val`. A map that does not exist at `now` is
    /// made by this write.
    pub fn insert(&self, db: &mut StorageDB, key: &[u8], val: &[u8], now: TimestampMillis) -> (r:
        Result<(), StorageError>)
        ensures
            match r {
                Ok(()) => {
                    &&& !marker_corrupt(old(db)@, self.marker())
                    &&& final(db)@ == map_put(
                        old(db)@,
                        self.label(),
                        key@,
                        val@,
                        now,
                        self.lifetime(),
                    )
                },
                Err(StorageError::Corruption) => marker_corrupt(old(db)@, self.marker())
                    && final(db)@ == old(db)@,
                Err(e) => e is Io,
            },
    {
        let mut batch = self.ready(db, now)?;
        let place = encode_map_entry_key(self.name(), key);
        proof {
            lemma_batch_put(db@, batch_writes(batch), place@, val@);
        }
        batch_insert(&mut batch, place.as_slice(), val);
        db.commit(batch)
    }

    /// The value of entry `key` at `now`; `None` if the entry is absent or
    /// the map does not exist.
    pub fn get(&self, db: &StorageDB, key: &[u8], now: TimestampMillis) -> (r: Result<
        Option<Vec<u8>>,
        StorageError,
    >)
        ensures
            match r {
                Ok(found) => !marker_corrupt(db@, self.marker()) && opt_view(found) == map_get(
                    db@,
                    self.label(),
                    key@,
                    now,
                ),
                Err(StorageError::Corruption) => marker_corrupt(db@, self.marker()),
                Err(e) => e is Io,
            },
    {
        if !self.live(db, now)? {
            return Ok(None);
        }
        let place = encode_map_entry_key(self.name(), key);
        db.read(place.as_slice())
    }

    /// Whether entry `key` holds a value at `now`.
    pub fn contains_key(&self, db: &StorageDB, key: &[u8], now: TimestampMillis) -> (r: Result<
        bool,
        StorageError,
    >)
        ensures
            match r {
                Ok(found) => !marker_corrupt(db@, self.marker()) && found == map_get(
                    db@,
                    self.label(),
                    key@,
                    now,
                ) is Some,
                Err(StorageError::Corruption) => marker_corrupt(db@, self.marker()),
                Err(e) => e is Io,
            },
    {
        match self.get(db, key, now)? {
            Some(_) => Ok(true),
            None => Ok(false),
        }
    }

    /// Removes entry `key`. A map that does not exist at `now` is left
    /// alone.
    pub fn remove(&self, db: &mut StorageDB, key: &[u8], now: TimestampMillis) -> (r: Result<
        (),
        StorageError,
    >)
        ensures
            match r {
                Ok(()) => {
                    &&& !marker_corrupt(old(db)@, self.marker())
                    &&& final(db)@ == map_delete(old(db)@, self.label(), key@, now)
                },
                Err(StorageError::Corruption) => marker_corrupt(old(db)@, self.marker())
                    && final(db)@ == old(db)@,
                Err(e) => e is Io,
            },
    {
        match self.remove_and_fetch(db, key, now) {
            Ok(_) => Ok(()),
            Err(e) => Err(e),
        }
    }

    /// Removes entry `key` and hands back the value it held.
    pub fn remove_and_fetch(&self, db: &mut StorageDB, key: &[u8], now: TimestampMillis) -> (r:
        Result<Option<Vec<u8>>, StorageError>)
        ensures
            match r {
                Ok(found) => {
                    &&& !marker_corrupt(old(db)@, self.marker())
                    &&& opt_view(found) == map_get(old(db)@, self.label(), key@, now)
                    &&& final(db)@ == map_delete(old(db)@, self.label(), key@, now)
                },
                Err(StorageError::Corruption) => marker_corrupt(old(db)@, self.marker())
                    && final(db)@ == old(db)@,
                Err(e) => e is Io,
            },
    {
        if !self.live(db, now)? {
            return Ok(None);
        }
        let place = encode_map_entry_key(self.name(), key);
        db.delete(place.as_slice())
    }

    /// Sets every entry of `key_vals`, first to last, in one atomic batch.
    /// Without entries nothing is read or written, and the call succeeds.
    pub fn batch_insert(
        &self,
        db: &mut StorageDB,
        key_vals: Vec<(Vec<u8>, Vec<u8>)>,
        now: TimestampMillis,
    ) -> (r: Result<(), StorageError>)
        ensures
            key_vals@.len() == 0 ==> r is Ok,
            match r {
                Ok(()) => {
                    &&& key_vals@.len() > 0 ==> !marker_corrupt(old(db)@, self.marker())
                    &&& final(db)@ == map_put_all(
                        old(db)@,
                        self.label(),
                        pairs_view(key_vals@),
                        now,
                        self.lifetime(),
                    )
                },
                Err(StorageError::Corruption) => marker_corrupt(old(db)@, self.marker())
                    && final(db)@ == old(db)@,
                Err(e) => e is Io,
            },
    {
        let n: usize = key_vals.len();
        if n == 0 {
            return Ok(());
        }
        let mut batch = self.ready(db, now)?;
        let ghost s = db@;
        let ghost ready = map_ready(s, self.label(), now, self.lifetime());
        let ghost prefix = map_entries_prefix(self.label());
        let mut i: usize = 0;
        while i < n
            invariant
                n == key_vals@.len(),
                i <= n,
                prefix == map_entries_prefix(self.label()),
                with_writes(s, batch_writes(batch)) == put_entries(
                    ready,
                    prefix,
                    pairs_view(key_vals@).subrange(0, i as int),
                ),
            decreases n - i,
        {
            let place = encode_map_entry_key(self.name(), key_vals[i].0.as_slice());
            proof {
                let upto = pairs_view(key_vals@).subrange(0, i + 1);
                assert(upto.drop_last() =~= pairs_view(key_vals@).subrange(0, i as int));
                assert(upto.last() == (key_vals@[i as int].0@, key_vals@[i as int].1@));
                lemma_batch_put(s, batch_writes(batch), place@, key_vals@[i as int].1@);
            }
            batch_insert(&mut batch, place.as_slice(), key_vals[i].1.as_slice());
            i += 1;
        }
        assert(pairs_view(key_vals@).subrange(0, n as int) =~= pairs_view(key_vals@));
        db.commit(batch)
    }

    /// Removes every entry of `keys` in one atomic batch. A map that does
    /// not exist at `now` is left alone.
    pub fn batch_remove(&self, db: &mut StorageDB, keys: Vec<Vec<u8>>, now: TimestampMillis) -> (r:
        Result<(), StorageError>)
        ensures
            match r {
                Ok(()) => {
                    &&& !marker_corrupt(old(db)@, self.marker())
                    &&& final(db)@ == map_delete_all(
                        old(db)@,
                        self.label(),
                        keys_view(keys@),
                        now,
                    )
                },
                Err(StorageError::Corruption) => marker_corrupt(old(db)@, self.marker())
                    && final(db)@ == old(db)@,
                Err(e) => e is Io,
            },
    {
        if !self.live(db, now)? {
            return Ok(());
        }
        let mut batch = batch_new();
        let ghost s = db@;
        let ghost prefix = map_entries_prefix(self.label());
        proof {
            lemma_no_writes(s);
        }
        let n: usize = keys.len();
        let mut i: usize = 0;
        while i < n
            invariant
                n == keys@.len(),
                i <= n,
                prefix == map_entries_prefix(self.label()),
                with_writes(s, batch_writes(batch)) == delete_entries(
                    s,
                    prefix,
                    keys_view(keys@).subrange(0, i as int),
                ),
            decreases n - i,
        {
            let place = encode_map_entry_key(self.name(), keys[i].as_slice());
            proof {
                let upto = keys_view(keys@).subrange(0, i + 1);
                assert(upto.drop_last() =~= keys_view(keys@).subrange(0, i as int));
                assert(upto.last() == keys@[i as int]@);
                lemma_batch_delete(s, batch_writes(batch), place@);
            }
            batch_remove(&mut batch, place.as_slice());
            i += 1;
        }
        assert(keys_view(keys@).subrange(0, n as int) =~= keys_view(keys@));
        db.commit(batch)
    }

    /// Removes every entry whose sub-key begins with `prefix`. A map that
    /// does not exist at `now` is left alone.
    pub fn remove_with_prefix(&self, db: &mut StorageDB, prefix: &[u8], now: TimestampMillis) -> (r:
        Result<(), StorageError>)
        ensures
            match r {
                Ok(()) => {
                    &&& !marker_corrupt(old(db)@, self.marker())
                    &&& final(db)@ == map_delete_prefix(old(db)@, self.label(), prefix@, now)
                },
                Err(StorageError::Corruption) => marker_corrupt(old(db)@, self.marker())
                    && final(db)@ == old(db)@,
                Err(e) => e is Io,
            },
    {
        if !self.live(db, now)? {
            return Ok(());
        }
        let mut under = encode_entries_prefix(Namespace::MapEntry, self.name());
        append(&mut under, prefix);
        let batch = drop_batch(db, under.as_slice())?;
        db.commit(batch)
    }

    /// Drops the map: its entries and its marker.
    pub fn clear(&self, db: &mut StorageDB) -> (r: Result<(), StorageError>)
        ensures
            match r {
                Ok(()) => final(db)@ == map_dropped(old(db)@, self.label()),
                Err(e) => e is Io,
            },
    {
        drop_map(db, self.name())
    }

    /// The entries whose sub-key begins with `prefix`, in ascending order
    /// of the sub-keys, as a read at `now` sees them.
    pub fn prefix_iter(&self, db: &StorageDB, prefix: &[u8], now: TimestampMillis) -> (r: Result<
        Vec<(Vec<u8>, Vec<u8>)>,
        StorageError,
    >)
        ensures
            match r {
                Ok(items) => {
                    &&& !marker_corrupt(db@, self.marker())
                    &&& pairs_view(items@) == map_items(db@, self.label(), prefix@, now)
                    &&& map_live(db@, self.label(), now) ==> listable(
                        db@,
                        map_entries_prefix(self.label()) + prefix@,
                    )
                },
                Err(StorageError::Corruption) => marker_corrupt(db@, self.marker()),
                Err(e) => e is Io,
            },
    {
        let mut items: Vec<(Vec<u8>, Vec<u8>)> = Vec::new();
        if !self.live(db, now)? {
            assert(pairs_view(items@) =~= map_items(db@, self.label(), prefix@, now));
            return Ok(items);
        }
        let entries = encode_entries_prefix(Namespace::MapEntry, self.name());
        let skip: usize = entries.len();
        let mut under = entries;
        append(&mut under, prefix);
        let found = db.scan_prefix(under.as_slice())?;
        let ghost scanned = pairs_view(found@);
        let n: usize = found.len();
        let mut i: usize = 0;
        while i < n
            invariant
                n == found@.len(),
                i <= n,
                scanned == pairs_view(found@),
                skip == map_entries_prefix(self.label()).len(),
                forall|j: int| 0 <= j < n ==> under@.is_prefix_of(#[trigger] scanned[j].0),
                under@.len() >= skip,
                items@.len() == i,
                forall|j: int|
                    0 <= j < i ==> #[trigger] pairs_view(items@)[j] == stripped(
                        scanned,
                        skip as nat,
                    )[j],
            decreases n - i,
        {
            assert(under@.is_prefix_of(scanned[i as int].0));
            let sub = tail_from(found[i].0.as_slice(), skip);
            let value = slice_to_vec(found[i].1.as_slice());
            let ghost so_far = items@;
            items.push((sub, value));
            proof {
                assert(scanned[i as int] == (found@[i as int].0@, found@[i as int].1@));
                assert forall|j: int| 0 <= j < i + 1 implies #[trigger] pairs_view(items@)[j]
                    == stripped(scanned, skip as nat)[j] by {
                    if j < i {
                        assert(items@[j] == so_far[j]);
                        assert(pairs_view(so_far)[j] == stripped(scanned, skip as nat)[j]);
                    }
                }
            }
            i += 1;
        }
        assert(pairs_view(items@) =~= stripped(scanned, skip as nat));
        Ok(items)
    }

    /// Every entry in ascending order of the sub-keys, as a read at `now`
    /// sees them.
    pub fn iter(&self, db: &StorageDB, now: TimestampMillis) -> (r: Result<
        Vec<(Vec<u8>, Vec<u8>)>,
        StorageError,
    >)
        ensures
            match r {
                Ok(items) => {
                    &&& !marker_corrupt(db@, self.marker())
                    &&& pairs_view(items@) == map_items(db@, self.label(), Seq::empty(), now)
                    &&& map_live(db@, self.label(), now) ==> listable(
                        db@,
                        map_entries_prefix(self.label()) + Seq::empty(),
                    )
                },
                Err(StorageError::Corruption) => marker_corrupt(db@, self.marker()),
                Err(e) => e is Io,
            },
    {
        let none: Vec<u8> = Vec::new();
        assert(none@ =~= Seq::<u8>::empty());
        self.prefix_iter(db, none.as_slice(), now)
    }

    /// Every sub-key in ascending order, as a read at `now` sees them.
    pub fn key_iter(&self, db: &StorageDB, now: TimestampMillis) -> (r: Result<
        Vec<Vec<u8>>,
        StorageError,
    >)
        ensures
            match r {
                Ok(keys) => {
                    &&& !marker_corrupt(db@, self.marker())
                    &&& map_live(db@, self.label(), now) ==> listable(
                        db@,
                        map_entries_prefix(self.label()) + Seq::empty(),
                    )
                    &&& keys@.len() == map_len(db@, self.label(), now)
                    &&& forall|i: int|
                        0 <= i < keys@.len() ==> #[trigger] keys@[i]@ == map_items(
                            db@,
                            self.label(),
                            Seq::empty(),
                            now,
                        )[i].0
                },
                Err(StorageError::Corruption) => marker_corrupt(db@, self.marker()),
                Err(e) => e is Io,
            },
    {
        let items = self.iter(db, now)?;
        let mut keys: Vec<Vec<u8>> = Vec::new();
        let n: usize = items.len();
        let mut i: usize = 0;
        while i < n
            invariant
                n == items@.len(),
                i <= n,
                keys@.len() == i,
                forall|j: int| 0 <= j < i ==> #[trigger] keys@[j]@ == pairs_view(items@)[j].0,
            decreases n - i,
        {
            keys.push(slice_to_vec(items[i].0.as_slice()));
            i += 1;
        }
        Ok(keys)
    }

    /// The number of entries that a read at `now` sees.
    pub fn len(&self, db: &StorageDB, now: TimestampMillis) -> (r: Result<usize, StorageError>)
        ensures
            match r {
                Ok(n) => {
                    &&& !marker_corrupt(db@, self.marker())
                    &&& n == map_len(db@, self.label(), now)
                    &&& map_live(db@, self.label(), now) ==> listable(
                        db@,
                        map_entries_prefix(self.label()) + Seq::empty(),
                    )
                },
                Err(StorageError::Corruption) => marker_corrupt(db@, self.marker()),
                Err(e) => e is Io,
            },
    {
        let items = self.iter(db, now)?;
        Ok(items.len())
    }

    /// Whether a read at `now` sees no entry.
    pub fn is_empty(&self, db: &StorageDB, now: TimestampMillis) -> (r: Result<bool, StorageError>)
        ensures
            match r {
                Ok(empty) => {
                    &&& !marker_corrupt(db@, self.marker())
                    &&& empty == (map_len(db@, self.label(), now) == 0)
                    &&& map_live(db@, self.label(), now) ==> listable(
                        db@,
                        map_entries_prefix(self.label()) + Seq::empty(),
                    )
                },
                Err(StorageError::Corruption) => marker_corrupt(db@, self.marker()),
                Err(e) => e is Io,
            },
    {
        let items = self.iter(db, now)?;
        Ok(items.len() == 0)
    }

    /// Lets the map expire at time `at`. Says whether the map's marker
    /// was there, expired or not; a map that was never written gets no
    /// expiry time.
    pub fn expire_at(&self, db: &mut StorageDB, at: TimestampMillis) -> (r: Result<
        bool,
        StorageError,
    >)
        ensures
            match r {
                Ok(existed) => {
                    &&& !marker_corrupt(old(db)@, self.marker())
                    &&& existed == old(db)@.contains_key(self.marker())
                    &&& final(db)@ == marker_expire_at(old(db)@, self.marker(), at)
                },
                Err(StorageError::Corruption) => marker_corrupt(old(db)@, self.marker())
                    && final(db)@ == old(db)@,
                Err(e) => e is Io,
            },
    {
        let marker = Namespace::MapMarker.encode_key(self.name());
        set_expiry(db, marker.as_slice(), at)
    }

    /// Lets the map expire `dur` milliseconds after `now`.
    pub fn expire(&self, db: &mut StorageDB, dur: TimestampMillis, now: TimestampMillis) -> (r:
        Result<bool, StorageError>)
        ensures
            match r {
                Ok(existed) => {
                    &&& !marker_corrupt(old(db)@, self.marker())
                    &&& existed == old(db)@.contains_key(self.marker())
                    &&& final(db)@ == marker_expire_at(
                        old(db)@,
                        self.marker(),
                        deadline(now, dur),
                    )
                },
                Err(StorageError::Corruption) => marker_corrupt(old(db)@, self.marker())
                    && final(db)@ == old(db)@,
                Err(e) => e is Io,
            },
    {
        self.expire_at(db, expires_after(now, dur))
    }

    /// The milliseconds that the map has left at `now`; `None` if it does
    /// not exist, has expired or never expires.
    pub fn ttl(&self, db: &StorageDB, now: TimestampMillis) -> (r: Result<
        Option<TimestampMillis>,
        StorageError,
    >)
        ensures
            match r {
                Ok(left) => !marker_corrupt(db@, self.marker()) && left == marker_ttl(
                    db@,
                    self.marker(),
                    now,
                ),
                Err(StorageError::Corruption) => marker_corrupt(db@, self.marker()),
                Err(e) => e is Io,
            },
    {
        let marker = Namespace::MapMarker.encode_key(self.name());
        read_ttl(db, marker.as_slice(), now)
    }
}

/// Drops map `name` in one atomic batch: its entries and its marker.
pub(crate) fn drop_map(db: &mut StorageDB, name: &[u8]) -> (r: Result<(), StorageError>)
    ensures
        match r {
            Ok(()) => final(db)@ == map_dropped(old(db)@, name@),
            Err(e) => e is Io,
        },
{
    let entries = encode_entries_prefix(Namespace::MapEntry, name);
    let mut batch = drop_batch(db, entries.as_slice())?;
    let marker = Namespace::MapMarker.encode_key(name);
    proof {
        lemma_batch_delete(db@, batch_writes(batch), marker@);
    }
    batch_remove(&mut batch, marker.as_slice());
    db.commit(batch)
}

} // verus!
