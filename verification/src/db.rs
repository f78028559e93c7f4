//! The database handle: flat keys, counters, and the way to maps and lists.

use vstd::prelude::*;
use crate::arith::{saturating_difference, saturating_sum, to_word};
use crate::bytes::{decode_i64, encode_i64};
use crate::engine::{
    batch_insert, batch_new, batch_remove, batch_writes, is_prefix_scan, is_range_scan, lookup,
    opt_slice_view, opt_view, pairs_view, with_write, with_writes,
};
use crate::error::StorageError;
use crate::keys::{counter_key, kv_key, Namespace};
use crate::model::{
    counter_add, counter_corrupt, counter_get, counter_put, keys_view, kv_corrupt, kv_delete,
    kv_delete_all, kv_expire_at, kv_get, kv_live, kv_put, kv_put_all, kv_ttl, lemma_batch_delete,
    lemma_batch_put, lemma_no_writes, ordered_entries, Store,
};
use crate::store::SledStorageDB;
use crate::ttl::{deadline, expired, expires_after, time_left, TimestampMillis};

verus! {

/// How often a counter update is tried before it gives up.
pub const COUNTER_ATTEMPTS: usize = 100;

/// What a counter update does after an attempt to write.
#[derive(Clone, Copy, Debug, PartialEq, Eq, Structural)]
pub enum Attempt {
    /// The new value has been written.
    Done,
    /// The counter changed in between: read it and try again.
    Again,
    /// The counter changed in between, and the attempts are used up.
    GiveUp,
}

/// What a counter update does after its attempt number `attempt`, counted
/// from zero, given whether the compare-and-swap wrote the new value.
pub open spec fn attempt_outcome(swapped: bool, attempt: usize) -> Attempt {
    if swapped {
        Attempt::Done
    } else if attempt + 1 < COUNTER_ATTEMPTS {
        Attempt::Again
    } else {
        Attempt::GiveUp
    }
}

/// What a counter update does after an attempt to write.
pub fn after_attempt(swapped: bool, attempt: usize) -> (r: Attempt)
    ensures
        r == attempt_outcome(swapped, attempt),
{
    if swapped {
        Attempt::Done
    } else if attempt < COUNTER_ATTEMPTS - 1 {
        Attempt::Again
    } else {
        Attempt::GiveUp
    }
}

/// A database, whatever engine keeps it.
pub enum StorageDB {
    /// A database kept by `sled`.
    Sled(SledStorageDB),
}

impl StorageDB {
    /// What the database holds.
    pub open spec fn view(&self) -> Store {
        match self {
            StorageDB::Sled(store) => store@,
        }
    }

    /// What the database was asked to open with: the directory, the cache
    /// capacity, the flush interval, and whether the mode is `LowSpace`.
    pub open spec fn opened_with(&self) -> (Seq<char>, u64, Option<u64>, bool) {
        match self {
            StorageDB::Sled(store) => store.opened_with(),
        }
    }

    /// The value stored under `key` in the tree.
    pub(crate) fn read(&self, key: &[u8]) -> (r: Result<Option<Vec<u8>>, StorageError>)
        ensures
            match r {
                Ok(found) => opt_view(found) == lookup(self@, key@),
                Err(e) => e is Io,
            },
    {
        match self {
            StorageDB::Sled(store) => store.get(key),
        }
    }

    /// Stores `value` under `key` in the tree.
    pub(crate) fn write(&mut self, key: &[u8], value: &[u8]) -> (r: Result<(), StorageError>)
        ensures
            match r {
                Ok(()) => final(self)@ == old(self)@.insert(key@, value@),
                Err(e) => e is Io,
            },
    {
        match self {
            StorageDB::Sled(store) => store.put(key, value),
        }
    }

    /// Deletes `key` from the tree and hands back the value it held.
    pub(crate) fn delete(&mut self, key: &[u8]) -> (r: Result<Option<Vec<u8>>, StorageError>)
        ensures
            match r {
                Ok(previous) => {
                    &&& final(self)@ == old(self)@.remove(key@)
                    &&& opt_view(previous) == lookup(old(self)@, key@)
                },
                Err(e) => e is Io,
            },
    {
        match self {
            StorageDB::Sled(store) => store.remove(key),
        }
    }

    /// Writes `proposed` under `key` if the key holds `expected`.
    pub(crate) fn swap(
        &mut self,
        key: &[u8],
        expected: Option<&[u8]>,
        proposed: Option<&[u8]>,
    ) -> (r: Result<bool, StorageError>)
        ensures
            match r {
                Ok(swapped) => {
                    &&& swapped == (lookup(old(self)@, key@) == opt_slice_view(expected))
                    &&& final(self)@ == if swapped {
                        with_write(old(self)@, key@, opt_slice_view(proposed))
                    } else {
                        old(self)@
                    }
                },
                Err(e) => e is Io,
            },
    {
        match self {
            StorageDB::Sled(store) => store.swap(key, expected, proposed),
        }
    }

    /// Every entry of the tree whose key begins with `prefix`, in order.
    pub(crate) fn scan_prefix(&self, prefix: &[u8]) -> (r: Result<
        Vec<(Vec<u8>, Vec<u8>)>,
        StorageError,
    >)
        ensures
            match r {
                Ok(found) => {
                    &&& pairs_view(found@) == ordered_entries(self@, prefix@)
                    &&& is_prefix_scan(pairs_view(found@), self@, prefix@)
                },
                Err(e) => e is Io,
            },
    {
        match self {
            StorageDB::Sled(store) => store.scan_prefix(prefix),
        }
    }

    /// Every entry of the tree whose key lies from `lo` up to `hi`, in order.
    pub(crate) fn scan_range(&self, lo: &[u8], hi: &[u8]) -> (r: Result<
        Vec<(Vec<u8>, Vec<u8>)>,
        StorageError,
    >)
        ensures
            match r {
                Ok(found) => is_range_scan(pairs_view(found@), self@, lo@, hi@),
                Err(e) => e is Io,
            },
    {
        match self {
            StorageDB::Sled(store) => store.scan_range(lo, hi),
        }
    }

    /// Makes all writes of `batch` at once.
    pub(crate) fn commit(&mut self, batch: sled::Batch) -> (r: Result<(), StorageError>)
        ensures
            match r {
                Ok(()) => final(self)@ == with_writes(old(self)@, batch_writes(batch)),
                Err(e) => e is Io,
            },
    {
        match self {
            StorageDB::Sled(store) => store.apply(batch),
        }
    }

    /// Sets flat key `key` to `val`. The key no longer expires.
    pub fn insert(&mut self, key: &[u8], val: &[u8]) -> (r: Result<(), StorageError>)
        ensures
            match r {
                Ok(()) => final(self)@ == kv_put(old(self)@, key@, val@),
                Err(e) => e is Io,
            },
    {
        let mut batch = batch_new();
        let ghost before = self@;
        proof {
            lemma_no_writes(before);
        }
        stage_put(&mut batch, key, val, Ghost(before));
        self.commit(batch)
    }

    /// The value of flat key `key` at `now`; `None` if the key is absent
    /// or has expired.
    pub fn get(&self, key: &[u8], now: TimestampMillis) -> (r: Result<
        Option<Vec<u8>>,
        StorageError,
    >)
        ensures
            match r {
                Ok(found) => !kv_corrupt(self@, key@) && opt_view(found) == kv_get(
                    self@,
                    key@,
                    now,
                ),
                Err(StorageError::Corruption) => kv_corrupt(self@, key@),
                Err(e) => e is Io,
            },
    {
        let expiry = self.expiry_of(key)?;
        if expired(expiry, now) {
            return Ok(None);
        }
        let place = Namespace::Kv.encode_key(key);
        self.read(place.as_slice())
    }

    /// The expiry time of flat key `key`, if it has one.
    pub(crate) fn expiry_of(&self, key: &[u8]) -> (r: Result<Option<TimestampMillis>, StorageError>)
        ensures
            match r {
                Ok(expiry) => !kv_corrupt(self@, key@) && expiry == crate::model::kv_expiry(
                    self@,
                    key@,
                ),
                Err(StorageError::Corruption) => kv_corrupt(self@, key@),
                Err(e) => e is Io,
            },
    {
        let place = Namespace::KvTtl.encode_key(key);
        match self.read(place.as_slice())? {
            None => Ok(None),
            Some(record) => match decode_i64(record.as_slice()) {
                Some(at) => Ok(Some(at)),
                None => Err(StorageError::Corruption),
            },
        }
    }

    /// Whether flat key `key` holds a value at `now`.
    pub fn contains_key(&self, key: &[u8], now: TimestampMillis) -> (r: Result<bool, StorageError>)
        ensures
            match r {
                Ok(found) => !kv_corrupt(self@, key@) && found == kv_live(self@, key@, now),
                Err(StorageError::Corruption) => kv_corrupt(self@, key@),
                Err(e) => e is Io,
            },
    {
        match self.get(key, now)? {
            Some(_) => Ok(true),
            None => Ok(false),
        }
    }

    /// Removes flat key `key`: its value, its expiry time and the counter
    /// of that name.
    pub fn remove(&mut self, key: &[u8]) -> (r: Result<(), StorageError>)
        ensures
            match r {
                Ok(()) => final(self)@ == kv_delete(old(self)@, key@),
                Err(e) => e is Io,
            },
    {
        let mut batch = batch_new();
        let ghost before = self@;
        proof {
            lemma_no_writes(before);
        }
        stage_delete(&mut batch, key, Ghost(before));
        self.commit(batch)
    }

    /// Sets every key of `key_vals` to its value, first to last, in one
    /// atomic batch.
    pub fn batch_insert(&mut self, key_vals: Vec<(Vec<u8>, Vec<u8>)>) -> (r: Result<
        (),
        StorageError,
    >)
        ensures
            match r {
                Ok(()) => final(self)@ == kv_put_all(old(self)@, pairs_view(key_vals@)),
                Err(e) => e is Io,
            },
    {
        let mut batch = batch_new();
        let ghost before = self@;
        proof {
            lemma_no_writes(before);
        }
        let n: usize = key_vals.len();
        let mut i: usize = 0;
        while i < n
            invariant
                n == key_vals@.len(),
                i <= n,
                with_writes(before, batch_writes(batch)) == kv_put_all(
                    before,
                    pairs_view(key_vals@).subrange(0, i as int),
                ),
            decreases n - i,
        {
            proof {
                let upto = pairs_view(key_vals@).subrange(0, i + 1);
                assert(upto.drop_last() =~= pairs_view(key_vals@).subrange(0, i as int));
                assert(upto.last() == (key_vals@[i as int].0@, key_vals@[i as int].1@));
            }
            stage_put(
                &mut batch,
                key_vals[i].0.as_slice(),
                key_vals[i].1.as_slice(),
                Ghost(before),
            );
            i += 1;
        }
        assert(pairs_view(key_vals@).subrange(0, n as int) =~= pairs_view(key_vals@));
        self.commit(batch)
    }

    /// Removes every key of `keys` in one atomic batch.
    pub fn batch_remove(&mut self, keys: Vec<Vec<u8>>) -> (r: Result<(), StorageError>)
        ensures
            match r {
                Ok(()) => final(self)@ == kv_delete_all(old(self)@, keys_view(keys@)),
                Err(e) => e is Io,
            },
    {
        let mut batch = batch_new();
        let ghost before = self@;
        proof {
            lemma_no_writes(before);
        }
        let n: usize = keys.len();
        let mut i: usize = 0;
        while i < n
            invariant
                n == keys@.len(),
                i <= n,
                with_writes(before, batch_writes(batch)) == kv_delete_all(
                    before,
                    keys_view(keys@).subrange(0, i as int),
                ),
            decreases n - i,
        {
            proof {
                let upto = keys_view(keys@).subrange(0, i + 1);
                assert(upto.drop_last() =~= keys_view(keys@).subrange(0, i as int));
                assert(upto.last() == keys@[i as int]@);
            }
            stage_delete(&mut batch, keys[i].as_slice(), Ghost(before));
            i += 1;
        }
        assert(keys_view(keys@).subrange(0, n as int) =~= keys_view(keys@));
        self.commit(batch)
    }

    /// Adds `increment` to counter `key`; a counter that has never been
    /// written counts from zero. The sum stops at the ends of the 64-bit
    /// range.
    pub fn counter_incr(&mut self, key: &[u8], increment: i64) -> (r: Result<(), StorageError>)
        ensures
            match r {
                Ok(()) => !counter_corrupt(old(self)@, key@) && final(self)@ == counter_add(
                    old(self)@,
                    key@,
                    increment as int,
                ),
                Err(StorageError::Corruption) => counter_corrupt(old(self)@, key@) && final(self)@
                    == old(self)@,
                Err(e) => e is Io,
            },
    {
        self.counter_update(key, increment, false)
    }

    /// Takes `decrement` off counter `key`: the same as adding its
    /// negation.
    pub fn counter_decr(&mut self, key: &[u8], decrement: i64) -> (r: Result<(), StorageError>)
        ensures
            match r {
                Ok(()) => !counter_corrupt(old(self)@, key@) && final(self)@ == counter_add(
                    old(self)@,
                    key@,
                    -(decrement as int),
                ),
                Err(StorageError::Corruption) => counter_corrupt(old(self)@, key@) && final(self)@
                    == old(self)@,
                Err(e) => e is Io,
            },
    {
        self.counter_update(key, decrement, true)
    }

    /// Reads the counter, computes the new value and writes it with a
    /// compare-and-swap; if the counter changed in between, again, up to
    /// `COUNTER_ATTEMPTS` times in all. A store is the only writer of its
    /// tree, so the first attempt writes and the update never gives up.
    fn counter_update(&mut self, key: &[u8], amount: i64, down: bool) -> (r: Result<
        (),
        StorageError,
    >)
        ensures
            match r {
                Ok(()) => !counter_corrupt(old(self)@, key@) && final(self)@ == counter_add(
                    old(self)@,
                    key@,
                    if down {
                        -(amount as int)
                    } else {
                        amount as int
                    },
                ),
                Err(StorageError::Corruption) => counter_corrupt(old(self)@, key@) && final(self)@
                    == old(self)@,
                Err(e) => e is Io,
            },
    {
        let place = Namespace::Counter.encode_key(key);
        let mut attempt: usize = 0;
        loop
            invariant
                place@ == counter_key(key@),
                self@ == old(self)@,
                attempt < COUNTER_ATTEMPTS,
            decreases COUNTER_ATTEMPTS - attempt,
        {
            let current = self.read(place.as_slice())?;
            let base: i64 = match &current {
                None => 0,
                Some(record) => match decode_i64(record.as_slice()) {
                    Some(value) => value,
                    None => {
                        return Err(StorageError::Corruption);
                    },
                },
            };
            let next = if down {
                saturating_difference(base, amount)
            } else {
                saturating_sum(base, amount)
            };
            let record = encode_i64(next);
            let expected: Option<&[u8]> = match &current {
                Some(bytes) => Some(bytes.as_slice()),
                None => None,
            };
            let swapped = self.swap(place.as_slice(), expected, Some(record.as_slice()))?;
            match after_attempt(swapped, attempt) {
                Attempt::Done => {
                    return Ok(());
                },
                Attempt::Again => {
                    attempt += 1;
                },
                Attempt::GiveUp => {
                    return Err(StorageError::ConflictRetryExhausted);
                },
            }
        }
    }

    /// The value of counter `key`; `None` if it has never been written.
    pub fn counter_get(&self, key: &[u8]) -> (r: Result<Option<i64>, StorageError>)
        ensures
            match r {
                Ok(value) => !counter_corrupt(self@, key@) && value == counter_get(self@, key@),
                Err(StorageError::Corruption) => counter_corrupt(self@, key@),
                Err(e) => e is Io,
            },
    {
        let place = Namespace::Counter.encode_key(key);
        match self.read(place.as_slice())? {
            None => Ok(None),
            Some(record) => match decode_i64(record.as_slice()) {
                Some(value) => Ok(Some(value)),
                None => Err(StorageError::Corruption),
            },
        }
    }

    /// Sets counter `key` to `val`, whatever it held.
    pub fn counter_set(&mut self, key: &[u8], val: i64) -> (r: Result<(), StorageError>)
        ensures
            match r {
                Ok(()) => final(self)@ == counter_put(old(self)@, key@, val),
                Err(e) => e is Io,
            },
    {
        let place = Namespace::Counter.encode_key(key);
        let record = encode_i64(val);
        self.write(place.as_slice(), record.as_slice())
    }

    /// Lets flat key `key` expire at time `at`. Says whether the key held
    /// a value, expired or not; an absent key gets no expiry time.
    pub fn expire_at(&mut self, key: &[u8], at: TimestampMillis) -> (r: Result<bool, StorageError>)
        ensures
            match r {
                Ok(existed) => {
                    &&& existed == old(self)@.contains_key(kv_key(key@))
                    &&& final(self)@ == kv_expire_at(old(self)@, key@, at)
                },
                Err(e) => e is Io,
            },
    {
        let place = Namespace::Kv.encode_key(key);
        match self.read(place.as_slice())? {
            None => Ok(false),
            Some(_) => {
                let ttl_place = Namespace::KvTtl.encode_key(key);
                let record = encode_i64(at);
                self.write(ttl_place.as_slice(), record.as_slice())?;
                Ok(true)
            },
        }
    }

    /// Lets flat key `key` expire `dur` milliseconds after `now`.
    pub fn expire(&mut self, key: &[u8], dur: TimestampMillis, now: TimestampMillis) -> (r: Result<
        bool,
        StorageError,
    >)
        ensures
            match r {
                Ok(existed) => {
                    &&& existed == old(self)@.contains_key(kv_key(key@))
                    &&& final(self)@ == kv_expire_at(old(self)@, key@, deadline(now, dur))
                },
                Err(e) => e is Io,
            },
    {
        self.expire_at(key, expires_after(now, dur))
    }

    /// The milliseconds that flat key `key` has left at `now`; `None` if
    /// it is absent, has expired or never expires.
    pub fn ttl(&self, key: &[u8], now: TimestampMillis) -> (r: Result<
        Option<TimestampMillis>,
        StorageError,
    >)
        ensures
            match r {
                Ok(left) => !kv_corrupt(self@, key@) && left == kv_ttl(self@, key@, now),
                Err(StorageError::Corruption) => kv_corrupt(self@, key@),
                Err(e) => e is Io,
            },
    {
        let expiry = self.expiry_of(key)?;
        let place = Namespace::Kv.encode_key(key);
        match self.read(place.as_slice())? {
            None => Ok(None),
            Some(_) => Ok(time_left(expiry, now)),
        }
    }

    /// The size of the database's files in bytes.
    pub fn db_size(&self) -> (r: Result<usize, StorageError>)
        ensures
            r matches Err(e) ==> e is Io,
    {
        match self {
            StorageDB::Sled(store) => {
                let size = store.size_on_disk()?;
                Ok(to_word(size))
            },
        }
    }
}

/// Adds to `batch` what setting flat key `key` to `val` writes.
fn stage_put(batch: &mut sled::Batch, key: &[u8], val: &[u8], Ghost(s): Ghost<Store>)
    ensures
        with_writes(s, batch_writes(*final(batch))) == kv_put(
            with_writes(s, batch_writes(*old(batch))),
            key@,
            val@,
        ),
{
    let place = Namespace::Kv.encode_key(key);
    let ttl_place = Namespace::KvTtl.encode_key(key);
    proof {
        let w0 = batch_writes(*batch);
        lemma_batch_put(s, w0, place@, val@);
        lemma_batch_delete(s, w0.insert(place@, Some(val@)), ttl_place@);
    }
    batch_insert(batch, place.as_slice(), val);
    batch_remove(batch, ttl_place.as_slice());
}

/// Adds to `batch` what removing flat key `key` writes.
fn stage_delete(batch: &mut sled::Batch, key: &[u8], Ghost(s): Ghost<Store>)
    ensures
        with_writes(s, batch_writes(*final(batch))) == kv_delete(
            with_writes(s, batch_writes(*old(batch))),
            key@,
        ),
{
    let place = Namespace::Kv.encode_key(key);
    let ttl_place = Namespace::KvTtl.encode_key(key);
    let counter_place = Namespace::Counter.encode_key(key);
    proof {
        let w0 = batch_writes(*batch);
        lemma_batch_delete(s, w0, place@);
        lemma_batch_delete(s, w0.insert(place@, None), ttl_place@);
        lemma_batch_delete(s, w0.insert(place@, None).insert(ttl_place@, None), counter_place@);
    }
    batch_remove(batch, place.as_slice());
    batch_remove(batch, ttl_place.as_slice());
    batch_remove(batch, counter_place.as_slice());
}

} // verus!
