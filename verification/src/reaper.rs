//! Reclaiming what has expired. Reads treat an expired flat key, map or
//! list as gone without deleting anything; a sweep deletes what has
//! expired, at most a given number of them at a time. Expiry times are
//! kept with the records they belong to, which lie in the order of their
//! names: to find what has expired a sweep reads the markers and expiry
//! times, and its limit bounds what it deletes. The pacing of the sweeps
//! is decided here and carried out by whoever owns the clock.

use vstd::prelude::*;
use crate::bytes::{decode_i64, tail_from};
use crate::db::StorageDB;
use crate::engine::{batch_new, batch_remove, batch_writes, pairs_view};
use crate::error::StorageError;
use crate::keys::Namespace;
use crate::lists::drop_list;
use crate::maps::drop_map;
use crate::meta::Meta;
use crate::model::{
    drop_flat, drop_lists, drop_maps, expired_among, expired_collections, first_of, keys_view,
    kv_reaped, lemma_batch_delete, lemma_no_writes, listable, swept, swept_count,
};
use crate::ttl::{expired, TimestampMillis};

verus! {

/// The number of collections that one sweep drops at most.
pub const SWEEP_LIMIT: usize = 200;

/// The milliseconds between two ticks of the reaper.
pub const TICK_MILLIS: u64 = 10_000;

/// With more open handles than this, the reaper pauses between sweeps.
pub const BUSY_HANDLES: usize = 50;

/// The pause between two sweeps while the store is busy, in milliseconds.
pub const BUSY_PAUSE_MILLIS: u64 = 500;

/// A tick that took more milliseconds than this is worth a line in the
/// log.
pub const SLOW_TICK_MILLIS: u64 = 3000;

/// What the reaper does after a sweep.
#[derive(Clone, Copy, Debug, PartialEq, Eq, Structural)]
pub enum ReaperStep {
    /// Sweep again after a pause of so many milliseconds.
    Again(u64),
    /// The tick is over.
    Done,
}

/// What the reaper does after a sweep that dropped `count` collections of
/// at most `limit`: a sweep that fell short of its limit ends the tick; a
/// full one is followed by another, after a pause if more than
/// `BUSY_HANDLES` handles are open.
pub open spec fn next_step(count: usize, limit: usize, active: usize) -> ReaperStep {
    if count < limit {
        ReaperStep::Done
    } else if active > BUSY_HANDLES {
        ReaperStep::Again(BUSY_PAUSE_MILLIS)
    } else {
        ReaperStep::Again(0)
    }
}

/// What the reaper does after a sweep.
pub fn after_sweep(count: usize, limit: usize, active: usize) -> (r: ReaperStep)
    ensures
        r == next_step(count, limit, active),
{
    if count < limit {
        ReaperStep::Done
    } else if active > BUSY_HANDLES {
        ReaperStep::Again(BUSY_PAUSE_MILLIS)
    } else {
        ReaperStep::Again(0)
    }
}

/// Whether a tick that took `elapsed_ms` milliseconds is worth a line in
/// the log.
pub fn slow_tick(elapsed_ms: u64) -> (r: bool)
    ensures
        r == (elapsed_ms > SLOW_TICK_MILLIS),
{
    elapsed_ms > SLOW_TICK_MILLIS
}

impl StorageDB {
    /// The names of the first `limit` collections of one kind, or for
    /// `KvTtl` the first `limit` flat keys, that have expired at `now`.
    fn expired_names(&self, ns: Namespace, limit: usize, now: TimestampMillis) -> (r: Result<
        Vec<Vec<u8>>,
        StorageError,
    >)
        ensures
            match r {
                Ok(names) => {
                    &&& listable(self@, ns.prefix())
                    &&& keys_view(names@) == first_of(
                        expired_collections(self@, ns, now),
                        limit as nat,
                    )
                },
                Err(e) => e is Io,
            },
    {
        let tag = ns.prefix_bytes();
        let skip: usize = tag.len();
        let found = self.scan_prefix(tag.as_slice())?;
        let ghost scanned = pairs_view(found@);
        let mut names: Vec<Vec<u8>> = Vec::new();
        let n: usize = found.len();
        let mut i: usize = 0;
        assert(scanned.subrange(0, 0) =~= Seq::<(Seq<u8>, Seq<u8>)>::empty());
        assert(keys_view(names@) =~= first_of(
            expired_among(scanned.subrange(0, 0), ns, now),
            limit as nat,
        ));
        while i < n
            invariant
                n == found@.len(),
                i <= n,
                skip == ns.prefix().len(),
                scanned == pairs_view(found@),
                forall|j: int| 0 <= j < n ==> ns.prefix().is_prefix_of(#[trigger] scanned[j].0),
                keys_view(names@) == first_of(
                    expired_among(scanned.subrange(0, i as int), ns, now),
                    limit as nat,
                ),
            decreases n - i,
        {
            let ghost so_far = expired_among(scanned.subrange(0, i as int), ns, now);
            proof {
                let upto = scanned.subrange(0, i + 1);
                assert(upto.drop_last() =~= scanned.subrange(0, i as int));
                assert(upto.last() == scanned[i as int]);
                assert(scanned[i as int] == (found@[i as int].0@, found@[i as int].1@));
                assert(ns.prefix().is_prefix_of(scanned[i as int].0));
            }
            let gone = match ns {
                Namespace::KvTtl => match decode_i64(found[i].1.as_slice()) {
                    Some(at) => at <= now,
                    None => false,
                },
                _ => match Meta::decode(found[i].1.as_slice()) {
                    Some(meta) => expired(meta.expiry, now),
                    None => false,
                },
            };
            if gone {
                if names.len() < limit {
                    let ghost listed = keys_view(names@);
                    let name = tail_from(found[i].0.as_slice(), skip);
                    names.push(name);
                    assert(keys_view(names@) =~= listed.push(name@));
                    assert(keys_view(names@) =~= first_of(so_far.push(name@), limit as nat));
                } else {
                    let ghost name = scanned[i as int].0.subrange(
                        skip as int,
                        scanned[i as int].0.len() as int,
                    );
                    assert(keys_view(names@) =~= first_of(so_far.push(name), limit as nat));
                }
            }
            i += 1;
        }
        assert(scanned.subrange(0, n as int) =~= scanned);
        Ok(names)
    }

    /// Removes the value and the expiry time of flat key `key` in one
    /// atomic batch.
    fn reap_key(&mut self, key: &[u8]) -> (r: Result<(), StorageError>)
        ensures
            match r {
                Ok(()) => final(self)@ == kv_reaped(old(self)@, key@),
                Err(e) => e is Io,
            },
    {
        let place = Namespace::Kv.encode_key(key);
        let ttl_place = Namespace::KvTtl.encode_key(key);
        let mut batch = batch_new();
        proof {
            lemma_no_writes(self@);
            let w0 = batch_writes(batch);
            lemma_batch_delete(self@, w0, place@);
            lemma_batch_delete(self@, w0.insert(place@, None), ttl_place@);
        }
        batch_remove(&mut batch, place.as_slice());
        batch_remove(&mut batch, ttl_place.as_slice());
        self.commit(batch)
    }

    /// One sweep: drops the first expired lists, then the first expired
    /// maps, then the first expired flat keys, `limit` of them at most in
    /// all, each in an atomic batch of its own. Says how many it dropped.
    pub fn cleanup(&mut self, limit: usize, now: TimestampMillis) -> (r: Result<
        usize,
        StorageError,
    >)
        ensures
            match r {
                Ok(count) => {
                    &&& count <= limit
                    &&& listable(old(self)@, Namespace::ListMarker.prefix())
                    &&& listable(old(self)@, Namespace::MapMarker.prefix())
                    &&& listable(old(self)@, Namespace::KvTtl.prefix())
                    &&& count == swept_count(old(self)@, limit as nat, now)
                    &&& final(self)@ == swept(old(self)@, limit as nat, now)
                },
                Err(e) => e is Io,
            },
    {
        let lists = self.expired_names(Namespace::ListMarker, limit, now)?;
        assert(lists@.len() == keys_view(lists@).len());
        let maps = self.expired_names(Namespace::MapMarker, limit - lists.len(), now)?;
        assert(maps@.len() == keys_view(maps@).len());
        let keys = self.expired_names(
            Namespace::KvTtl,
            limit - lists.len() - maps.len(),
            now,
        )?;
        assert(keys@.len() == keys_view(keys@).len());
        let ghost before = self@;
        let n: usize = lists.len();
        let mut i: usize = 0;
        assert(keys_view(lists@).subrange(0, 0) =~= Seq::<Seq<u8>>::empty());
        while i < n
            invariant
                n == lists@.len(),
                i <= n,
                self@ == drop_lists(before, keys_view(lists@).subrange(0, i as int)),
            decreases n - i,
        {
            proof {
                let upto = keys_view(lists@).subrange(0, i + 1);
                assert(upto.drop_last() =~= keys_view(lists@).subrange(0, i as int));
                assert(upto.last() == lists@[i as int]@);
            }
            drop_list(self, lists[i].as_slice())?;
            i += 1;
        }
        assert(keys_view(lists@).subrange(0, n as int) =~= keys_view(lists@));
        let ghost between = self@;
        let m: usize = maps.len();
        let mut j: usize = 0;
        assert(keys_view(maps@).subrange(0, 0) =~= Seq::<Seq<u8>>::empty());
        while j < m
            invariant
                m == maps@.len(),
                j <= m,
                self@ == drop_maps(between, keys_view(maps@).subrange(0, j as int)),
            decreases m - j,
        {
            proof {
                let upto = keys_view(maps@).subrange(0, j + 1);
                assert(upto.drop_last() =~= keys_view(maps@).subrange(0, j as int));
                assert(upto.last() == maps@[j as int]@);
            }
            drop_map(self, maps[j].as_slice())?;
            j += 1;
        }
        assert(keys_view(maps@).subrange(0, m as int) =~= keys_view(maps@));
        let ghost cleared = self@;
        let f: usize = keys.len();
        let mut k: usize = 0;
        assert(keys_view(keys@).subrange(0, 0) =~= Seq::<Seq<u8>>::empty());
        while k < f
            invariant
                f == keys@.len(),
                k <= f,
                self@ == drop_flat(cleared, keys_view(keys@).subrange(0, k as int)),
            decreases f - k,
        {
            proof {
                let upto = keys_view(keys@).subrange(0, k + 1);
                assert(upto.drop_last() =~= keys_view(keys@).subrange(0, k as int));
                assert(upto.last() == keys@[k as int]@);
            }
            self.reap_key(keys[k].as_slice())?;
            k += 1;
        }
        assert(keys_view(keys@).subrange(0, f as int) =~= keys_view(keys@));
        Ok(n + m + f)
    }
}

} // verus!
