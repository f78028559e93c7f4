//! Scanning the flat keys with a wildcard pattern. The pattern's literal
//! prefix bounds what is read from the tree; what is read is then matched
//! against the whole pattern.

use vstd::prelude::*;
use crate::bytes::{lemma_prefix_transitive, tail_from};
use crate::catalog::{list_labels, map_labels};
use crate::db::StorageDB;
use crate::engine::pairs_view;
use crate::error::StorageError;
use crate::glob::{glob_matches, leading_bytes, literal_prefix, parse, tokens, tokens_accept, STAR};
use crate::keys::{kv_key, lemma_tagged, Namespace};
use crate::model::{
    flat_key_of, keys_view, kv_corrupt, kv_scan, kv_scan_corrupt, listable, live_collections,
    matching_among, scan_candidates,
};
use crate::ttl::{expired, TimestampMillis};

verus! {

/// What a database holds, in numbers.
#[derive(Clone, Copy, Debug)]
pub struct StorageInfo {
    /// The size of the database's files in bytes.
    pub db_size: usize,
    /// The number of flat keys that hold a value.
    pub kv_count: usize,
    /// The number of maps that exist.
    pub map_count: usize,
    /// The number of lists that exist.
    pub list_count: usize,
}

/// The pattern that every key matches: `*`.
pub open spec fn any_key() -> Seq<u8> {
    seq![STAR]
}

impl StorageDB {
    /// The flat keys that match `pattern` and hold a value at `now`, in
    /// ascending byte-wise order.
    pub fn scan(&self, pattern: &[u8], now: TimestampMillis) -> (r: Result<
        Vec<Vec<u8>>,
        StorageError,
    >)
        ensures
            match r {
                Ok(keys) => {
                    &&& !kv_scan_corrupt(self@, pattern@)
                    &&& keys_view(keys@) == kv_scan(self@, pattern@, now)
                    &&& listable(self@, kv_key(literal_prefix(pattern@)))
                },
                Err(StorageError::Corruption) => kv_scan_corrupt(self@, pattern@),
                Err(e) => e is Io,
            },
    {
        let toks = parse(pattern);
        let lead = leading_bytes(&toks);
        let under = Namespace::Kv.encode_key(lead.as_slice());
        let skip: usize = Namespace::Kv.prefix_bytes().len();
        let found = self.scan_prefix(under.as_slice())?;
        let ghost s = self@;
        let ghost scanned = pairs_view(found@);
        let mut keys: Vec<Vec<u8>> = Vec::new();
        let n: usize = found.len();
        let mut i: usize = 0;
        proof {
            assert(scanned == scan_candidates(s, pattern@));
            assert(scanned.subrange(0, 0) =~= Seq::<(Seq<u8>, Seq<u8>)>::empty());
            assert(keys_view(keys@) =~= matching_among(scanned.subrange(0, 0), s, pattern@, now));
            lemma_tagged(Namespace::Kv, lead@);
        }
        while i < n
            invariant
                n == found@.len(),
                i <= n,
                s == self@,
                toks@ == tokens(pattern@),
                skip == Namespace::Kv.prefix().len(),
                scanned == pairs_view(found@),
                scanned == scan_candidates(s, pattern@),
                under@.len() >= skip,
                Namespace::Kv.prefix().is_prefix_of(under@),
                forall|j: int|
                    0 <= j < n ==> under@.is_prefix_of(#[trigger] scanned[j].0) && s.contains_key(
                        scanned[j].0,
                    ),
                forall|j: int|
                    0 <= j < i && glob_matches(pattern@, flat_key_of(#[trigger] scanned[j].0))
                        ==> !kv_corrupt(s, flat_key_of(scanned[j].0)),
                keys_view(keys@) == matching_among(scanned.subrange(0, i as int), s, pattern@, now),
            decreases n - i,
        {
            proof {
                let upto = scanned.subrange(0, i + 1);
                assert(upto.drop_last() =~= scanned.subrange(0, i as int));
                assert(upto.last() == scanned[i as int]);
                assert(scanned[i as int] == (found@[i as int].0@, found@[i as int].1@));
                assert(under@.is_prefix_of(scanned[i as int].0));
            }
            let key = tail_from(found[i].0.as_slice(), skip);
            proof {
                let stored = scanned[i as int].0;
                assert(key@ == flat_key_of(stored));
                assert(kv_key(key@) =~= stored) by {
                    lemma_prefix_transitive(Namespace::Kv.prefix(), under@, stored);
                    assert(stored.subrange(0, skip as int) =~= Namespace::Kv.prefix());
                }
            }
            if tokens_accept(&toks, key.as_slice()) {
                let expiry = match self.expiry_of(key.as_slice()) {
                    Ok(expiry) => expiry,
                    Err(e) => {
                        return Err(e);
                    },
                };
                if !expired(expiry, now) {
                    let ghost so_far = keys_view(keys@);
                    keys.push(key);
                    assert(keys_view(keys@) =~= so_far.push(key@));
                }
            }
            i += 1;
        }
        proof {
            assert(scanned.subrange(0, n as int) =~= scanned);
            if kv_scan_corrupt(s, pattern@) {
                let j = choose|j: int|
                    0 <= j < scanned.len() && glob_matches(
                        pattern@,
                        flat_key_of(#[trigger] scanned[j].0),
                    ) && kv_corrupt(s, flat_key_of(scanned[j].0));
                assert(!kv_corrupt(s, flat_key_of(scanned[j].0)));
            }
        }
        Ok(keys)
    }

    /// What the database holds at `now`, in numbers.
    pub fn info(&self, now: TimestampMillis) -> (r: Result<StorageInfo, StorageError>)
        ensures
            match r {
                Ok(info) => {
                    &&& !kv_scan_corrupt(self@, any_key())
                    &&& listable(self@, kv_key(literal_prefix(any_key())))
                    &&& listable(self@, Namespace::MapMarker.prefix())
                    &&& listable(self@, Namespace::ListMarker.prefix())
                    &&& info.kv_count == kv_scan(self@, any_key(), now).len()
                    &&& info.map_count == live_collections(self@, Namespace::MapMarker, now).len()
                    &&& info.list_count == live_collections(
                        self@,
                        Namespace::ListMarker,
                        now,
                    ).len()
                },
                Err(StorageError::Corruption) => kv_scan_corrupt(self@, any_key()),
                Err(e) => e is Io,
            },
    {
        let db_size = self.db_size()?;
        let kv_count = self.len(now)?;
        let maps = self.map_iter(now)?;
        let lists = self.list_iter(now)?;
        proof {
            assert(map_labels(maps@).len() == maps@.len());
            assert(list_labels(lists@).len() == lists@.len());
        }
        Ok(StorageInfo { db_size, kv_count, map_count: maps.len(), list_count: lists.len() })
    }

    /// The number of flat keys that hold a value at `now`.
    pub fn len(&self, now: TimestampMillis) -> (r: Result<usize, StorageError>)
        ensures
            match r {
                Ok(n) => {
                    &&& !kv_scan_corrupt(self@, any_key())
                    &&& n == kv_scan(self@, any_key(), now).len()
                    &&& listable(self@, kv_key(literal_prefix(any_key())))
                },
                Err(StorageError::Corruption) => kv_scan_corrupt(self@, any_key()),
                Err(e) => e is Io,
            },
    {
        let pattern: Vec<u8> = vec![STAR];
        assert(pattern@ =~= any_key());
        let keys = self.scan(pattern.as_slice(), now)?;
        Ok(keys.len())
    }
}

} // verus!
