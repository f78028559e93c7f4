//! The collections of a database: opening a map or a list by name, asking
//! whether one exists, dropping one, and listing those that exist.

use vstd::prelude::*;
use vstd::slice::slice_to_vec;
use crate::bytes::tail_from;
use crate::collection::read_live;
use crate::db::StorageDB;
use crate::engine::pairs_view;
use crate::error::StorageError;
use crate::keys::{is_name, list_marker_key, map_marker_key, measured, Namespace};
use crate::lists::{drop_list, SledStorageList, StorageList};
use crate::maps::{drop_map, SledStorageMap, StorageMap};
use crate::meta::Meta;
use crate::model::{
    keys_view, list_dropped, list_live, listable, live_among, live_collections, map_dropped,
    map_live, marker_corrupt,
};
use crate::ttl::{expired, TimestampMillis};

verus! {

/// The names of the maps that `maps` are handles to.
pub open spec fn map_labels(maps: Seq<StorageMap>) -> Seq<Seq<u8>> {
    Seq::new(maps.len(), |i: int| maps[i].label())
}

/// The names of the lists that `lists` are handles to.
pub open spec fn list_labels(lists: Seq<StorageList>) -> Seq<Seq<u8>> {
    Seq::new(lists.len(), |i: int| lists[i].label())
}

impl StorageDB {
    /// A handle to map `name`. Nothing is read or written: the map comes
    /// to be with the first write through the handle, and then expires
    /// `expire` milliseconds later, if a lifetime is given.
    pub fn map(&self, name: &[u8], expire: Option<TimestampMillis>) -> (r: StorageMap)
        ensures
            r.label() == name@,
            r.lifetime() == expire,
            is_name(name@),
    {
        let _len = measured(name);
        StorageMap::Sled(SledStorageMap { name: slice_to_vec(name), expire })
    }

    /// Drops map `name`: its entries and its marker.
    pub fn map_remove(&mut self, name: &[u8]) -> (r: Result<(), StorageError>)
        ensures
            match r {
                Ok(()) => final(self)@ == map_dropped(old(self)@, name@),
                Err(e) => e is Io,
            },
    {
        drop_map(self, name)
    }

    /// Whether map `key` exists at `now`.
    pub fn map_contains_key(&self, key: &[u8], now: TimestampMillis) -> (r: Result<
        bool,
        StorageError,
    >)
        ensures
            match r {
                Ok(found) => !marker_corrupt(self@, map_marker_key(key@)) && found == map_live(
                    self@,
                    key@,
                    now,
                ),
                Err(StorageError::Corruption) => marker_corrupt(self@, map_marker_key(key@)),
                Err(e) => e is Io,
            },
    {
        let marker = Namespace::MapMarker.encode_key(key);
        read_live(self, marker.as_slice(), now)
    }

    /// A handle to list `name`. Nothing is read or written: the list comes
    /// to be with the first write through the handle, and then expires
    /// `expire` milliseconds later, if a lifetime is given.
    pub fn list(&self, name: &[u8], expire: Option<TimestampMillis>) -> (r: StorageList)
        ensures
            r.label() == name@,
            r.lifetime() == expire,
            is_name(name@),
    {
        let _len = measured(name);
        StorageList::Sled(SledStorageList { name: slice_to_vec(name), expire })
    }

    /// Drops list `name`: its entries, its cursors and its marker.
    pub fn list_remove(&mut self, name: &[u8]) -> (r: Result<(), StorageError>)
        ensures
            match r {
                Ok(()) => final(self)@ == list_dropped(old(self)@, name@),
                Err(e) => e is Io,
            },
    {
        drop_list(self, name)
    }

    /// Whether list `key` exists at `now`.
    pub fn list_contains_key(&self, key: &[u8], now: TimestampMillis) -> (r: Result<
        bool,
        StorageError,
    >)
        ensures
            match r {
                Ok(found) => !marker_corrupt(self@, list_marker_key(key@)) && found == list_live(
                    self@,
                    key@,
                    now,
                ),
                Err(StorageError::Corruption) => marker_corrupt(self@, list_marker_key(key@)),
                Err(e) => e is Io,
            },
    {
        let marker = Namespace::ListMarker.encode_key(key);
        read_live(self, marker.as_slice(), now)
    }

    /// The names of the collections of one kind that exist at `now`, in
    /// ascending order.
    fn live_names(&self, ns: Namespace, now: TimestampMillis) -> (r: Result<
        Vec<Vec<u8>>,
        StorageError,
    >)
        ensures
            match r {
                Ok(names) => keys_view(names@) == live_collections(self@, ns, now) && listable(
                    self@,
                    ns.prefix(),
                ),
                Err(e) => e is Io,
            },
    {
        let tag = ns.prefix_bytes();
        let skip: usize = tag.len();
        let found = self.scan_prefix(tag.as_slice())?;
        let ghost scanned = pairs_view(found@);
        let mut names: Vec<Vec<u8>> = Vec::new();
        let n: usize = found.len();
        let mut i: usize = 0;
        assert(scanned.subrange(0, 0) =~= Seq::<(Seq<u8>, Seq<u8>)>::empty());
        assert(keys_view(names@) =~= live_among(scanned.subrange(0, 0), skip as nat, now));
        while i < n
            invariant
                n == found@.len(),
                i <= n,
                skip == ns.prefix().len(),
                scanned == pairs_view(found@),
                forall|j: int| 0 <= j < n ==> ns.prefix().is_prefix_of(#[trigger] scanned[j].0),
                keys_view(names@) == live_among(scanned.subrange(0, i as int), skip as nat, now),
            decreases n - i,
        {
            proof {
                let upto = scanned.subrange(0, i + 1);
                assert(upto.drop_last() =~= scanned.subrange(0, i as int));
                assert(upto.last() == scanned[i as int]);
                assert(scanned[i as int] == (found@[i as int].0@, found@[i as int].1@));
                assert(ns.prefix().is_prefix_of(scanned[i as int].0));
            }
            let live = match Meta::decode(found[i].1.as_slice()) {
                Some(meta) => !expired(meta.expiry, now),
                None => false,
            };
            if live {
                let ghost so_far = keys_view(names@);
                let name = tail_from(found[i].0.as_slice(), skip);
                names.push(name);
                assert(keys_view(names@) =~= so_far.push(name@));
            }
            i += 1;
        }
        assert(scanned.subrange(0, n as int) =~= scanned);
        Ok(names)
    }

    /// Handles to the maps that exist at `now`, in ascending order of
    /// their names. A handle got this way gives a map no lifetime.
    pub fn map_iter(&self, now: TimestampMillis) -> (r: Result<Vec<StorageMap>, StorageError>)
        ensures
            match r {
                Ok(maps) => {
                    &&& listable(self@, Namespace::MapMarker.prefix())
                    &&& map_labels(maps@) == live_collections(self@, Namespace::MapMarker, now)
                    &&& forall|i: int| 0 <= i < maps@.len() ==> maps@[i].lifetime() is None
                },
                Err(e) => e is Io,
            },
    {
        let names = self.live_names(Namespace::MapMarker, now)?;
        let mut maps: Vec<StorageMap> = Vec::new();
        let n: usize = names.len();
        let mut i: usize = 0;
        while i < n
            invariant
                n == names@.len(),
                i <= n,
                maps@.len() == i,
                forall|j: int| 0 <= j < i ==> (#[trigger] maps@[j]).label() == names@[j]@,
                forall|j: int| 0 <= j < i ==> (#[trigger] maps@[j]).lifetime() is None,
            decreases n - i,
        {
            maps.push(self.map(names[i].as_slice(), None));
            i += 1;
        }
        assert(map_labels(maps@) =~= keys_view(names@));
        Ok(maps)
    }

    /// Handles to the lists that exist at `now`, in ascending order of
    /// their names. A handle got this way gives a list no lifetime.
    pub fn list_iter(&self, now: TimestampMillis) -> (r: Result<Vec<StorageList>, StorageError>)
        ensures
            match r {
                Ok(lists) => {
                    &&& listable(self@, Namespace::ListMarker.prefix())
                    &&& list_labels(lists@) == live_collections(
                        self@,
                        Namespace::ListMarker,
                        now,
                    )
                    &&& forall|i: int| 0 <= i < lists@.len() ==> lists@[i].lifetime() is None
                },
                Err(e) => e is Io,
            },
    {
        let names = self.live_names(Namespace::ListMarker, now)?;
        let mut lists: Vec<StorageList> = Vec::new();
        let n: usize = names.len();
        let mut i: usize = 0;
        while i < n
            invariant
                n == names@.len(),
                i <= n,
                lists@.len() == i,
                forall|j: int| 0 <= j < i ==> (#[trigger] lists@[j]).label() == names@[j]@,
                forall|j: int| 0 <= j < i ==> (#[trigger] lists@[j]).lifetime() is None,
            decreases n - i,
        {
            lists.push(self.list(names[i].as_slice(), None));
            i += 1;
        }
        assert(list_labels(lists@) =~= keys_view(names@));
        Ok(lists)
    }
}

} // verus!
