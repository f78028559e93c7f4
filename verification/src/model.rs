//! What the tree means. The tree is a map from byte keys to byte values;
//! the functions here read flat keys, counters, maps and lists out of such
//! a map, and say what each operation makes of it. The contracts of the
//! store's operations are stated with them.

use vstd::prelude::*;
use crate::arith::clamp;
use crate::bytes::{i64_be, i64_from_be, lemma_lex_irreflexive, lemma_lex_transitive};
use crate::engine::{is_prefix_scan, lookup, no_writes, with_writes};
use crate::glob::{glob_matches, literal_prefix};
use crate::keys::{
    counter_key, kv_key, list_cursor_key, list_entries_prefix, list_entry_key, list_marker_key,
    map_entries_prefix, map_entry_key, map_marker_key, ttl_key, Namespace,
};
use crate::meta::{Cursors, Meta};
use crate::ttl::{deadline_of, is_expired, remaining};

verus! {

/// The contents of the tree.
pub type Store = Map<Seq<u8>, Seq<u8>>;

/// The entries whose key begins with `prefix`, in ascending byte-wise
/// order of the keys.
pub open spec fn ordered_entries(s: Store, prefix: Seq<u8>) -> Seq<(Seq<u8>, Seq<u8>)> {
    choose|found: Seq<(Seq<u8>, Seq<u8>)>| is_prefix_scan(found, s, prefix)
}

/// The entries under `prefix` can be listed in order: there are finitely
/// many of them. Where they can, `ordered_entries` is that listing.
pub open spec fn listable(s: Store, prefix: Seq<u8>) -> bool {
    exists|found: Seq<(Seq<u8>, Seq<u8>)>| is_prefix_scan(found, s, prefix)
}

/// The tree without the entries whose key begins with `prefix`.
pub open spec fn without_prefix(s: Store, prefix: Seq<u8>) -> Store {
    Map::new(|k: Seq<u8>| s.contains_key(k) && !prefix.is_prefix_of(k), |k: Seq<u8>| s[k])
}

/// The entries of `found`, each key without its first `skip` bytes.
pub open spec fn stripped(found: Seq<(Seq<u8>, Seq<u8>)>, skip: nat) -> Seq<(Seq<u8>, Seq<u8>)> {
    Seq::new(
        found.len(),
        |i: int| (found[i].0.subrange(skip as int, found[i].0.len() as int), found[i].1),
    )
}

/// The byte strings that a vector of byte vectors holds.
pub open spec fn keys_view(keys: Seq<Vec<u8>>) -> Seq<Seq<u8>> {
    Seq::new(keys.len(), |i: int| keys[i]@)
}

// ---------------------------------------------------------------- flat keys

/// The expiry record of flat key `key` is not eight bytes long.
pub open spec fn kv_corrupt(s: Store, key: Seq<u8>) -> bool {
    lookup(s, ttl_key(key)) matches Some(record) && record.len() != 8
}

/// The expiry time of flat key `key`, if it has one.
pub open spec fn kv_expiry(s: Store, key: Seq<u8>) -> Option<i64> {
    match lookup(s, ttl_key(key)) {
        Some(record) => if record.len() == 8 {
            Some(i64_from_be(record))
        } else {
            None
        },
        None => None,
    }
}

/// Flat key `key` holds a value and has not expired at `now`.
pub open spec fn kv_live(s: Store, key: Seq<u8>, now: i64) -> bool {
    s.contains_key(kv_key(key)) && !is_expired(kv_expiry(s, key), now)
}

/// The value that a read of flat key `key` sees at `now`.
pub open spec fn kv_get(s: Store, key: Seq<u8>, now: i64) -> Option<Seq<u8>> {
    if kv_live(s, key, now) {
        Some(s[kv_key(key)])
    } else {
        None
    }
}

/// The milliseconds that flat key `key` has left at `now`; `None` if it is
/// absent, has expired or never expires.
pub open spec fn kv_ttl(s: Store, key: Seq<u8>, now: i64) -> Option<i64> {
    if kv_live(s, key, now) {
        remaining(kv_expiry(s, key), now)
    } else {
        None
    }
}

/// The tree after `key` has been set to `value`: the value is stored and
/// any expiry time of the key is gone.
pub open spec fn kv_put(s: Store, key: Seq<u8>, value: Seq<u8>) -> Store {
    s.insert(kv_key(key), value).remove(ttl_key(key))
}

/// The tree after `key` has been removed: its value, its expiry time and
/// its counter are gone.
pub open spec fn kv_delete(s: Store, key: Seq<u8>) -> Store {
    s.remove(kv_key(key)).remove(ttl_key(key)).remove(counter_key(key))
}

/// The tree after each of `items` has been set, first to last.
pub open spec fn kv_put_all(s: Store, items: Seq<(Seq<u8>, Seq<u8>)>) -> Store
    decreases items.len(),
{
    if items.len() == 0 {
        s
    } else {
        kv_put(kv_put_all(s, items.drop_last()), items.last().0, items.last().1)
    }
}

/// The tree after each of `keys` has been removed.
pub open spec fn kv_delete_all(s: Store, keys: Seq<Seq<u8>>) -> Store
    decreases keys.len(),
{
    if keys.len() == 0 {
        s
    } else {
        kv_delete(kv_delete_all(s, keys.drop_last()), keys.last())
    }
}

/// The tree after flat key `key` has been told to expire at `at`: a key
/// that holds a value gets the expiry time, an absent key gets nothing.
pub open spec fn kv_expire_at(s: Store, key: Seq<u8>, at: i64) -> Store {
    if s.contains_key(kv_key(key)) {
        s.insert(ttl_key(key), i64_be(at))
    } else {
        s
    }
}

// ----------------------------------------------------------------- counters

/// The record of counter `key` is not eight bytes long.
pub open spec fn counter_corrupt(s: Store, key: Seq<u8>) -> bool {
    lookup(s, counter_key(key)) matches Some(record) && record.len() != 8
}

/// The value of counter `key`; `None` if it has never been written.
pub open spec fn counter_get(s: Store, key: Seq<u8>) -> Option<i64> {
    match lookup(s, counter_key(key)) {
        Some(record) => if record.len() == 8 {
            Some(i64_from_be(record))
        } else {
            None
        },
        None => None,
    }
}

/// The value that an update of counter `key` starts from: zero for a
/// counter that has never been written.
pub open spec fn counter_base(s: Store, key: Seq<u8>) -> i64 {
    match counter_get(s, key) {
        Some(value) => value,
        None => 0,
    }
}

/// The tree after counter `key` has been set to `value`.
pub open spec fn counter_put(s: Store, key: Seq<u8>, value: i64) -> Store {
    s.insert(counter_key(key), i64_be(value))
}

/// The tree after `delta` has been added to counter `key`. The sum stops
/// at the ends of the 64-bit range.
pub open spec fn counter_add(s: Store, key: Seq<u8>, delta: int) -> Store {
    counter_put(s, key, clamp(counter_base(s, key) + delta))
}

// -------------------------------------------------------------- collections

/// The record under `marker` is no marker.
pub open spec fn marker_corrupt(s: Store, marker: Seq<u8>) -> bool {
    lookup(s, marker) matches Some(record) && Meta::parse(record) is None
}

/// The marker stored under `marker`, if there is one.
pub open spec fn marker_meta(s: Store, marker: Seq<u8>) -> Option<Meta> {
    match lookup(s, marker) {
        Some(record) => Meta::parse(record),
        None => None,
    }
}

/// The collection with this marker exists at `now`: the marker is there
/// and has not expired.
pub open spec fn marker_live(s: Store, marker: Seq<u8>, now: i64) -> bool {
    marker_meta(s, marker) matches Some(meta) && !is_expired(meta.expiry, now)
}

/// The milliseconds that the collection with this marker has left at `now`.
pub open spec fn marker_ttl(s: Store, marker: Seq<u8>, now: i64) -> Option<i64> {
    match marker_meta(s, marker) {
        Some(meta) => remaining(meta.expiry, now),
        None => None,
    }
}

/// The tree after the collection with this marker has been told to expire
/// at `at`: a marker that is there gets the expiry time, whether it had
/// expired or not; without a marker nothing changes.
pub open spec fn marker_expire_at(s: Store, marker: Seq<u8>, at: i64) -> Store {
    match marker_meta(s, marker) {
        Some(meta) => s.insert(marker, (Meta { created: meta.created, expiry: Some(at) }).record()),
        None => s,
    }
}

/// The marker of a collection made at `now` with the given lifetime.
pub open spec fn fresh_marker(now: i64, lifetime: Option<i64>) -> Seq<u8> {
    (Meta { created: now, expiry: deadline_of(now, lifetime) }).record()
}

/// The tree after each of `items` has been stored under `prefix` followed
/// by its key, first to last.
pub open spec fn put_entries(s: Store, prefix: Seq<u8>, items: Seq<(Seq<u8>, Seq<u8>)>) -> Store
    decreases items.len(),
{
    if items.len() == 0 {
        s
    } else {
        put_entries(s, prefix, items.drop_last()).insert(prefix + items.last().0, items.last().1)
    }
}

/// The tree after each of `keys`, with `prefix` in front, has been deleted.
pub open spec fn delete_entries(s: Store, prefix: Seq<u8>, keys: Seq<Seq<u8>>) -> Store
    decreases keys.len(),
{
    if keys.len() == 0 {
        s
    } else {
        delete_entries(s, prefix, keys.drop_last()).remove(prefix + keys.last())
    }
}

// --------------------------------------------------------------------- maps

/// Map `name` exists at `now`.
pub open spec fn map_live(s: Store, name: Seq<u8>, now: i64) -> bool {
    marker_live(s, map_marker_key(name), now)
}

/// The value that a read of entry `sub` of map `name` sees at `now`.
pub open spec fn map_get(s: Store, name: Seq<u8>, sub: Seq<u8>, now: i64) -> Option<Seq<u8>> {
    if map_live(s, name, now) {
        lookup(s, map_entry_key(name, sub))
    } else {
        None
    }
}

/// The entries of map `name` whose sub-key begins with `prefix`, as a read
/// at `now` sees them: sub-key and value, in ascending order of the
/// sub-keys.
pub open spec fn map_items(s: Store, name: Seq<u8>, prefix: Seq<u8>, now: i64) -> Seq<
    (Seq<u8>, Seq<u8>),
> {
    if map_live(s, name, now) {
        stripped(
            ordered_entries(s, map_entries_prefix(name) + prefix),
            map_entries_prefix(name).len(),
        )
    } else {
        Seq::empty()
    }
}

/// The number of entries of map `name` that a read at `now` sees.
pub open spec fn map_len(s: Store, name: Seq<u8>, now: i64) -> nat {
    map_items(s, name, Seq::empty(), now).len()
}

/// The tree without map `name`: its marker and all its entries are gone.
pub open spec fn map_dropped(s: Store, name: Seq<u8>) -> Store {
    without_prefix(s, map_entries_prefix(name)).remove(map_marker_key(name))
}

/// The tree in which a write to map `name` at `now` takes place. A map
/// that exists is taken as it is. Otherwise what an expired map may have
/// left behind is dropped and the map is made anew, with the lifetime that
/// its handle was opened with.
pub open spec fn map_ready(s: Store, name: Seq<u8>, now: i64, lifetime: Option<i64>) -> Store {
    if map_live(s, name, now) {
        s
    } else {
        map_dropped(s, name).insert(map_marker_key(name), fresh_marker(now, lifetime))
    }
}

/// The tree after entry `sub` of map `name` has been set to `value`.
pub open spec fn map_put(
    s: Store,
    name: Seq<u8>,
    sub: Seq<u8>,
    value: Seq<u8>,
    now: i64,
    lifetime: Option<i64>,
) -> Store {
    map_ready(s, name, now, lifetime).insert(map_entry_key(name, sub), value)
}

/// The tree after each of `items` has been set in map `name`, first to
/// last. Without items nothing is written.
pub open spec fn map_put_all(
    s: Store,
    name: Seq<u8>,
    items: Seq<(Seq<u8>, Seq<u8>)>,
    now: i64,
    lifetime: Option<i64>,
) -> Store {
    if items.len() == 0 {
        s
    } else {
        put_entries(map_ready(s, name, now, lifetime), map_entries_prefix(name), items)
    }
}

/// The tree after entry `sub` of map `name` has been removed. A map that
/// does not exist at `now` is left alone.
pub open spec fn map_delete(s: Store, name: Seq<u8>, sub: Seq<u8>, now: i64) -> Store {
    if map_live(s, name, now) {
        s.remove(map_entry_key(name, sub))
    } else {
        s
    }
}

/// The tree after each of `subs` has been removed from map `name`.
pub open spec fn map_delete_all(s: Store, name: Seq<u8>, subs: Seq<Seq<u8>>, now: i64) -> Store {
    if map_live(s, name, now) {
        delete_entries(s, map_entries_prefix(name), subs)
    } else {
        s
    }
}

/// The tree after every entry of map `name` whose sub-key begins with
/// `prefix` has been removed.
pub open spec fn map_delete_prefix(s: Store, name: Seq<u8>, prefix: Seq<u8>, now: i64) -> Store {
    if map_live(s, name, now) {
        without_prefix(s, map_entries_prefix(name) + prefix)
    } else {
        s
    }
}

// -------------------------------------------------------------------- lists

/// The marker or the cursor record of list `name` is malformed.
pub open spec fn list_corrupt(s: Store, name: Seq<u8>) -> bool {
    ||| marker_corrupt(s, list_marker_key(name))
    ||| lookup(s, list_cursor_key(name)) matches Some(record) && Cursors::parse(record) is None
}

/// The cursors of list `name`; a list without a cursor record starts at
/// position zero.
pub open spec fn list_cursors(s: Store, name: Seq<u8>) -> Cursors {
    match lookup(s, list_cursor_key(name)) {
        Some(record) => match Cursors::parse(record) {
            Some(cursors) => cursors,
            None => Cursors::start(),
        },
        None => Cursors::start(),
    }
}

/// List `name` exists at `now`.
pub open spec fn list_live(s: Store, name: Seq<u8>, now: i64) -> bool {
    marker_live(s, list_marker_key(name), now)
}

/// The number of entries of list `name` that a read at `now` sees.
pub open spec fn list_len(s: Store, name: Seq<u8>, now: i64) -> nat {
    if list_live(s, name, now) {
        list_cursors(s, name).count()
    } else {
        0
    }
}

/// The key under which the entry at offset `i` from the head of list
/// `name` is stored.
pub open spec fn list_slot(s: Store, name: Seq<u8>, i: int) -> Seq<u8> {
    list_entry_key(name, (list_cursors(s, name).head + i) as u64)
}

/// The entry at offset `i` from the head of list `name` lies between the
/// cursors and is not stored.
pub open spec fn list_hole(s: Store, name: Seq<u8>, i: int, now: i64) -> bool {
    0 <= i < list_len(s, name, now) && !s.contains_key(list_slot(s, name, i))
}

/// Some entry between the cursors of list `name` is not stored.
pub open spec fn list_broken(s: Store, name: Seq<u8>, now: i64) -> bool {
    exists|i: int| list_hole(s, name, i, now)
}

/// The entry at offset `i` from the head of list `name`, as a read at
/// `now` sees it.
pub open spec fn list_get(s: Store, name: Seq<u8>, i: int, now: i64) -> Option<Seq<u8>> {
    if 0 <= i < list_len(s, name, now) {
        lookup(s, list_slot(s, name, i))
    } else {
        None
    }
}

/// The entries of list `name` from head to tail, as a read at `now` sees
/// them.
pub open spec fn list_items(s: Store, name: Seq<u8>, now: i64) -> Seq<Seq<u8>> {
    Seq::new(list_len(s, name, now), |i: int| s[list_slot(s, name, i)])
}

/// The tree without list `name`: its marker, its cursors and all its
/// entries are gone.
pub open spec fn list_dropped(s: Store, name: Seq<u8>) -> Store {
    without_prefix(s, list_entries_prefix(name)).remove(list_marker_key(name)).remove(
        list_cursor_key(name),
    )
}

/// The tree in which a write to list `name` at `now` takes place. A list
/// that exists is taken as it is. Otherwise what an expired list may have
/// left behind is dropped and the list is made anew, empty, with the
/// lifetime that its handle was opened with.
pub open spec fn list_ready(s: Store, name: Seq<u8>, now: i64, lifetime: Option<i64>) -> Store {
    if list_live(s, name, now) {
        s
    } else {
        list_dropped(s, name).insert(list_marker_key(name), fresh_marker(now, lifetime))
    }
}

/// The tree after `values` have been stored as entries of list `name` at
/// the positions from `from` on.
pub open spec fn put_values(s: Store, name: Seq<u8>, from: u64, values: Seq<Seq<u8>>) -> Store
    decreases values.len(),
{
    if values.len() == 0 {
        s
    } else {
        put_values(s, name, from, values.drop_last()).insert(
            list_entry_key(name, (from + values.len() - 1) as u64),
            values.last(),
        )
    }
}

/// The tail of list `name` cannot move `extra` positions on within the
/// 64-bit range.
pub open spec fn list_full(
    s: Store,
    name: Seq<u8>,
    extra: nat,
    now: i64,
    lifetime: Option<i64>,
) -> bool {
    list_cursors(list_ready(s, name, now, lifetime), name).tail + extra > u64::MAX
}

/// The tree after `values` have been pushed to the tail of list `name`,
/// first to last. Without values nothing is written.
pub open spec fn list_push_all(
    s: Store,
    name: Seq<u8>,
    values: Seq<Seq<u8>>,
    now: i64,
    lifetime: Option<i64>,
) -> Store {
    if values.len() == 0 {
        s
    } else {
        let ready = list_ready(s, name, now, lifetime);
        let at = list_cursors(ready, name);
        put_values(ready, name, at.tail, values).insert(
            list_cursor_key(name),
            (Cursors { head: at.head, tail: (at.tail + values.len()) as u64 }).record(),
        )
    }
}

/// The tree after `value` has been pushed to the tail of list `name`.
pub open spec fn list_push(
    s: Store,
    name: Seq<u8>,
    value: Seq<u8>,
    now: i64,
    lifetime: Option<i64>,
) -> Store {
    list_push_all(s, name, seq![value], now, lifetime)
}

/// The tree after the entry at the head of list `name` has been taken
/// off. An empty list, or one that does not exist at `now`, is left alone.
pub open spec fn list_pop(s: Store, name: Seq<u8>, now: i64) -> Store {
    if list_len(s, name, now) > 0 {
        let at = list_cursors(s, name);
        s.remove(list_entry_key(name, at.head)).insert(
            list_cursor_key(name),
            (Cursors { head: (at.head + 1) as u64, tail: at.tail }).record(),
        )
    } else {
        s
    }
}

/// The tree after a push that keeps list `name` within `limit` entries.
/// Below the limit the value is pushed. At the limit, with `pop_front`
/// the head entry is taken off and the value is pushed; without it
/// nothing changes.
pub open spec fn list_push_limit(
    s: Store,
    name: Seq<u8>,
    value: Seq<u8>,
    limit: nat,
    pop_front: bool,
    now: i64,
    lifetime: Option<i64>,
) -> Store {
    if list_len(s, name, now) < limit {
        list_push(s, name, value, now, lifetime)
    } else if pop_front {
        list_push(list_pop(s, name, now), name, value, now, lifetime)
    } else {
        s
    }
}

/// What a push within `limit` hands back: nothing below the limit; at the
/// limit, with `pop_front` the entry that was taken off the head, if
/// there was one, and without it the value that was not pushed.
pub open spec fn list_push_limit_result(
    s: Store,
    name: Seq<u8>,
    value: Seq<u8>,
    limit: nat,
    pop_front: bool,
    now: i64,
) -> Option<Seq<u8>> {
    if list_len(s, name, now) < limit {
        None
    } else if pop_front {
        list_get(s, name, 0, now)
    } else {
        Some(value)
    }
}

/// A push within `limit` has a value to push, and the tail of the list
/// cannot move on to take it.
pub open spec fn list_push_limit_full(
    s: Store,
    name: Seq<u8>,
    limit: nat,
    pop_front: bool,
    now: i64,
    lifetime: Option<i64>,
) -> bool {
    (list_len(s, name, now) < limit || pop_front) && list_full(s, name, 1, now, lifetime)
}

/// A push within `limit` has to take the head entry off, and that entry
/// is not stored.
pub open spec fn list_push_limit_hole(
    s: Store,
    name: Seq<u8>,
    limit: nat,
    pop_front: bool,
    now: i64,
) -> bool {
    list_len(s, name, now) >= limit && pop_front && list_hole(s, name, 0, now)
}

/// A push within `limit` cannot be made: the tail cannot move on, or the
/// entry to take off the head is not stored.
pub open spec fn list_push_limit_blocked(
    s: Store,
    name: Seq<u8>,
    limit: nat,
    pop_front: bool,
    now: i64,
    lifetime: Option<i64>,
) -> bool {
    ||| list_push_limit_full(s, name, limit, pop_front, now, lifetime)
    ||| list_push_limit_hole(s, name, limit, pop_front, now)
}

// ------------------------------------------------------------ whole database

/// `record` is a marker that has not expired at `now`.
pub open spec fn record_live(record: Seq<u8>, now: i64) -> bool {
    Meta::parse(record) matches Some(meta) && !is_expired(meta.expiry, now)
}

/// `record`, stored in namespace `ns`, tells of an expiry that has passed
/// at `now`: the expiry time of a flat key, or else a collection's marker.
pub open spec fn record_expired(ns: Namespace, record: Seq<u8>, now: i64) -> bool {
    if ns == Namespace::KvTtl {
        record.len() == 8 && i64_from_be(record) <= now
    } else {
        Meta::parse(record) matches Some(meta) && is_expired(meta.expiry, now)
    }
}

/// The names of the markers in `found` that have not expired at `now`, in
/// the order of `found`. A name is a key without its first `skip` bytes.
pub open spec fn live_among(found: Seq<(Seq<u8>, Seq<u8>)>, skip: nat, now: i64) -> Seq<Seq<u8>>
    decreases found.len(),
{
    if found.len() == 0 {
        Seq::empty()
    } else {
        let before = live_among(found.drop_last(), skip, now);
        let (key, record) = found.last();
        if record_live(record, now) {
            before.push(key.subrange(skip as int, key.len() as int))
        } else {
            before
        }
    }
}

/// The names of the markers in `found` that have expired at `now`, in the
/// order of `found`.
pub open spec fn expired_among(found: Seq<(Seq<u8>, Seq<u8>)>, ns: Namespace, now: i64) -> Seq<
    Seq<u8>,
>
    decreases found.len(),
{
    if found.len() == 0 {
        Seq::empty()
    } else {
        let before = expired_among(found.drop_last(), ns, now);
        let (key, record) = found.last();
        if record_expired(ns, record, now) {
            before.push(key.subrange(ns.prefix().len() as int, key.len() as int))
        } else {
            before
        }
    }
}

/// The names of the collections of one kind that exist at `now`, in
/// ascending order. `ns` is the namespace of the kind's markers.
pub open spec fn live_collections(s: Store, ns: Namespace, now: i64) -> Seq<Seq<u8>> {
    live_among(ordered_entries(s, ns.prefix()), ns.prefix().len(), now)
}

/// The names of the collections of one kind, or for `KvTtl` the flat
/// keys, that have expired at `now` and are still stored, in ascending
/// order.
pub open spec fn expired_collections(s: Store, ns: Namespace, now: i64) -> Seq<Seq<u8>> {
    expired_among(ordered_entries(s, ns.prefix()), ns, now)
}

/// The first `limit` of `names`, or all of them if there are fewer.
pub open spec fn first_of(names: Seq<Seq<u8>>, limit: nat) -> Seq<Seq<u8>> {
    if names.len() <= limit {
        names
    } else {
        names.subrange(0, limit as int)
    }
}

/// The tree without the lists `names`.
pub open spec fn drop_lists(s: Store, names: Seq<Seq<u8>>) -> Store
    decreases names.len(),
{
    if names.len() == 0 {
        s
    } else {
        list_dropped(drop_lists(s, names.drop_last()), names.last())
    }
}

/// The tree without the maps `names`.
pub open spec fn drop_maps(s: Store, names: Seq<Seq<u8>>) -> Store
    decreases names.len(),
{
    if names.len() == 0 {
        s
    } else {
        map_dropped(drop_maps(s, names.drop_last()), names.last())
    }
}

/// The tree without the value and the expiry time of flat key `key`.
pub open spec fn kv_reaped(s: Store, key: Seq<u8>) -> Store {
    s.remove(kv_key(key)).remove(ttl_key(key))
}

/// The tree without the values and expiry times of the flat keys `keys`.
pub open spec fn drop_flat(s: Store, keys: Seq<Seq<u8>>) -> Store
    decreases keys.len(),
{
    if keys.len() == 0 {
        s
    } else {
        kv_reaped(drop_flat(s, keys.drop_last()), keys.last())
    }
}

/// The lists that one sweep at `now` drops: the first `limit` expired
/// lists.
pub open spec fn sweep_lists(s: Store, limit: nat, now: i64) -> Seq<Seq<u8>> {
    first_of(expired_collections(s, Namespace::ListMarker, now), limit)
}

/// The maps that one sweep at `now` drops: as many of the first expired
/// maps as the lists leave of the limit.
pub open spec fn sweep_maps(s: Store, limit: nat, now: i64) -> Seq<Seq<u8>> {
    first_of(
        expired_collections(s, Namespace::MapMarker, now),
        (limit - sweep_lists(s, limit, now).len()) as nat,
    )
}

/// The flat keys that one sweep at `now` drops: as many of the first
/// expired flat keys as the lists and maps leave of the limit.
pub open spec fn sweep_flat(s: Store, limit: nat, now: i64) -> Seq<Seq<u8>> {
    first_of(
        expired_collections(s, Namespace::KvTtl, now),
        (limit - sweep_lists(s, limit, now).len() - sweep_maps(s, limit, now).len()) as nat,
    )
}

/// The tree after one sweep at `now` that drops at most `limit` of what
/// has expired: lists first, then maps, then flat keys.
pub open spec fn swept(s: Store, limit: nat, now: i64) -> Store {
    drop_flat(
        drop_maps(drop_lists(s, sweep_lists(s, limit, now)), sweep_maps(s, limit, now)),
        sweep_flat(s, limit, now),
    )
}

/// The number of lists, maps and flat keys that one sweep drops.
pub open spec fn swept_count(s: Store, limit: nat, now: i64) -> nat {
    sweep_lists(s, limit, now).len() + sweep_maps(s, limit, now).len() + sweep_flat(
        s,
        limit,
        now,
    ).len()
}

/// The flat keys among `found` that match `pattern` and hold a value at
/// `now`, in the order of `found`.
pub open spec fn matching_among(
    found: Seq<(Seq<u8>, Seq<u8>)>,
    s: Store,
    pattern: Seq<u8>,
    now: i64,
) -> Seq<Seq<u8>>
    decreases found.len(),
{
    if found.len() == 0 {
        Seq::empty()
    } else {
        let before = matching_among(found.drop_last(), s, pattern, now);
        let key = flat_key_of(found.last().0);
        if glob_matches(pattern, key) && kv_live(s, key, now) {
            before.push(key)
        } else {
            before
        }
    }
}

/// The flat key that a stored key of the flat namespace stands for.
pub open spec fn flat_key_of(stored: Seq<u8>) -> Seq<u8> {
    stored.subrange(Namespace::Kv.prefix().len() as int, stored.len() as int)
}

/// The stored keys that a scan for `pattern` has to look at: those of the
/// flat keys that begin with the pattern's literal prefix.
pub open spec fn scan_candidates(s: Store, pattern: Seq<u8>) -> Seq<(Seq<u8>, Seq<u8>)> {
    ordered_entries(s, kv_key(literal_prefix(pattern)))
}

/// The flat keys that match `pattern` and hold a value at `now`, in
/// ascending order.
pub open spec fn kv_scan(s: Store, pattern: Seq<u8>, now: i64) -> Seq<Seq<u8>> {
    matching_among(scan_candidates(s, pattern), s, pattern, now)
}

/// Some flat key that matches `pattern` has a malformed expiry record.
pub open spec fn kv_scan_corrupt(s: Store, pattern: Seq<u8>) -> bool {
    exists|i: int|
        0 <= i < scan_candidates(s, pattern).len() && glob_matches(
            pattern,
            flat_key_of(#[trigger] scan_candidates(s, pattern)[i].0),
        ) && kv_corrupt(s, flat_key_of(scan_candidates(s, pattern)[i].0))
}

// ------------------------------------------------------------------- proofs

/// The cursors of a list are well formed, whatever the tree holds.
pub proof fn lemma_cursors_wf(s: Store, name: Seq<u8>)
    ensures
        list_cursors(s, name).wf(),
{
    match lookup(s, list_cursor_key(name)) {
        Some(record) => {
            Cursors::lemma_parse_wf(record);
        },
        None => {},
    }
}

/// A batch with no writes changes nothing.
pub proof fn lemma_no_writes(s: Store)
    ensures
        with_writes(s, no_writes()) == s,
{
    assert(with_writes(s, no_writes()) =~= s);
}

/// Adding a store to a batch is the same as storing after the batch.
pub proof fn lemma_batch_put(s: Store, w: Map<Seq<u8>, Option<Seq<u8>>>, k: Seq<u8>, v: Seq<u8>)
    ensures
        with_writes(s, w.insert(k, Some(v))) == with_writes(s, w).insert(k, v),
{
    assert(with_writes(s, w.insert(k, Some(v))) =~= with_writes(s, w).insert(k, v));
}

/// Adding a delete to a batch is the same as deleting after the batch.
pub proof fn lemma_batch_delete(s: Store, w: Map<Seq<u8>, Option<Seq<u8>>>, k: Seq<u8>)
    ensures
        with_writes(s, w.insert(k, None)) == with_writes(s, w).remove(k),
{
    assert(with_writes(s, w.insert(k, None)) =~= with_writes(s, w).remove(k));
}

/// There is one way only to list the entries under a prefix in order.
pub proof fn lemma_prefix_scan_unique(
    a: Seq<(Seq<u8>, Seq<u8>)>,
    b: Seq<(Seq<u8>, Seq<u8>)>,
    s: Store,
    prefix: Seq<u8>,
)
    requires
        is_prefix_scan(a, s, prefix),
        is_prefix_scan(b, s, prefix),
    ensures
        a == b,
{
    lemma_scans_agree(a, b, s, prefix, a.len() as int);
    lemma_scans_agree(b, a, s, prefix, b.len() as int);
    lemma_scan_no_extra(a, b, s, prefix);
    lemma_scan_no_extra(b, a, s, prefix);
    assert(a =~= b);
}

/// Two ordered listings of the same entries agree on their first `n`
/// places, as far as both reach.
proof fn lemma_scans_agree(
    a: Seq<(Seq<u8>, Seq<u8>)>,
    b: Seq<(Seq<u8>, Seq<u8>)>,
    s: Store,
    prefix: Seq<u8>,
    n: int,
)
    requires
        is_prefix_scan(a, s, prefix),
        is_prefix_scan(b, s, prefix),
        0 <= n <= a.len(),
    ensures
        forall|i: int| 0 <= i < n && i < b.len() ==> a[i] == b[i],
    decreases n,
{
    if n > 0 {
        lemma_scans_agree(a, b, s, prefix, n - 1);
        let i = n - 1;
        if i < b.len() {
            // where does a[i] stand in b, and b[i] in a?
            let j = choose|j: int| 0 <= j < b.len() && #[trigger] b[j].0 == a[i].0;
            let k = choose|k: int| 0 <= k < a.len() && #[trigger] a[k].0 == b[i].0;
            if j < i {
                assert(a[j] == b[j]);
                lemma_lex_irreflexive(a[i].0);
            }
            if k < i {
                lemma_scans_agree(b, a, s, prefix, k + 1);
                assert(b[k] == a[k]);
                lemma_lex_irreflexive(b[i].0);
            }
            if j > i {
                if k > i {
                    lemma_lex_transitive(b[i].0, b[j].0, a[k].0);
                }
                lemma_lex_irreflexive(b[i].0);
            }
            assert(a[i].0 == b[i].0);
        }
    }
}

/// Of two ordered listings of the same entries, the longer has no place
/// that the shorter lacks.
proof fn lemma_scan_no_extra(
    a: Seq<(Seq<u8>, Seq<u8>)>,
    b: Seq<(Seq<u8>, Seq<u8>)>,
    s: Store,
    prefix: Seq<u8>,
)
    requires
        is_prefix_scan(a, s, prefix),
        is_prefix_scan(b, s, prefix),
    ensures
        b.len() <= a.len(),
{
    if a.len() < b.len() {
        lemma_scans_agree(a, b, s, prefix, a.len() as int);
        let extra = b[a.len() as int];
        let j = choose|j: int| 0 <= j < a.len() && #[trigger] a[j].0 == extra.0;
        assert(b[j] == a[j]);
        lemma_lex_irreflexive(extra.0);
    }
}

/// What an ordered listing of the entries under a prefix holds is what
/// `ordered_entries` names.
pub proof fn lemma_ordered_entries(found: Seq<(Seq<u8>, Seq<u8>)>, s: Store, prefix: Seq<u8>)
    requires
        is_prefix_scan(found, s, prefix),
    ensures
        ordered_entries(s, prefix) == found,
{
    lemma_prefix_scan_unique(ordered_entries(s, prefix), found, s, prefix);
}

} // verus!
