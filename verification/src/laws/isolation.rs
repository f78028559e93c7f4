//! Isolation: every key of the tree belongs to one owner, a flat key, a
//! map or a list; a write changes only keys of its owner, and a read
//! depends only on keys of its owner. So no owner sees another's writes.

use vstd::prelude::*;
use crate::bytes::lemma_prefix_concat;
use crate::engine::{is_prefix_scan, lookup};
use crate::keys::{
    counter_key, is_name, kv_key, lemma_entries_apart, lemma_entries_tagged, lemma_key_roundtrip,
    lemma_list_keys, lemma_map_keys, lemma_namespaces_disjoint, lemma_tagged, list_cursor_key,
    list_entries_prefix, list_marker_key, map_entries_prefix, map_entry_key, map_marker_key,
    ttl_key, Namespace,
};
use crate::model::{
    counter_add, counter_corrupt, counter_get, counter_put, delete_entries, kv_corrupt, kv_delete,
    kv_expire_at, kv_get, kv_live, kv_put, kv_ttl, lemma_ordered_entries, list_broken, list_corrupt,
    list_cursors, list_dropped, list_get, list_hole, list_items, list_len, list_live, list_pop,
    list_push, list_push_all, list_push_limit, list_ready, list_slot, listable, map_delete,
    map_delete_all, map_delete_prefix, map_dropped, map_get, map_items, map_live, map_put,
    map_put_all, map_ready, marker_corrupt, marker_expire_at, marker_ttl, ordered_entries,
    put_entries, put_values, Store,
};

verus! {

/// The keys that belong to flat key `key`: those of its value, of its
/// expiry time and of its counter.
pub open spec fn flat_owns(key: Seq<u8>, k: Seq<u8>) -> bool {
    k == kv_key(key) || k == ttl_key(key) || k == counter_key(key)
}

/// The keys that belong to map `name`: that of its marker and those of
/// its entries.
pub open spec fn map_owns(name: Seq<u8>, k: Seq<u8>) -> bool {
    k == map_marker_key(name) || map_entries_prefix(name).is_prefix_of(k)
}

/// The keys that belong to list `name`: those of its marker, of its
/// cursors and of its entries.
pub open spec fn list_owns(name: Seq<u8>, k: Seq<u8>) -> bool {
    k == list_marker_key(name) || k == list_cursor_key(name) || list_entries_prefix(
        name,
    ).is_prefix_of(k)
}

/// Two trees hold the same under every key that `owned` does not cover.
pub open spec fn same_outside(s: Store, t: Store, owned: spec_fn(Seq<u8>) -> bool) -> bool {
    forall|k: Seq<u8>|
        #![trigger owned(k)]
        #![trigger lookup(s, k)]
        #![trigger lookup(t, k)]
        !owned(k) ==> lookup(s, k) == lookup(t, k)
}

/// Two trees hold the same under every key that `owned` covers.
pub open spec fn same_inside(s: Store, t: Store, owned: spec_fn(Seq<u8>) -> bool) -> bool {
    forall|k: Seq<u8>|
        #![trigger owned(k)]
        #![trigger lookup(s, k)]
        #![trigger lookup(t, k)]
        owned(k) ==> lookup(s, k) == lookup(t, k)
}

/// No key belongs to two different flat keys.
pub proof fn law_flat_owners_apart(a: Seq<u8>, b: Seq<u8>, k: Seq<u8>)
    requires
        a != b,
    ensures
        !(flat_owns(a, k) && flat_owns(b, k)),
{
    lemma_key_roundtrip(Namespace::Kv, a);
    lemma_key_roundtrip(Namespace::KvTtl, a);
    lemma_key_roundtrip(Namespace::Counter, a);
    lemma_tagged(Namespace::Kv, a);
    lemma_tagged(Namespace::KvTtl, a);
    lemma_tagged(Namespace::Counter, a);
    lemma_tagged(Namespace::Kv, b);
    lemma_tagged(Namespace::KvTtl, b);
    lemma_tagged(Namespace::Counter, b);
    if flat_owns(a, k) && flat_owns(b, k) {
        if k == kv_key(a) && k != kv_key(b) {
            if k == ttl_key(b) {
                lemma_namespaces_disjoint(Namespace::Kv, Namespace::KvTtl, k);
            } else {
                lemma_namespaces_disjoint(Namespace::Kv, Namespace::Counter, k);
            }
        } else if k == ttl_key(a) && k != ttl_key(b) {
            if k == kv_key(b) {
                lemma_namespaces_disjoint(Namespace::KvTtl, Namespace::Kv, k);
            } else {
                lemma_namespaces_disjoint(Namespace::KvTtl, Namespace::Counter, k);
            }
        } else if k == counter_key(a) && k != counter_key(b) {
            if k == kv_key(b) {
                lemma_namespaces_disjoint(Namespace::Counter, Namespace::Kv, k);
            } else {
                lemma_namespaces_disjoint(Namespace::Counter, Namespace::KvTtl, k);
            }
        }
    }
}

/// No key belongs to two maps with different names.
pub proof fn law_map_owners_apart(a: Seq<u8>, b: Seq<u8>, k: Seq<u8>)
    requires
        a != b,
        is_name(a),
        is_name(b),
    ensures
        !(map_owns(a, k) && map_owns(b, k)),
{
    lemma_key_roundtrip(Namespace::MapMarker, a);
    if map_owns(a, k) && map_owns(b, k) {
        lemma_owner_kinds(a, k);
        lemma_owner_kinds(b, k);
        if map_entries_prefix(a).is_prefix_of(k) && map_entries_prefix(b).is_prefix_of(k) {
            lemma_entries_apart(Namespace::MapEntry, a, b, k);
        } else if map_entries_prefix(a).is_prefix_of(k) || map_entries_prefix(b).is_prefix_of(k) {
            lemma_namespaces_disjoint(Namespace::MapEntry, Namespace::MapMarker, k);
        }
    }
}

/// No key belongs to two lists with different names.
pub proof fn law_list_owners_apart(a: Seq<u8>, b: Seq<u8>, k: Seq<u8>)
    requires
        a != b,
        is_name(a),
        is_name(b),
    ensures
        !(list_owns(a, k) && list_owns(b, k)),
{
    lemma_key_roundtrip(Namespace::ListMarker, a);
    lemma_key_roundtrip(Namespace::ListCursors, a);
    if list_owns(a, k) && list_owns(b, k) {
        lemma_owner_kinds(a, k);
        lemma_owner_kinds(b, k);
        let in_a = list_entries_prefix(a).is_prefix_of(k);
        let in_b = list_entries_prefix(b).is_prefix_of(k);
        if in_a && in_b {
            lemma_entries_apart(Namespace::ListEntry, a, b, k);
        } else if in_a || in_b {
            if k == list_marker_key(a) || k == list_marker_key(b) {
                lemma_namespaces_disjoint(Namespace::ListEntry, Namespace::ListMarker, k);
            } else {
                lemma_namespaces_disjoint(Namespace::ListEntry, Namespace::ListCursors, k);
            }
        } else if k == list_marker_key(a) || k == list_marker_key(b) {
            if k == list_cursor_key(a) || k == list_cursor_key(b) {
                lemma_namespaces_disjoint(Namespace::ListMarker, Namespace::ListCursors, k);
            }
        }
    }
}

/// The kind of owner that a key can belong to, by its namespace.
proof fn lemma_owner_of_kind(name: Seq<u8>, k: Seq<u8>, ns: Namespace)
    requires
        ns.prefix().is_prefix_of(k),
    ensures
        flat_owns(name, k) ==> ns == Namespace::Kv || ns == Namespace::KvTtl || ns
            == Namespace::Counter,
        map_owns(name, k) ==> ns == Namespace::MapMarker || ns == Namespace::MapEntry,
        list_owns(name, k) ==> ns == Namespace::ListMarker || ns == Namespace::ListCursors || ns
            == Namespace::ListEntry,
{
    lemma_owner_kinds(name, k);
    if k == kv_key(name) {
        lemma_namespaces_disjoint(ns, Namespace::Kv, k);
    }
    if k == ttl_key(name) {
        lemma_namespaces_disjoint(ns, Namespace::KvTtl, k);
    }
    if k == counter_key(name) {
        lemma_namespaces_disjoint(ns, Namespace::Counter, k);
    }
    if k == map_marker_key(name) {
        lemma_namespaces_disjoint(ns, Namespace::MapMarker, k);
    }
    if map_entries_prefix(name).is_prefix_of(k) {
        lemma_namespaces_disjoint(ns, Namespace::MapEntry, k);
    }
    if k == list_marker_key(name) {
        lemma_namespaces_disjoint(ns, Namespace::ListMarker, k);
    }
    if k == list_cursor_key(name) {
        lemma_namespaces_disjoint(ns, Namespace::ListCursors, k);
    }
    if list_entries_prefix(name).is_prefix_of(k) {
        lemma_namespaces_disjoint(ns, Namespace::ListEntry, k);
    }
}

/// No key belongs to owners of two kinds, whatever their names: not to a
/// flat key and a map, not to a flat key and a list, not to a map and a
/// list.
pub proof fn law_kinds_apart(a: Seq<u8>, b: Seq<u8>, k: Seq<u8>)
    ensures
        !(flat_owns(a, k) && map_owns(b, k)),
        !(flat_owns(a, k) && list_owns(b, k)),
        !(map_owns(a, k) && list_owns(b, k)),
{
    lemma_owner_kinds(a, k);
    if flat_owns(a, k) {
        let ns = if k == kv_key(a) {
            Namespace::Kv
        } else if k == ttl_key(a) {
            Namespace::KvTtl
        } else {
            Namespace::Counter
        };
        lemma_owner_of_kind(b, k, ns);
    }
    if map_owns(a, k) {
        let ns = if k == map_marker_key(a) {
            Namespace::MapMarker
        } else {
            Namespace::MapEntry
        };
        lemma_owner_of_kind(b, k, ns);
    }
}

/// The namespace that a key of an owner lies in.
proof fn lemma_owner_kinds(name: Seq<u8>, k: Seq<u8>)
    ensures
        k == kv_key(name) ==> Namespace::Kv.prefix().is_prefix_of(k),
        k == ttl_key(name) ==> Namespace::KvTtl.prefix().is_prefix_of(k),
        k == counter_key(name) ==> Namespace::Counter.prefix().is_prefix_of(k),
        k == map_marker_key(name) ==> Namespace::MapMarker.prefix().is_prefix_of(k),
        map_entries_prefix(name).is_prefix_of(k) ==> Namespace::MapEntry.prefix().is_prefix_of(k),
        k == list_marker_key(name) ==> Namespace::ListMarker.prefix().is_prefix_of(k),
        k == list_cursor_key(name) ==> Namespace::ListCursors.prefix().is_prefix_of(k),
        list_entries_prefix(name).is_prefix_of(k) ==> Namespace::ListEntry.prefix().is_prefix_of(
            k,
        ),
{
    lemma_tagged(Namespace::Kv, name);
    lemma_tagged(Namespace::KvTtl, name);
    lemma_tagged(Namespace::Counter, name);
    lemma_tagged(Namespace::MapMarker, name);
    lemma_tagged(Namespace::ListMarker, name);
    lemma_tagged(Namespace::ListCursors, name);
    if map_entries_prefix(name).is_prefix_of(k) {
        lemma_entries_tagged(Namespace::MapEntry, name, k);
    }
    if list_entries_prefix(name).is_prefix_of(k) {
        lemma_entries_tagged(Namespace::ListEntry, name, k);
    }
}

/// A write that changes only keys outside `owned` leaves every key inside
/// it as it was: what one owner writes, no other owner's reads can see.
pub proof fn law_isolation(
    s: Store,
    t: Store,
    writer: spec_fn(Seq<u8>) -> bool,
    reader: spec_fn(Seq<u8>) -> bool,
)
    requires
        same_outside(s, t, writer),
        forall|k: Seq<u8>| !(#[trigger] writer(k) && reader(k)),
    ensures
        same_inside(s, t, reader),
{
}

/// Every write to a flat key or a counter changes only keys that belong
/// to that flat key.
pub proof fn law_flat_footprint(s: Store, key: Seq<u8>, value: Seq<u8>, at: i64, delta: int)
    ensures
        same_outside(s, kv_put(s, key, value), |k: Seq<u8>| flat_owns(key, k)),
        same_outside(s, kv_delete(s, key), |k: Seq<u8>| flat_owns(key, k)),
        same_outside(s, kv_expire_at(s, key, at), |k: Seq<u8>| flat_owns(key, k)),
        same_outside(s, counter_put(s, key, at), |k: Seq<u8>| flat_owns(key, k)),
        same_outside(s, counter_add(s, key, delta), |k: Seq<u8>| flat_owns(key, k)),
{
}

/// Storing entries under a prefix changes only keys under that prefix.
proof fn lemma_put_entries_footprint(s: Store, prefix: Seq<u8>, items: Seq<(Seq<u8>, Seq<u8>)>)
    ensures
        forall|k: Seq<u8>|
            !prefix.is_prefix_of(k) ==> lookup(put_entries(s, prefix, items), k) == lookup(s, k),
    decreases items.len(),
{
    if items.len() > 0 {
        lemma_put_entries_footprint(s, prefix, items.drop_last());
        let key = prefix + items.last().0;
        assert(key.subrange(0, prefix.len() as int) =~= prefix);
    }
}

/// Deleting entries under a prefix changes only keys under that prefix.
proof fn lemma_delete_entries_footprint(s: Store, prefix: Seq<u8>, keys: Seq<Seq<u8>>)
    ensures
        forall|k: Seq<u8>|
            !prefix.is_prefix_of(k) ==> lookup(delete_entries(s, prefix, keys), k) == lookup(s, k),
    decreases keys.len(),
{
    if keys.len() > 0 {
        lemma_delete_entries_footprint(s, prefix, keys.drop_last());
        let key = prefix + keys.last();
        assert(key.subrange(0, prefix.len() as int) =~= prefix);
    }
}

/// Every write to a map changes only keys that belong to that map.
pub proof fn law_map_footprint(
    s: Store,
    name: Seq<u8>,
    sub: Seq<u8>,
    value: Seq<u8>,
    items: Seq<(Seq<u8>, Seq<u8>)>,
    subs: Seq<Seq<u8>>,
    now: i64,
    lifetime: Option<i64>,
    at: i64,
)
    ensures
        same_outside(
            s,
            map_put(s, name, sub, value, now, lifetime),
            |k: Seq<u8>| map_owns(name, k),
        ),
        same_outside(s, map_put_all(s, name, items, now, lifetime), |k: Seq<u8>| map_owns(name, k)),
        same_outside(s, map_delete(s, name, sub, now), |k: Seq<u8>| map_owns(name, k)),
        same_outside(s, map_delete_all(s, name, subs, now), |k: Seq<u8>| map_owns(name, k)),
        same_outside(s, map_delete_prefix(s, name, sub, now), |k: Seq<u8>| map_owns(name, k)),
        same_outside(s, map_dropped(s, name), |k: Seq<u8>| map_owns(name, k)),
        same_outside(
            s,
            marker_expire_at(s, map_marker_key(name), at),
            |k: Seq<u8>| map_owns(name, k),
        ),
{
    lemma_map_keys(name);
    let prefix = map_entries_prefix(name);
    lemma_put_entries_footprint(map_ready(s, name, now, lifetime), prefix, items);
    lemma_delete_entries_footprint(s, prefix, subs);
    assert forall|k: Seq<u8>| !map_owns(name, k) implies lookup(
        map_delete_prefix(s, name, sub, now),
        k,
    ) == lookup(s, k) by {
        if (prefix + sub).is_prefix_of(k) {
            lemma_prefix_concat(prefix, sub, k);
        }
    }
}

/// Storing values at positions of a list changes only keys under the
/// list's entry prefix.
proof fn lemma_put_values_footprint(s: Store, name: Seq<u8>, from: u64, values: Seq<Seq<u8>>)
    ensures
        forall|k: Seq<u8>|
            !list_entries_prefix(name).is_prefix_of(k) ==> lookup(
                put_values(s, name, from, values),
                k,
            ) == lookup(s, k),
    decreases values.len(),
{
    if values.len() > 0 {
        lemma_put_values_footprint(s, name, from, values.drop_last());
        lemma_list_keys(name);
    }
}

/// A push changes only keys that belong to the list.
proof fn lemma_push_footprint(
    s: Store,
    name: Seq<u8>,
    values: Seq<Seq<u8>>,
    now: i64,
    lifetime: Option<i64>,
)
    ensures
        same_outside(
            s,
            list_push_all(s, name, values, now, lifetime),
            |k: Seq<u8>| list_owns(name, k),
        ),
{
    lemma_list_keys(name);
    let ready = list_ready(s, name, now, lifetime);
    let stored = put_values(ready, name, list_cursors(ready, name).tail, values);
    let after = list_push_all(s, name, values, now, lifetime);
    lemma_put_values_footprint(ready, name, list_cursors(ready, name).tail, values);
    assert forall|k: Seq<u8>| !list_owns(name, k) implies lookup(s, k) == #[trigger] lookup(
        after,
        k,
    ) by {
        assert(lookup(stored, k) == lookup(ready, k));
        assert(lookup(ready, k) == lookup(s, k));
    }
}

/// A pop changes only keys that belong to the list.
proof fn lemma_pop_footprint(s: Store, name: Seq<u8>, now: i64)
    ensures
        same_outside(s, list_pop(s, name, now), |k: Seq<u8>| list_owns(name, k)),
{
    lemma_list_keys(name);
}

/// Every write to a list changes only keys that belong to that list.
pub proof fn law_list_footprint(
    s: Store,
    name: Seq<u8>,
    value: Seq<u8>,
    values: Seq<Seq<u8>>,
    limit: nat,
    pop_front: bool,
    now: i64,
    lifetime: Option<i64>,
    at: i64,
)
    ensures
        same_outside(s, list_push(s, name, value, now, lifetime), |k: Seq<u8>| list_owns(name, k)),
        same_outside(
            s,
            list_push_all(s, name, values, now, lifetime),
            |k: Seq<u8>| list_owns(name, k),
        ),
        same_outside(s, list_pop(s, name, now), |k: Seq<u8>| list_owns(name, k)),
        same_outside(
            s,
            list_push_limit(s, name, value, limit, pop_front, now, lifetime),
            |k: Seq<u8>| list_owns(name, k),
        ),
        same_outside(s, list_dropped(s, name), |k: Seq<u8>| list_owns(name, k)),
        same_outside(
            s,
            marker_expire_at(s, list_marker_key(name), at),
            |k: Seq<u8>| list_owns(name, k),
        ),
{
    lemma_push_footprint(s, name, values, now, lifetime);
    lemma_push_footprint(s, name, seq![value], now, lifetime);
    lemma_pop_footprint(s, name, now);
    let taken = list_pop(s, name, now);
    lemma_push_footprint(taken, name, seq![value], now, lifetime);
    let both = list_push(taken, name, value, now, lifetime);
    assert forall|k: Seq<u8>| !list_owns(name, k) implies lookup(s, k) == #[trigger] lookup(
        both,
        k,
    ) by {
        assert(lookup(s, k) == lookup(taken, k));
    }
}

/// What is read of a flat key or a counter depends only on keys that
/// belong to that flat key.
pub proof fn law_flat_reads(s: Store, t: Store, key: Seq<u8>, now: i64)
    requires
        same_inside(s, t, |k: Seq<u8>| flat_owns(key, k)),
    ensures
        kv_corrupt(s, key) == kv_corrupt(t, key),
        kv_get(s, key, now) == kv_get(t, key, now),
        kv_live(s, key, now) == kv_live(t, key, now),
        kv_ttl(s, key, now) == kv_ttl(t, key, now),
        counter_corrupt(s, key) == counter_corrupt(t, key),
        counter_get(s, key) == counter_get(t, key),
{
    assert(lookup(s, kv_key(key)) == lookup(t, kv_key(key)));
    assert(lookup(s, ttl_key(key)) == lookup(t, ttl_key(key)));
    assert(lookup(s, counter_key(key)) == lookup(t, counter_key(key)));
}

/// Two trees that hold the same under a prefix list the same entries
/// there.
pub proof fn lemma_same_listing(s: Store, t: Store, prefix: Seq<u8>)
    requires
        listable(s, prefix),
        forall|k: Seq<u8>| prefix.is_prefix_of(k) ==> lookup(s, k) == lookup(t, k),
    ensures
        ordered_entries(s, prefix) == ordered_entries(t, prefix),
{
    let found = ordered_entries(s, prefix);
    assert(is_prefix_scan(found, s, prefix));
    assert forall|i: int| 0 <= i < found.len() implies {
        &&& prefix.is_prefix_of(#[trigger] found[i].0)
        &&& t.contains_key(found[i].0)
        &&& t[found[i].0] == found[i].1
    } by {
        assert(lookup(s, found[i].0) == lookup(t, found[i].0));
    }
    assert forall|k: Seq<u8>| t.contains_key(k) && prefix.is_prefix_of(k) implies exists|i: int|
        0 <= i < found.len() && #[trigger] found[i].0 == k by {
        assert(lookup(s, k) == lookup(t, k));
    }
    lemma_ordered_entries(found, t, prefix);
}

/// What is read of a map depends only on keys that belong to that map.
pub proof fn law_map_reads(s: Store, t: Store, name: Seq<u8>, sub: Seq<u8>, now: i64)
    requires
        same_inside(s, t, |k: Seq<u8>| map_owns(name, k)),
    ensures
        marker_corrupt(s, map_marker_key(name)) == marker_corrupt(t, map_marker_key(name)),
        map_live(s, name, now) == map_live(t, name, now),
        marker_ttl(s, map_marker_key(name), now) == marker_ttl(t, map_marker_key(name), now),
        map_get(s, name, sub, now) == map_get(t, name, sub, now),
        listable(s, map_entries_prefix(name) + sub) ==> map_items(s, name, sub, now) == map_items(
            t,
            name,
            sub,
            now,
        ),
{
    lemma_map_keys(name);
    assert(lookup(s, map_marker_key(name)) == lookup(t, map_marker_key(name)));
    assert(lookup(s, map_entry_key(name, sub)) == lookup(t, map_entry_key(name, sub)));
    if listable(s, map_entries_prefix(name) + sub) {
        assert forall|k: Seq<u8>| (map_entries_prefix(name) + sub).is_prefix_of(k) implies lookup(
            s,
            k,
        ) == lookup(t, k) by {
            lemma_prefix_concat(map_entries_prefix(name), sub, k);
            assert(map_owns(name, k));
            assert(lookup(s, k) == lookup(t, k));
        }
        lemma_same_listing(s, t, map_entries_prefix(name) + sub);
    }
}

/// What is read of a list depends only on keys that belong to that list.
pub proof fn law_list_reads(s: Store, t: Store, name: Seq<u8>, i: int, now: i64)
    requires
        same_inside(s, t, |k: Seq<u8>| list_owns(name, k)),
    ensures
        list_corrupt(s, name) == list_corrupt(t, name),
        list_live(s, name, now) == list_live(t, name, now),
        marker_ttl(s, list_marker_key(name), now) == marker_ttl(t, list_marker_key(name), now),
        list_len(s, name, now) == list_len(t, name, now),
        list_get(s, name, i, now) == list_get(t, name, i, now),
        list_broken(s, name, now) == list_broken(t, name, now),
        !list_broken(s, name, now) ==> list_items(s, name, now) == list_items(t, name, now),
{
    lemma_list_keys(name);
    assert(lookup(s, list_marker_key(name)) == lookup(t, list_marker_key(name)));
    assert(lookup(s, list_cursor_key(name)) == lookup(t, list_cursor_key(name)));
    assert forall|j: int| #[trigger] list_owns(name, list_slot(s, name, j)) by {}
    assert forall|j: int| list_hole(s, name, j, now) == list_hole(t, name, j, now) by {
        assert(list_owns(name, list_slot(s, name, j)));
        assert(lookup(s, list_slot(s, name, j)) == lookup(t, list_slot(s, name, j)));
    }
    if list_broken(s, name, now) {
        let j = choose|j: int| list_hole(s, name, j, now);
        assert(list_hole(t, name, j, now));
    }
    if list_broken(t, name, now) {
        let j = choose|j: int| list_hole(t, name, j, now);
        assert(list_hole(s, name, j, now));
    }
    if !list_broken(s, name, now) {
        assert forall|j: int| 0 <= j < list_len(s, name, now) implies list_items(s, name, now)[j]
            == list_items(t, name, now)[j] by {
            assert(!list_hole(s, name, j, now));
            assert(lookup(s, list_slot(s, name, j)) == lookup(t, list_slot(s, name, j)));
        }
        assert(list_items(s, name, now) =~= list_items(t, name, now));
    }
}

/// Two maps with different names do not see each other's writes: after
/// any write to map `a`, every read of map `b` is as before.
pub proof fn law_maps_isolated(
    s: Store,
    t: Store,
    a: Seq<u8>,
    b: Seq<u8>,
    sub: Seq<u8>,
    now: i64,
)
    requires
        a != b,
        is_name(a),
        is_name(b),
        same_outside(s, t, |k: Seq<u8>| map_owns(a, k)),
    ensures
        map_live(s, b, now) == map_live(t, b, now),
        marker_ttl(s, map_marker_key(b), now) == marker_ttl(t, map_marker_key(b), now),
        map_get(s, b, sub, now) == map_get(t, b, sub, now),
        listable(s, map_entries_prefix(b) + sub) ==> map_items(s, b, sub, now) == map_items(
            t,
            b,
            sub,
            now,
        ),
{
    assert forall|k: Seq<u8>| map_owns(b, k) implies lookup(s, k) == #[trigger] lookup(t, k) by {
        law_map_owners_apart(a, b, k);
    }
    assert(same_inside(s, t, |k: Seq<u8>| map_owns(b, k)));
    law_map_reads(s, t, b, sub, now);
}

/// Two lists with different names do not see each other's writes: after
/// any write to list `a`, every read of list `b` is as before.
pub proof fn law_lists_isolated(s: Store, t: Store, a: Seq<u8>, b: Seq<u8>, i: int, now: i64)
    requires
        a != b,
        is_name(a),
        is_name(b),
        same_outside(s, t, |k: Seq<u8>| list_owns(a, k)),
    ensures
        list_corrupt(s, b) == list_corrupt(t, b),
        list_live(s, b, now) == list_live(t, b, now),
        marker_ttl(s, list_marker_key(b), now) == marker_ttl(t, list_marker_key(b), now),
        list_len(s, b, now) == list_len(t, b, now),
        list_get(s, b, i, now) == list_get(t, b, i, now),
        list_broken(s, b, now) == list_broken(t, b, now),
        !list_broken(s, b, now) ==> list_items(s, b, now) == list_items(t, b, now),
{
    assert forall|k: Seq<u8>| list_owns(b, k) implies lookup(s, k) == #[trigger] lookup(t, k) by {
        law_list_owners_apart(a, b, k);
    }
    assert(same_inside(s, t, |k: Seq<u8>| list_owns(b, k)));
    law_list_reads(s, t, b, i, now);
}

/// A map sees no write to a list or to a flat key, whatever their names.
pub proof fn law_map_isolated_from_others(
    s: Store,
    t: Store,
    writer: Seq<u8>,
    reader: Seq<u8>,
    sub: Seq<u8>,
    now: i64,
)
    requires
        same_outside(s, t, |k: Seq<u8>| list_owns(writer, k)) || same_outside(
            s,
            t,
            |k: Seq<u8>| flat_owns(writer, k),
        ),
    ensures
        map_live(s, reader, now) == map_live(t, reader, now),
        map_get(s, reader, sub, now) == map_get(t, reader, sub, now),
        listable(s, map_entries_prefix(reader) + sub) ==> map_items(s, reader, sub, now)
            == map_items(t, reader, sub, now),
{
    assert forall|k: Seq<u8>| map_owns(reader, k) implies lookup(s, k) == #[trigger] lookup(
        t,
        k,
    ) by {
        law_kinds_apart(writer, reader, k);
        law_kinds_apart(reader, writer, k);
    }
    assert(same_inside(s, t, |k: Seq<u8>| map_owns(reader, k)));
    law_map_reads(s, t, reader, sub, now);
}

/// A list sees no write to a map or to a flat key, whatever their names.
pub proof fn law_list_isolated_from_others(
    s: Store,
    t: Store,
    writer: Seq<u8>,
    reader: Seq<u8>,
    i: int,
    now: i64,
)
    requires
        same_outside(s, t, |k: Seq<u8>| map_owns(writer, k)) || same_outside(
            s,
            t,
            |k: Seq<u8>| flat_owns(writer, k),
        ),
    ensures
        list_live(s, reader, now) == list_live(t, reader, now),
        list_len(s, reader, now) == list_len(t, reader, now),
        list_get(s, reader, i, now) == list_get(t, reader, i, now),
        !list_broken(s, reader, now) ==> list_items(s, reader, now) == list_items(t, reader, now),
{
    assert forall|k: Seq<u8>| list_owns(reader, k) implies lookup(s, k) == #[trigger] lookup(
        t,
        k,
    ) by {
        law_kinds_apart(writer, reader, k);
        law_kinds_apart(reader, writer, k);
    }
    assert(same_inside(s, t, |k: Seq<u8>| list_owns(reader, k)));
    law_list_reads(s, t, reader, i, now);
}

/// A flat key and its counter see no write to a map, to a list or to
/// another flat key.
pub proof fn law_flat_isolated(s: Store, t: Store, writer: Seq<u8>, reader: Seq<u8>, now: i64)
    requires
        same_outside(s, t, |k: Seq<u8>| map_owns(writer, k)) || same_outside(
            s,
            t,
            |k: Seq<u8>| list_owns(writer, k),
        ) || (writer != reader && same_outside(s, t, |k: Seq<u8>| flat_owns(writer, k))),
    ensures
        kv_get(s, reader, now) == kv_get(t, reader, now),
        kv_ttl(s, reader, now) == kv_ttl(t, reader, now),
        counter_get(s, reader) == counter_get(t, reader),
{
    assert forall|k: Seq<u8>| flat_owns(reader, k) implies lookup(s, k) == #[trigger] lookup(
        t,
        k,
    ) by {
        law_kinds_apart(reader, writer, k);
        if writer != reader {
            law_flat_owners_apart(writer, reader, k);
        }
    }
    assert(same_inside(s, t, |k: Seq<u8>| flat_owns(reader, k)));
    law_flat_reads(s, t, reader, now);
}

/// A push to one list changes no other list: after a push to list `a`,
/// every read of a list `b` of another name is as before, at any time.
pub proof fn law_list_push_isolated(
    s: Store,
    a: Seq<u8>,
    value: Seq<u8>,
    now: i64,
    lifetime: Option<i64>,
    b: Seq<u8>,
    i: int,
    at: i64,
)
    requires
        a != b,
        is_name(a),
        is_name(b),
    ensures
        ({
            let after = list_push(s, a, value, now, lifetime);
            &&& list_corrupt(after, b) == list_corrupt(s, b)
            &&& list_live(after, b, at) == list_live(s, b, at)
            &&& marker_ttl(after, list_marker_key(b), at) == marker_ttl(s, list_marker_key(b), at)
            &&& list_len(after, b, at) == list_len(s, b, at)
            &&& list_get(after, b, i, at) == list_get(s, b, i, at)
            &&& list_broken(after, b, at) == list_broken(s, b, at)
            &&& !list_broken(s, b, at) ==> list_items(after, b, at) == list_items(s, b, at)
        }),
{
    let after = list_push(s, a, value, now, lifetime);
    law_list_footprint(s, a, value, seq![value], 0, false, now, lifetime, 0);
    law_lists_isolated(s, after, a, b, i, at);
}

/// An insert into one map changes no other map: after an insert into map
/// `a`, every read of a map `b` of another name is as before, at any time.
pub proof fn law_map_insert_isolated(
    s: Store,
    a: Seq<u8>,
    sub: Seq<u8>,
    value: Seq<u8>,
    now: i64,
    lifetime: Option<i64>,
    b: Seq<u8>,
    other: Seq<u8>,
    at: i64,
)
    requires
        a != b,
        is_name(a),
        is_name(b),
    ensures
        ({
            let after = map_put(s, a, sub, value, now, lifetime);
            &&& map_live(after, b, at) == map_live(s, b, at)
            &&& marker_ttl(after, map_marker_key(b), at) == marker_ttl(s, map_marker_key(b), at)
            &&& map_get(after, b, other, at) == map_get(s, b, other, at)
            &&& listable(s, map_entries_prefix(b) + other) ==> map_items(after, b, other, at)
                == map_items(s, b, other, at)
        }),
{
    let after = map_put(s, a, sub, value, now, lifetime);
    law_map_footprint(s, a, sub, value, Seq::empty(), Seq::empty(), now, lifetime, 0);
    law_maps_isolated(s, after, a, b, other, at);
}

} // verus!
