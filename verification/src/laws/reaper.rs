//! The law of sweeps: the reaper drops only what has expired, and no more
//! at a time than its limit.

use vstd::prelude::*;
use crate::engine::is_prefix_scan;
use crate::keys::{list_marker_key, map_marker_key, ttl_key, Namespace};
use crate::model::{
    expired_among, kv_live, list_live, listable, map_live, ordered_entries, record_expired,
    sweep_flat, sweep_lists, sweep_maps, swept_count, Store,
};

verus! {

/// A sweep drops only what has expired, and at most `limit` of it: every
/// list and every map that a sweep at `now` drops has a marker and does
/// not exist at `now`, and every flat key that it drops has an expiry time
/// and is read as absent at `now`.
pub proof fn law_sweep_takes_expired(s: Store, limit: nat, now: i64)
    requires
        listable(s, Namespace::ListMarker.prefix()),
        listable(s, Namespace::MapMarker.prefix()),
        listable(s, Namespace::KvTtl.prefix()),
    ensures
        swept_count(s, limit, now) <= limit,
        forall|i: int|
            0 <= i < sweep_lists(s, limit, now).len() ==> {
                let name = #[trigger] sweep_lists(s, limit, now)[i];
                s.contains_key(list_marker_key(name)) && !list_live(s, name, now)
            },
        forall|i: int|
            0 <= i < sweep_maps(s, limit, now).len() ==> {
                let name = #[trigger] sweep_maps(s, limit, now)[i];
                s.contains_key(map_marker_key(name)) && !map_live(s, name, now)
            },
        forall|i: int|
            0 <= i < sweep_flat(s, limit, now).len() ==> {
                let key = #[trigger] sweep_flat(s, limit, now)[i];
                s.contains_key(ttl_key(key)) && !kv_live(s, key, now)
            },
{
    let lists = ordered_entries(s, Namespace::ListMarker.prefix());
    let maps = ordered_entries(s, Namespace::MapMarker.prefix());
    let flat = ordered_entries(s, Namespace::KvTtl.prefix());
    lemma_expired_among(lists, lists.len() as int, s, Namespace::ListMarker, now);
    lemma_expired_among(maps, maps.len() as int, s, Namespace::MapMarker, now);
    lemma_expired_among(flat, flat.len() as int, s, Namespace::KvTtl, now);
    assert(lists.subrange(0, lists.len() as int) =~= lists);
    assert(maps.subrange(0, maps.len() as int) =~= maps);
    assert(flat.subrange(0, flat.len() as int) =~= flat);
}

/// Every name among the expired records of the first `n` candidates is
/// the name of a record that is stored and tells of an expiry that has
/// passed.
proof fn lemma_expired_among(
    found: Seq<(Seq<u8>, Seq<u8>)>,
    n: int,
    s: Store,
    ns: Namespace,
    now: i64,
)
    requires
        0 <= n <= found.len(),
        is_prefix_scan(found, s, ns.prefix()),
    ensures
        forall|i: int|
            0 <= i < expired_among(found.subrange(0, n), ns, now).len() ==> {
                let name = #[trigger] expired_among(found.subrange(0, n), ns, now)[i];
                s.contains_key(ns.key(name)) && record_expired(ns, s[ns.key(name)], now)
            },
    decreases n,
{
    let skip = ns.prefix().len();
    let names = expired_among(found.subrange(0, n), ns, now);
    if n > 0 {
        lemma_expired_among(found, n - 1, s, ns, now);
        let upto = found.subrange(0, n);
        let before = expired_among(found.subrange(0, n - 1), ns, now);
        assert(upto.drop_last() =~= found.subrange(0, n - 1));
        assert(upto.last() == found[n - 1]);
        let key = found[n - 1].0;
        let name = key.subrange(skip as int, key.len() as int);
        assert(ns.prefix().is_prefix_of(key));
        assert(ns.key(name) =~= key);
        assert forall|i: int| 0 <= i < names.len() implies s.contains_key(
            ns.key(#[trigger] names[i]),
        ) && record_expired(ns, s[ns.key(names[i])], now) by {
            if i < before.len() {
                assert(names[i] == before[i]);
            } else {
                assert(names[i] == name);
            }
        }
    } else {
        assert(found.subrange(0, n) =~= Seq::<(Seq<u8>, Seq<u8>)>::empty());
    }
}

} // verus!
