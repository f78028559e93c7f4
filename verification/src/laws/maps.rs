//! Laws of maps and of the markers that maps and lists share.

use vstd::prelude::*;
use crate::engine::lookup;
use crate::keys::{lemma_map_keys, map_marker_key};
use crate::laws::lists::lasting;
use crate::meta::Meta;
use crate::model::{
    map_delete, map_dropped, map_get, map_live, map_put, marker_corrupt, marker_expire_at,
    marker_live, marker_meta, Store,
};
use crate::ttl::{deadline, deadline_of};

verus! {

/// An entry that has been set is the entry that is read, as long as the
/// map lasts.
pub proof fn law_map_round_trip(
    s: Store,
    name: Seq<u8>,
    sub: Seq<u8>,
    value: Seq<u8>,
    now: i64,
    lifetime: Option<i64>,
)
    requires
        !marker_corrupt(s, map_marker_key(name)),
        lasting(now, lifetime),
    ensures
        ({
            let after = map_put(s, name, sub, value, now, lifetime);
            &&& !marker_corrupt(after, map_marker_key(name))
            &&& map_live(after, name, now)
            &&& map_get(after, name, sub, now) == Some(value)
        }),
{
    lemma_map_keys(name);
    (Meta { created: now, expiry: deadline_of(now, lifetime) }).lemma_roundtrip();
}

/// An entry that has been removed is read as absent, and so is every
/// entry of a map that has been dropped.
pub proof fn law_map_remove(s: Store, name: Seq<u8>, sub: Seq<u8>, now: i64)
    ensures
        map_get(map_delete(s, name, sub, now), name, sub, now) is None,
        map_get(map_dropped(s, name), name, sub, now) is None,
        !map_live(map_dropped(s, name), name, now),
{
    lemma_map_keys(name);
}

/// Expiry is lazy for collections too. A collection that is told at `now`
/// to expire after `duration` exists at every time before its deadline;
/// from the deadline on it does not, though nothing but its marker has
/// been touched.
pub proof fn law_collection_ttl_lazy(
    s: Store,
    marker: Seq<u8>,
    duration: i64,
    now: i64,
    before: i64,
    later: i64,
)
    requires
        marker_meta(s, marker) is Some,
        before < deadline(now, duration),
        later >= deadline(now, duration),
    ensures
        ({
            let after = marker_expire_at(s, marker, deadline(now, duration));
            &&& !marker_corrupt(after, marker)
            &&& marker_live(after, marker, before)
            &&& !marker_live(after, marker, later)
            &&& forall|k: Seq<u8>| k != marker ==> lookup(after, k) == lookup(s, k)
        }),
{
    let meta = marker_meta(s, marker)->Some_0;
    (Meta { created: meta.created, expiry: Some(deadline(now, duration)) }).lemma_roundtrip();
}

} // verus!
