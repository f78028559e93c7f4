//! Laws of flat keys: what is set is read, what is removed is gone, and
//! expiry is lazy.

use vstd::prelude::*;
use crate::bytes::lemma_i64_be_roundtrip;
use crate::keys::{counter_key, kv_key, lemma_kinds_apart, lemma_tagged, ttl_key, Namespace};
use crate::model::{
    counter_get, kv_corrupt, kv_delete, kv_expire_at, kv_get, kv_live, kv_put, Store,
};
use crate::ttl::deadline;

verus! {

/// A value that has been set is the value that is read, at any time.
pub proof fn law_kv_round_trip(s: Store, key: Seq<u8>, value: Seq<u8>, now: i64)
    ensures
        !kv_corrupt(kv_put(s, key, value), key),
        kv_get(kv_put(s, key, value), key, now) == Some(value),
{
    lemma_tagged(Namespace::Kv, key);
    lemma_tagged(Namespace::KvTtl, key);
    lemma_kinds_apart(Namespace::Kv, Namespace::KvTtl, kv_key(key), ttl_key(key));
}

/// A key that has been removed holds no value and is not contained, at
/// any time, whatever it held before.
pub proof fn law_kv_remove(s: Store, key: Seq<u8>, now: i64)
    ensures
        !kv_corrupt(kv_delete(s, key), key),
        kv_get(kv_delete(s, key), key, now) is None,
        !kv_live(kv_delete(s, key), key, now),
        counter_get(kv_delete(s, key), key) is None,
{
    lemma_tagged(Namespace::Kv, key);
    lemma_tagged(Namespace::KvTtl, key);
    lemma_tagged(Namespace::Counter, key);
    lemma_kinds_apart(Namespace::Kv, Namespace::KvTtl, kv_key(key), ttl_key(key));
    lemma_kinds_apart(Namespace::Kv, Namespace::Counter, kv_key(key), counter_key(key));
    lemma_kinds_apart(Namespace::KvTtl, Namespace::Counter, ttl_key(key), counter_key(key));
}

/// Expiry is lazy. A key that holds a value and is told at `now` to expire
/// after `duration` is read at every time before its deadline; from the
/// deadline on it is read as absent, though nothing has been deleted. The
/// deadline is `now + duration`, or the end of the 64-bit range where that
/// lies beyond it.
pub proof fn law_kv_ttl_lazy(
    s: Store,
    key: Seq<u8>,
    duration: i64,
    now: i64,
    before: i64,
    later: i64,
)
    requires
        s.contains_key(kv_key(key)),
        before < deadline(now, duration),
        later >= deadline(now, duration),
    ensures
        i64::MIN <= now + duration <= i64::MAX ==> deadline(now, duration) == now + duration,
        now + duration > i64::MAX ==> deadline(now, duration) == i64::MAX,
        ({
            let after = kv_expire_at(s, key, deadline(now, duration));
            &&& !kv_corrupt(after, key)
            &&& kv_get(after, key, before) == Some(s[kv_key(key)])
            &&& kv_get(after, key, later) is None
            &&& after.contains_key(kv_key(key))
            &&& after[kv_key(key)] == s[kv_key(key)]
        }),
{
    lemma_tagged(Namespace::Kv, key);
    lemma_tagged(Namespace::KvTtl, key);
    lemma_kinds_apart(Namespace::Kv, Namespace::KvTtl, kv_key(key), ttl_key(key));
    lemma_i64_be_roundtrip(deadline(now, duration));
}

} // verus!
