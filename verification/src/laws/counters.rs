//! Laws of counters: additions add up, taking off is adding the negation,
//! and what is set is read.

use vstd::prelude::*;
use crate::arith::clamp;
use crate::bytes::lemma_i64_be_roundtrip;
use crate::keys::counter_key;
use crate::model::{counter_add, counter_corrupt, counter_get, counter_put, Store};

verus! {

/// Two additions to a counter that has never been written leave their
/// sum, as far as the 64-bit range holds it.
pub proof fn law_counter_sum(s: Store, key: Seq<u8>, a: i64, b: i64)
    requires
        !s.contains_key(counter_key(key)),
    ensures
        ({
            let after = counter_add(counter_add(s, key, a as int), key, b as int);
            &&& !counter_corrupt(after, key)
            &&& counter_get(after, key) == Some(clamp(a + b))
            &&& i64::MIN <= a + b <= i64::MAX ==> counter_get(after, key) == Some((a + b) as i64)
        }),
{
    lemma_i64_be_roundtrip(a);
    lemma_i64_be_roundtrip(clamp(a + b));
}

/// Taking `x` off a counter is adding the negation of `x`, wherever `x`
/// has a negation.
pub proof fn law_counter_decr_is_incr(s: Store, key: Seq<u8>, x: i64)
    requires
        x > i64::MIN,
    ensures
        counter_add(s, key, -(x as int)) == counter_add(s, key, ((-x) as i64) as int),
{
}

/// A counter that has been set holds the value it was set to.
pub proof fn law_counter_set(s: Store, key: Seq<u8>, value: i64)
    ensures
        !counter_corrupt(counter_put(s, key, value), key),
        counter_get(counter_put(s, key, value), key) == Some(value),
{
    lemma_i64_be_roundtrip(value);
}

} // verus!
