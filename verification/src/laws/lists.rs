//! Laws of lists: first in, first out; the length is the pushes less the
//! pops; a limit keeps the newest entries.

use vstd::prelude::*;
use crate::keys::{lemma_list_keys, list_cursor_key, list_entry_key};
use crate::meta::{Cursors, Meta};
use crate::model::{
    lemma_cursors_wf, list_broken, list_corrupt, list_cursors, list_full, list_get, list_hole,
    list_items, list_len, list_live, list_pop, list_push, list_push_all, list_push_limit,
    list_push_limit_blocked, list_ready, list_slot, put_values, Store,
};
use crate::ttl::{deadline_of, is_expired};

verus! {

/// List `name` is in order: its records are well formed and every entry
/// between its cursors is stored.
pub open spec fn list_sound(s: Store, name: Seq<u8>, now: i64) -> bool {
    !list_corrupt(s, name) && !list_broken(s, name, now)
}

/// A list made at `now` with this lifetime exists at `now`.
pub open spec fn lasting(now: i64, lifetime: Option<i64>) -> bool {
    !is_expired(deadline_of(now, lifetime), now)
}

/// What a push does to a list: the value is the new last entry, and every
/// other entry is as before.
pub proof fn law_list_push(s: Store, name: Seq<u8>, value: Seq<u8>, now: i64, lifetime: Option<i64>)
    requires
        list_sound(s, name, now),
        !list_full(s, name, 1, now, lifetime),
        lasting(now, lifetime),
    ensures
        ({
            let after = list_push(s, name, value, now, lifetime);
            &&& list_sound(after, name, now)
            &&& list_live(after, name, now)
            &&& list_items(after, name, now) == list_items(s, name, now).push(value)
            &&& list_len(after, name, now) == list_len(s, name, now) + 1
            &&& list_cursors(after, name).tail == list_cursors(
                list_ready(s, name, now, lifetime),
                name,
            ).tail + 1
            &&& list_cursors(after, name).head == list_cursors(
                list_ready(s, name, now, lifetime),
                name,
            ).head
        }),
{
    lemma_list_keys(name);
    let ready = list_ready(s, name, now, lifetime);
    let at = list_cursors(ready, name);
    let next = Cursors { head: at.head, tail: (at.tail + 1) as u64 };
    let one = seq![value];
    let after = list_push(s, name, value, now, lifetime);
    assert(one.drop_last() =~= Seq::<Seq<u8>>::empty());
    assert(put_values(ready, name, at.tail, one.drop_last()) == ready);
    assert(put_values(ready, name, at.tail, one) == ready.insert(
        list_entry_key(name, at.tail),
        value,
    ));
    assert(after == ready.insert(list_entry_key(name, at.tail), value).insert(
        list_cursor_key(name),
        next.record(),
    ));
    (Meta { created: now, expiry: deadline_of(now, lifetime) }).lemma_roundtrip();
    lemma_cursors_wf(ready, name);
    next.lemma_roundtrip();
    assert(list_cursors(after, name) == next);
    assert(list_live(after, name, now));
    assert(!list_corrupt(after, name));
    let old_items = list_items(s, name, now);
    let new_items = list_items(after, name, now);
    assert(new_items.len() == old_items.len() + 1);
    assert forall|i: int| 0 <= i < new_items.len() implies after.contains_key(
        #[trigger] list_slot(after, name, i),
    ) && new_items[i] == old_items.push(value)[i] by {
        if i < old_items.len() {
            assert(list_live(s, name, now));
            assert(list_slot(after, name, i) == list_slot(s, name, i));
            assert(!list_hole(s, name, i, now));
        }
    }
    assert(new_items =~= old_items.push(value));
    assert(!list_broken(after, name, now)) by {
        if list_broken(after, name, now) {
            let i = choose|i: int| list_hole(after, name, i, now);
            assert(after.contains_key(list_slot(after, name, i)));
        }
    }
}

/// What a pop does to a list that has an entry: the first entry is handed
/// out and gone, and every other entry is as before.
pub proof fn law_list_pop(s: Store, name: Seq<u8>, now: i64)
    requires
        list_sound(s, name, now),
        list_len(s, name, now) > 0,
    ensures
        ({
            let after = list_pop(s, name, now);
            &&& list_sound(after, name, now)
            &&& list_live(after, name, now)
            &&& !list_hole(s, name, 0, now)
            &&& list_get(s, name, 0, now) == Some(list_items(s, name, now)[0])
            &&& list_items(after, name, now) == list_items(s, name, now).drop_first()
            &&& list_len(after, name, now) == list_len(s, name, now) - 1
            &&& list_cursors(after, name).tail == list_cursors(s, name).tail
        }),
{
    lemma_list_keys(name);
    let at = list_cursors(s, name);
    let next = Cursors { head: (at.head + 1) as u64, tail: at.tail };
    let after = list_pop(s, name, now);
    lemma_cursors_wf(s, name);
    next.lemma_roundtrip();
    assert(list_cursors(after, name) == next);
    assert(list_live(after, name, now));
    assert(!list_hole(s, name, 0, now));
    let old_items = list_items(s, name, now);
    let new_items = list_items(after, name, now);
    assert forall|i: int| 0 <= i < new_items.len() implies after.contains_key(
        #[trigger] list_slot(after, name, i),
    ) && new_items[i] == old_items.drop_first()[i] by {
        assert(list_slot(after, name, i) == list_slot(s, name, i + 1));
        assert(!list_hole(s, name, i + 1, now));
    }
    assert(new_items =~= old_items.drop_first());
    assert(!list_broken(after, name, now)) by {
        if list_broken(after, name, now) {
            let i = choose|i: int| list_hole(after, name, i, now);
            assert(after.contains_key(list_slot(after, name, i)));
        }
    }
}

/// A pop from a list without entries hands out nothing and changes
/// nothing.
pub proof fn law_list_pop_empty(s: Store, name: Seq<u8>, now: i64)
    requires
        list_len(s, name, now) == 0,
    ensures
        list_get(s, name, 0, now) is None,
        list_pop(s, name, now) == s,
{
}

/// While a list exists, its cursors only move on: no push, pop or push
/// within a limit moves the head or the tail back.
pub proof fn law_list_cursors_move_on(
    s: Store,
    name: Seq<u8>,
    value: Seq<u8>,
    limit: nat,
    pop_front: bool,
    now: i64,
    lifetime: Option<i64>,
)
    requires
        list_live(s, name, now),
        !list_full(s, name, 1, now, lifetime),
    ensures
        ({
            let before = list_cursors(s, name);
            let pushed = list_cursors(list_push(s, name, value, now, lifetime), name);
            let popped = list_cursors(list_pop(s, name, now), name);
            let limited = list_cursors(
                list_push_limit(s, name, value, limit, pop_front, now, lifetime),
                name,
            );
            &&& pushed.head == before.head && pushed.tail == before.tail + 1
            &&& popped.head >= before.head && popped.tail == before.tail
            &&& limited.head >= before.head && limited.tail >= before.tail
        }),
{
    lemma_list_keys(name);
    lemma_cursors_wf(s, name);
    let at = list_cursors(s, name);
    let one = seq![value];
    assert(one.drop_last() =~= Seq::<Seq<u8>>::empty());
    let next = Cursors { head: at.head, tail: (at.tail + 1) as u64 };
    next.lemma_roundtrip();
    assert(put_values(s, name, at.tail, one.drop_last()) == s);
    assert(list_cursors(list_push(s, name, value, now, lifetime), name) == next);
    let taken = list_pop(s, name, now);
    if list_len(s, name, now) > 0 {
        let moved = Cursors { head: (at.head + 1) as u64, tail: at.tail };
        moved.lemma_roundtrip();
        assert(list_cursors(taken, name) == moved);
        assert(list_live(taken, name, now));
        let both = Cursors { head: moved.head, tail: (moved.tail + 1) as u64 };
        both.lemma_roundtrip();
        assert(put_values(taken, name, moved.tail, one.drop_last()) == taken);
        assert(list_cursors(list_push(taken, name, value, now, lifetime), name) == both);
    }
}

/// The tree after `values` have been pushed to list `name` one by one.
pub open spec fn pushed(
    s: Store,
    name: Seq<u8>,
    values: Seq<Seq<u8>>,
    now: i64,
    lifetime: Option<i64>,
) -> Store
    decreases values.len(),
{
    if values.len() == 0 {
        s
    } else {
        list_push(
            pushed(s, name, values.drop_last(), now, lifetime),
            name,
            values.last(),
            now,
            lifetime,
        )
    }
}

/// The tree after `n` pops from list `name`.
pub open spec fn popped(s: Store, name: Seq<u8>, n: nat, now: i64) -> Store
    decreases n,
{
    if n == 0 {
        s
    } else {
        list_pop(popped(s, name, (n - 1) as nat, now), name, now)
    }
}

/// Pushing values one by one appends them in order.
pub proof fn law_list_pushed(
    s: Store,
    name: Seq<u8>,
    values: Seq<Seq<u8>>,
    now: i64,
    lifetime: Option<i64>,
)
    requires
        list_sound(s, name, now),
        !list_full(s, name, values.len(), now, lifetime),
        lasting(now, lifetime),
    ensures
        ({
            let after = pushed(s, name, values, now, lifetime);
            &&& list_sound(after, name, now)
            &&& list_items(after, name, now) == list_items(s, name, now) + values
            &&& list_len(after, name, now) == list_len(s, name, now) + values.len()
            &&& values.len() > 0 ==> {
                &&& list_live(after, name, now)
                &&& list_cursors(after, name).tail == list_cursors(
                    list_ready(s, name, now, lifetime),
                    name,
                ).tail + values.len()
                &&& list_cursors(after, name).head == list_cursors(
                    list_ready(s, name, now, lifetime),
                    name,
                ).head
            }
        }),
    decreases values.len(),
{
    if values.len() == 0 {
        assert(list_items(s, name, now) + values =~= list_items(s, name, now));
    } else {
        let front = values.drop_last();
        let mid = pushed(s, name, front, now, lifetime);
        law_list_pushed(s, name, front, now, lifetime);
        if front.len() > 0 {
            assert(list_ready(mid, name, now, lifetime) == mid);
        }
        law_list_push(mid, name, values.last(), now, lifetime);
        assert((list_items(s, name, now) + front).push(values.last()) =~= list_items(s, name, now)
            + values);
    }
}

/// Popping `n` times from a list with at least `n` entries takes its first
/// `n` entries off, each pop handing out the entry that is first then.
pub proof fn law_list_popped(s: Store, name: Seq<u8>, n: nat, now: i64)
    requires
        list_sound(s, name, now),
        n <= list_len(s, name, now),
    ensures
        ({
            let after = popped(s, name, n, now);
            &&& list_sound(after, name, now)
            &&& list_items(after, name, now) == list_items(s, name, now).subrange(
                n as int,
                list_len(s, name, now) as int,
            )
            &&& list_len(after, name, now) == list_len(s, name, now) - n
            &&& n < list_len(s, name, now) ==> !list_hole(after, name, 0, now) && list_get(
                after,
                name,
                0,
                now,
            ) == Some(list_items(s, name, now)[n as int])
            &&& n == list_len(s, name, now) ==> list_get(after, name, 0, now) is None
        }),
    decreases n,
{
    let items = list_items(s, name, now);
    if n == 0 {
        assert(items.subrange(0, items.len() as int) =~= items);
        if list_len(s, name, now) > 0 {
            law_list_pop(s, name, now);
        }
    } else {
        let mid = popped(s, name, (n - 1) as nat, now);
        law_list_popped(s, name, (n - 1) as nat, now);
        law_list_pop(mid, name, now);
        let after = popped(s, name, n, now);
        assert(items.subrange(n - 1, items.len() as int).drop_first() =~= items.subrange(
            n as int,
            items.len() as int,
        ));
        if n < items.len() {
            law_list_pop(after, name, now);
        }
    }
}

/// First in, first out. After values have been pushed to a list without
/// entries, pops hand them out in the order of the pushes, and the pop
/// after the last of them hands out nothing.
pub proof fn law_list_fifo(
    s: Store,
    name: Seq<u8>,
    values: Seq<Seq<u8>>,
    now: i64,
    lifetime: Option<i64>,
)
    requires
        list_sound(s, name, now),
        list_len(s, name, now) == 0,
        !list_full(s, name, values.len(), now, lifetime),
        lasting(now, lifetime),
    ensures
        ({
            let full = pushed(s, name, values, now, lifetime);
            &&& list_items(full, name, now) == values
            &&& forall|i: int|
                0 <= i < values.len() ==> #[trigger] list_get(
                    popped(full, name, i as nat, now),
                    name,
                    0,
                    now,
                ) == Some(values[i])
            &&& list_get(popped(full, name, values.len(), now), name, 0, now) is None
        }),
{
    let full = pushed(s, name, values, now, lifetime);
    law_list_pushed(s, name, values, now, lifetime);
    assert(list_items(s, name, now) + values =~= values);
    assert forall|i: int| 0 <= i < values.len() implies #[trigger] list_get(
        popped(full, name, i as nat, now),
        name,
        0,
        now,
    ) == Some(values[i]) by {
        law_list_popped(full, name, i as nat, now);
    }
    law_list_popped(full, name, values.len(), now);
}

/// Pushing values in one batch is pushing them one by one.
pub proof fn law_list_pushs(
    s: Store,
    name: Seq<u8>,
    values: Seq<Seq<u8>>,
    now: i64,
    lifetime: Option<i64>,
)
    requires
        list_sound(s, name, now),
        !list_full(s, name, values.len(), now, lifetime),
        lasting(now, lifetime),
    ensures
        list_push_all(s, name, values, now, lifetime) == pushed(s, name, values, now, lifetime),
    decreases values.len(),
{
    if values.len() > 0 {
        lemma_list_keys(name);
        let front = values.drop_last();
        let mid = pushed(s, name, front, now, lifetime);
        let ready = list_ready(s, name, now, lifetime);
        let at = list_cursors(ready, name);
        law_list_pushs(s, name, front, now, lifetime);
        law_list_pushed(s, name, front, now, lifetime);
        let one = seq![values.last()];
        assert(one.drop_last() =~= Seq::<Seq<u8>>::empty());
        if front.len() == 0 {
            assert(values =~= one);
        } else {
            let at_mid = list_cursors(mid, name);
            assert(list_ready(mid, name, now, lifetime) == mid);
            assert(put_values(mid, name, at_mid.tail, one.drop_last()) == mid);
            assert(pushed(s, name, values, now, lifetime) =~= list_push_all(
                s,
                name,
                values,
                now,
                lifetime,
            ));
        }
    }
}

/// One step on a list: the push of a value, or, for `None`, a pop.
pub open spec fn list_step(
    s: Store,
    name: Seq<u8>,
    op: Option<Seq<u8>>,
    now: i64,
    lifetime: Option<i64>,
) -> Store {
    match op {
        Some(value) => list_push(s, name, value, now, lifetime),
        None => list_pop(s, name, now),
    }
}

/// The tree after the steps `ops` on list `name`, first to last.
pub open spec fn list_run(
    s: Store,
    name: Seq<u8>,
    ops: Seq<Option<Seq<u8>>>,
    now: i64,
    lifetime: Option<i64>,
) -> Store
    decreases ops.len(),
{
    if ops.len() == 0 {
        s
    } else {
        list_step(
            list_run(s, name, ops.drop_last(), now, lifetime),
            name,
            ops.last(),
            now,
            lifetime,
        )
    }
}

/// Every push among `ops` finds room and every pop finds an entry.
pub open spec fn list_runs(
    s: Store,
    name: Seq<u8>,
    ops: Seq<Option<Seq<u8>>>,
    now: i64,
    lifetime: Option<i64>,
) -> bool
    decreases ops.len(),
{
    if ops.len() == 0 {
        true
    } else {
        let mid = list_run(s, name, ops.drop_last(), now, lifetime);
        &&& list_runs(s, name, ops.drop_last(), now, lifetime)
        &&& match ops.last() {
            Some(_) => !list_full(mid, name, 1, now, lifetime),
            None => list_len(mid, name, now) > 0,
        }
    }
}

/// The number of pushes among `ops`.
pub open spec fn pushes(ops: Seq<Option<Seq<u8>>>) -> nat
    decreases ops.len(),
{
    if ops.len() == 0 {
        0
    } else if ops.last() is Some {
        pushes(ops.drop_last()) + 1
    } else {
        pushes(ops.drop_last())
    }
}

/// The number of pops among `ops`.
pub open spec fn pops(ops: Seq<Option<Seq<u8>>>) -> nat
    decreases ops.len(),
{
    if ops.len() == 0 {
        0
    } else if ops.last() is None {
        pops(ops.drop_last()) + 1
    } else {
        pops(ops.drop_last())
    }
}

/// The length of a list is the number of pushes less the number of pops,
/// in whatever order they came, as long as every pop found an entry.
pub proof fn law_list_length(
    s: Store,
    name: Seq<u8>,
    ops: Seq<Option<Seq<u8>>>,
    now: i64,
    lifetime: Option<i64>,
)
    requires
        list_sound(s, name, now),
        lasting(now, lifetime),
        list_runs(s, name, ops, now, lifetime),
    ensures
        list_sound(list_run(s, name, ops, now, lifetime), name, now),
        list_len(list_run(s, name, ops, now, lifetime), name, now) == list_len(s, name, now)
            + pushes(ops) - pops(ops),
    decreases ops.len(),
{
    if ops.len() > 0 {
        let mid = list_run(s, name, ops.drop_last(), now, lifetime);
        law_list_length(s, name, ops.drop_last(), now, lifetime);
        match ops.last() {
            Some(value) => {
                law_list_push(mid, name, value, now, lifetime);
            },
            None => {
                law_list_pop(mid, name, now);
            },
        }
    }
}

/// The last `limit` of `values`, or all of them if there are fewer.
pub open spec fn last_of(values: Seq<Seq<u8>>, limit: nat) -> Seq<Seq<u8>> {
    if values.len() <= limit {
        values
    } else {
        values.subrange(values.len() - limit, values.len() as int)
    }
}

/// The tree after `values` have been pushed to list `name` one by one,
/// each push keeping the list within `limit` entries by taking the head
/// entry off.
pub open spec fn limited(
    s: Store,
    name: Seq<u8>,
    values: Seq<Seq<u8>>,
    limit: nat,
    now: i64,
    lifetime: Option<i64>,
) -> Store
    decreases values.len(),
{
    if values.len() == 0 {
        s
    } else {
        list_push_limit(
            limited(s, name, values.drop_last(), limit, now, lifetime),
            name,
            values.last(),
            limit,
            true,
            now,
            lifetime,
        )
    }
}

/// What a push within a limit of at least one does to a list that is
/// within the limit: the list then holds the last `limit` of its entries
/// and the value.
pub proof fn law_push_limit_step(
    s: Store,
    name: Seq<u8>,
    value: Seq<u8>,
    limit: nat,
    now: i64,
    lifetime: Option<i64>,
)
    requires
        limit >= 1,
        list_sound(s, name, now),
        list_len(s, name, now) <= limit,
        !list_full(s, name, 1, now, lifetime),
        lasting(now, lifetime),
    ensures
        ({
            let after = list_push_limit(s, name, value, limit, true, now, lifetime);
            &&& !list_push_limit_blocked(s, name, limit, true, now, lifetime)
            &&& list_sound(after, name, now)
            &&& list_live(after, name, now)
            &&& list_items(after, name, now) == last_of(list_items(s, name, now).push(value), limit)
            &&& list_len(after, name, now) <= limit
            &&& list_cursors(after, name).tail == list_cursors(
                list_ready(s, name, now, lifetime),
                name,
            ).tail + 1
        }),
{
    let items = list_items(s, name, now);
    if list_len(s, name, now) < limit {
        law_list_push(s, name, value, now, lifetime);
    } else {
        let taken = list_pop(s, name, now);
        law_list_pop(s, name, now);
        assert(list_ready(s, name, now, lifetime) == s);
        assert(list_ready(taken, name, now, lifetime) == taken);
        law_list_push(taken, name, value, now, lifetime);
        assert(items.drop_first().push(value) =~= last_of(items.push(value), limit));
    }
}

/// Keeping within a limit drops the oldest: after any number of pushes
/// within a limit of at least one to a list without entries, the list
/// holds the last `limit` of the values pushed, in the order of the
/// pushes.
pub proof fn law_push_limit(
    s: Store,
    name: Seq<u8>,
    values: Seq<Seq<u8>>,
    limit: nat,
    now: i64,
    lifetime: Option<i64>,
)
    requires
        limit >= 1,
        list_sound(s, name, now),
        list_len(s, name, now) == 0,
        !list_full(s, name, values.len(), now, lifetime),
        lasting(now, lifetime),
    ensures
        ({
            let after = limited(s, name, values, limit, now, lifetime);
            &&& list_sound(after, name, now)
            &&& list_items(after, name, now) == last_of(values, limit)
            &&& values.len() >= limit ==> list_len(after, name, now) == limit
            &&& values.len() > 0 ==> list_live(after, name, now) && list_cursors(after, name).tail
                == list_cursors(list_ready(s, name, now, lifetime), name).tail + values.len()
        }),
    decreases values.len(),
{
    if values.len() == 0 {
        assert(list_items(s, name, now) =~= last_of(values, limit));
    } else {
        let front = values.drop_last();
        let mid = limited(s, name, front, limit, now, lifetime);
        law_push_limit(s, name, front, limit, now, lifetime);
        if front.len() > 0 {
            assert(list_ready(mid, name, now, lifetime) == mid);
        }
        law_push_limit_step(mid, name, values.last(), limit, now, lifetime);
        assert(last_of(last_of(front, limit).push(values.last()), limit) =~= last_of(
            values,
            limit,
        ));
    }
}

/// Every one of the pushes of `values` within `limit` to list `name`
/// succeeds: each finds the list's records well formed and is not blocked.
pub open spec fn limited_all_succeed(
    s: Store,
    name: Seq<u8>,
    values: Seq<Seq<u8>>,
    limit: nat,
    now: i64,
    lifetime: Option<i64>,
) -> bool
    decreases values.len(),
{
    if values.len() == 0 {
        true
    } else {
        let mid = limited(s, name, values.drop_last(), limit, now, lifetime);
        &&& limited_all_succeed(s, name, values.drop_last(), limit, now, lifetime)
        &&& !list_corrupt(mid, name)
        &&& !list_push_limit_blocked(mid, name, limit, true, now, lifetime)
    }
}

/// A limit holds at every point. After any number of pushes within a
/// limit of at least one, each of which succeeded, to a list without
/// entries, the list holds the last `limit` of the values pushed, in the
/// order of the pushes, and never more than `limit` entries.
pub proof fn law_push_limit_calls(
    s: Store,
    name: Seq<u8>,
    values: Seq<Seq<u8>>,
    limit: nat,
    now: i64,
    lifetime: Option<i64>,
)
    requires
        limit >= 1,
        list_len(s, name, now) == 0,
        lasting(now, lifetime),
        limited_all_succeed(s, name, values, limit, now, lifetime),
    ensures
        ({
            let after = limited(s, name, values, limit, now, lifetime);
            &&& list_items(after, name, now) == last_of(values, limit)
            &&& list_len(after, name, now) <= limit
            &&& values.len() >= limit ==> list_len(after, name, now) == limit
            &&& values.len() <= limit ==> list_len(after, name, now) == values.len()
            &&& values.len() > 0 ==> list_sound(after, name, now)
        }),
    decreases values.len(),
{
    if values.len() == 0 {
        assert(list_items(s, name, now) =~= last_of(values, limit));
    } else {
        let front = values.drop_last();
        let mid = limited(s, name, front, limit, now, lifetime);
        law_push_limit_calls(s, name, front, limit, now, lifetime);
        if front.len() == 0 {
            assert(!list_broken(mid, name, now)) by {
                if list_broken(mid, name, now) {
                    let i = choose|i: int| list_hole(mid, name, i, now);
                    assert(0 <= i < list_len(mid, name, now));
                }
            }
        }
        law_push_limit_step(mid, name, values.last(), limit, now, lifetime);
        assert(last_of(last_of(front, limit).push(values.last()), limit) =~= last_of(
            values,
            limit,
        ));
    }
}

} // verus!
