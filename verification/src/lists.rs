//! Named lists: entries in push order, taken off at the head.
//!
//! A list is a marker, a cursor record with the positions of its head and
//! tail, and one entry for each position between them. A push writes at
//! the tail and moves it on; a pop deletes at the head and moves it on.
//! Each write is one atomic batch. Positions are stored big-endian, so the
//! entries of a list lie in the tree in the order of their positions, and
//! reading the whole list is one range scan.

use vstd::prelude::*;
use vstd::slice::slice_subrange;
use vstd::slice::slice_to_vec;
use crate::arith::{to_word, word};
use crate::bytes::{decode_u64, lemma_u64_be_roundtrip, starts_with, u64_be};
use crate::collection::{drop_batch, new_marker, read_live, read_ttl, set_expiry};
use crate::db::StorageDB;
use crate::engine::{
    batch_insert, batch_new, batch_remove, batch_writes, is_range_scan, lookup, opt_view,
    pairs_view, with_writes,
};
use crate::error::StorageError;
use crate::keys::{
    encode_entries_prefix, encode_list_entry_key, is_name, lemma_list_entry_order, lemma_list_keys,
    list_cursor_key, list_entries_prefix, list_entry_key, list_marker_key, measured, Namespace,
};
use crate::meta::Cursors;
use crate::model::{
    keys_view, lemma_batch_delete, lemma_batch_put, lemma_no_writes, list_broken, list_corrupt,
    list_cursors, list_dropped, list_full, list_get, list_hole, list_items, list_len, list_live,
    list_pop, list_push, list_push_all, list_push_limit, list_push_limit_blocked,
    list_push_limit_full, list_push_limit_hole, list_push_limit_result, list_ready, list_slot,
    marker_corrupt, marker_expire_at, marker_ttl, put_values, Store,
};
use crate::ttl::{deadline, expires_after, TimestampMillis};

verus! {

/// A handle to a list kept by `sled`: the list's name, and the lifetime
/// that the list gets when a write makes it.
#[derive(Clone, Debug)]
pub struct SledStorageList {
    /// The list's name.
    pub name: Vec<u8>,
    /// Milliseconds from creation to expiry; `None`: the list never
    /// expires.
    pub expire: Option<TimestampMillis>,
}

/// A handle to a list, whatever engine keeps it. The handle owns no
/// storage: every operation names the database it works on.
#[derive(Clone, Debug)]
pub enum StorageList {
    /// A list kept by `sled`.
    Sled(SledStorageList),
}

impl StorageList {
    /// The list's name.
    pub open spec fn label(&self) -> Seq<u8> {
        match self {
            StorageList::Sled(list) => list.name@,
        }
    }

    /// The lifetime that the list gets when a write makes it.
    pub open spec fn lifetime(&self) -> Option<i64> {
        match self {
            StorageList::Sled(list) => list.expire,
        }
    }

    /// The list's name.
    pub fn name(&self) -> (r: &[u8])
        ensures
            r@ == self.label(),
            is_name(self.label()),
    {
        match self {
            StorageList::Sled(list) => {
                let name = list.name.as_slice();
                let _len = measured(name);
                name
            },
        }
    }

    /// The lifetime that the handle was opened with.
    fn expire_setting(&self) -> (r: Option<TimestampMillis>)
        ensures
            r == self.lifetime(),
    {
        match self {
            StorageList::Sled(list) => list.expire,
        }
    }

    /// Whether the list exists at `now`, and its cursors.
    fn state(&self, db: &StorageDB, now: TimestampMillis) -> (r: Result<
        (bool, Cursors),
        StorageError,
    >)
        ensures
            match r {
                Ok((live, at)) => {
                    &&& !list_corrupt(db@, self.label())
                    &&& live == list_live(db@, self.label(), now)
                    &&& at == list_cursors(db@, self.label())
                    &&& at.wf()
                },
                Err(StorageError::Corruption) => list_corrupt(db@, self.label()),
                Err(e) => e is Io,
            },
    {
        let marker = Namespace::ListMarker.encode_key(self.name());
        let live = read_live(db, marker.as_slice(), now)?;
        let place = Namespace::ListCursors.encode_key(self.name());
        match db.read(place.as_slice())? {
            None => Ok((live, Cursors { head: 0, tail: 0 })),
            Some(record) => match Cursors::decode(record.as_slice()) {
                Some(at) => Ok((live, at)),
                None => Err(StorageError::Corruption),
            },
        }
    }

    /// The batch that a write to the list starts with, and the cursors
    /// that the write finds: for a list that exists, no writes and the
    /// stored cursors; otherwise the deletion of what an expired list left
    /// behind, a new marker, and the cursors of an empty list.
    fn ready(&self, db: &StorageDB, live: bool, at: Cursors, now: TimestampMillis) -> (r: Result<
        (sled::Batch, Cursors),
        StorageError,
    >)
        requires
            live == list_live(db@, self.label(), now),
            at == list_cursors(db@, self.label()),
            at.wf(),
        ensures
            match r {
                Ok((batch, from)) => {
                    &&& with_writes(db@, batch_writes(batch)) == list_ready(
                        db@,
                        self.label(),
                        now,
                        self.lifetime(),
                    )
                    &&& from == list_cursors(
                        list_ready(db@, self.label(), now, self.lifetime()),
                        self.label(),
                    )
                    &&& from.wf()
                    &&& live ==> from == at
                },
                Err(e) => e is Io,
            },
    {
        if live {
            let batch = batch_new();
            proof {
                lemma_no_writes(db@);
            }
            return Ok((batch, at));
        }
        let entries = encode_entries_prefix(Namespace::ListEntry, self.name());
        let mut batch = drop_batch(db, entries.as_slice())?;
        let place = Namespace::ListCursors.encode_key(self.name());
        let marker = Namespace::ListMarker.encode_key(self.name());
        let record = new_marker(now, self.expire_setting());
        proof {
            let w0 = batch_writes(batch);
            lemma_batch_delete(db@, w0, place@);
            lemma_batch_put(db@, w0.insert(place@, None), marker@, record@);
            lemma_list_keys(self.label());
        }
        batch_remove(&mut batch, place.as_slice());
        batch_insert(&mut batch, marker.as_slice(), record.as_slice());
        proof {
            let made = with_writes(db@, batch_writes(batch));
            let want = list_ready(db@, self.label(), now, self.lifetime());
            assert(made =~= want);
            assert(lookup(want, list_cursor_key(self.label())) is None);
        }
        Ok((batch, Cursors { head: 0, tail: 0 }))
    }

    /// Pushes `val` to the tail of the list.
    pub fn push(&self, db: &mut StorageDB, val: &[u8], now: TimestampMillis) -> (r: Result<
        (),
        StorageError,
    >)
        ensures
            match r {
                Ok(()) => {
                    &&& !list_corrupt(old(db)@, self.label())
                    &&& !list_full(old(db)@, self.label(), 1, now, self.lifetime())
                    &&& final(db)@ == list_push(
                        old(db)@,
                        self.label(),
                        val@,
                        now,
                        self.lifetime(),
                    )
                },
                Err(StorageError::Corruption) => list_corrupt(old(db)@, self.label()) && final(db)@
                    == old(db)@,
                Err(StorageError::ListFull) => {
                    &&& !list_corrupt(old(db)@, self.label())
                    &&& list_full(old(db)@, self.label(), 1, now, self.lifetime())
                    &&& final(db)@ == old(db)@
                },
                Err(e) => e is Io,
            },
    {
        let (live, at) = self.state(db, now)?;
        let (mut batch, from) = self.ready(db, live, at, now)?;
        if from.tail == u64::MAX {
            return Err(StorageError::ListFull);
        }
        let ghost s = db@;
        let ghost ready = list_ready(s, self.label(), now, self.lifetime());
        let place = encode_list_entry_key(self.name(), from.tail);
        let cursor_place = Namespace::ListCursors.encode_key(self.name());
        let next = Cursors { head: from.head, tail: from.tail + 1 };
        let record = next.encode();
        proof {
            let w0 = batch_writes(batch);
            lemma_batch_put(s, w0, place@, val@);
            lemma_batch_put(s, w0.insert(place@, Some(val@)), cursor_place@, record@);
            let one = seq![val@];
            assert(one.drop_last() =~= Seq::<Seq<u8>>::empty());
            assert(put_values(ready, self.label(), from.tail, one.drop_last()) == ready);
            assert(put_values(ready, self.label(), from.tail, one) == ready.insert(
                place@,
                val@,
            ));
        }
        batch_insert(&mut batch, place.as_slice(), val);
        batch_insert(&mut batch, cursor_place.as_slice(), record.as_slice());
        db.commit(batch)
    }

    /// Pushes every value of `vals` to the tail of the list, first to
    /// last, in one atomic batch. Without values nothing is read or
    /// written, and the call succeeds.
    pub fn pushs(&self, db: &mut StorageDB, vals: Vec<Vec<u8>>, now: TimestampMillis) -> (r:
        Result<(), StorageError>)
        ensures
            vals@.len() == 0 ==> r is Ok,
            match r {
                Ok(()) => {
                    &&& vals@.len() > 0 ==> !list_corrupt(old(db)@, self.label())
                    &&& vals@.len() > 0 ==> !list_full(
                        old(db)@,
                        self.label(),
                        vals@.len(),
                        now,
                        self.lifetime(),
                    )
                    &&& final(db)@ == list_push_all(
                        old(db)@,
                        self.label(),
                        keys_view(vals@),
                        now,
                        self.lifetime(),
                    )
                },
                Err(StorageError::Corruption) => {
                    &&& vals@.len() > 0
                    &&& list_corrupt(old(db)@, self.label())
                    &&& final(db)@ == old(db)@
                },
                Err(StorageError::ListFull) => {
                    &&& vals@.len() > 0
                    &&& !list_corrupt(old(db)@, self.label())
                    &&& list_full(old(db)@, self.label(), vals@.len(), now, self.lifetime())
                    &&& final(db)@ == old(db)@
                },
                Err(e) => e is Io,
            },
    {
        let n: usize = vals.len();
        if n == 0 {
            return Ok(());
        }
        let (live, at) = self.state(db, now)?;
        let (mut batch, from) = self.ready(db, live, at, now)?;
        if n as u64 > u64::MAX - from.tail {
            return Err(StorageError::ListFull);
        }
        let ghost s = db@;
        let ghost ready = list_ready(s, self.label(), now, self.lifetime());
        let mut i: usize = 0;
        while i < n
            invariant
                n == vals@.len(),
                i <= n,
                from.tail + n <= u64::MAX,
                with_writes(s, batch_writes(batch)) == put_values(
                    ready,
                    self.label(),
                    from.tail,
                    keys_view(vals@).subrange(0, i as int),
                ),
            decreases n - i,
        {
            let place = encode_list_entry_key(self.name(), from.tail + i as u64);
            proof {
                let upto = keys_view(vals@).subrange(0, i + 1);
                assert(upto.drop_last() =~= keys_view(vals@).subrange(0, i as int));
                assert(upto.last() == vals@[i as int]@);
                lemma_batch_put(s, batch_writes(batch), place@, vals@[i as int]@);
            }
            batch_insert(&mut batch, place.as_slice(), vals[i].as_slice());
            i += 1;
        }
        let cursor_place = Namespace::ListCursors.encode_key(self.name());
        let next = Cursors { head: from.head, tail: from.tail + n as u64 };
        let record = next.encode();
        proof {
            assert(keys_view(vals@).subrange(0, n as int) =~= keys_view(vals@));
            lemma_batch_put(s, batch_writes(batch), cursor_place@, record@);
        }
        batch_insert(&mut batch, cursor_place.as_slice(), record.as_slice());
        db.commit(batch)
    }

    /// Pushes `val` while keeping the list within `limit` entries. Below
    /// the limit the value is pushed and `None` comes back. At the limit,
    /// with `pop_front_if_limited` the head entry is taken off, the value
    /// is pushed, and the entry taken off comes back; without it nothing
    /// is written and the value itself comes back.
    pub fn push_limit(
        &self,
        db: &mut StorageDB,
        val: &[u8],
        limit: usize,
        pop_front_if_limited: bool,
        now: TimestampMillis,
    ) -> (r: Result<Option<Vec<u8>>, StorageError>)
        ensures
            match r {
                Ok(back) => {
                    &&& !list_corrupt(old(db)@, self.label())
                    &&& !list_push_limit_blocked(
                        old(db)@,
                        self.label(),
                        limit as nat,
                        pop_front_if_limited,
                        now,
                        self.lifetime(),
                    )
                    &&& opt_view(back) == list_push_limit_result(
                        old(db)@,
                        self.label(),
                        val@,
                        limit as nat,
                        pop_front_if_limited,
                        now,
                    )
                    &&& final(db)@ == list_push_limit(
                        old(db)@,
                        self.label(),
                        val@,
                        limit as nat,
                        pop_front_if_limited,
                        now,
                        self.lifetime(),
                    )
                },
                Err(StorageError::Corruption) => {
                    &&& list_corrupt(old(db)@, self.label()) || list_push_limit_hole(
                        old(db)@,
                        self.label(),
                        limit as nat,
                        pop_front_if_limited,
                        now,
                    )
                    &&& final(db)@ == old(db)@
                },
                Err(StorageError::ListFull) => {
                    &&& !list_corrupt(old(db)@, self.label())
                    &&& list_push_limit_full(
                        old(db)@,
                        self.label(),
                        limit as nat,
                        pop_front_if_limited,
                        now,
                        self.lifetime(),
                    )
                    &&& final(db)@ == old(db)@
                },
                Err(e) => e is Io,
            },
    {
        let (live, at) = self.state(db, now)?;
        let len: u64 = if live {
            at.tail - at.head
        } else {
            0
        };
        let at_limit = len >= limit as u64;
        if at_limit && !pop_front_if_limited {
            return Ok(Some(slice_to_vec(val)));
        }
        let (mut batch, from) = self.ready(db, live, at, now)?;
        if from.tail == u64::MAX {
            return Err(StorageError::ListFull);
        }
        let ghost s = db@;
        let ghost name = self.label();
        let ghost ready = list_ready(s, name, now, self.lifetime());
        proof {
            lemma_list_keys(name);
        }
        let mut back: Option<Vec<u8>> = None;
        let mut head: u64 = from.head;
        if at_limit && len > 0 {
            let front = encode_list_entry_key(self.name(), at.head);
            match db.read(front.as_slice())? {
                None => {
                    assert(list_hole(s, name, 0, now));
                    return Err(StorageError::Corruption);
                },
                Some(value) => {
                    proof {
                        lemma_batch_delete(s, batch_writes(batch), front@);
                    }
                    batch_remove(&mut batch, front.as_slice());
                    back = Some(value);
                    head = at.head + 1;
                },
            }
        }
        let place = encode_list_entry_key(self.name(), from.tail);
        let cursor_place = Namespace::ListCursors.encode_key(self.name());
        let next = Cursors { head, tail: from.tail + 1 };
        let record = next.encode();
        proof {
            let w0 = batch_writes(batch);
            lemma_batch_put(s, w0, place@, val@);
            lemma_batch_put(s, w0.insert(place@, Some(val@)), cursor_place@, record@);
            let staged = with_writes(s, w0).insert(place@, val@).insert(cursor_place@, record@);
            let one = seq![val@];
            assert(one.drop_last() =~= Seq::<Seq<u8>>::empty());
            if at_limit && len > 0 {
                let taken = list_pop(s, name, now);
                let moved = Cursors { head: (at.head + 1) as u64, tail: at.tail };
                moved.lemma_roundtrip();
                assert(list_live(taken, name, now));
                assert(list_cursors(taken, name) == moved);
                assert(list_ready(taken, name, now, self.lifetime()) == taken);
                assert(put_values(taken, name, moved.tail, one.drop_last()) == taken);
                assert(put_values(taken, name, moved.tail, one) == taken.insert(place@, val@));
                assert(staged =~= list_push(taken, name, val@, now, self.lifetime()));
            } else {
                if at_limit {
                    assert(list_pop(s, name, now) == s);
                }
                assert(put_values(ready, name, from.tail, one.drop_last()) == ready);
                assert(put_values(ready, name, from.tail, one) == ready.insert(place@, val@));
                assert(staged == list_push(s, name, val@, now, self.lifetime()));
            }
        }
        batch_insert(&mut batch, place.as_slice(), val);
        batch_insert(&mut batch, cursor_place.as_slice(), record.as_slice());
        db.commit(batch)?;
        Ok(back)
    }

    /// Takes the entry at the head off the list and hands it back; `None`
    /// if the list is empty or does not exist at `now`.
    pub fn pop(&self, db: &mut StorageDB, now: TimestampMillis) -> (r: Result<
        Option<Vec<u8>>,
        StorageError,
    >)
        ensures
            match r {
                Ok(front) => {
                    &&& !list_corrupt(old(db)@, self.label())
                    &&& !list_hole(old(db)@, self.label(), 0, now)
                    &&& opt_view(front) == list_get(old(db)@, self.label(), 0, now)
                    &&& final(db)@ == list_pop(old(db)@, self.label(), now)
                },
                Err(StorageError::Corruption) => {
                    &&& list_corrupt(old(db)@, self.label()) || list_hole(
                        old(db)@,
                        self.label(),
                        0,
                        now,
                    )
                    &&& final(db)@ == old(db)@
                },
                Err(e) => e is Io,
            },
    {
        let (live, at) = self.state(db, now)?;
        if !live || at.head == at.tail {
            return Ok(None);
        }
        let front = encode_list_entry_key(self.name(), at.head);
        match db.read(front.as_slice())? {
            None => Err(StorageError::Corruption),
            Some(value) => {
                let mut batch = batch_new();
                let cursor_place = Namespace::ListCursors.encode_key(self.name());
                let next = Cursors { head: at.head + 1, tail: at.tail };
                let record = next.encode();
                proof {
                    lemma_no_writes(db@);
                    let w0 = batch_writes(batch);
                    lemma_batch_delete(db@, w0, front@);
                    lemma_batch_put(db@, w0.insert(front@, None), cursor_place@, record@);
                }
                batch_remove(&mut batch, front.as_slice());
                batch_insert(&mut batch, cursor_place.as_slice(), record.as_slice());
                db.commit(batch)?;
                Ok(Some(value))
            },
        }
    }

    /// Every entry of the list from head to tail, as a read at `now` sees
    /// them.
    pub fn all(&self, db: &StorageDB, now: TimestampMillis) -> (r: Result<
        Vec<Vec<u8>>,
        StorageError,
    >)
        ensures
            match r {
                Ok(items) => {
                    &&& !list_corrupt(db@, self.label())
                    &&& !list_broken(db@, self.label(), now)
                    &&& keys_view(items@) == list_items(db@, self.label(), now)
                },
                Err(StorageError::Corruption) => list_corrupt(db@, self.label()) || list_broken(
                    db@,
                    self.label(),
                    now,
                ),
                Err(e) => e is Io,
            },
    {
        let (live, at) = self.state(db, now)?;
        let mut items: Vec<Vec<u8>> = Vec::new();
        let ghost s = db@;
        let ghost name = self.label();
        if !live || at.head == at.tail {
            assert(keys_view(items@) =~= list_items(s, name, now));
            assert(!list_broken(s, name, now));
            return Ok(items);
        }
        let base = encode_entries_prefix(Namespace::ListEntry, self.name());
        let lo = encode_list_entry_key(self.name(), at.head);
        let hi = encode_list_entry_key(self.name(), at.tail);
        let found = db.scan_range(lo.as_slice(), hi.as_slice())?;
        let ghost scanned = pairs_view(found@);
        let n: usize = found.len();
        let mut position: u64 = at.head;
        let mut i: usize = 0;
        while i < n
            invariant
                s == db@,
                name == self.label(),
                list_live(s, name, now),
                at == list_cursors(s, name),
                base@ == list_entries_prefix(name),
                n == found@.len(),
                i <= n,
                scanned == pairs_view(found@),
                is_range_scan(
                    scanned,
                    s,
                    list_entry_key(name, at.head),
                    list_entry_key(name, at.tail),
                ),
                at.head <= position <= at.tail,
                items@.len() == position - at.head,
                forall|p: int|
                    0 <= p < items@.len() ==> s.contains_key(#[trigger] list_slot(s, name, p))
                        && items@[p]@ == s[list_slot(s, name, p)],
                position > at.head ==> exists|j: int|
                    0 <= j < i && #[trigger] scanned[j].0 == list_entry_key(
                        name,
                        (position - 1) as u64,
                    ),
                forall|j: int, at_j: u64|
                    0 <= j < i && #[trigger] scanned[j].0 == #[trigger] list_entry_key(name, at_j)
                        ==> at_j < position,
            decreases n - i,
        {
            let key = found[i].0.as_slice();
            let ghost stored = scanned[i as int].0;
            assert(stored == key@);
            let mut own: Option<u64> = None;
            if key.len() >= base.len() && key.len() - base.len() == 8 && starts_with(
                key,
                base.as_slice(),
            ) {
                own = decode_u64(slice_subrange(key, base.len(), key.len()));
            }
            match own {
                Some(index) => {
                    proof {
                        assert(stored =~= list_entry_key(name, index));
                        lemma_list_entry_order(name, index, at.head);
                        lemma_list_entry_order(name, index, at.tail);
                        lemma_list_keys(name);
                        if position > at.head {
                            let j = choose|j: int|
                                0 <= j < i && #[trigger] scanned[j].0 == list_entry_key(
                                    name,
                                    (position - 1) as u64,
                                );
                            lemma_list_entry_order(name, (position - 1) as u64, index);
                        }
                    }
                    assert(at.head <= index < at.tail);
                    assert(index >= position);
                    if index != position {
                        proof {
                            lemma_missing_before(s, name, scanned, i as int, position, index, at);
                            assert(list_slot(s, name, position - at.head) == list_entry_key(
                                name,
                                position,
                            ));
                            assert(list_hole(s, name, position - at.head, now));
                        }
                        return Err(StorageError::Corruption);
                    }
                    assert(stored == list_slot(s, name, position - at.head));
                    items.push(slice_to_vec(found[i].1.as_slice()));
                    position += 1;
                    assert(scanned[i as int].0 == list_entry_key(name, (position - 1) as u64));
                },
                None => {
                    proof {
                        assert forall|at_j: u64| stored != #[trigger] list_entry_key(
                            name,
                            at_j,
                        ) by {
                            if stored == list_entry_key(name, at_j) {
                                lemma_u64_be_roundtrip(at_j);
                                lemma_list_keys(name);
                                assert(stored.subrange(
                                    base@.len() as int,
                                    stored.len() as int,
                                ) =~= u64_be(at_j));
                            }
                        }
                    }
                },
            }
            i += 1;
        }
        if position != at.tail {
            proof {
                lemma_list_entry_order(name, position, at.head);
                lemma_list_entry_order(name, position, at.tail);
                if s.contains_key(list_entry_key(name, position)) {
                    let j = choose|j: int|
                        0 <= j < scanned.len() && #[trigger] scanned[j].0 == list_entry_key(
                            name,
                            position,
                        );
                    assert(false);
                }
                assert(list_slot(s, name, position - at.head) == list_entry_key(name, position));
                assert(list_hole(s, name, position - at.head, now));
            }
            return Err(StorageError::Corruption);
        }
        assert(keys_view(items@) =~= list_items(s, name, now));
        assert(!list_broken(s, name, now));
        Ok(items)
    }

    /// Every entry of the list from head to tail: the same as `all`.
    pub fn iter(&self, db: &StorageDB, now: TimestampMillis) -> (r: Result<
        Vec<Vec<u8>>,
        StorageError,
    >)
        ensures
            match r {
                Ok(items) => {
                    &&& !list_corrupt(db@, self.label())
                    &&& !list_broken(db@, self.label(), now)
                    &&& keys_view(items@) == list_items(db@, self.label(), now)
                },
                Err(StorageError::Corruption) => list_corrupt(db@, self.label()) || list_broken(
                    db@,
                    self.label(),
                    now,
                ),
                Err(e) => e is Io,
            },
    {
        self.all(db, now)
    }

    /// The entry at offset `idx` from the head; `None` if the list has no
    /// such entry or does not exist at `now`.
    pub fn get_index(&self, db: &StorageDB, idx: usize, now: TimestampMillis) -> (r: Result<
        Option<Vec<u8>>,
        StorageError,
    >)
        ensures
            match r {
                Ok(found) => {
                    &&& !list_corrupt(db@, self.label())
                    &&& !list_hole(db@, self.label(), idx as int, now)
                    &&& opt_view(found) == list_get(db@, self.label(), idx as int, now)
                },
                Err(StorageError::Corruption) => list_corrupt(db@, self.label()) || list_hole(
                    db@,
                    self.label(),
                    idx as int,
                    now,
                ),
                Err(e) => e is Io,
            },
    {
        let (live, at) = self.state(db, now)?;
        if !live || idx as u64 >= at.tail - at.head {
            return Ok(None);
        }
        let place = encode_list_entry_key(self.name(), at.head + idx as u64);
        match db.read(place.as_slice())? {
            None => Err(StorageError::Corruption),
            Some(value) => Ok(Some(value)),
        }
    }

    /// The number of entries that a read at `now` sees.
    pub fn len(&self, db: &StorageDB, now: TimestampMillis) -> (r: Result<usize, StorageError>)
        ensures
            match r {
                Ok(n) => !list_corrupt(db@, self.label()) && n == word(
                    list_len(db@, self.label(), now),
                ),
                Err(StorageError::Corruption) => list_corrupt(db@, self.label()),
                Err(e) => e is Io,
            },
    {
        let (live, at) = self.state(db, now)?;
        if live {
            Ok(to_word(at.tail - at.head))
        } else {
            Ok(0)
        }
    }

    /// Whether a read at `now` sees no entry.
    pub fn is_empty(&self, db: &StorageDB, now: TimestampMillis) -> (r: Result<bool, StorageError>)
        ensures
            match r {
                Ok(empty) => !list_corrupt(db@, self.label()) && empty == (list_len(
                    db@,
                    self.label(),
                    now,
                ) == 0),
                Err(StorageError::Corruption) => list_corrupt(db@, self.label()),
                Err(e) => e is Io,
            },
    {
        let (live, at) = self.state(db, now)?;
        Ok(!live || at.head == at.tail)
    }

    /// Drops the list: its entries, its cursors and its marker.
    pub fn clear(&self, db: &mut StorageDB) -> (r: Result<(), StorageError>)
        ensures
            match r {
                Ok(()) => final(db)@ == list_dropped(old(db)@, self.label()),
                Err(e) => e is Io,
            },
    {
        drop_list(db, self.name())
    }

    /// Lets the list expire at time `at`. Says whether the list's marker
    /// was there, expired or not; a list that was never written gets no
    /// expiry time.
    pub fn expire_at(&self, db: &mut StorageDB, at: TimestampMillis) -> (r: Result<
        bool,
        StorageError,
    >)
        ensures
            match r {
                Ok(existed) => {
                    &&& !marker_corrupt(old(db)@, list_marker_key(self.label()))
                    &&& existed == old(db)@.contains_key(list_marker_key(self.label()))
                    &&& final(db)@ == marker_expire_at(
                        old(db)@,
                        list_marker_key(self.label()),
                        at,
                    )
                },
                Err(StorageError::Corruption) => marker_corrupt(
                    old(db)@,
                    list_marker_key(self.label()),
                ) && final(db)@ == old(db)@,
                Err(e) => e is Io,
            },
    {
        let marker = Namespace::ListMarker.encode_key(self.name());
        set_expiry(db, marker.as_slice(), at)
    }

    /// Lets the list expire `dur` milliseconds after `now`.
    pub fn expire(&self, db: &mut StorageDB, dur: TimestampMillis, now: TimestampMillis) -> (r:
        Result<bool, StorageError>)
        ensures
            match r {
                Ok(existed) => {
                    &&& !marker_corrupt(old(db)@, list_marker_key(self.label()))
                    &&& existed == old(db)@.contains_key(list_marker_key(self.label()))
                    &&& final(db)@ == marker_expire_at(
                        old(db)@,
                        list_marker_key(self.label()),
                        deadline(now, dur),
                    )
                },
                Err(StorageError::Corruption) => marker_corrupt(
                    old(db)@,
                    list_marker_key(self.label()),
                ) && final(db)@ == old(db)@,
                Err(e) => e is Io,
            },
    {
        self.expire_at(db, expires_after(now, dur))
    }

    /// The milliseconds that the list has left at `now`; `None` if it does
    /// not exist, has expired or never expires.
    pub fn ttl(&self, db: &StorageDB, now: TimestampMillis) -> (r: Result<
        Option<TimestampMillis>,
        StorageError,
    >)
        ensures
            match r {
                Ok(left) => !marker_corrupt(db@, list_marker_key(self.label())) && left
                    == marker_ttl(db@, list_marker_key(self.label()), now),
                Err(StorageError::Corruption) => marker_corrupt(
                    db@,
                    list_marker_key(self.label()),
                ),
                Err(e) => e is Io,
            },
    {
        let marker = Namespace::ListMarker.encode_key(self.name());
        read_ttl(db, marker.as_slice(), now)
    }
}

/// In an ordered listing of the entries between the cursors of a list, an
/// entry that stands where the entry at `position` should stand, and is a
/// later one, shows that the entry at `position` is not stored.
proof fn lemma_missing_before(
    s: Store,
    name: Seq<u8>,
    scanned: Seq<(Seq<u8>, Seq<u8>)>,
    i: int,
    position: u64,
    index: u64,
    at: Cursors,
)
    requires
        is_range_scan(
            scanned,
            s,
            list_entry_key(name, at.head),
            list_entry_key(name, at.tail),
        ),
        0 <= i < scanned.len(),
        scanned[i].0 == list_entry_key(name, index),
        at.head <= position < index,
        index < at.tail,
        forall|j: int, at_j: u64|
            0 <= j < i && #[trigger] scanned[j].0 == #[trigger] list_entry_key(name, at_j)
                ==> at_j < position,
    ensures
        !s.contains_key(list_entry_key(name, position)),
{
    let missing = list_entry_key(name, position);
    lemma_list_entry_order(name, position, at.head);
    lemma_list_entry_order(name, position, at.tail);
    if s.contains_key(missing) {
        let j = choose|j: int| 0 <= j < scanned.len() && #[trigger] scanned[j].0 == missing;
        if j > i {
            lemma_list_entry_order(name, index, position);
        } else if j == i {
            lemma_list_keys(name);
        }
    }
}

/// Drops list `name` in one atomic batch: its entries, its cursors and
/// its marker.
pub(crate) fn drop_list(db: &mut StorageDB, name: &[u8]) -> (r: Result<(), StorageError>)
    ensures
        match r {
            Ok(()) => final(db)@ == list_dropped(old(db)@, name@),
            Err(e) => e is Io,
        },
{
    let entries = encode_entries_prefix(Namespace::ListEntry, name);
    let mut batch = drop_batch(db, entries.as_slice())?;
    let marker = Namespace::ListMarker.encode_key(name);
    let place = Namespace::ListCursors.encode_key(name);
    proof {
        let w0 = batch_writes(batch);
        lemma_batch_delete(db@, w0, marker@);
        lemma_batch_delete(db@, w0.insert(marker@, None), place@);
    }
    batch_remove(&mut batch, marker.as_slice());
    batch_remove(&mut batch, place.as_slice());
    db.commit(batch)
}

} // verus!
