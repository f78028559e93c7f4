//! The registry of open handles: for each collection name, how many
//! handles to it are open. The reaper slows down while many are.

use vstd::prelude::*;
use vstd::slice::slice_to_vec;

verus! {

/// The handles counted in `slots` under `name`.
pub open spec fn held_in(slots: Seq<(Vec<u8>, usize)>, name: Seq<u8>) -> nat
    decreases slots.len(),
{
    if slots.len() == 0 {
        0
    } else if slots.last().0@ == name {
        held_in(slots.drop_last(), name) + slots.last().1 as nat
    } else {
        held_in(slots.drop_last(), name)
    }
}

/// All handles counted in `slots`.
pub open spec fn held_total(slots: Seq<(Vec<u8>, usize)>) -> nat
    decreases slots.len(),
{
    if slots.len() == 0 {
        0
    } else {
        held_total(slots.drop_last()) + slots.last().1 as nat
    }
}

/// For each collection in use, its name and the number of handles open
/// to it.
pub struct HandleRegistry {
    slots: Vec<(Vec<u8>, usize)>,
    total: usize,
}

impl HandleRegistry {
    /// Every name is listed once, with at least one handle, and the total
    /// is the sum of the counts.
    pub closed spec fn wf(&self) -> bool {
        &&& forall|i: int| 0 <= i < self.slots@.len() ==> (#[trigger] self.slots@[i]).1 > 0
        &&& forall|i: int, j: int|
            0 <= i < j < self.slots@.len() ==> (#[trigger] self.slots@[i]).0@ != (
            #[trigger] self.slots@[j]).0@
        &&& self.total == held_total(self.slots@)
    }

    /// The number of handles open to collection `name`.
    pub closed spec fn held(&self, name: Seq<u8>) -> nat {
        held_in(self.slots@, name)
    }

    /// The number of handles open in all.
    pub closed spec fn active(&self) -> nat {
        self.total as nat
    }

    /// A registry without handles.
    pub fn new() -> (r: Self)
        ensures
            r.wf(),
            r.active() == 0,
            forall|name: Seq<u8>| r.held(name) == 0,
    {
        HandleRegistry { slots: Vec::new(), total: 0 }
    }

    /// The place of `name` in the list, if it is listed.
    fn find(&self, name: &[u8]) -> (r: Option<usize>)
        requires
            self.wf(),
        ensures
            match r {
                Some(i) => i < self.slots@.len() && self.slots@[i as int].0@ == name@,
                None => forall|i: int| 0 <= i < self.slots@.len() ==> self.slots@[i].0@ != name@,
            },
    {
        let n: usize = self.slots.len();
        let mut i: usize = 0;
        while i < n
            invariant
                n == self.slots@.len(),
                i <= n,
                forall|j: int| 0 <= j < i ==> self.slots@[j].0@ != name@,
            decreases n - i,
        {
            if same_bytes(self.slots[i].0.as_slice(), name) {
                return Some(i);
            }
            i += 1;
        }
        None
    }

    /// Counts one more handle to collection `name`. Says whether it did:
    /// a registry that already counts as many handles as a machine word
    /// holds takes no more and stays as it is.
    pub fn acquire(&mut self, name: &[u8]) -> (r: bool)
        requires
            old(self).wf(),
        ensures
            final(self).wf(),
            r == (old(self).active() < usize::MAX),
            final(self).held(name@) == old(self).held(name@) + if r {
                1nat
            } else {
                0nat
            },
            final(self).active() == old(self).active() + if r {
                1nat
            } else {
                0nat
            },
            forall|other: Seq<u8>|
                other != name@ ==> final(self).held(other) == old(self).held(other),
    {
        if self.total == usize::MAX {
            return false;
        }
        let ghost before = self.slots@;
        match self.find(name) {
            Some(i) => {
                proof {
                    lemma_total_bounds(before, i as int);
                }
                let count = self.slots[i].1;
                let label = slice_to_vec(name);
                self.slots.set(i, (label, count + 1));
                proof {
                    lemma_change(before, i as int, self.slots@[i as int]);
                }
            },
            None => {
                self.slots.push((slice_to_vec(name), 1));
                proof {
                    assert(self.slots@.drop_last() =~= before);
                    lemma_absent(before, name@);
                }
            },
        }
        self.total = self.total + 1;
        true
    }

    /// Counts one handle to collection `name` less. A name without open
    /// handles stays so.
    pub fn release(&mut self, name: &[u8])
        requires
            old(self).wf(),
        ensures
            final(self).wf(),
            final(self).held(name@) == if old(self).held(name@) > 0 {
                (old(self).held(name@) - 1) as nat
            } else {
                0nat
            },
            final(self).active() == if old(self).held(name@) > 0 {
                (old(self).active() - 1) as nat
            } else {
                old(self).active()
            },
            forall|other: Seq<u8>|
                other != name@ ==> final(self).held(other) == old(self).held(other),
    {
        let ghost before = self.slots@;
        match self.find(name) {
            None => {
                proof {
                    lemma_absent(before, name@);
                }
            },
            Some(i) => {
                proof {
                    lemma_total_bounds(before, i as int);
                }
                let count = self.slots[i].1;
                if count > 1 {
                    let label = slice_to_vec(name);
                    self.slots.set(i, (label, count - 1));
                    proof {
                        lemma_change(before, i as int, self.slots@[i as int]);
                    }
                } else {
                    self.slots.remove(i);
                    proof {
                        lemma_remove(before, i as int);
                    }
                }
                self.total = self.total - 1;
            },
        }
    }

    /// The number of handles open to collection `name`.
    pub fn handles(&self, name: &[u8]) -> (r: usize)
        requires
            self.wf(),
        ensures
            r == self.held(name@),
    {
        match self.find(name) {
            None => {
                proof {
                    lemma_absent(self.slots@, name@);
                }
                0
            },
            Some(i) => {
                proof {
                    lemma_total_bounds(self.slots@, i as int);
                    lemma_change(self.slots@, i as int, self.slots@[i as int]);
                    assert(self.slots@.update(i as int, self.slots@[i as int]) =~= self.slots@);
                }
                self.slots[i].1
            },
        }
    }

    /// The number of handles open in all.
    pub fn active_count(&self) -> (r: usize)
        requires
            self.wf(),
        ensures
            r == self.active(),
    {
        self.total
    }
}

/// Whether two byte strings are the same.
pub fn same_bytes(a: &[u8], b: &[u8]) -> (r: bool)
    ensures
        r == (a@ == b@),
{
    if a.len() != b.len() {
        return false;
    }
    let n: usize = a.len();
    let mut i: usize = 0;
    while i < n
        invariant
            n == a@.len(),
            n == b@.len(),
            i <= n,
            forall|j: int| 0 <= j < i ==> a@[j] == b@[j],
        decreases n - i,
    {
        if a[i] != b[i] {
            return false;
        }
        i += 1;
    }
    assert(a@ =~= b@);
    true
}

/// A name that is not listed has no handles.
proof fn lemma_absent(slots: Seq<(Vec<u8>, usize)>, name: Seq<u8>)
    requires
        forall|i: int| 0 <= i < slots.len() ==> slots[i].0@ != name,
    ensures
        held_in(slots, name) == 0,
    decreases slots.len(),
{
    if slots.len() > 0 {
        lemma_absent(slots.drop_last(), name);
    }
}

/// No count is more than the total.
proof fn lemma_total_bounds(slots: Seq<(Vec<u8>, usize)>, i: int)
    requires
        0 <= i < slots.len(),
    ensures
        slots[i].1 <= held_total(slots),
    decreases slots.len(),
{
    if i < slots.len() - 1 {
        lemma_total_bounds(slots.drop_last(), i);
    }
}

/// What changing the count of one listed name does: that name's handles
/// are the new count, the total follows, every other name is as before.
proof fn lemma_change(slots: Seq<(Vec<u8>, usize)>, i: int, entry: (Vec<u8>, usize))
    requires
        0 <= i < slots.len(),
        entry.0@ == slots[i].0@,
        forall|a: int, b: int| 0 <= a < b < slots.len() ==> slots[a].0@ != slots[b].0@,
    ensures
        held_in(slots.update(i, entry), entry.0@) == entry.1,
        held_in(slots, entry.0@) == slots[i].1,
        held_total(slots.update(i, entry)) == held_total(slots) - slots[i].1 + entry.1,
        forall|other: Seq<u8>|
            other != entry.0@ ==> held_in(slots.update(i, entry), other) == held_in(slots, other),
    decreases slots.len(),
{
    let changed = slots.update(i, entry);
    if i == slots.len() - 1 {
        assert(changed.drop_last() =~= slots.drop_last());
        lemma_absent(slots.drop_last(), entry.0@);
        assert forall|other: Seq<u8>| other != entry.0@ implies held_in(changed, other)
            == held_in(slots, other) by {}
    } else {
        lemma_change(slots.drop_last(), i, entry);
        assert(changed.drop_last() =~= slots.drop_last().update(i, entry));
        assert(changed.last() == slots.last());
        assert forall|other: Seq<u8>| other != entry.0@ implies held_in(changed, other)
            == held_in(slots, other) by {
            assert(held_in(slots.drop_last().update(i, entry), other) == held_in(
                slots.drop_last(),
                other,
            ));
        }
    }
}

/// What taking one listed name off the list does: that name has no
/// handles, the total follows, every other name is as before.
proof fn lemma_remove(slots: Seq<(Vec<u8>, usize)>, i: int)
    requires
        0 <= i < slots.len(),
        forall|a: int, b: int| 0 <= a < b < slots.len() ==> slots[a].0@ != slots[b].0@,
    ensures
        held_in(slots.remove(i), slots[i].0@) == 0,
        held_in(slots, slots[i].0@) == slots[i].1,
        held_total(slots.remove(i)) == held_total(slots) - slots[i].1,
        forall|other: Seq<u8>|
            other != slots[i].0@ ==> held_in(slots.remove(i), other) == held_in(slots, other),
    decreases slots.len(),
{
    let name = slots[i].0@;
    let rest = slots.remove(i);
    if i == slots.len() - 1 {
        assert(rest =~= slots.drop_last());
        lemma_absent(slots.drop_last(), name);
    } else {
        lemma_remove(slots.drop_last(), i);
        assert(rest.drop_last() =~= slots.drop_last().remove(i));
        assert(rest.last() == slots.last());
        assert forall|other: Seq<u8>| other != name implies held_in(rest, other) == held_in(
            slots,
            other,
        ) by {
            assert(held_in(slots.drop_last().remove(i), other) == held_in(
                slots.drop_last(),
                other,
            ));
        }
    }
}

} // verus!
