//! The Handle Table: a mapping from numeric file handles to open resources
//! on the real filesystem.
//!
//! A handle identifies one open-resource session, independent of any node
//! identifier: a path opened twice yields two handles bound to two resources.
//! The table owns a resource from `open` to `close`; a caller borrows it for
//! one operation by `take`, and hands it back with `restore`.

use vstd::prelude::*;

verus! {

/// One binding of a file handle to an open resource.
struct Slot<T> {
    pub handle: u64,
    pub resource: T,
}

/// The mathematical content of a sequence of slots: the finite map from each
/// bound handle to its resource.
spec fn handle_map<T>(s: Seq<Slot<T>>) -> Map<u64, T> {
    Map::new(
        |k: u64| exists|i: int| 0 <= i < s.len() && s[i].handle == k,
        |k: u64| s[choose|i: int| 0 <= i < s.len() && s[i].handle == k].resource,
    )
}

/// No two slots share a handle.
spec fn distinct_handles<T>(s: Seq<Slot<T>>) -> bool {
    forall|i: int, j: int|
        #![trigger s[i], s[j]]
        0 <= i < s.len() && 0 <= j < s.len() && i != j ==> s[i].handle != s[j].handle
}

/// The handle-to-resource mapping for open resources.
pub struct HandleTable<T> {
    slots: Vec<Slot<T>>,
    next_handle: u64,
}

impl<T> View for HandleTable<T> {
    type V = Map<u64, T>;

    closed spec fn view(&self) -> Map<u64, T> {
        handle_map(self.slots@)
    }
}

impl<T> HandleTable<T> {
    /// Well-formedness: handles are distinct, and every handle was allocated
    /// below the next free one.
    pub closed spec fn wf(&self) -> bool {
        &&& distinct_handles(self.slots@)
        &&& forall|i: int|
            0 <= i < self.slots@.len() ==> 1 <= (#[trigger] self.slots@[i]).handle
                < self.next_handle
        &&& 1 <= self.next_handle
    }

    /// Handles below this bound are the ones the table may have given out.
    pub closed spec fn bound(&self) -> u64 {
        self.next_handle
    }

    /// Whether a fresh handle can still be allocated.
    pub closed spec fn can_allocate(&self) -> bool {
        self.next_handle < u64::MAX
    }

    /// Reports whether a fresh handle can still be allocated, so a caller can
    /// test it before an `open`.
    pub fn has_capacity(&self) -> (r: bool)
        ensures
            r == self.can_allocate(),
    {
        self.next_handle < u64::MAX
    }

    /// A new table with no open resource.
    pub fn new() -> (t: Self)
        ensures
            t.wf(),
            t.can_allocate(),
            t@ == Map::<u64, T>::empty(),
    {
        let t = HandleTable { slots: Vec::<Slot<T>>::new(), next_handle: 1 };
        proof {
            assert(t@ =~= Map::<u64, T>::empty());
        }
        t
    }

    /// Looks up the slot index of a handle.
    fn find_handle(&self, h: u64) -> (r: Option<usize>)
        ensures
            match r {
                Some(i) => i < self.slots@.len() && self.slots@[i as int].handle == h,
                None => forall|i: int|
                    0 <= i < self.slots@.len() ==> (#[trigger] self.slots@[i]).handle != h,
            },
    {
        let mut i: usize = 0;
        while i < self.slots.len()
            invariant
                i <= self.slots@.len(),
                forall|j: int| 0 <= j < i ==> (#[trigger] self.slots@[j]).handle != h,
            decreases self.slots@.len() - i,
        {
            if self.slots[i].handle == h {
                return Some(i);
            }
            i = i + 1;
        }
        None
    }

    /// Allocates a fresh handle bound to `resource` for its lifetime.
    pub fn open(&mut self, resource: T) -> (h: u64)
        requires
            old(self).wf(),
            old(self).can_allocate(),
        ensures
            final(self).wf(),
            !old(self)@.contains_key(h),
            final(self)@ == old(self)@.insert(h, resource),
            1 <= h < final(self).bound(),
    {
        let h = self.next_handle;
        self.next_handle = self.next_handle + 1;
        let slot = Slot { handle: h, resource };
        proof {
            lemma_handle_map_absent(self.slots@, h);
            lemma_handle_map_push(self.slots@, slot);
        }
        self.slots.push(slot);
        h
    }

    /// Takes the resource bound to a handle out of the table for one
    /// exclusive operation, or nothing when the handle is unknown; the
    /// borrower hands it back with `restore`.
    pub fn take(&mut self, h: u64) -> (r: Option<T>)
        requires
            old(self).wf(),
        ensures
            final(self).wf(),
            final(self).bound() == old(self).bound(),
            match r {
                Some(resource) => {
                    &&& old(self)@.contains_key(h)
                    &&& resource == old(self)@[h]
                    &&& final(self)@ == old(self)@.remove(h)
                    &&& 1 <= h < old(self).bound()
                },
                None => !old(self)@.contains_key(h) && final(self)@ == old(self)@,
            },
    {
        match self.find_handle(h) {
            Some(i) => {
                proof {
                    lemma_handle_map_at(self.slots@, i as int);
                    lemma_handle_map_remove(self.slots@, i as int);
                }
                let slot = self.slots.remove(i);
                Some(slot.resource)
            },
            None => {
                proof {
                    lemma_handle_map_absent(self.slots@, h);
                }
                None
            },
        }
    }

    /// Whether `restore` may bind a resource to the handle `h`: it must have
    /// been allocated earlier and not be bound at the moment.
    pub fn can_restore(&self, h: u64) -> (r: bool)
        requires
            self.wf(),
        ensures
            r == (1 <= h < self.bound() && !self@.contains_key(h)),
    {
        if !(1 <= h && h < self.next_handle) {
            return false;
        }
        match self.find_handle(h) {
            Some(i) => {
                proof {
                    lemma_handle_map_at(self.slots@, i as int);
                }
                false
            },
            None => {
                proof {
                    lemma_handle_map_absent(self.slots@, h);
                }
                true
            },
        }
    }

    /// Hands the resource taken under the handle `h` back to the table.
    pub fn restore(&mut self, h: u64, resource: T)
        requires
            old(self).wf(),
            1 <= h < old(self).bound(),
            !old(self)@.contains_key(h),
        ensures
            final(self).wf(),
            final(self).bound() == old(self).bound(),
            final(self)@ == old(self)@.insert(h, resource),
    {
        let slot = Slot { handle: h, resource };
        proof {
            if exists|i: int| 0 <= i < self.slots@.len() && self.slots@[i].handle == h {
                let i = choose|i: int| 0 <= i < self.slots@.len() && self.slots@[i].handle == h;
                lemma_handle_map_at(self.slots@, i);
            }
            lemma_handle_map_push(self.slots@, slot);
        }
        self.slots.push(slot);
    }

    /// Releases the resource bound to a handle and invalidates the handle;
    /// reports whether the handle was known.
    pub fn close(&mut self, h: u64) -> (had: bool)
        requires
            old(self).wf(),
        ensures
            final(self).wf(),
            had == old(self)@.contains_key(h),
            final(self)@ == old(self)@.remove(h),
    {
        let r = self.take(h);
        proof {
            if !old(self)@.contains_key(h) {
                assert(final(self)@ =~= old(self)@.remove(h));
            }
        }
        match r {
            Some(_) => true,
            None => false,
        }
    }
}

/// Handle independence: a second `open` yields a handle distinct from an
/// earlier one still open, and the table after both holds each handle's own
/// resource; re-binding a resource through either handle leaves the other
/// handle's resource as it was.
pub proof fn lemma_handle_independence<T>(m0: Map<u64, T>, h1: u64, r1: T, h2: u64, r2: T)
    requires
        !m0.contains_key(h1),
        !m0.insert(h1, r1).contains_key(h2),
    ensures
        h1 != h2,
        m0.insert(h1, r1).insert(h2, r2)[h1] == r1,
        m0.insert(h1, r1).insert(h2, r2)[h2] == r2,
        forall|x: T| m0.insert(h1, r1).insert(h2, r2).insert(h1, x)[h2] == r2,
        forall|x: T| m0.insert(h1, r1).insert(h2, r2).insert(h2, x)[h1] == r1,
{
}

/// The slot at index `i` is what the map binds its handle to.
proof fn lemma_handle_map_at<T>(s: Seq<Slot<T>>, i: int)
    requires
        distinct_handles(s),
        0 <= i < s.len(),
    ensures
        handle_map(s).contains_key(s[i].handle),
        handle_map(s)[s[i].handle] == s[i].resource,
{
    let k = s[i].handle;
    assert(0 <= i < s.len() && s[i].handle == k);
    let j = choose|j: int| 0 <= j < s.len() && s[j].handle == k;
    assert(j == i);
}

/// A handle carried by no slot is absent from the map.
proof fn lemma_handle_map_absent<T>(s: Seq<Slot<T>>, k: u64)
    requires
        forall|i: int| 0 <= i < s.len() ==> (#[trigger] s[i]).handle != k,
    ensures
        !handle_map(s).contains_key(k),
{
}

/// Appending a slot with a fresh handle inserts exactly that pair into the
/// map.
proof fn lemma_handle_map_push<T>(s: Seq<Slot<T>>, slot: Slot<T>)
    requires
        distinct_handles(s),
        forall|i: int| 0 <= i < s.len() ==> (#[trigger] s[i]).handle != slot.handle,
    ensures
        distinct_handles(s.push(slot)),
        handle_map(s.push(slot)) == handle_map(s).insert(slot.handle, slot.resource),
{
    let s2 = s.push(slot);
    assert(forall|i: int| 0 <= i < s.len() ==> s2[i] == s[i]);
    assert(s2[s.len() as int] == slot);
    assert forall|k: u64| #[trigger] handle_map(s2).contains_key(k) implies handle_map(s).insert(
        slot.handle,
        slot.resource,
    ).contains_key(k) && handle_map(s2)[k] == handle_map(s).insert(slot.handle, slot.resource)[k] by {
        let i = choose|i: int| 0 <= i < s2.len() && s2[i].handle == k;
        if i < s.len() {
            lemma_handle_map_at(s, i);
            lemma_handle_map_at(s2, i);
        } else {
            assert(k == slot.handle);
            lemma_handle_map_at(s2, s.len() as int);
        }
    }
    assert forall|k: u64| #[trigger] handle_map(s).insert(slot.handle, slot.resource).contains_key(
        k,
    ) implies handle_map(s2).contains_key(k) by {
        if k == slot.handle {
            assert(s2[s.len() as int].handle == k);
        } else {
            let i = choose|i: int| 0 <= i < s.len() && s[i].handle == k;
            assert(s2[i].handle == k);
        }
    }
    assert(handle_map(s2) =~= handle_map(s).insert(slot.handle, slot.resource));
}

/// Removing the slot at index `i` removes exactly its handle from the map.
proof fn lemma_handle_map_remove<T>(s: Seq<Slot<T>>, i: int)
    requires
        distinct_handles(s),
        0 <= i < s.len(),
    ensures
        distinct_handles(s.remove(i)),
        handle_map(s.remove(i)) == handle_map(s).remove(s[i].handle),
{
    let s2 = s.remove(i);
    s.remove_ensures(i);
    assert forall|a: int, b: int|
        #![trigger s2[a], s2[b]]
        0 <= a < s2.len() && 0 <= b < s2.len() && a != b implies s2[a].handle != s2[b].handle by {
        let a0 = if a < i {
            a
        } else {
            a + 1
        };
        let b0 = if b < i {
            b
        } else {
            b + 1
        };
        assert(s2[a] == s[a0] && s2[b] == s[b0]);
    }
    assert forall|k: u64| #[trigger] handle_map(s2).contains_key(k) implies handle_map(s).remove(
        s[i].handle,
    ).contains_key(k) && handle_map(s2)[k] == handle_map(s).remove(s[i].handle)[k] by {
        let j = choose|j: int| 0 <= j < s2.len() && s2[j].handle == k;
        let j0 = if j < i {
            j
        } else {
            j + 1
        };
        assert(s2[j] == s[j0]);
        lemma_handle_map_at(s, j0);
        lemma_handle_map_at(s2, j);
    }
    assert forall|k: u64| #[trigger]
        handle_map(s).remove(s[i].handle).contains_key(k) implies handle_map(s2).contains_key(
        k,
    ) by {
        let j0 = choose|j0: int| 0 <= j0 < s.len() && s[j0].handle == k;
        assert(j0 != i);
        let j = if j0 < i {
            j0
        } else {
            j0 - 1
        };
        assert(s2[j] == s[j0]);
    }
    assert(handle_map(s2) =~= handle_map(s).remove(s[i].handle));
}

} // verus!
