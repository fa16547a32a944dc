//! The Identity Table: a bijective mapping between numeric node identifiers
//! and relative paths under the mirrored root.
//!
//! Identifier `1` is reserved for the root and resolves to the empty relative
//! path. Every other identifier is allocated monotonically and never reused
//! while the table lives. At any instant the table is an exact bijection: no
//! identifier is bound to two paths and no path is bound to two identifiers.

use vstd::prelude::*;

use crate::path::{bytes_eq, copy_bytes};

verus! {

/// The node identifier reserved for the mirrored root directory.
pub const ROOT_ID: u64 = 1;

/// One binding of a node identifier to a relative path.
struct Binding {
    pub id: u64,
    pub path: Vec<u8>,
}

/// The mathematical content of a sequence of bindings: the finite map from
/// each bound identifier to its path.
spec fn id_map(s: Seq<Binding>) -> Map<u64, Seq<u8>> {
    Map::new(
        |k: u64| exists|i: int| 0 <= i < s.len() && s[i].id == k,
        |k: u64| s[choose|i: int| 0 <= i < s.len() && s[i].id == k].path@,
    )
}

/// No two bindings share an identifier, and no two share a path.
spec fn distinct_bindings(s: Seq<Binding>) -> bool {
    forall|i: int, j: int|
        #![trigger s[i], s[j]]
        0 <= i < s.len() && 0 <= j < s.len() && i != j ==> s[i].id != s[j].id && s[i].path@
            != s[j].path@
}

/// Whether some identifier of `m` is bound to the path `p`.
pub open spec fn has_path(m: Map<u64, Seq<u8>>, p: Seq<u8>) -> bool {
    exists|k: u64| m.contains_key(k) && m[k] == p
}

/// The identifier of `m` bound to the path `p`, meaningful when `has_path`
/// holds of a bijective map.
pub open spec fn id_of(m: Map<u64, Seq<u8>>, p: Seq<u8>) -> u64 {
    choose|k: u64| m.contains_key(k) && m[k] == p
}

/// The bijective identifier-to-path mapping for directory entries.
pub struct IdentityTable {
    bindings: Vec<Binding>,
    next_id: u64,
}

impl View for IdentityTable {
    type V = Map<u64, Seq<u8>>;

    closed spec fn view(&self) -> Map<u64, Seq<u8>> {
        id_map(self.bindings@)
    }
}

impl IdentityTable {
    /// Well-formedness: the bindings form a bijection, and every identifier
    /// was allocated below the next free one, which starts past the root's.
    pub closed spec fn wf(&self) -> bool {
        &&& distinct_bindings(self.bindings@)
        &&& forall|i: int|
            0 <= i < self.bindings@.len() ==> 1 <= (#[trigger] self.bindings@[i]).id
                < self.next_id
        &&& 2 <= self.next_id
    }

    /// Whether a fresh identifier can still be allocated.
    pub closed spec fn can_allocate(&self) -> bool {
        self.next_id < u64::MAX
    }

    /// How many fresh identifiers can still be allocated.
    pub closed spec fn headroom(&self) -> int {
        u64::MAX - self.next_id
    }

    /// Reports how many fresh identifiers can still be allocated, so a caller
    /// can test it before an operation that interns one path per entry of a
    /// directory.
    pub fn remaining_capacity(&self) -> (r: u64)
        ensures
            r == self.headroom(),
    {
        u64::MAX - self.next_id
    }

    /// Reports whether a fresh identifier can still be allocated, so a caller
    /// can test it before an operation that may intern a new path.
    pub fn has_capacity(&self) -> (r: bool)
        ensures
            r == self.can_allocate(),
    {
        self.next_id < u64::MAX
    }

    /// A new table, holding only the root binding: identifier `1` bound to
    /// the empty relative path.
    pub fn new() -> (t: Self)
        ensures
            t.wf(),
            t.can_allocate(),
            t@ == Map::<u64, Seq<u8>>::empty().insert(ROOT_ID, Seq::<u8>::empty()),
    {
        let mut bindings: Vec<Binding> = Vec::new();
        bindings.push(Binding { id: ROOT_ID, path: Vec::new() });
        let t = IdentityTable { bindings, next_id: 2 };
        proof {
            let s = t.bindings@;
            assert(s[0].id == ROOT_ID && s[0].path@ =~= Seq::<u8>::empty());
            assert forall|k: u64| #[trigger]
                t@.contains_key(k) implies k == ROOT_ID && t@[k] == Seq::<u8>::empty() by {
                let i = choose|i: int| 0 <= i < s.len() && s[i].id == k;
            }
            assert(t@.contains_key(ROOT_ID)) by {
                assert(s[0].id == ROOT_ID);
            }
            assert(t@ =~= Map::<u64, Seq<u8>>::empty().insert(ROOT_ID, Seq::<u8>::empty()));
        }
        t
    }

    /// Looks up the binding index of an identifier.
    fn find_id(&self, id: u64) -> (r: Option<usize>)
        ensures
            match r {
                Some(i) => i < self.bindings@.len() && self.bindings@[i as int].id == id,
                None => forall|i: int|
                    0 <= i < self.bindings@.len() ==> (#[trigger] self.bindings@[i]).id != id,
            },
    {
        let mut i: usize = 0;
        while i < self.bindings.len()
            invariant
                i <= self.bindings@.len(),
                forall|j: int| 0 <= j < i ==> (#[trigger] self.bindings@[j]).id != id,
            decreases self.bindings@.len() - i,
        {
            if self.bindings[i].id == id {
                return Some(i);
            }
            i = i + 1;
        }
        None
    }

    /// Looks up the binding index of a path.
    fn find_path(&self, p: &Vec<u8>) -> (r: Option<usize>)
        ensures
            match r {
                Some(i) => i < self.bindings@.len() && self.bindings@[i as int].path@ == p@,
                None => forall|i: int|
                    0 <= i < self.bindings@.len() ==> (#[trigger] self.bindings@[i]).path@ != p@,
            },
    {
        let mut i: usize = 0;
        while i < self.bindings.len()
            invariant
                i <= self.bindings@.len(),
                forall|j: int| 0 <= j < i ==> (#[trigger] self.bindings@[j]).path@ != p@,
            decreases self.bindings@.len() - i,
        {
            if bytes_eq(&self.bindings[i].path, p) {
                return Some(i);
            }
            i = i + 1;
        }
        None
    }

    /// Pure lookup: the path an identifier is bound to, or nothing for an
    /// unknown identifier.
    pub fn resolve(&self, id: u64) -> (r: Option<Vec<u8>>)
        requires
            self.wf(),
        ensures
            match r {
                Some(p) => self@.contains_key(id) && p@ == self@[id],
                None => !self@.contains_key(id),
            },
    {
        match self.find_id(id) {
            Some(i) => {
                proof {
                    lemma_id_map_at(self.bindings@, i as int);
                }
                Some(copy_bytes(&self.bindings[i].path))
            },
            None => {
                proof {
                    lemma_id_map_absent(self.bindings@, id);
                }
                None
            },
        }
    }
}

impl IdentityTable {
    /// Returns the identifier bound to `path`, allocating a fresh one and
    /// inserting the binding when the path was not yet known. Idempotent:
    /// interning a known path changes nothing and hands back its identifier.
    pub fn intern(&mut self, path: &Vec<u8>) -> (id: u64)
        requires
            old(self).wf(),
            old(self).can_allocate(),
        ensures
            final(self).wf(),
            final(self)@.contains_key(id),
            final(self)@[id] == path@,
            1 <= id,
            has_path(old(self)@, path@) ==> final(self)@ == old(self)@,
            !has_path(old(self)@, path@) ==> !old(self)@.contains_key(id) && final(self)@ == old(
                self,
            )@.insert(id, path@),
            final(self).headroom() >= old(self).headroom() - 1,
    {
        match self.find_path(path) {
            Some(i) => {
                proof {
                    lemma_id_map_at(self.bindings@, i as int);
                }
                self.bindings[i].id
            },
            None => {
                proof {
                    lemma_id_map_no_path(self.bindings@, path@);
                }
                let id = self.next_id;
                self.next_id = self.next_id + 1;
                let b = Binding { id, path: copy_bytes(path) };
                proof {
                    lemma_id_map_absent(self.bindings@, id);
                    lemma_id_map_push(self.bindings@, b);
                }
                self.bindings.push(b);
                id
            },
        }
    }
}

/// Appending a binding with a fresh identifier and a fresh path inserts
/// exactly that pair into the map.
proof fn lemma_id_map_push(s: Seq<Binding>, b: Binding)
    requires
        distinct_bindings(s),
        forall|i: int| 0 <= i < s.len() ==> (#[trigger] s[i]).id != b.id && s[i].path@ != b.path@,
    ensures
        distinct_bindings(s.push(b)),
        id_map(s.push(b)) == id_map(s).insert(b.id, b.path@),
{
    let s2 = s.push(b);
    assert(forall|i: int| 0 <= i < s.len() ==> s2[i] == s[i]);
    assert(s2[s.len() as int] == b);
    assert forall|k: u64| #[trigger] id_map(s2).contains_key(k) implies id_map(s).insert(
        b.id,
        b.path@,
    ).contains_key(k) && id_map(s2)[k] == id_map(s).insert(b.id, b.path@)[k] by {
        let i = choose|i: int| 0 <= i < s2.len() && s2[i].id == k;
        if i < s.len() {
            lemma_id_map_at(s, i);
            lemma_id_map_at(s2, i);
        } else {
            assert(k == b.id);
            lemma_id_map_at(s2, s.len() as int);
        }
    }
    assert forall|k: u64| #[trigger] id_map(s).insert(b.id, b.path@).contains_key(
        k,
    ) implies id_map(s2).contains_key(k) by {
        if k == b.id {
            assert(s2[s.len() as int].id == k);
        } else {
            let i = choose|i: int| 0 <= i < s.len() && s[i].id == k;
            assert(s2[i].id == k);
        }
    }
    assert(id_map(s2) =~= id_map(s).insert(b.id, b.path@));
}

impl IdentityTable {
    /// Removes the binding of exactly the path `p`, in both directions, when
    /// one exists; a table without that path is left as it was.
    pub fn forget(&mut self, p: &Vec<u8>)
        requires
            old(self).wf(),
        ensures
            final(self).wf(),
            !has_path(final(self)@, p@),
            forall|k: u64| #[trigger]
                final(self)@.contains_key(k) <==> old(self)@.contains_key(k) && old(self)@[k] != p@,
            forall|k: u64| #[trigger]
                final(self)@.contains_key(k) ==> final(self)@[k] == old(self)@[k],
            final(self).can_allocate() == old(self).can_allocate(),
    {
        match self.find_path(p) {
            Some(i) => {
                proof {
                    lemma_id_map_at(self.bindings@, i as int);
                    lemma_id_map_remove(self.bindings@, i as int);
                    lemma_id_map_no_path(self.bindings@.remove(i as int), p@);
                }
                self.bindings.remove(i);
            },
            None => {
                proof {
                    lemma_id_map_no_path(self.bindings@, p@);
                }
            },
        }
    }

    /// Moves the binding of `old_path`, when one exists, to `new_path` in a
    /// single step: its identifier is then bound to `new_path`, `old_path` is
    /// no longer bound, and an identifier previously bound to `new_path` is
    /// dropped, as a host rename overwrites its target. Returns whether a
    /// binding moved; without one the table is left as it was.
    pub fn rename(&mut self, old_path: &Vec<u8>, new_path: &Vec<u8>) -> (moved: bool)
        requires
            old(self).wf(),
        ensures
            final(self).wf(),
            moved == has_path(old(self)@, old_path@),
            !moved ==> final(self)@ == old(self)@,
            moved ==> {
                let id = id_of(old(self)@, old_path@);
                &&& final(self)@.contains_key(id)
                &&& final(self)@[id] == new_path@
                &&& forall|k: u64|
                    k != id ==> (#[trigger] final(self)@.contains_key(k) <==> old(
                        self,
                    )@.contains_key(k) && old(self)@[k] != new_path@)
                &&& forall|k: u64|
                    k != id && #[trigger] final(self)@.contains_key(k) ==> final(self)@[k] == old(
                        self,
                    )@[k]
                &&& old_path@ != new_path@ ==> !has_path(final(self)@, old_path@)
            },
            final(self).can_allocate() == old(self).can_allocate(),
    {
        let ghost pre = *self;
        match self.find_path(old_path) {
            None => {
                proof {
                    lemma_id_map_no_path(self.bindings@, old_path@);
                }
                false
            },
            Some(i) => {
                let id = self.bindings[i].id;
                proof {
                    lemma_id_map_at(self.bindings@, i as int);
                    if has_path(pre@, old_path@) {
                        lemma_key_for_path(self.bindings@, i as int, id_of(pre@, old_path@));
                    }
                    assert(id_of(pre@, old_path@) == id);
                }
                if !bytes_eq(old_path, new_path) {
                    self.forget(new_path);
                }
                self.rebind(id, new_path);
                proof {
                    if old_path@ != new_path@ {
                        assert forall|k: u64| #[trigger]
                            final(self)@.contains_key(k) implies final(self)@[k] != old_path@ by {
                            if k != id && final(self)@[k] == old_path@ {
                                assert(pre@.contains_key(k) && pre@[k] == old_path@);
                                lemma_key_for_path(pre.bindings@, i as int, k);
                            }
                        }
                    }
                }
                true
            },
        }
    }

    /// Binds the known identifier `id` to the path `p`, which no other
    /// identifier is bound to.
    fn rebind(&mut self, id: u64, p: &Vec<u8>)
        requires
            old(self).wf(),
            old(self)@.contains_key(id),
            forall|k: u64|
                #[trigger] old(self)@.contains_key(k) && old(self)@[k] == p@ ==> k == id,
        ensures
            final(self).wf(),
            final(self)@ == old(self)@.insert(id, p@),
            final(self).can_allocate() == old(self).can_allocate(),
    {
        let r = self.find_id(id);
        proof {
            if r is None {
                lemma_id_map_absent(self.bindings@, id);
            }
        }
        let i = r.unwrap();
        let b = Binding { id, path: copy_bytes(p) };
        proof {
            assert forall|j: int|
                0 <= j < self.bindings@.len() && j != i as int implies self.bindings@[j].path@
                != p@ by {
                if self.bindings@[j].path@ == p@ {
                    lemma_id_map_at(self.bindings@, j);
                    assert(self.bindings@[j].id == id);
                    assert(self.bindings@[i as int].id == id);
                }
            }
            lemma_id_map_update(self.bindings@, i as int, b);
        }
        self.bindings.set(i, b);
    }
}

/// A table with headroom for an allocation can allocate.
pub proof fn lemma_headroom_allocatable(t: &IdentityTable)
    requires
        t.headroom() >= 1,
    ensures
        t.can_allocate(),
{
}

/// Bijection: no two distinct identifiers of a well-formed table resolve to
/// the same path, so the identifier bound to the path an identifier resolves
/// to is that identifier itself.
pub proof fn lemma_bijection(t: &IdentityTable, k1: u64, k2: u64)
    requires
        t.wf(),
        t@.contains_key(k1),
        t@.contains_key(k2),
        t@[k1] == t@[k2],
    ensures
        k1 == k2,
        id_of(t@, t@[k1]) == k1,
{
    let s = t.bindings_ghost();
    let i1 = choose|i: int| 0 <= i < s.len() && s[i].id == k1;
    let i2 = choose|i: int| 0 <= i < s.len() && s[i].id == k2;
    assert(t@[k1] == s[i1].path@ && t@[k2] == s[i2].path@);
    assert(i1 == i2);
    let kc = id_of(t@, t@[k1]);
    assert(t@.contains_key(k1) && t@[k1] == t@[k1]);
    assert(t@.contains_key(kc) && t@[kc] == t@[k1]);
    lemma_key_for_path(s, i1, kc);
}

/// Identity stability: once a path is bound, any later interning of it that
/// leaves the table unchanged hands back the identifier it was bound to, and
/// that identifier still resolves to the path.
pub proof fn lemma_identity_stability(
    pre: &IdentityTable,
    post: &IdentityTable,
    p: Seq<u8>,
    id1: u64,
    id2: u64,
)
    requires
        pre.wf(),
        post.wf(),
        post@ == pre@,
        pre@.contains_key(id1),
        pre@[id1] == p,
        post@.contains_key(id2),
        post@[id2] == p,
    ensures
        id2 == id1,
        post@[id1] == p,
{
    lemma_bijection(pre, id1, id2);
}

impl IdentityTable {
    /// The bindings as ghost state, for the proofs in this module.
    closed spec fn bindings_ghost(&self) -> Seq<Binding> {
        self.bindings@
    }
}

/// Removing the binding at index `i` removes exactly its identifier from the
/// map.
proof fn lemma_id_map_remove(s: Seq<Binding>, i: int)
    requires
        distinct_bindings(s),
        0 <= i < s.len(),
    ensures
        distinct_bindings(s.remove(i)),
        id_map(s.remove(i)) == id_map(s).remove(s[i].id),
        forall|j: int| 0 <= j < s.len() && j != i ==> (#[trigger] s[j]).path@ != s[i].path@,
{
    let s2 = s.remove(i);
    s.remove_ensures(i);
    assert forall|a: int, b: int|
        #![trigger s2[a], s2[b]]
        0 <= a < s2.len() && 0 <= b < s2.len() && a != b implies s2[a].id != s2[b].id && s2[a].path@
        != s2[b].path@ by {
        let a0 = if a < i {
            a
        } else {
            a + 1
        };
        let b0 = if b < i {
            b
        } else {
            b + 1
        };
        assert(s2[a] == s[a0] && s2[b] == s[b0]);
    }
    assert forall|k: u64| #[trigger] id_map(s2).contains_key(k) implies id_map(s).remove(
        s[i].id,
    ).contains_key(k) && id_map(s2)[k] == id_map(s).remove(s[i].id)[k] by {
        let j = choose|j: int| 0 <= j < s2.len() && s2[j].id == k;
        let j0 = if j < i {
            j
        } else {
            j + 1
        };
        assert(s2[j] == s[j0]);
        lemma_id_map_at(s, j0);
        lemma_id_map_at(s2, j);
    }
    assert forall|k: u64| #[trigger]
        id_map(s).remove(s[i].id).contains_key(k) implies id_map(s2).contains_key(k) by {
        let j0 = choose|j0: int| 0 <= j0 < s.len() && s[j0].id == k;
        assert(j0 != i);
        let j = if j0 < i {
            j0
        } else {
            j0 - 1
        };
        assert(s2[j] == s[j0]);
    }
    assert(id_map(s2) =~= id_map(s).remove(s[i].id));
}

/// Re-pointing the binding at index `i` at a path no other binding carries
/// updates exactly its identifier's image in the map.
proof fn lemma_id_map_update(s: Seq<Binding>, i: int, b: Binding)
    requires
        distinct_bindings(s),
        0 <= i < s.len(),
        b.id == s[i].id,
        forall|j: int| 0 <= j < s.len() && j != i ==> (#[trigger] s[j]).path@ != b.path@,
    ensures
        distinct_bindings(s.update(i, b)),
        id_map(s.update(i, b)) == id_map(s).insert(b.id, b.path@),
{
    let s2 = s.update(i, b);
    assert forall|k: u64| #[trigger] id_map(s2).contains_key(k) implies id_map(s).insert(
        b.id,
        b.path@,
    ).contains_key(k) && id_map(s2)[k] == id_map(s).insert(b.id, b.path@)[k] by {
        let j = choose|j: int| 0 <= j < s2.len() && s2[j].id == k;
        assert(s2[j].id == s[j].id);
        lemma_id_map_at(s, j);
        lemma_id_map_at(s2, j);
    }
    assert forall|k: u64| #[trigger] id_map(s).insert(b.id, b.path@).contains_key(
        k,
    ) implies id_map(s2).contains_key(k) by {
        if k == b.id {
            assert(s2[i].id == k);
        } else {
            let j = choose|j: int| 0 <= j < s.len() && s[j].id == k;
            assert(s2[j].id == k);
        }
    }
    assert(id_map(s2) =~= id_map(s).insert(b.id, b.path@));
}

/// The binding at index `i` is what the map binds its identifier to.
proof fn lemma_id_map_at(s: Seq<Binding>, i: int)
    requires
        distinct_bindings(s),
        0 <= i < s.len(),
    ensures
        id_map(s).contains_key(s[i].id),
        id_map(s)[s[i].id] == s[i].path@,
{
    let k = s[i].id;
    assert(0 <= i < s.len() && s[i].id == k);
    let j = choose|j: int| 0 <= j < s.len() && s[j].id == k;
    assert(j == i);
}

/// An identifier carried by no binding is absent from the map.
proof fn lemma_id_map_absent(s: Seq<Binding>, k: u64)
    requires
        forall|i: int| 0 <= i < s.len() ==> (#[trigger] s[i]).id != k,
    ensures
        !id_map(s).contains_key(k),
{
}

/// A path carried by no binding is bound to no identifier of the map.
proof fn lemma_id_map_no_path(s: Seq<Binding>, p: Seq<u8>)
    requires
        forall|i: int| 0 <= i < s.len() ==> (#[trigger] s[i]).path@ != p,
    ensures
        !has_path(id_map(s), p),
{
    if has_path(id_map(s), p) {
        let k = choose|k: u64| id_map(s).contains_key(k) && id_map(s)[k] == p;
        let i = choose|i: int| 0 <= i < s.len() && s[i].id == k;
        assert(s[i].path@ != p);
    }
}

/// Any identifier the map binds to the path of binding `i` is that binding's
/// own identifier.
proof fn lemma_key_for_path(s: Seq<Binding>, i: int, k: u64)
    requires
        distinct_bindings(s),
        0 <= i < s.len(),
        id_map(s).contains_key(k),
        id_map(s)[k] == s[i].path@,
    ensures
        k == s[i].id,
{
    let j = choose|j: int| 0 <= j < s.len() && s[j].id == k;
    assert(id_map(s)[k] == s[j].path@);
    assert(j == i);
}

} // verus!
