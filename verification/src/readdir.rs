//! Directory listing: the synthetic `.` and `..` entries prepended to the
//! children in host enumeration order, each child interned into the Identity
//! Table as it is produced, and the combined sequence streamed from a caller
//! offset with 1-based positions.

use vstd::prelude::*;

use crate::attrs::FileKind;
use crate::identity::{lemma_headroom_allocatable, IdentityTable};
use crate::path::{copy_bytes, join, join_spec};

verus! {

/// One child as the host enumerates it: its name and its classified kind.
pub struct RawEntry {
    pub name: Vec<u8>,
    pub kind: FileKind,
}

/// One entry of the combined `.` + `..` + children listing.
pub struct ListingEntry {
    pub ino: u64,
    pub kind: FileKind,
    pub name: Vec<u8>,
}

/// One entry of a streamed page: a listing entry with its 1-based position
/// in the combined sequence.
pub struct PageEntry {
    pub ino: u64,
    pub kind: FileKind,
    pub pos: u64,
    pub name: Vec<u8>,
}

/// The name `.`.
pub open spec fn dot_name() -> Seq<u8> {
    seq![46u8]
}

/// The name `..`.
pub open spec fn dot_dot_name() -> Seq<u8> {
    seq![46u8, 46u8]
}

/// Builds the combined listing of the directory `dir_ino` at `dir_path`:
/// synthetic `.` and `..` entries for the directory itself, then the children
/// in the given order, each child's path interned into the table as it is
/// produced. Bindings the table already held are untouched.
pub fn prepare_listing(
    t: &mut IdentityTable,
    dir_ino: u64,
    dir_path: &Vec<u8>,
    children: &Vec<RawEntry>,
) -> (r: Vec<ListingEntry>)
    requires
        old(t).wf(),
        children@.len() <= old(t).headroom(),
    ensures
        final(t).wf(),
        forall|k: u64| #[trigger]
            old(t)@.contains_key(k) ==> final(t)@.contains_key(k) && final(t)@[k] == old(t)@[k],
        r@.len() == children@.len() + 2,
        r@[0].ino == dir_ino && r@[0].kind == FileKind::Directory && r@[0].name@ == dot_name(),
        r@[1].ino == dir_ino && r@[1].kind == FileKind::Directory && r@[1].name@ == dot_dot_name(),
        forall|i: int|
            2 <= i < r@.len() ==> {
                &&& (#[trigger] r@[i]).name@ == children@[i - 2].name@
                &&& r@[i].kind == children@[i - 2].kind
                &&& final(t)@.contains_key(r@[i].ino)
                &&& final(t)@[r@[i].ino] == join_spec(dir_path@, children@[i - 2].name@)
            },
{
    let mut dot: Vec<u8> = Vec::new();
    dot.push(46);
    let mut dot_dot: Vec<u8> = Vec::new();
    dot_dot.push(46);
    dot_dot.push(46);
    let mut r: Vec<ListingEntry> = Vec::new();
    r.push(ListingEntry { ino: dir_ino, kind: FileKind::Directory, name: dot });
    r.push(ListingEntry { ino: dir_ino, kind: FileKind::Directory, name: dot_dot });
    assert(r@[0].name@ =~= dot_name());
    assert(r@[1].name@ =~= dot_dot_name());
    let mut i: usize = 0;
    while i < children.len()
        invariant
            t.wf(),
            i <= children@.len(),
            children@.len() - i <= t.headroom(),
            forall|k: u64| #[trigger]
                old(t)@.contains_key(k) ==> t@.contains_key(k) && t@[k] == old(t)@[k],
            r@.len() == i + 2,
            r@[0].ino == dir_ino && r@[0].kind == FileKind::Directory && r@[0].name@ == dot_name(),
            r@[1].ino == dir_ino && r@[1].kind == FileKind::Directory && r@[1].name@
                == dot_dot_name(),
            forall|j: int|
                2 <= j < r@.len() ==> {
                    &&& (#[trigger] r@[j]).name@ == children@[j - 2].name@
                    &&& r@[j].kind == children@[j - 2].kind
                    &&& t@.contains_key(r@[j].ino)
                    &&& t@[r@[j].ino] == join_spec(dir_path@, children@[j - 2].name@)
                },
        decreases children@.len() - i,
    {
        let child_path = join(dir_path, &children[i].name);
        proof {
            lemma_headroom_allocatable(t);
        }
        let ghost t_before = *t;
        let ino = t.intern(&child_path);
        proof {
            assert forall|j: int| 2 <= j < r@.len() implies t@.contains_key((#[trigger] r@[j]).ino)
                && t@[r@[j].ino] == join_spec(dir_path@, children@[j - 2].name@) by {
                assert(t_before@.contains_key(r@[j].ino));
            }
        }
        r.push(
            ListingEntry { ino, kind: children[i].kind, name: copy_bytes(&children[i].name) },
        );
        i = i + 1;
    }
    r
}

/// The page of the combined listing `full` that a request at `offset` is
/// answered with: the entries from index `offset` on, each with its 1-based
/// position in `full`.
pub open spec fn page_spec(full: Seq<ListingEntry>, offset: int) -> Seq<
    (u64, FileKind, int, Seq<u8>),
>
    recommends
        0 <= offset <= full.len(),
{
    Seq::new(
        (full.len() - offset) as nat,
        |i: int| (full[offset + i].ino, full[offset + i].kind, offset + i + 1, full[offset + i].name@),
    )
}

/// The mathematical content of a built page.
pub open spec fn page_view(s: Seq<PageEntry>) -> Seq<(u64, FileKind, int, Seq<u8>)> {
    Seq::new(s.len(), |i: int| (s[i].ino, s[i].kind, s[i].pos as int, s[i].name@))
}

/// Streams the combined listing from `offset`: every entry from that index
/// on, each carrying its 1-based position, and nothing for an offset past
/// the end.
pub fn page_listing(full: &Vec<ListingEntry>, offset: usize) -> (r: Vec<PageEntry>)
    ensures
        offset <= full@.len() ==> page_view(r@) == page_spec(full@, offset as int),
        offset > full@.len() ==> r@.len() == 0,
{
    let mut r: Vec<PageEntry> = Vec::new();
    let mut i: usize = offset;
    while i < full.len()
        invariant
            offset <= i,
            i <= full@.len() || i == offset,
            r@.len() == i - offset,
            forall|j: int|
                0 <= j < r@.len() ==> {
                    &&& (#[trigger] r@[j]).ino == full@[offset + j].ino
                    &&& r@[j].kind == full@[offset + j].kind
                    &&& r@[j].pos == offset + j + 1
                    &&& r@[j].name@ == full@[offset + j].name@
                },
        decreases full@.len() - i,
    {
        let entry = &full[i];
        r.push(
            PageEntry {
                ino: entry.ino,
                kind: entry.kind,
                pos: (i as u64) + 1,
                name: copy_bytes(&entry.name),
            },
        );
        i = i + 1;
    }
    if offset <= full.len() {
        assert(page_view(r@) =~= page_spec(full@, offset as int));
    }
    r
}

/// Paginated listing coverage: the positions of a page strictly increase, so
/// a page holds no entry twice; and after consuming the first `consumed`
/// entries of the page at `offset`, the page at the position they end at
/// supplies exactly the rest — successive calls covering the full offset
/// range return every entry of the listing once, with no omission.
pub proof fn lemma_page_continuation(full: Seq<ListingEntry>, offset: int, consumed: int)
    requires
        0 <= offset,
        0 <= consumed,
        offset + consumed <= full.len(),
    ensures
        page_spec(full, offset).take(consumed) + page_spec(full, offset + consumed) == page_spec(
            full,
            offset,
        ),
        forall|i: int, j: int|
            0 <= i < j < page_spec(full, offset).len() ==> (#[trigger] page_spec(full, offset)[i]).2
                < (#[trigger] page_spec(full, offset)[j]).2,
{
    assert(page_spec(full, offset).take(consumed) + page_spec(full, offset + consumed) =~= page_spec(
        full,
        offset,
    ));
}

} // verus!
