//! Relative paths under the mirrored root, kept as byte strings and combined
//! with simple join semantics: the root is the empty path, and a child of a
//! non-empty parent is `parent`, a slash, then the child's name.

use vstd::prelude::*;

verus! {

/// The path separator byte, `'/'`.
pub const SEPARATOR: u8 = 47;

/// What joining `name` onto the directory path `parent` yields: `name` itself
/// under the root, otherwise the parent, a separator, and the name.
pub open spec fn join_spec(parent: Seq<u8>, name: Seq<u8>) -> Seq<u8> {
    if parent.len() == 0 {
        name
    } else {
        parent + seq![SEPARATOR] + name
    }
}

/// Builds the relative path of the entry called `name` inside the directory
/// at the relative path `parent`.
pub fn join(parent: &Vec<u8>, name: &Vec<u8>) -> (r: Vec<u8>)
    ensures
        r@ == join_spec(parent@, name@),
{
    let mut r: Vec<u8> = Vec::new();
    if parent.len() == 0 {
        append_bytes(&mut r, name);
        assert(r@ =~= join_spec(parent@, name@));
        r
    } else {
        append_bytes(&mut r, parent);
        r.push(SEPARATOR);
        append_bytes(&mut r, name);
        assert(r@ =~= join_spec(parent@, name@));
        r
    }
}

/// Appends every byte of `src` to `dst`, in order.
pub fn append_bytes(dst: &mut Vec<u8>, src: &Vec<u8>)
    ensures
        final(dst)@ == old(dst)@ + src@,
{
    let mut i: usize = 0;
    while i < src.len()
        invariant
            i <= src.len(),
            dst@ == old(dst)@ + src@.subrange(0, i as int),
        decreases src.len() - i,
    {
        dst.push(src[i]);
        i = i + 1;
        assert(dst@ =~= old(dst)@ + src@.subrange(0, i as int));
    }
    assert(dst@ =~= old(dst)@ + src@);
}

/// Copies a byte string.
pub fn copy_bytes(src: &Vec<u8>) -> (r: Vec<u8>)
    ensures
        r@ == src@,
{
    let mut r: Vec<u8> = Vec::new();
    append_bytes(&mut r, src);
    assert(r@ =~= src@);
    r
}

/// Compares two byte strings for equality.
pub fn bytes_eq(a: &Vec<u8>, b: &Vec<u8>) -> (r: bool)
    ensures
        r == (a@ == b@),
{
    if a.len() != b.len() {
        assert(a@ != b@) by {
            assert(a@.len() != b@.len());
        }
        return false;
    }
    let mut i: usize = 0;
    while i < a.len()
        invariant
            i <= a.len(),
            a@.len() == b@.len(),
            forall|j: int| 0 <= j < i ==> a@[j] == b@[j],
        decreases a.len() - i,
    {
        if a[i] != b[i] {
            return false;
        }
        i = i + 1;
    }
    assert(a@ =~= b@);
    true
}

} // verus!
