use passthrough_fs::IdentityTable;
use passthrough_fs::ROOT_ID;

fn bytes(s: &str) -> Vec<u8> {
    s.as_bytes().to_vec()
}

#[test]
fn root_resolves_to_empty_path() {
    let t = IdentityTable::new();
    assert_eq!(t.resolve(ROOT_ID), Some(Vec::new()));
}

#[test]
fn unknown_id_resolves_to_nothing() {
    let t = IdentityTable::new();
    assert_eq!(t.resolve(2), None);
    assert_eq!(t.resolve(0), None);
    assert_eq!(t.resolve(u64::MAX), None);
}

#[test]
fn intern_is_stable_across_repeated_calls() {
    let mut t = IdentityTable::new();
    let p = bytes("a.txt");
    let id1 = t.intern(&p);
    let id2 = t.intern(&p);
    let id3 = t.intern(&p);
    assert_eq!(id1, id2);
    assert_eq!(id1, id3);
}

#[test]
fn resolve_of_intern_returns_the_path() {
    let mut t = IdentityTable::new();
    let p = bytes("dir/a.txt");
    let id = t.intern(&p);
    assert_eq!(t.resolve(id), Some(p));
}

#[test]
fn distinct_paths_get_distinct_ids() {
    let mut t = IdentityTable::new();
    let a = t.intern(&bytes("a"));
    let b = t.intern(&bytes("b"));
    let c = t.intern(&bytes("a/b"));
    assert_ne!(a, b);
    assert_ne!(a, c);
    assert_ne!(b, c);
    assert_ne!(a, ROOT_ID);
    assert_ne!(b, ROOT_ID);
    assert_ne!(c, ROOT_ID);
}

#[test]
fn intern_of_resolved_path_returns_the_id() {
    let mut t = IdentityTable::new();
    let id = t.intern(&bytes("x/y"));
    let p = t.resolve(id).expect("freshly interned path must resolve");
    assert_eq!(t.intern(&p), id);
    let root_path = t.resolve(ROOT_ID).expect("root must resolve");
    assert_eq!(t.intern(&root_path), ROOT_ID);
}

#[test]
fn rename_moves_the_binding_atomically() {
    let mut t = IdentityTable::new();
    let id = t.intern(&bytes("a.txt"));
    let moved = t.rename(&bytes("a.txt"), &bytes("b.txt"));
    assert!(moved);
    // The id now finds the new path, and only the new path is bound.
    assert_eq!(t.resolve(id), Some(bytes("b.txt")));
    assert_eq!(t.intern(&bytes("b.txt")), id);
    let readded = t.intern(&bytes("a.txt"));
    assert_ne!(readded, id, "the old path must no longer be bound to the id");
}

#[test]
fn rename_of_unknown_path_changes_nothing() {
    let mut t = IdentityTable::new();
    let id = t.intern(&bytes("kept.txt"));
    let moved = t.rename(&bytes("missing.txt"), &bytes("other.txt"));
    assert!(!moved);
    assert_eq!(t.resolve(id), Some(bytes("kept.txt")));
}

#[test]
fn rename_onto_existing_path_drops_the_overwritten_id() {
    let mut t = IdentityTable::new();
    let a = t.intern(&bytes("a.txt"));
    let b = t.intern(&bytes("b.txt"));
    let moved = t.rename(&bytes("a.txt"), &bytes("b.txt"));
    assert!(moved);
    assert_eq!(t.resolve(a), Some(bytes("b.txt")));
    assert_eq!(t.resolve(b), None, "the overwritten target's id is dropped");
}

#[test]
fn forget_removes_only_the_exact_path() {
    let mut t = IdentityTable::new();
    let a = t.intern(&bytes("d/a"));
    let b = t.intern(&bytes("d/b"));
    t.forget(&bytes("d/a"));
    assert_eq!(t.resolve(a), None);
    assert_eq!(t.resolve(b), Some(bytes("d/b")));
    // Forgetting an unknown path is harmless.
    t.forget(&bytes("d/a"));
    assert_eq!(t.resolve(b), Some(bytes("d/b")));
}

#[test]
fn forgotten_path_gets_a_fresh_id_when_seen_again() {
    let mut t = IdentityTable::new();
    let id = t.intern(&bytes("gone.txt"));
    t.forget(&bytes("gone.txt"));
    let id2 = t.intern(&bytes("gone.txt"));
    assert_ne!(id, id2, "identifiers are never reused within a session");
}

#[test]
fn table_has_capacity_for_many_paths() {
    let mut t = IdentityTable::new();
    assert!(t.has_capacity());
    assert!(t.remaining_capacity() > 1_000_000);
    let mut ids = Vec::new();
    for i in 0..100u32 {
        let p = bytes(&format!("f{}", i));
        ids.push(t.intern(&p));
    }
    for i in 0..100usize {
        for j in (i + 1)..100usize {
            assert_ne!(ids[i], ids[j]);
        }
    }
}
