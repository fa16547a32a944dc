use passthrough_fs::HandleTable;

#[test]
fn open_yields_distinct_handles_for_one_path() {
    // Two opens of the same underlying resource: independent handles.
    let mut t: HandleTable<Vec<u8>> = HandleTable::new();
    let h1 = t.open(b"resource one".to_vec());
    let h2 = t.open(b"resource one".to_vec());
    assert_ne!(h1, h2);
}

#[test]
fn each_handle_keeps_its_own_resource() {
    let mut t: HandleTable<Vec<u8>> = HandleTable::new();
    let h1 = t.open(b"first".to_vec());
    let h2 = t.open(b"second".to_vec());
    let r1 = t.take(h1).expect("open handle must be bound");
    assert_eq!(r1, b"first".to_vec());
    t.restore(h1, r1);
    let r2 = t.take(h2).expect("open handle must be bound");
    assert_eq!(r2, b"second".to_vec());
    t.restore(h2, r2);
}

#[test]
fn writing_through_one_handle_leaves_the_other_alone() {
    // The two resources of one path do not interfere: mutating what one
    // handle is bound to leaves the other handle's resource as it was.
    let mut t: HandleTable<Vec<u8>> = HandleTable::new();
    let h1 = t.open(b"cursor".to_vec());
    let h2 = t.open(b"cursor".to_vec());
    let mut r1 = t.take(h1).expect("open handle must be bound");
    r1.extend_from_slice(b" moved");
    t.restore(h1, r1);
    assert_eq!(t.take(h2), Some(b"cursor".to_vec()));
}

#[test]
fn close_invalidates_the_handle() {
    let mut t: HandleTable<Vec<u8>> = HandleTable::new();
    let h = t.open(b"data".to_vec());
    assert!(t.close(h));
    assert_eq!(t.take(h), None);
    assert!(!t.close(h), "a closed handle is unknown");
}

#[test]
fn take_of_unknown_handle_is_nothing() {
    let mut t: HandleTable<Vec<u8>> = HandleTable::new();
    assert_eq!(t.take(1), None);
    assert_eq!(t.take(0), None);
    let h = t.open(b"x".to_vec());
    assert_eq!(t.take(h + 1), None);
}

#[test]
fn restore_rebinds_a_taken_handle() {
    let mut t: HandleTable<Vec<u8>> = HandleTable::new();
    let h = t.open(b"before".to_vec());
    let r = t.take(h).expect("open handle must be bound");
    assert!(t.can_restore(h));
    t.restore(h, r);
    assert!(!t.can_restore(h), "a bound handle cannot be bound again");
    assert_eq!(t.take(h), Some(b"before".to_vec()));
}

#[test]
fn handles_are_not_reused_after_close() {
    let mut t: HandleTable<Vec<u8>> = HandleTable::new();
    let h1 = t.open(b"one".to_vec());
    assert!(t.close(h1));
    let h2 = t.open(b"two".to_vec());
    assert_ne!(h1, h2);
}
