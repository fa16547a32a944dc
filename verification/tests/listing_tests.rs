use passthrough_fs::readdir::page_listing;
use passthrough_fs::readdir::prepare_listing;
use passthrough_fs::readdir::RawEntry;
use passthrough_fs::FileKind;
use passthrough_fs::IdentityTable;
use passthrough_fs::ROOT_ID;

fn bytes(s: &str) -> Vec<u8> {
    s.as_bytes().to_vec()
}

fn raw(name: &str, kind: FileKind) -> RawEntry {
    RawEntry { name: bytes(name), kind }
}

#[test]
fn listing_prepends_dot_and_dot_dot() {
    let mut t = IdentityTable::new();
    let children = vec![raw("x", FileKind::RegularFile), raw("y", FileKind::Directory)];
    let full = prepare_listing(&mut t, ROOT_ID, &Vec::new(), &children);
    assert_eq!(full.len(), 4);
    assert_eq!(full[0].name, bytes("."));
    assert_eq!(full[0].ino, ROOT_ID);
    assert_eq!(full[0].kind, FileKind::Directory);
    assert_eq!(full[1].name, bytes(".."));
    assert_eq!(full[1].ino, ROOT_ID);
    assert_eq!(full[1].kind, FileKind::Directory);
    assert_eq!(full[2].name, bytes("x"));
    assert_eq!(full[2].kind, FileKind::RegularFile);
    assert_eq!(full[3].name, bytes("y"));
    assert_eq!(full[3].kind, FileKind::Directory);
}

#[test]
fn listing_interns_each_child() {
    let mut t = IdentityTable::new();
    let children = vec![raw("x", FileKind::RegularFile), raw("y", FileKind::Directory)];
    let dir_path = bytes("sub");
    let dir_ino = t.intern(&dir_path);
    let full = prepare_listing(&mut t, dir_ino, &dir_path, &children);
    assert_eq!(t.resolve(full[2].ino), Some(bytes("sub/x")));
    assert_eq!(t.resolve(full[3].ino), Some(bytes("sub/y")));
    // Listing again hands out the same identifiers.
    let again = prepare_listing(&mut t, dir_ino, &dir_path, &children);
    assert_eq!(full[2].ino, again[2].ino);
    assert_eq!(full[3].ino, again[3].ino);
}

#[test]
fn paginated_listing_covers_everything_once() {
    // Successive paginated calls over the full offset range: `.`, `..`, `x`,
    // `y`, each exactly once, whatever the page boundaries.
    let mut t = IdentityTable::new();
    let children = vec![raw("x", FileKind::RegularFile), raw("y", FileKind::RegularFile)];
    let full = prepare_listing(&mut t, ROOT_ID, &Vec::new(), &children);
    for first_page_len in 0..=4usize {
        let mut seen: Vec<(u64, Vec<u8>)> = Vec::new();
        let mut offset = 0usize;
        loop {
            let page = page_listing(&full, offset);
            if page.is_empty() {
                break;
            }
            // The consumer takes a bounded number of entries, then asks again
            // from the last position it saw.
            let consumed = if offset == 0 && first_page_len > 0 {
                first_page_len.min(page.len())
            } else {
                page.len()
            };
            for entry in page.iter().take(consumed) {
                assert_eq!(entry.pos as usize, seen.len() + 1);
                seen.push((entry.ino, entry.name.clone()));
                offset = entry.pos as usize;
            }
        }
        let names: Vec<Vec<u8>> = seen.iter().map(|e| e.1.clone()).collect();
        assert_eq!(
            names,
            vec![bytes("."), bytes(".."), bytes("x"), bytes("y")],
            "pages starting with {} entries must cover the listing in order",
            first_page_len
        );
    }
}

#[test]
fn page_positions_are_one_based_and_increasing() {
    let mut t = IdentityTable::new();
    let children = vec![raw("a", FileKind::RegularFile), raw("b", FileKind::RegularFile)];
    let full = prepare_listing(&mut t, ROOT_ID, &Vec::new(), &children);
    let page = page_listing(&full, 0);
    let positions: Vec<u64> = page.iter().map(|e| e.pos).collect();
    assert_eq!(positions, vec![1, 2, 3, 4]);
    let tail = page_listing(&full, 2);
    let tail_positions: Vec<u64> = tail.iter().map(|e| e.pos).collect();
    assert_eq!(tail_positions, vec![3, 4]);
    assert_eq!(tail[0].name, bytes("a"));
    assert_eq!(tail[1].name, bytes("b"));
}

#[test]
fn page_past_the_end_is_empty() {
    let mut t = IdentityTable::new();
    let children = vec![raw("only", FileKind::RegularFile)];
    let full = prepare_listing(&mut t, ROOT_ID, &Vec::new(), &children);
    assert_eq!(full.len(), 3);
    assert!(page_listing(&full, 3).is_empty());
    assert!(page_listing(&full, 100).is_empty());
}

#[test]
fn listing_after_rename_shows_the_new_name_only() {
    // The parent's children after renaming a.txt to b.txt: b.txt and not
    // a.txt, and the listing binds b.txt to its moved identifier.
    let mut t = IdentityTable::new();
    let a_id = t.intern(&bytes("a.txt"));
    let moved = t.rename(&bytes("a.txt"), &bytes("b.txt"));
    assert!(moved);
    // The host now enumerates only b.txt.
    let children = vec![raw("b.txt", FileKind::RegularFile)];
    let full = prepare_listing(&mut t, ROOT_ID, &Vec::new(), &children);
    let names: Vec<Vec<u8>> = full.iter().skip(2).map(|e| e.name.clone()).collect();
    assert!(names.contains(&bytes("b.txt")));
    assert!(!names.contains(&bytes("a.txt")));
    assert_eq!(full[2].ino, a_id, "the renamed entry keeps its identifier");
    assert_eq!(t.resolve(a_id), Some(bytes("b.txt")));
}
