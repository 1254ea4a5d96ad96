use merge_tool::index::DirectoryIndex;
use merge_tool::index::FileEntry;
use merge_tool::index::build_index;

fn entry(path: &str, bytes: &[u8]) -> FileEntry {
    FileEntry { path: String::from(path), bytes: bytes.to_vec() }
}

#[test]
fn digest_is_the_sha256_hex_of_the_bytes() {
    let idx = build_index(&vec![entry("a/x.txt", b"hello")]);
    assert_eq!(idx.entries.len(), 1);
    assert_eq!(
        idx.entries[0].digest,
        "2cf24dba5fb0a30e26e83b2ac5b9e29e1b161e5c1fa7425e73043362938b9824"
    );
    assert_eq!(idx.entries[0].path, "a/x.txt");
}

#[test]
fn equal_contents_collide_and_the_last_path_wins() {
    let idx = build_index(&vec![entry("a/x.txt", b"hello"), entry("a/y.txt", b"hello")]);
    assert_eq!(idx.entries.len(), 1);
    assert_eq!(idx.entries[0].path, "a/y.txt");
}

#[test]
fn distinct_contents_get_distinct_entries() {
    let idx = build_index(&vec![entry("a/x.txt", b"hello"), entry("a/y.txt", b"world")]);
    assert_eq!(idx.entries.len(), 2);
    assert_ne!(idx.entries[0].digest, idx.entries[1].digest);
}

#[test]
fn insert_overwrites_an_existing_digest() {
    let mut idx = DirectoryIndex::new();
    idx.insert(String::from("d1"), String::from("p1"));
    idx.insert(String::from("d2"), String::from("p2"));
    idx.insert(String::from("d1"), String::from("p3"));
    assert_eq!(idx.entries.len(), 2);
    assert!(idx.contains_digest(&String::from("d1")));
    assert!(idx.contains_digest(&String::from("d2")));
    assert!(!idx.contains_digest(&String::from("d3")));
    assert_eq!(idx.get_path(&String::from("d1")), "p3");
    assert_eq!(idx.get_path(&String::from("d2")), "p2");
}

#[test]
fn empty_directory_gives_an_empty_index() {
    let idx = build_index(&vec![]);
    assert_eq!(idx.entries.len(), 0);
}
