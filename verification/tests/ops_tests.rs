use merge_tool::index::FileEntry;
use merge_tool::index::build_index;
use merge_tool::ops::all_paths;
use merge_tool::ops::duplicate_paths;
use merge_tool::ops::merge_plan;
use merge_tool::ops::same_files;
use merge_tool::ops::unique_paths;
use merge_tool::paths::base_name;
use merge_tool::paths::dest_path;

fn entry(path: &str, bytes: &[u8]) -> FileEntry {
    FileEntry { path: String::from(path), bytes: bytes.to_vec() }
}

// The scenario used throughout: A holds x.txt ("hello"); B holds
// y.txt ("hello") and z.txt ("world").
fn scenario() -> (merge_tool::index::DirectoryIndex, merge_tool::index::DirectoryIndex) {
    let a = build_index(&vec![entry("a/x.txt", b"hello")]);
    let b = build_index(&vec![entry("b/y.txt", b"hello"), entry("b/z.txt", b"world")]);
    (a, b)
}

#[test]
fn equal_reports_the_identical_pair() {
    let (a, b) = scenario();
    let pairs = same_files(&a, &b);
    assert_eq!(pairs.len(), 1);
    assert_eq!(pairs[0].path_a, "a/x.txt");
    assert_eq!(pairs[0].path_b, "b/y.txt");
}

#[test]
fn diff_reports_only_the_file_unique_to_b() {
    let (a, b) = scenario();
    let unique_a = unique_paths(&a, &b);
    let unique_b = unique_paths(&b, &a);
    assert_eq!(unique_a, Vec::<String>::new());
    assert_eq!(unique_b, vec![String::from("b/z.txt")]);
}

#[test]
fn reports_are_idempotent_on_unchanged_indices() {
    let (a, b) = scenario();
    let pairs1 = same_files(&a, &b);
    let pairs2 = same_files(&a, &b);
    assert_eq!(pairs1.len(), pairs2.len());
    assert_eq!(pairs1[0].path_a, pairs2[0].path_a);
    assert_eq!(pairs1[0].path_b, pairs2[0].path_b);
    assert_eq!(unique_paths(&b, &a), unique_paths(&b, &a));
}

#[test]
fn prune_b_deletes_only_the_duplicate_in_b() {
    let (a, b) = scenario();
    assert_eq!(duplicate_paths(&a, &b), vec![String::from("b/y.txt")]);
}

#[test]
fn prune_a_deletes_only_the_duplicate_in_a() {
    let (a, b) = scenario();
    assert_eq!(duplicate_paths(&b, &a), vec![String::from("a/x.txt")]);
}

#[test]
fn no_duplicates_between_disjoint_directories() {
    let a = build_index(&vec![entry("a/x.txt", b"hello")]);
    let b = build_index(&vec![entry("b/z.txt", b"world")]);
    assert_eq!(duplicate_paths(&a, &b), Vec::<String>::new());
    let unique_b = unique_paths(&b, &a);
    assert_eq!(unique_b, vec![String::from("b/z.txt")]);
}

#[test]
fn merge_moves_a_and_the_unique_rest_of_b() {
    let (a, b) = scenario();
    let plan = merge_plan(&a, &b, "out");
    let mut moves: Vec<(String, String)> =
        plan.iter().map(|m| (m.src.clone(), m.dest.clone())).collect();
    moves.sort();
    assert_eq!(
        moves,
        vec![
            (String::from("a/x.txt"), String::from("out/x.txt")),
            (String::from("b/z.txt"), String::from("out/z.txt")),
        ]
    );
    // b/y.txt duplicates a/x.txt: it is neither moved nor deleted.
    assert!(!plan.iter().any(|m| m.src == "b/y.txt"));
    // All of A's moves come before any of B's.
    assert_eq!(plan[0].src, "a/x.txt");
    assert_eq!(plan[1].src, "b/z.txt");
}

#[test]
fn reports_hold_one_entry_per_matching_digest() {
    let a = build_index(&vec![entry("a/x1.txt", b"hello"), entry("a/x2.txt", b"world")]);
    let b = build_index(&vec![
        entry("b/y1.txt", b"hello"),
        entry("b/y2.txt", b"world"),
        entry("b/y3.txt", b"other"),
    ]);
    assert_eq!(same_files(&a, &b).len(), 2);
    assert_eq!(unique_paths(&a, &b).len(), 0);
    assert_eq!(unique_paths(&b, &a).len(), 1);
    assert_eq!(duplicate_paths(&a, &b).len(), 2);
    let plan = merge_plan(&a, &b, "out");
    assert_eq!(plan.len(), 3);
    // The first two moves come from A, the last from B.
    assert!(plan[0].src.starts_with("a/"));
    assert!(plan[1].src.starts_with("a/"));
    assert_eq!(plan[2].src, "b/y3.txt");
}

#[test]
fn all_paths_lists_every_recorded_file() {
    let (_, b) = scenario();
    let mut paths = all_paths(&b);
    paths.sort();
    assert_eq!(paths, vec![String::from("b/y.txt"), String::from("b/z.txt")]);
}

#[test]
fn base_name_takes_what_follows_the_last_slash() {
    assert_eq!(base_name("a/b/c.txt"), "c.txt");
    assert_eq!(base_name("file"), "file");
    assert_eq!(base_name("dir/"), "");
    assert_eq!(base_name(""), "");
}

#[test]
fn dest_path_joins_merge_dir_and_base_name() {
    assert_eq!(dest_path("out", "a/x.txt"), "out/x.txt");
    assert_eq!(dest_path("out", "x.txt"), "out/x.txt");
    assert_eq!(dest_path("nested/out", "a/b/c.txt"), "nested/out/c.txt");
}
