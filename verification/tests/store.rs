use dirdocs::model::{DirdocsRoot, Doc, FileEntry, Node, Timestamp};
use dirdocs::store::{cache_file_body, empty_tree, load_existing_tree};

#[test]
fn missing_cache_gives_an_empty_tree() {
    let t = load_existing_tree(None, "/home/u/proj", "/home/u");
    assert_eq!(t.root, "proj");
    assert!(t.entries.is_empty());
    assert!(t.updated_at.secs > 1_600_000_000);
    assert!(t.updated_at.nanos < 2_000_000_000);
}

#[test]
fn missing_cache_at_the_working_directory_is_labelled_with_a_dot() {
    let t = load_existing_tree(None, "/home/u", "/home/u");
    assert_eq!(t.root, ".");
}

#[test]
fn parsed_cache_is_taken_as_it_is() {
    let parsed = DirdocsRoot {
        root: "elsewhere".to_string(),
        updated_at: Timestamp { secs: 7, nanos: 8 },
        entries: vec![Node::File(FileEntry {
            name: "a".to_string(),
            path: "a".to_string(),
            hash: "h".to_string(),
            updated_at: Timestamp { secs: 1, nanos: 2 },
            doc: Doc::default(),
        })],
    };
    let t = load_existing_tree(Some(parsed), "/home/u/proj", "/home/u");
    assert_eq!(t.root, "elsewhere");
    assert_eq!(t.updated_at, Timestamp { secs: 7, nanos: 8 });
    assert_eq!(t.entries.len(), 1);
}

#[test]
fn empty_tree_carries_label_and_time() {
    let t = empty_tree("x/y".to_string(), Timestamp { secs: 3, nanos: 4 });
    assert_eq!(t.root, "x/y");
    assert_eq!(t.updated_at, Timestamp { secs: 3, nanos: 4 });
    assert!(t.entries.is_empty());
}

#[test]
fn cache_file_ends_with_one_line_feed() {
    assert_eq!(cache_file_body("{\n  \"root\": \".\"\n}".to_string()), "{\n  \"root\": \".\"\n}\n");
    assert_eq!(cache_file_body(String::new()), "\n");
}

#[test]
fn tree_root_clones() {
    let t = empty_tree("r".to_string(), Timestamp { secs: 3, nanos: 4 });
    let u = t.clone();
    assert_eq!(u.root, "r");
    assert_eq!(u.updated_at, Timestamp { secs: 3, nanos: 4 });
    assert!(u.entries.is_empty());
}
