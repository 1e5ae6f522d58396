use dirdocs::builder::{
    build_tree, insert_file_at, insert_file_into_tree, insert_recursive, join_components,
};
use dirdocs::index::{index_files_by_path, FileMap};
use dirdocs::model::{Doc, FileEntry, Node, Timestamp};

fn entry(name: &str, path: &str, hash: &str, description: &str) -> FileEntry {
    FileEntry {
        name: name.to_string(),
        path: path.to_string(),
        hash: hash.to_string(),
        updated_at: Timestamp { secs: 1_700_000_000, nanos: 5 },
        doc: Doc {
            description: description.to_string(),
            joy: serde_json::Value::from(7),
            personality: "x".to_string(),
        },
    }
}

#[test]
fn insert_creates_directories_on_demand() {
    let now = Timestamp { secs: 42, nanos: 0 };
    let mut forest: Vec<Node> = Vec::new();
    insert_file_at(&mut forest, "src/bin/dls.rs", &entry("dls.rs", "src/bin/dls.rs", "h1", "Lists"), now);
    assert_eq!(forest.len(), 1);
    match &forest[0] {
        Node::Dir(d) => {
            assert_eq!(d.name, "src");
            assert_eq!(d.path, "src");
            assert_eq!(d.updated_at, now);
            assert_eq!(d.entries.len(), 1);
            match &d.entries[0] {
                Node::Dir(b) => {
                    assert_eq!(b.name, "bin");
                    assert_eq!(b.path, "src/bin");
                    assert_eq!(b.entries.len(), 1);
                    match &b.entries[0] {
                        Node::File(f) => {
                            assert_eq!(f.name, "dls.rs");
                            assert_eq!(f.path, "src/bin/dls.rs");
                            assert_eq!(f.hash, "h1");
                            assert_eq!(f.updated_at, Timestamp { secs: 1_700_000_000, nanos: 5 });
                        }
                        Node::Dir(_) => panic!("expected a file"),
                    }
                }
                Node::File(_) => panic!("expected a directory"),
            }
        }
        Node::File(_) => panic!("expected a directory"),
    }
}

#[test]
fn insert_without_components_is_a_no_op() {
    let mut forest: Vec<Node> = Vec::new();
    insert_file_into_tree(&mut forest, "", &entry("a", "", "h", "d"));
    assert!(forest.is_empty());
    insert_file_into_tree(&mut forest, "./..", &entry("a", "./..", "h", "d"));
    assert!(forest.is_empty());
}

#[test]
fn rebuild_then_index_gives_the_map_back() {
    let mut files = FileMap::new();
    files.insert(entry("a.rs", "src/a.rs", "h1", "A"));
    files.insert(entry("b.rs", "src/b.rs", "h2", "B"));
    files.insert(entry("README.md", "README.md", "h3", "R"));
    files.insert(entry("c.rs", "src/deep/c.rs", "h4", "C"));
    let forest = build_tree(&files, Timestamp { secs: 1, nanos: 1 });
    let mut again = FileMap::new();
    index_files_by_path(&forest, &mut again);
    assert_eq!(again.len(), 4);
    for f in files.entries() {
        let g = again.get(&f.path).expect("entry kept");
        assert_eq!(g.name, f.name);
        assert_eq!(g.path, f.path);
        assert_eq!(g.hash, f.hash);
        assert_eq!(g.updated_at, f.updated_at);
        assert_eq!(g.doc.description, f.doc.description);
        assert_eq!(g.doc.joy, f.doc.joy);
        assert_eq!(g.doc.personality, f.doc.personality);
    }
}

fn names(forest: &[Node]) -> Vec<String> {
    forest
        .iter()
        .map(|n| match n {
            Node::Dir(d) => format!("{}/", d.name),
            Node::File(f) => f.name.clone(),
        })
        .collect()
}

#[test]
fn insert_appends_files_in_order() {
    let now = Timestamp { secs: 1, nanos: 0 };
    let mut forest: Vec<Node> = Vec::new();
    insert_file_at(&mut forest, "b.txt", &entry("b.txt", "b.txt", "h", "d"), now);
    insert_file_at(&mut forest, "a.txt", &entry("a.txt", "a.txt", "h", "d"), now);
    insert_file_at(&mut forest, "b.txt", &entry("b.txt", "b.txt", "h2", "d2"), now);
    assert_eq!(names(&forest), vec!["b.txt", "a.txt", "b.txt"]);
}

#[test]
fn insert_reuses_the_first_directory_of_that_name() {
    let now = Timestamp { secs: 1, nanos: 0 };
    let mut forest: Vec<Node> = Vec::new();
    insert_file_at(&mut forest, "src/a.rs", &entry("a.rs", "src/a.rs", "h", "d"), now);
    insert_file_at(&mut forest, "doc/x.md", &entry("x.md", "doc/x.md", "h", "d"), now);
    insert_file_at(&mut forest, "src/b.rs", &entry("b.rs", "src/b.rs", "h", "d"), now);
    assert_eq!(names(&forest), vec!["src/", "doc/"]);
    match &forest[0] {
        Node::Dir(d) => assert_eq!(names(&d.entries), vec!["a.rs", "b.rs"]),
        Node::File(_) => panic!("expected a directory"),
    }
}

#[test]
fn insert_stamps_touched_directories_with_the_latest_time() {
    let early = Timestamp { secs: 10, nanos: 0 };
    let late = Timestamp { secs: 20, nanos: 0 };
    let mut forest: Vec<Node> = Vec::new();
    insert_file_at(&mut forest, "a/b/one", &entry("one", "a/b/one", "h", "d"), early);
    insert_file_at(&mut forest, "a/c/two", &entry("two", "a/c/two", "h", "d"), late);
    match &forest[0] {
        Node::Dir(a) => {
            assert_eq!(a.updated_at, late);
            match (&a.entries[0], &a.entries[1]) {
                (Node::Dir(b), Node::Dir(c)) => {
                    assert_eq!(b.name, "b");
                    assert_eq!(b.updated_at, early);
                    assert_eq!(c.name, "c");
                    assert_eq!(c.updated_at, late);
                }
                _ => panic!("expected two directories"),
            }
        }
        Node::File(_) => panic!("expected a directory"),
    }
}

#[test]
fn insert_takes_the_name_from_the_path_and_the_rest_from_the_entry() {
    let now = Timestamp { secs: 1, nanos: 0 };
    let mut forest: Vec<Node> = Vec::new();
    insert_file_at(&mut forest, "x/renamed.rs", &entry("old-name.rs", "elsewhere/key.rs", "hh", "dd"), now);
    match &forest[0] {
        Node::Dir(d) => match &d.entries[0] {
            Node::File(f) => {
                assert_eq!(f.name, "renamed.rs");
                assert_eq!(f.path, "elsewhere/key.rs");
                assert_eq!(f.hash, "hh");
                assert_eq!(f.doc.description, "dd");
                assert_eq!(f.doc.joy, serde_json::Value::from(7));
            }
            Node::Dir(_) => panic!("expected a file"),
        },
        Node::File(_) => panic!("expected a directory"),
    }
}

#[test]
fn insert_ignores_dots_and_roots_in_the_path() {
    let now = Timestamp { secs: 1, nanos: 0 };
    let mut a: Vec<Node> = Vec::new();
    insert_file_at(&mut a, "/abs/./dir/../file", &entry("file", "k", "h", "d"), now);
    // The components that count are abs, dir and file.
    assert_eq!(names(&a), vec!["abs/"]);
    match &a[0] {
        Node::Dir(abs) => match &abs.entries[0] {
            Node::Dir(dir) => {
                assert_eq!(dir.name, "dir");
                assert_eq!(names(&dir.entries), vec!["file"]);
            }
            Node::File(_) => panic!("expected a directory"),
        },
        Node::File(_) => panic!("expected a directory"),
    }
}

#[test]
fn file_and_directory_of_one_name_stand_side_by_side() {
    let now = Timestamp { secs: 1, nanos: 0 };
    let mut forest: Vec<Node> = Vec::new();
    insert_file_at(&mut forest, "x/inner", &entry("inner", "x/inner", "h", "d"), now);
    insert_file_at(&mut forest, "x", &entry("x", "x", "h", "d"), now);
    assert_eq!(names(&forest), vec!["x/", "x"]);

    let mut other: Vec<Node> = Vec::new();
    insert_file_at(&mut other, "y", &entry("y", "y", "h", "d"), now);
    insert_file_at(&mut other, "y/inner", &entry("inner", "y/inner", "h", "d"), now);
    assert_eq!(names(&other), vec!["y", "y/"]);
}

#[test]
fn insert_into_tree_stamps_with_the_clock() {
    let mut forest: Vec<Node> = Vec::new();
    insert_file_into_tree(&mut forest, "d/f", &entry("f", "d/f", "h", "d"));
    match &forest[0] {
        Node::Dir(d) => {
            assert!(d.updated_at.secs > 1_600_000_000);
            match &d.entries[0] {
                Node::File(f) => assert_eq!(f.updated_at, Timestamp { secs: 1_700_000_000, nanos: 5 }),
                Node::Dir(_) => panic!("expected a file"),
            }
        }
        Node::File(_) => panic!("expected a directory"),
    }
}

#[test]
fn build_drops_entries_without_components_and_keeps_order() {
    let mut files = FileMap::new();
    files.insert(entry("z", "z", "1", "Z"));
    files.insert(entry("", "..", "2", "nowhere"));
    files.insert(entry("a", "a", "3", "A"));
    let forest = build_tree(&files, Timestamp { secs: 1, nanos: 1 });
    assert_eq!(names(&forest), vec!["z", "a"]);
}

#[test]
fn rebuild_renames_entries_after_their_path() {
    let mut files = FileMap::new();
    files.insert(entry("wrong", "dir/right.rs", "h", "D"));
    let forest = build_tree(&files, Timestamp { secs: 1, nanos: 1 });
    let mut again = FileMap::new();
    index_files_by_path(&forest, &mut again);
    assert_eq!(again.get("dir/right.rs").unwrap().name, "right.rs");
}

#[test]
fn a_directory_carries_its_path_from_the_root() {
    let now = Timestamp { secs: 1, nanos: 0 };
    let mut forest: Vec<Node> = Vec::new();
    insert_file_into_tree(&mut forest, "a/b/c.txt", &entry("c.txt", "a/b/c.txt", "h", "d"));
    insert_file_at(&mut forest, "a/x/y/z", &entry("z", "a/x/y/z", "h", "d"), now);
    match &forest[0] {
        Node::Dir(a) => {
            assert_eq!(a.name, "a");
            assert_eq!(a.path, "a");
            match (&a.entries[0], &a.entries[1]) {
                (Node::Dir(b), Node::Dir(x)) => {
                    assert_eq!(b.name, "b");
                    assert_eq!(b.path, "a/b");
                    assert_eq!(x.name, "x");
                    assert_eq!(x.path, "a/x");
                    match &x.entries[0] {
                        Node::Dir(y) => {
                            assert_eq!(y.name, "y");
                            assert_eq!(y.path, "a/x/y");
                        }
                        Node::File(_) => panic!("expected a directory"),
                    }
                }
                _ => panic!("expected two directories"),
            }
        }
        Node::File(_) => panic!("expected a directory"),
    }
}

#[test]
fn insert_recursive_goes_on_from_a_depth() {
    let now = Timestamp { secs: 1, nanos: 0 };
    let comps: Vec<String> = ["top", "mid", "leaf.rs"].iter().map(|s| s.to_string()).collect();
    let mut below_top: Vec<Node> = Vec::new();
    insert_recursive(&mut below_top, &comps, 1, &entry("x", "top/mid/leaf.rs", "h", "d"), now);
    match &below_top[0] {
        Node::Dir(mid) => {
            assert_eq!(mid.name, "mid");
            assert_eq!(mid.path, "top/mid");
            assert_eq!(names(&mid.entries), vec!["leaf.rs"]);
        }
        Node::File(_) => panic!("expected a directory"),
    }
    let mut untouched: Vec<Node> = Vec::new();
    insert_recursive(&mut untouched, &comps, 3, &entry("x", "k", "h", "d"), now);
    assert!(untouched.is_empty());
    assert_eq!(join_components(&comps, 0), "");
    assert_eq!(join_components(&comps, 1), "top");
    assert_eq!(join_components(&comps, 3), "top/mid/leaf.rs");
}
