use dirdocs::index::{index_files_by_path, FileMap};
use dirdocs::model::{DirEntry, Doc, FileEntry, Node, Timestamp};

fn file(path: &str, hash: &str, description: &str) -> FileEntry {
    FileEntry {
        name: path.rsplit('/').next().unwrap_or("").to_string(),
        path: path.to_string(),
        hash: hash.to_string(),
        updated_at: Timestamp { secs: 10, nanos: 20 },
        doc: Doc {
            description: description.to_string(),
            joy: serde_json::Value::from("high"),
            personality: "p".to_string(),
        },
    }
}

fn dir(name: &str, entries: Vec<Node>) -> Node {
    Node::Dir(DirEntry {
        name: name.to_string(),
        path: name.to_string(),
        updated_at: Timestamp { secs: 1, nanos: 0 },
        entries,
    })
}

#[test]
fn index_walks_directories_and_keeps_files_only() {
    let forest = vec![
        dir("src", vec![Node::File(file("src/a.rs", "h1", "A")), dir("bin", vec![Node::File(file("src/bin/b.rs", "h2", "B"))])]),
        Node::File(file("README.md", "h3", "R")),
        dir("empty", vec![]),
    ];
    let mut map = FileMap::new();
    index_files_by_path(&forest, &mut map);
    assert_eq!(map.len(), 3);
    assert_eq!(map.get("src/a.rs").unwrap().hash, "h1");
    assert_eq!(map.get("src/bin/b.rs").unwrap().hash, "h2");
    assert_eq!(map.get("README.md").unwrap().doc.description, "R");
    assert!(map.get("src").is_none());
    assert!(map.get("empty").is_none());
    assert!(!map.contains_key("bin"));
}

#[test]
fn index_lets_the_later_entry_win() {
    let forest = vec![
        dir("x", vec![Node::File(file("same", "first", "one"))]),
        Node::File(file("same", "second", "two")),
    ];
    let mut map = FileMap::new();
    index_files_by_path(&forest, &mut map);
    assert_eq!(map.len(), 1);
    let e = map.get("same").unwrap();
    assert_eq!(e.hash, "second");
    assert_eq!(e.doc.description, "two");
}

#[test]
fn index_adds_to_what_the_map_holds() {
    let mut map = FileMap::new();
    map.insert(file("kept", "k", "K"));
    map.insert(file("over", "old", "O"));
    let forest = vec![Node::File(file("over", "new", "N")), Node::File(file("more", "m", "M"))];
    index_files_by_path(&forest, &mut map);
    assert_eq!(map.len(), 3);
    assert_eq!(map.get("kept").unwrap().hash, "k");
    assert_eq!(map.get("over").unwrap().hash, "new");
    assert_eq!(map.get("more").unwrap().hash, "m");
}

#[test]
fn file_map_keeps_first_insertion_order() {
    let mut map = FileMap::new();
    assert_eq!(map.len(), 0);
    map.insert(file("b", "1", "B"));
    map.insert(file("a", "2", "A"));
    map.insert(file("b", "3", "B2"));
    let paths: Vec<&str> = map.entries().iter().map(|e| e.path.as_str()).collect();
    assert_eq!(paths, vec!["b", "a"]);
    assert_eq!(map.entries()[0].hash, "3");
    assert_eq!(map.get("b").unwrap().doc.description, "B2");
    assert!(map.contains_key("a"));
    assert!(!map.contains_key("c"));
}

#[test]
fn clones_are_equal_field_by_field() {
    let f = file("p/q.txt", "hh", "text");
    let g = f.clone();
    assert_eq!(g.name, "q.txt");
    assert_eq!(g.path, f.path);
    assert_eq!(g.hash, f.hash);
    assert_eq!(g.updated_at, f.updated_at);
    assert_eq!(g.doc.description, f.doc.description);
    assert_eq!(g.doc.joy, serde_json::Value::from("high"));
    assert_eq!(g.doc.personality, f.doc.personality);
}

#[test]
fn default_doc_is_empty_with_null_joy() {
    let d = Doc::default();
    assert_eq!(d.description, "");
    assert_eq!(d.personality, "");
    assert_eq!(d.joy, serde_json::Value::Null);
}

#[test]
fn index_places_entries_in_traversal_order() {
    let forest = vec![
        dir("d", vec![Node::File(file("d/2", "h", "x")), Node::File(file("d/1", "h", "x"))]),
        Node::File(file("top", "h", "x")),
        Node::File(file("d/2", "later", "x")),
    ];
    let mut map = FileMap::new();
    map.insert(file("top", "old", "x"));
    index_files_by_path(&forest, &mut map);
    let paths: Vec<&str> = map.entries().iter().map(|e| e.path.as_str()).collect();
    assert_eq!(paths, vec!["top", "d/2", "d/1"]);
    assert_eq!(map.get("d/2").unwrap().hash, "later");
    assert_eq!(map.get("top").unwrap().hash, "h");
}

#[test]
fn trees_clone_deeply() {
    let first = dir("a", vec![dir("b", vec![Node::File(file("a/b/c", "h", "deep"))]), Node::File(file("a/x", "g", "flat"))]);
    let copy = first.clone();
    let mut one = FileMap::new();
    index_files_by_path(&vec![first], &mut one);
    let mut two = FileMap::new();
    index_files_by_path(&vec![copy.clone()], &mut two);
    assert_eq!(one.len(), 2);
    assert_eq!(two.len(), 2);
    assert_eq!(two.get("a/b/c").unwrap().doc.description, "deep");
    assert_eq!(two.get("a/x").unwrap().hash, "g");
    match copy {
        Node::Dir(d) => {
            assert_eq!(d.name, "a");
            assert_eq!(d.updated_at, Timestamp { secs: 1, nanos: 0 });
            assert_eq!(d.entries.len(), 2);
            let again = d.clone();
            assert_eq!(again.entries.len(), 2);
        }
        Node::File(_) => panic!("expected a directory"),
    }
    let copied = dirdocs::model::clone_nodes(&vec![Node::File(file("k", "h", "d"))]);
    assert_eq!(copied.len(), 1);
}
