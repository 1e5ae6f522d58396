use dirdocs::index::{index_files_by_path, FileMap};
use dirdocs::model::{DirdocsRoot, Doc, FileEntry, Node, Timestamp};
use dirdocs::paths::rel_str;
use dirdocs::rebase::rebase_child_tree_into_existing_by_path;
use dirdocs::sync::{plan_file, regenerated_entry, Plan, Step, SyncRun};

fn doc(description: &str) -> Doc {
    Doc {
        description: description.to_string(),
        joy: serde_json::Value::from(9),
        personality: "q".to_string(),
    }
}

fn file(path: &str, hash: &str, description: &str, secs: i64) -> FileEntry {
    FileEntry {
        name: path.rsplit('/').next().unwrap_or("").to_string(),
        path: path.to_string(),
        hash: hash.to_string(),
        updated_at: Timestamp { secs, nanos: 1 },
        doc: doc(description),
    }
}

fn cached() -> FileMap {
    let mut m = FileMap::new();
    m.insert(file("src/a.rs", "ha", "Does A", 100));
    m.insert(file("src/b.rs", "hb", "Does B", 200));
    m.insert(file("src/failed.rs", "hf", "", 300));
    m
}

#[test]
fn clean_file_is_reused_with_its_old_time() {
    match plan_file(&cached(), false, "src/a.rs", "a.rs", Some("ha")) {
        Plan::Reuse(e) => {
            assert_eq!(e.name, "a.rs");
            assert_eq!(e.path, "src/a.rs");
            assert_eq!(e.hash, "ha");
            assert_eq!(e.updated_at, Timestamp { secs: 100, nanos: 1 });
            assert_eq!(e.doc.description, "Does A");
            assert_eq!(e.doc.joy, serde_json::Value::from(9));
            assert_eq!(e.doc.personality, "q");
        }
        other => panic!("unexpected {:?}", other),
    }
}

#[test]
fn changed_hash_regenerates() {
    assert!(matches!(plan_file(&cached(), false, "src/a.rs", "a.rs", Some("other")), Plan::Regenerate));
}

#[test]
fn new_file_regenerates() {
    assert!(matches!(plan_file(&cached(), false, "src/new.rs", "new.rs", Some("hn")), Plan::Regenerate));
}

#[test]
fn empty_description_regenerates() {
    assert!(matches!(
        plan_file(&cached(), false, "src/failed.rs", "failed.rs", Some("hf")),
        Plan::Regenerate
    ));
}

#[test]
fn force_regenerates_even_clean_files() {
    assert!(matches!(plan_file(&cached(), true, "src/a.rs", "a.rs", Some("ha")), Plan::Regenerate));
    assert!(matches!(plan_file(&cached(), true, "src/b.rs", "b.rs", Some("hb")), Plan::Regenerate));
}

#[test]
fn failed_hash_skips_the_file() {
    assert!(matches!(plan_file(&cached(), false, "src/a.rs", "a.rs", None), Plan::Skip));
    assert!(matches!(plan_file(&cached(), true, "src/a.rs", "a.rs", None), Plan::Skip));
}

#[test]
fn regenerated_entry_takes_the_answer_or_the_empty_doc() {
    let at = Timestamp { secs: 77, nanos: 88 };
    let e = regenerated_entry("p/x".to_string(), "x".to_string(), "h".to_string(), Some(doc("New")), at);
    assert_eq!(e.path, "p/x");
    assert_eq!(e.name, "x");
    assert_eq!(e.hash, "h");
    assert_eq!(e.updated_at, at);
    assert_eq!(e.doc.description, "New");
    let f = regenerated_entry("p/y".to_string(), "y".to_string(), "g".to_string(), None, at);
    assert_eq!(f.doc.description, "");
    assert_eq!(f.doc.personality, "");
    assert_eq!(f.doc.joy, serde_json::Value::Null);
    assert_eq!(f.updated_at, at);
}

#[test]
fn run_collects_reused_and_regenerated_and_drops_skipped() {
    let mut run = SyncRun::new(cached(), false);
    assert_eq!(run.offer("src/a.rs", Some("ha")), Step::Reused);
    assert_eq!(run.offer("src/b.rs", Some("changed")), Step::NeedsAnnotation);
    run.complete(
        "src/b.rs".to_string(),
        "changed".to_string(),
        Some(doc("Does B better")),
        Timestamp { secs: 999, nanos: 0 },
    );
    assert_eq!(run.offer("src/failed.rs", None), Step::Skipped);
    assert_eq!(run.offer("src/new.rs", Some("hn")), Step::NeedsAnnotation);
    run.complete(
        "src/new.rs".to_string(),
        "hn".to_string(),
        None,
        Timestamp { secs: 1000, nanos: 0 },
    );
    let got = run.collected();
    assert_eq!(got.len(), 3);
    assert_eq!(got.get("src/a.rs").unwrap().updated_at, Timestamp { secs: 100, nanos: 1 });
    assert_eq!(got.get("src/b.rs").unwrap().doc.description, "Does B better");
    assert_eq!(got.get("src/b.rs").unwrap().hash, "changed");
    assert_eq!(got.get("src/b.rs").unwrap().updated_at, Timestamp { secs: 999, nanos: 0 });
    assert_eq!(got.get("src/new.rs").unwrap().doc.description, "");
    assert!(got.get("src/failed.rs").is_none());

    let tree = run.finish("proj".to_string(), Timestamp { secs: 2000, nanos: 0 });
    assert_eq!(tree.root, "proj");
    assert_eq!(tree.updated_at, Timestamp { secs: 2000, nanos: 0 });
    let mut again = FileMap::new();
    index_files_by_path(&tree.entries, &mut again);
    assert_eq!(again.len(), 3);
    assert!(again.get("src/failed.rs").is_none());
}

fn run_once(existing: FileMap, force: bool, live: &[(&str, &str)], at: Timestamp) -> (DirdocsRoot, usize) {
    let mut run = SyncRun::new(existing, force);
    let mut asked = 0;
    for (rel, hash) in live {
        match run.offer(rel, Some(hash)) {
            Step::Reused => {}
            Step::NeedsAnnotation => {
                asked += 1;
                run.complete(
                    rel.to_string(),
                    hash.to_string(),
                    Some(doc(&format!("About {} at {}", rel, at.secs))),
                    at,
                );
            }
            Step::Skipped => panic!("hash was given"),
        }
    }
    (run.finish(".".to_string(), at), asked)
}

fn flatten(tree: &DirdocsRoot) -> FileMap {
    let mut m = FileMap::new();
    index_files_by_path(&tree.entries, &mut m);
    m
}

#[test]
fn second_run_without_changes_reuses_everything() {
    let live = [("src/a.rs", "h1"), ("src/deep/b.rs", "h2"), ("README.md", "h3")];
    let (first, asked_first) = run_once(FileMap::new(), false, &live, Timestamp { secs: 10, nanos: 0 });
    assert_eq!(asked_first, 3);
    let (second, asked_second) = run_once(flatten(&first), false, &live, Timestamp { secs: 20, nanos: 0 });
    assert_eq!(asked_second, 0);
    let a = flatten(&first);
    let b = flatten(&second);
    assert_eq!(a.len(), b.len());
    for f in a.entries() {
        let g = b.get(&f.path).unwrap();
        assert_eq!(g.name, f.name);
        assert_eq!(g.hash, f.hash);
        assert_eq!(g.updated_at, f.updated_at);
        assert_eq!(g.updated_at, Timestamp { secs: 10, nanos: 0 });
        assert_eq!(g.doc.description, f.doc.description);
        assert_eq!(g.doc.joy, f.doc.joy);
        assert_eq!(g.doc.personality, f.doc.personality);
    }
}

#[test]
fn changed_file_alone_is_regenerated() {
    let live = [("src/a.rs", "h1"), ("src/b.rs", "h2")];
    let (first, _) = run_once(FileMap::new(), false, &live, Timestamp { secs: 10, nanos: 0 });
    let changed = [("src/a.rs", "h1"), ("src/b.rs", "h2-new")];
    let (second, asked) = run_once(flatten(&first), false, &changed, Timestamp { secs: 20, nanos: 0 });
    assert_eq!(asked, 1);
    let m = flatten(&second);
    assert_eq!(m.get("src/a.rs").unwrap().updated_at, Timestamp { secs: 10, nanos: 0 });
    assert_eq!(m.get("src/a.rs").unwrap().doc.description, "About src/a.rs at 10");
    assert_eq!(m.get("src/b.rs").unwrap().updated_at, Timestamp { secs: 20, nanos: 0 });
    assert_eq!(m.get("src/b.rs").unwrap().hash, "h2-new");
    assert_eq!(m.get("src/b.rs").unwrap().doc.description, "About src/b.rs at 20");
}

#[test]
fn forced_run_regenerates_every_file() {
    let live = [("src/a.rs", "h1"), ("src/b.rs", "h2")];
    let (first, _) = run_once(FileMap::new(), false, &live, Timestamp { secs: 10, nanos: 0 });
    let (second, asked) = run_once(flatten(&first), true, &live, Timestamp { secs: 20, nanos: 0 });
    assert_eq!(asked, 2);
    let m = flatten(&second);
    assert_eq!(m.get("src/a.rs").unwrap().updated_at, Timestamp { secs: 20, nanos: 0 });
    assert_eq!(m.get("src/b.rs").unwrap().updated_at, Timestamp { secs: 20, nanos: 0 });
}

#[test]
fn sub_cache_entries_are_absorbed_without_regeneration() {
    let child = DirdocsRoot {
        root: "lib".to_string(),
        updated_at: Timestamp { secs: 1, nanos: 0 },
        entries: vec![
            Node::File(file("one.rs", "H1", "One", 11)),
            Node::File(file("two.rs", "H2", "Two", 12)),
            Node::File(file("three.rs", "H3", "Three", 13)),
        ],
    };
    let mut existing = FileMap::new();
    rebase_child_tree_into_existing_by_path("/proj/lib", "/proj", &child, &mut existing);
    let live = [("lib/one.rs", "H1"), ("lib/two.rs", "H2"), ("lib/three.rs", "H3")];
    let (tree, asked) = run_once(existing, false, &live, Timestamp { secs: 50, nanos: 0 });
    assert_eq!(asked, 0);
    let m = flatten(&tree);
    assert_eq!(m.len(), 3);
    assert_eq!(m.get("lib/two.rs").unwrap().doc.description, "Two");
    assert_eq!(m.get("lib/two.rs").unwrap().hash, "H2");
    assert_eq!(m.get("lib/two.rs").unwrap().updated_at, Timestamp { secs: 12, nanos: 1 });
}

#[test]
fn sub_cache_of_lib_feeds_the_root_cache() {
    let child = DirdocsRoot {
        root: "lib".to_string(),
        updated_at: Timestamp { secs: 1, nanos: 0 },
        entries: vec![Node::File(FileEntry {
            name: "utils.rs".to_string(),
            path: "utils.rs".to_string(),
            hash: "H1".to_string(),
            updated_at: Timestamp { secs: 5, nanos: 6 },
            doc: doc("Helper functions"),
        })],
    };
    let mut existing = FileMap::new();
    rebase_child_tree_into_existing_by_path("/proj/lib", "/proj", &child, &mut existing);

    let mut run = SyncRun::new(existing, false);
    let rel = rel_str("/proj/lib/utils.rs", "/proj");
    assert_eq!(rel, "lib/utils.rs");
    let mut annotator_calls = 0;
    match run.offer(&rel, Some("H1")) {
        Step::Reused => {}
        _ => annotator_calls += 1,
    }
    assert_eq!(annotator_calls, 0);
    let tree = run.finish(".".to_string(), Timestamp { secs: 60, nanos: 0 });

    assert_eq!(tree.entries.len(), 1);
    match &tree.entries[0] {
        Node::Dir(d) => {
            assert_eq!(d.name, "lib");
            assert_eq!(d.entries.len(), 1);
            match &d.entries[0] {
                Node::File(f) => {
                    assert_eq!(f.path, "lib/utils.rs");
                    assert_eq!(f.name, "utils.rs");
                    assert_eq!(f.hash, "H1");
                    assert_eq!(f.doc.description, "Helper functions");
                    assert_eq!(f.updated_at, Timestamp { secs: 5, nanos: 6 });
                }
                Node::Dir(_) => panic!("expected the file"),
            }
        }
        Node::File(_) => panic!("expected the directory"),
    }
}

#[test]
fn run_lists_files_under_the_name_their_path_ends_in() {
    let mut run = SyncRun::new(cached(), false);
    assert_eq!(run.offer("src/a.rs", Some("ha")), Step::Reused);
    run.complete("deep/er/new.txt".to_string(), "h".to_string(), None, Timestamp { secs: 1, nanos: 0 });
    let got = run.collected();
    assert_eq!(got.get("src/a.rs").unwrap().name, "a.rs");
    assert_eq!(got.get("deep/er/new.txt").unwrap().name, "new.txt");
}

#[test]
fn second_run_in_another_order_keeps_every_entry() {
    let live = [("src/a.rs", "h1"), ("src/deep/b.rs", "h2"), ("README.md", "h3")];
    let (first, _) = run_once(FileMap::new(), false, &live, Timestamp { secs: 10, nanos: 0 });
    let shuffled = [("README.md", "h3"), ("src/deep/b.rs", "h2"), ("src/a.rs", "h1")];
    let (second, asked) = run_once(flatten(&first), false, &shuffled, Timestamp { secs: 20, nanos: 0 });
    assert_eq!(asked, 0);
    let a = flatten(&first);
    let b = flatten(&second);
    assert_eq!(a.len(), b.len());
    for f in a.entries() {
        let g = b.get(&f.path).unwrap();
        assert_eq!(g.name, f.name);
        assert_eq!(g.hash, f.hash);
        assert_eq!(g.updated_at, f.updated_at);
        assert_eq!(g.doc.description, f.doc.description);
    }
}
