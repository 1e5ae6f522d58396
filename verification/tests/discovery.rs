use dirdocs::discovery::{
    cache_candidates, dedup_paths, is_cache_name, listing_has_cache, sort_paths, DirItem,
    Discovery, EntryKind,
};

fn item(dir: &str, name: &str, kind: EntryKind) -> DirItem {
    DirItem { name: name.to_string(), path: format!("{}/{}", dir, name), kind }
}

fn listing_of(dir: &str) -> Option<Vec<DirItem>> {
    match dir {
        "/root" => Some(vec![
            item(dir, "a", EntryKind::Dir),
            item(dir, "notes.txt", EntryKind::File),
            item(dir, "b", EntryKind::Dir),
            item(dir, "locked", EntryKind::Dir),
        ]),
        "/root/a" => Some(vec![
            item(dir, ".DirDocs.NUON", EntryKind::File),
            item(dir, "deep", EntryKind::Dir),
        ]),
        "/root/a/deep" => Some(vec![item(dir, "deeper", EntryKind::Dir)]),
        "/root/a/deep/deeper" => Some(vec![item(dir, ".dir.nuon", EntryKind::File)]),
        "/root/b" => Some(vec![item(dir, "c", EntryKind::Dir), item(dir, ".dir.nuon", EntryKind::Dir)]),
        "/root/b/c" => Some(vec![item(dir, ".dir.nuon", EntryKind::File)]),
        "/root/locked" => None,
        _ => Some(Vec::new()),
    }
}

fn walk(root: &str) -> (Vec<String>, Vec<String>) {
    let mut d = Discovery::new(root.to_string());
    let mut listed = Vec::new();
    while let Some(dir) = d.next_dir() {
        listed.push(dir.clone());
        let listing = match listing_of(&dir) {
            Some(l) => l,
            None => continue,
        };
        if d.visit(&listing) {
            d.record(dir);
        }
    }
    (d.finish(), listed)
}

#[test]
fn cache_names_match_in_any_ascii_case() {
    assert!(is_cache_name(".dirdocs.nuon"));
    assert!(is_cache_name(".dir.nuon"));
    assert!(is_cache_name(".DIRDOCS.NUON"));
    assert!(is_cache_name(".Dir.Nuon"));
    assert!(!is_cache_name(".dirdocs.nu"));
    assert!(!is_cache_name("dirdocs.nuon"));
    assert!(!is_cache_name(".dirdocs.nuon "));
    assert!(!is_cache_name(""));
    assert!(!is_cache_name(".dirdocs.nu\u{f6}n"));
}

#[test]
fn cache_candidates_are_tried_in_order() {
    assert_eq!(
        cache_candidates("/proj/lib"),
        vec!["/proj/lib/.dirdocs.nuon".to_string(), "/proj/lib/.dir.nuon".to_string()]
    );
}

#[test]
fn only_files_mark_a_cache_root() {
    assert!(listing_has_cache(&vec![item("/d", ".dir.nuon", EntryKind::File)]));
    assert!(!listing_has_cache(&vec![item("/d", ".dir.nuon", EntryKind::Dir)]));
    assert!(!listing_has_cache(&vec![item("/d", ".dir.nuon", EntryKind::Other)]));
    assert!(!listing_has_cache(&Vec::new()));
}

#[test]
fn discovery_finds_the_shallowest_caches_only() {
    let (found, listed) = walk("/root");
    assert_eq!(found, vec!["/root/a".to_string(), "/root/b/c".to_string()]);
    assert!(!listed.contains(&"/root/a/deep".to_string()));
    assert!(!listed.contains(&"/root/a/deep/deeper".to_string()));
    assert!(listed.contains(&"/root/locked".to_string()));
}

#[test]
fn discovery_of_a_root_with_a_cache_finds_the_root() {
    let (found, listed) = walk("/root/a");
    assert_eq!(found, vec!["/root/a".to_string()]);
    assert_eq!(listed, vec!["/root/a".to_string()]);
}

#[test]
fn visit_queues_subdirectories_in_order() {
    let mut d = Discovery::new("/root".to_string());
    assert_eq!(d.next_dir(), Some("/root".to_string()));
    assert!(!d.visit(&listing_of("/root").unwrap()));
    assert_eq!(d.next_dir(), Some("/root/locked".to_string()));
    assert_eq!(d.next_dir(), Some("/root/b".to_string()));
    assert_eq!(d.next_dir(), Some("/root/a".to_string()));
    assert_eq!(d.next_dir(), None);
    assert!(d.finish().is_empty());
}

#[test]
fn paths_sort_by_components_not_by_bytes() {
    let sorted = sort_paths(vec!["/a-b".to_string(), "/a/b".to_string(), "/a".to_string()]);
    assert_eq!(sorted, vec!["/a".to_string(), "/a/b".to_string(), "/a-b".to_string()]);
}

#[test]
fn sort_keeps_equal_paths_in_their_order() {
    let sorted = sort_paths(vec!["/z".to_string(), "/a/b/".to_string(), "/a/b".to_string()]);
    assert_eq!(sorted, vec!["/a/b/".to_string(), "/a/b".to_string(), "/z".to_string()]);
}

#[test]
fn dedup_drops_repeated_neighbours() {
    let out = dedup_paths(vec![
        "/a".to_string(),
        "/a".to_string(),
        "/a/".to_string(),
        "/b".to_string(),
        "/a".to_string(),
    ]);
    assert_eq!(out, vec!["/a".to_string(), "/b".to_string(), "/a".to_string()]);
}

#[test]
fn finish_sorts_and_dedups() {
    let mut d = Discovery::new("/r".to_string());
    d.record("/r/z".to_string());
    d.record("/r/a".to_string());
    d.record("/r/z".to_string());
    assert_eq!(d.finish(), vec!["/r/a".to_string(), "/r/z".to_string()]);
}

#[test]
fn a_cache_written_by_a_run_marks_its_directory() {
    assert!(listing_has_cache(&vec![item("/proj/lib", ".dirdocs.nuon", EntryKind::File)]));
    let mut d = Discovery::new("/proj".to_string());
    assert_eq!(d.next_dir(), Some("/proj".to_string()));
    assert!(!d.visit(&vec![item("/proj", "lib", EntryKind::Dir)]));
    assert_eq!(d.next_dir(), Some("/proj/lib".to_string()));
    assert!(d.visit(&vec![
        item("/proj/lib", "utils.rs", EntryKind::File),
        item("/proj/lib", ".dirdocs.nuon", EntryKind::File),
        item("/proj/lib", "deep", EntryKind::Dir),
    ]));
    d.record("/proj/lib".to_string());
    assert_eq!(d.next_dir(), None);
    assert_eq!(d.finish(), vec!["/proj/lib".to_string()]);
}
