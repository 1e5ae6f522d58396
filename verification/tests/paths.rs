use dirdocs::paths::{
    tree_name, find_project_root, label_of, leaf_name, marker_path, normal_components, rel_label, rel_str,
    PathPart, RootSearch,
};

#[test]
fn rel_label_is_the_relative_path() {
    assert_eq!(rel_label("/home/u/proj", "/home/u"), "proj");
    assert_eq!(rel_label("/home/u/proj/sub", "/home/u"), "proj/sub");
    assert_eq!(rel_label("/home/u", "/home/u/proj"), "..");
}

#[test]
fn rel_label_of_the_working_directory_is_a_dot() {
    assert_eq!(rel_label("/home/u", "/home/u"), ".");
}

#[test]
fn rel_label_without_relative_path_is_a_dot() {
    assert_eq!(rel_label("relative/root", "/abs/cwd"), ".");
}

#[test]
fn label_of_maps_empty_and_missing_to_a_dot() {
    assert_eq!(label_of(None), ".");
    assert_eq!(label_of(Some(String::new())), ".");
    assert_eq!(label_of(Some("a/b".to_string())), "a/b");
}

#[test]
fn rel_str_falls_back_to_the_path_itself() {
    assert_eq!(rel_str("/proj/lib/utils.rs", "/proj"), "lib/utils.rs");
    assert_eq!(rel_str("/proj/a", "/proj/b"), "../a");
    assert_eq!(rel_str("rel/file", "/abs"), "rel/file");
    assert_eq!(rel_str("/abs/file", "rel"), "/abs/file");
}

#[test]
fn leaf_name_is_the_last_component() {
    assert_eq!(leaf_name("/proj/lib/utils.rs"), "utils.rs");
    assert_eq!(leaf_name("utils.rs"), "utils.rs");
    assert_eq!(leaf_name("/proj/lib/"), "lib");
    assert_eq!(leaf_name("/"), "");
    assert_eq!(leaf_name("a/.."), "");
}

#[test]
fn normal_components_drops_the_special_parts() {
    let parts = vec![
        PathPart::RootDir,
        PathPart::Normal("a".to_string()),
        PathPart::CurDir,
        PathPart::ParentDir,
        PathPart::Normal("b".to_string()),
        PathPart::Prefix("C:".to_string()),
    ];
    assert_eq!(normal_components(&parts), vec!["a".to_string(), "b".to_string()]);
    assert!(normal_components(&Vec::new()).is_empty());
}

#[test]
fn marker_path_joins_the_cache_file_name() {
    assert_eq!(marker_path("/proj"), "/proj/.dirdocs.nuon");
    assert_eq!(marker_path("/proj/"), "/proj/.dirdocs.nuon");
}

#[test]
fn project_root_search_stops_at_the_marker() {
    match find_project_root("/a/b/c", true) {
        RootSearch::Found(d) => assert_eq!(d, "/a/b/c"),
        other => panic!("unexpected {:?}", other),
    }
}

#[test]
fn project_root_search_climbs_to_the_parent() {
    match find_project_root("/a/b/c", false) {
        RootSearch::Ascend(p) => assert_eq!(p, "/a/b"),
        other => panic!("unexpected {:?}", other),
    }
    match find_project_root("/a", false) {
        RootSearch::Ascend(p) => assert_eq!(p, "/"),
        other => panic!("unexpected {:?}", other),
    }
    match find_project_root("a", false) {
        RootSearch::Ascend(p) => assert_eq!(p, ""),
        other => panic!("unexpected {:?}", other),
    }
}

#[test]
fn project_root_search_ends_at_the_top() {
    assert!(matches!(find_project_root("/", false), RootSearch::NotFound));
    assert!(matches!(find_project_root("", false), RootSearch::NotFound));
}

#[test]
fn project_root_search_walks_a_whole_chain() {
    let marked = "/w/proj";
    let mut cur = "/w/proj/src/deep".to_string();
    let mut steps = 0;
    let found = loop {
        steps += 1;
        assert!(steps < 10);
        match find_project_root(&cur, cur == marked) {
            RootSearch::Found(d) => break Some(d),
            RootSearch::Ascend(p) => cur = p,
            RootSearch::NotFound => break None,
        }
    };
    assert_eq!(found, Some("/w/proj".to_string()));
}

#[test]
fn tree_name_is_the_last_ordinary_component() {
    assert_eq!(tree_name("lib/utils.rs"), "utils.rs");
    assert_eq!(tree_name("utils.rs"), "utils.rs");
    assert_eq!(tree_name("a/b/"), "b");
    assert_eq!(tree_name("a/./b/.."), "b");
    assert_eq!(tree_name(".."), "");
    assert_eq!(tree_name(""), "");
}
