use dirdocs::order::{table_order, tree_order};
use dirdocs::view::{
    connector, headers, is_hidden, kind_label, next_prefix, size_label, tree_line,
};
use std::cmp::Ordering;

#[test]
fn hidden_names_start_with_a_dot() {
    assert!(is_hidden(".git"));
    assert!(is_hidden("."));
    assert!(is_hidden(".."));
    assert!(!is_hidden("a.b"));
    assert!(!is_hidden(""));
    assert!(!is_hidden("\u{2024}x"));
}

#[test]
fn sizes_in_decimal_units() {
    assert_eq!(size_label(true, 0), "0 B");
    assert_eq!(size_label(false, 4096), "0 B");
    assert_eq!(size_label(true, 1), "1 B");
    assert_eq!(size_label(true, 999), "999 B");
    assert_eq!(size_label(true, 1000), "1 kB");
    assert_eq!(size_label(true, 1_500_000), "1.50 MB");
    assert_eq!(size_label(true, 1_000_000), "1 MB");
}

#[test]
fn kinds() {
    assert_eq!(kind_label(true), "dir");
    assert_eq!(kind_label(false), "file");
}

#[test]
fn table_columns() {
    assert_eq!(headers(false), vec!["#", "name", "type", "size", "modified", "description"]);
    assert_eq!(
        headers(true),
        vec!["#", "name", "type", "size", "modified", "description", "personality", "joy"]
    );
}

#[test]
fn tree_puts_directories_first() {
    assert_eq!(tree_order(true, "z", false, "a"), Ordering::Less);
    assert_eq!(tree_order(false, "a", true, "z"), Ordering::Greater);
    assert_eq!(tree_order(true, "a", true, "b"), Ordering::Less);
    assert_eq!(tree_order(false, "b", false, "a"), Ordering::Greater);
    assert_eq!(tree_order(false, "same", false, "same"), Ordering::Equal);
    assert_eq!(tree_order(false, "B", false, "a"), Ordering::Less);
}

#[test]
fn table_puts_files_first_and_ignores_case() {
    assert_eq!(table_order(false, "z", true, "a"), Ordering::Less);
    assert_eq!(table_order(true, "a", false, "z"), Ordering::Greater);
    assert_eq!(table_order(true, "Alpha", true, "beta"), Ordering::Less);
    assert_eq!(table_order(false, "b", false, "A"), Ordering::Greater);
    assert_eq!(table_order(false, "README", false, "readme"), Ordering::Equal);
}

#[test]
fn connectors_of_the_tree() {
    assert_eq!(connector(true, false, true), "\u{1FABE} ");
    assert_eq!(connector(true, true, true), "\u{1FABE} ");
    assert_eq!(connector(true, false, false), "\u{1F343} ");
    assert_eq!(connector(true, true, false), "\u{1F343} ");
    assert_eq!(connector(false, true, true), "\u{2514}\u{2500}\u{2500} ");
    assert_eq!(connector(false, true, false), "\u{2514}\u{2500}\u{2500} ");
    assert_eq!(connector(false, false, true), "\u{251C}\u{2500}\u{2500} ");
}

#[test]
fn prefixes_of_the_tree() {
    assert_eq!(next_prefix("ab", true, true), "ab   ");
    assert_eq!(next_prefix("ab", true, false), "ab\u{1FABE}  ");
    assert_eq!(next_prefix("", false, true), "    ");
    assert_eq!(next_prefix("x", false, false), "x\u{2502}   ");
}

#[test]
fn lines_of_the_tree() {
    assert_eq!(tree_line("  ", "> ", "name", ""), "  > name");
    assert_eq!(tree_line("  ", "> ", "name", "What it does"), "  > name \u{2014} What it does");
    assert_eq!(tree_line("", "", "", ""), "");
}
