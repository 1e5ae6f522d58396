//! The cache store's rules: what stands for a cache that could not be read,
//! and how the written document ends.

use crate::model::{forest_view, utc_now, DirdocsRoot, Node, NodeView, RootView, Timestamp};
use crate::paths::{rel_label, spec_diff_paths, spec_label};
use vstd::prelude::*;
use vstd::string::StringExecFns;

verus! {

/// A tree without entries.
pub fn empty_tree(label: String, now: Timestamp) -> (r: DirdocsRoot)
    ensures
        r@ == (RootView { root: label@, updated_at: now, entries: Seq::<NodeView>::empty() }),
{
    let entries: Vec<Node> = Vec::new();
    assert(forest_view(entries@) =~= Seq::<NodeView>::empty());
    DirdocsRoot { root: label, updated_at: now, entries }
}

/// The tree to start from: `parsed`, the content of the existing cache file,
/// or, where the file was missing, unreadable or malformed, an empty tree
/// labelled with `root_abs` as seen from `cwd`.
pub fn load_existing_tree(parsed: Option<DirdocsRoot>, root_abs: &str, cwd: &str) -> (r:
    DirdocsRoot)
    ensures
        match parsed {
            Some(t) => r == t,
            None => r@.root == spec_label(spec_diff_paths(root_abs@, cwd@)) && r@.entries
                == Seq::<NodeView>::empty(),
        },
{
    match parsed {
        Some(t) => t,
        None => empty_tree(rel_label(root_abs, cwd), utc_now()),
    }
}

/// The text of the cache file for a serialized tree: the document and one
/// line feed.
pub fn cache_file_body(document: String) -> (r: String)
    ensures
        r@ == document@.push('\n'),
{
    proof {
        reveal_strlit("\n");
    }
    assert("\n"@ =~= seq!['\n']);
    let r = document.concat("\n");
    assert(r@ =~= document@.push('\n'));
    r
}

} // verus!
