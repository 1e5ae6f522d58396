//! Rebasing: the entries of a sub-cache, keyed as the parent root sees them.

use crate::index::{
    absorb, flat_files, lemma_place_all, lemma_place_all_concat, lemma_place_one, node_files,
    place_all, FileMap,
};
use crate::model::{forest_view, DirdocsRoot, FileEntry, FileView, Node};
use crate::paths::{diff_paths, path_join, spec_diff_paths, spec_path_join};
use vstd::prelude::*;

verus! {

/// `f` with its path adjoined to `prefix`.
pub open spec fn rebased_entry(prefix: Seq<char>, f: FileView) -> FileView {
    FileView { path: spec_path_join(prefix, f.path), ..f }
}

/// `files`, each with its path adjoined to `prefix`.
pub open spec fn rebased(prefix: Seq<char>, files: Seq<FileView>) -> Seq<FileView> {
    files.map_values(|f: FileView| rebased_entry(prefix, f))
}

/// The prefix under which the entries of the cache at `child` are seen from
/// `parent`: the relative path, or `.` where there is none.
pub open spec fn spec_prefix(child: Seq<char>, parent: Seq<char>) -> Seq<char> {
    match spec_diff_paths(child, parent) {
        Some(p) => p,
        None => seq!['.'],
    }
}

/// Adds every file entry of `nodes` to `map`, depth first, under its path
/// adjoined to `prefix`.
pub fn rebase_nodes(nodes: &Vec<Node>, prefix: &str, map: &mut FileMap)
    ensures
        final(map).order() == place_all(
            old(map).order(),
            rebased(prefix@, flat_files(forest_view(nodes@))),
        ),
        final(map)@ == absorb(old(map)@, rebased(prefix@, flat_files(forest_view(nodes@)))),
    decreases nodes,
{
    let mut i: usize = 0;
    let ghost forest = forest_view(nodes@);
    let ghost start = map.order();
    assert(forest.take(0) =~= Seq::empty());
    assert(rebased(prefix@, flat_files(forest.take(0))) =~= Seq::empty());
    while i < nodes.len()
        invariant
            i <= nodes.len(),
            forest == forest_view(nodes@),
            map.order() == place_all(start, rebased(prefix@, flat_files(forest.take(i as int)))),
        decreases nodes.len() - i,
    {
        proof {
            assert(forest.take(i + 1).drop_last() =~= forest.take(i as int));
            assert(rebased(prefix@, flat_files(forest.take(i + 1))) =~= rebased(
                prefix@,
                flat_files(forest.take(i as int)),
            ) + rebased(prefix@, node_files(forest[i as int])));
            lemma_place_all_concat(
                start,
                rebased(prefix@, flat_files(forest.take(i as int))),
                rebased(prefix@, node_files(forest[i as int])),
            );
        }
        match &nodes[i] {
            Node::Dir(d) => {
                rebase_nodes(&d.entries, prefix, map);
            },
            Node::File(f) => {
                let moved = FileEntry {
                    name: f.name.clone(),
                    path: path_join(prefix, f.path.as_str()),
                    hash: f.hash.clone(),
                    updated_at: f.updated_at,
                    doc: f.doc.clone(),
                };
                proof {
                    assert(rebased(prefix@, seq![f@]) =~= seq![moved@]);
                    lemma_place_one(map.order(), moved@);
                }
                map.insert(moved);
            },
        }
        i = i + 1;
    }
    proof {
        assert(forest.take(i as int) =~= forest);
        lemma_place_all(start, rebased(prefix@, flat_files(forest)));
    }
}

/// Merges the cache found at `child_root_abs` into the index of the cache at
/// `parent_root_abs`: every file entry of `tree` enters `map` under its path
/// as seen from the parent root.
pub fn rebase_child_tree_into_existing_by_path(
    child_root_abs: &str,
    parent_root_abs: &str,
    tree: &DirdocsRoot,
    map: &mut FileMap,
)
    ensures
        final(map).order() == place_all(
            old(map).order(),
            rebased(spec_prefix(child_root_abs@, parent_root_abs@), flat_files(tree@.entries)),
        ),
        final(map)@ == absorb(
            old(map)@,
            rebased(spec_prefix(child_root_abs@, parent_root_abs@), flat_files(tree@.entries)),
        ),
{
    proof {
        reveal_strlit(".");
    }
    assert("."@ =~= seq!['.']);
    let base_rel = match diff_paths(child_root_abs, parent_root_abs) {
        Some(p) => p,
        None => ".".to_owned(),
    };
    rebase_nodes(&tree.entries, base_rel.as_str(), map);
}

} // verus!
