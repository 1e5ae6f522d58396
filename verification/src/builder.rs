//! The tree builder: reconstitutes the nested tree from flat entries.

use crate::model::{
    forest_view, node_view, utc_now, DirEntry, DirView, FileEntry, FileView, Node, NodeView,
    Timestamp,
};
use crate::index::{files_view, FileMap};
use crate::paths::{normal_components, path_components, tree_components};
use crate::strings::{push_char, strings_view};
use crate::text::joined;
use vstd::prelude::*;
use vstd::string::StringExecFns;

verus! {

/// Is `n` a directory called `name`?
pub open spec fn dir_named(n: NodeView, name: Seq<char>) -> bool {
    n matches NodeView::Dir(d) && d.name == name
}

/// The position of the first directory called `name` among `forest`, if any.
pub open spec fn find_dir(forest: Seq<NodeView>, name: Seq<char>) -> Option<int>
    decreases forest.len(),
{
    if forest.len() == 0 {
        None
    } else if dir_named(forest[0], name) {
        Some(0)
    } else {
        match find_dir(forest.drop_first(), name) {
            Some(i) => Some(i + 1),
            None => None,
        }
    }
}

/// The file node that an insertion appends: `fe` under the leaf name `name`.
pub open spec fn leaf(name: Seq<char>, fe: FileView) -> NodeView {
    NodeView::File(FileView { name: name, ..fe })
}

/// The path of the directory that the first `depth` of the components
/// `comps` lead to: these components, from the root down, joined by `/`.
pub open spec fn dir_path(comps: Seq<Seq<char>>, depth: int) -> Seq<char> {
    joined(comps.take(depth), '/')
}

/// `forest` after inserting `fe` along the components `comps` at time `now`,
/// where `forest` is what lies `from` components deep.
///
/// The last component appends a file node. A component before it descends
/// into the first directory named like it, or appends a new directory of
/// that name, whose path is the components from the root down to it; either
/// way the directory is stamped with `now`. Where no component is left, the
/// forest stays as it is.
pub open spec fn spec_insert(
    forest: Seq<NodeView>,
    comps: Seq<Seq<char>>,
    from: int,
    fe: FileView,
    now: Timestamp,
) -> Seq<NodeView>
    decreases comps.len() - from,
{
    if from < 0 || from >= comps.len() {
        forest
    } else if from == comps.len() - 1 {
        forest.push(leaf(comps[from], fe))
    } else {
        match find_dir(forest, comps[from]) {
            Some(i) => forest.update(
                i,
                NodeView::Dir(
                    DirView {
                        updated_at: now,
                        entries: spec_insert(forest[i]->Dir_0.entries, comps, from + 1, fe, now),
                        ..forest[i]->Dir_0
                    },
                ),
            ),
            None => forest.push(
                NodeView::Dir(
                    DirView {
                        name: comps[from],
                        path: dir_path(comps, from + 1),
                        updated_at: now,
                        entries: spec_insert(Seq::empty(), comps, from + 1, fe, now),
                    },
                ),
            ),
        }
    }
}

proof fn lemma_find_dir_none(forest: Seq<NodeView>, name: Seq<char>)
    requires
        forall|j: int| 0 <= j < forest.len() ==> !dir_named(#[trigger] forest[j], name),
    ensures
        find_dir(forest, name) is None,
    decreases forest.len(),
{
    if forest.len() > 0 {
        lemma_find_dir_none(forest.drop_first(), name);
    }
}

proof fn lemma_find_dir_some(forest: Seq<NodeView>, name: Seq<char>, i: int)
    requires
        0 <= i < forest.len(),
        dir_named(forest[i], name),
        forall|j: int| 0 <= j < i ==> !dir_named(#[trigger] forest[j], name),
    ensures
        find_dir(forest, name) == Some(i),
    decreases forest.len(),
{
    if i > 0 {
        lemma_find_dir_some(forest.drop_first(), name, i - 1);
    }
}

/// Looks for the first directory called `name`.
fn position_of_dir(entries: &Vec<Node>, name: &String) -> (r: Option<usize>)
    ensures
        match r {
            Some(i) => i < entries.len() && entries@[i as int] is Dir && find_dir(
                forest_view(entries@),
                name@,
            ) == Some(i as int),
            None => find_dir(forest_view(entries@), name@) is None,
        },
{
    let mut i: usize = 0;
    while i < entries.len()
        invariant
            i <= entries.len(),
            forall|j: int| 0 <= j < i ==> !dir_named(#[trigger] forest_view(entries@)[j], name@),
        decreases entries.len() - i,
    {
        let hit = match &entries[i] {
            Node::Dir(d) => d.name == *name,
            Node::File(_) => false,
        };
        if hit {
            proof {
                lemma_find_dir_some(forest_view(entries@), name@, i as int);
            }
            return Some(i);
        }
        i = i + 1;
    }
    proof {
        lemma_find_dir_none(forest_view(entries@), name@);
    }
    None
}

/// The first `depth` of the components `comps`, joined by `/`.
pub fn join_components(comps: &[String], depth: usize) -> (r: String)
    requires
        depth <= comps@.len(),
    ensures
        r@ == dir_path(strings_view(comps@), depth as int),
{
    let ghost all = strings_view(comps@);
    let mut out = String::new();
    let mut k: usize = 0;
    assert(all.take(0) =~= Seq::empty());
    while k < depth
        invariant
            k <= depth <= comps@.len(),
            all == strings_view(comps@),
            out@ == joined(all.take(k as int), '/'),
        decreases depth - k,
    {
        let ghost before = out@;
        if k > 0 {
            push_char(&mut out, '/');
        }
        out = out.concat(comps[k].as_str());
        proof {
            assert(all.take(k + 1).drop_last() =~= all.take(k as int));
            assert(all.take(k + 1).last() == comps@[k as int]@);
            if k == 0 {
                assert(before =~= Seq::<char>::empty());
                assert(out@ =~= all.take(1)[0]);
            }
        }
        k = k + 1;
    }
    out
}

/// Inserts `fe` along the components `comps` into `entries`, which is what
/// lies `from` components deep; directories are made on demand.
pub fn insert_recursive(
    entries: &mut Vec<Node>,
    comps: &[String],
    from: usize,
    fe: &FileEntry,
    now: Timestamp,
)
    ensures
        forest_view(final(entries)@) == spec_insert(
            forest_view(old(entries)@),
            strings_view(comps@),
            from as int,
            fe@,
            now,
        ),
    decreases comps@.len() - from,
{
    if from >= comps.len() {
        return ;
    }
    if from == comps.len() - 1 {
        let file = FileEntry {
            name: comps[from].clone(),
            path: fe.path.clone(),
            hash: fe.hash.clone(),
            updated_at: fe.updated_at,
            doc: fe.doc.clone(),
        };
        entries.push(Node::File(file));
        assert(forest_view(entries@) =~= forest_view(old(entries)@).push(
            leaf(comps[from as int]@, fe@),
        ));
        return ;
    }
    match position_of_dir(entries, &comps[from]) {
        Some(i) => {
            match &mut entries[i] {
                Node::Dir(d) => {
                    insert_recursive(&mut d.entries, comps, from + 1, fe, now);
                    d.updated_at = now;
                },
                Node::File(_) => {},
            }
            assert(forest_view(old(entries)@)[i as int] == node_view(old(entries)@[i as int]));
            assert(forest_view(entries@) =~= spec_insert(
                forest_view(old(entries)@),
                strings_view(comps@),
                from as int,
                fe@,
                now,
            ));
        },
        None => {
            let mut dir = DirEntry {
                name: comps[from].clone(),
                path: join_components(comps, from + 1),
                updated_at: now,
                entries: Vec::new(),
            };
            assert(forest_view(dir.entries@) =~= Seq::empty());
            insert_recursive(&mut dir.entries, comps, from + 1, fe, now);
            entries.push(Node::Dir(dir));
            assert(forest_view(entries@) =~= spec_insert(
                forest_view(old(entries)@),
                strings_view(comps@),
                from as int,
                fe@,
                now,
            ));
        },
    }
}

/// Inserts `fe` into `entries` at the place that `rel_path` names, stamping
/// the directories on the way with `now`. A new directory's path is its own
/// path from the root of the tree. A path without an ordinary component
/// changes nothing.
pub fn insert_file_at(entries: &mut Vec<Node>, rel_path: &str, fe: &FileEntry, now: Timestamp)
    ensures
        forest_view(final(entries)@) == spec_insert(
            forest_view(old(entries)@),
            tree_components(rel_path@),
            0,
            fe@,
            now,
        ),
{
    let parts = path_components(rel_path);
    let comps = normal_components(&parts);
    insert_recursive(entries, comps.as_slice(), 0, fe, now);
}

/// Inserts `fe` into `entries` at the place that `rel_path` names, stamping
/// the directories on the way with the time of the call.
pub fn insert_file_into_tree(entries: &mut Vec<Node>, rel_path: &str, fe: &FileEntry)
    ensures
        exists|now: Timestamp|
            forest_view(final(entries)@) == spec_insert(
                forest_view(old(entries)@),
                tree_components(rel_path@),
                0,
                fe@,
                now,
            ),
{
    let now = utc_now();
    insert_file_at(entries, rel_path, fe, now);
}

/// The forest built from nothing by inserting `files` one after the other,
/// each at its own path.
pub open spec fn spec_build(files: Seq<FileView>, now: Timestamp) -> Seq<NodeView>
    decreases files.len(),
{
    if files.len() == 0 {
        Seq::empty()
    } else {
        spec_insert(
            spec_build(files.drop_last(), now),
            tree_components(files.last().path),
            0,
            files.last(),
            now,
        )
    }
}

/// Builds a fresh forest from the entries of `files`, in their order.
pub fn build_tree(files: &FileMap, now: Timestamp) -> (r: Vec<Node>)
    ensures
        forest_view(r@) == spec_build(files.order(), now),
{
    let list = files.entries();
    let mut out: Vec<Node> = Vec::new();
    let mut i: usize = 0;
    assert(forest_view(out@) =~= Seq::empty());
    assert(files_view(list@).take(0) =~= Seq::empty());
    while i < list.len()
        invariant
            i <= list.len(),
            files_view(list@) == files.order(),
            forest_view(out@) == spec_build(files_view(list@).take(i as int), now),
        decreases list.len() - i,
    {
        assert(files_view(list@).take(i + 1).drop_last() =~= files_view(list@).take(i as int));
        insert_file_at(&mut out, list[i].path.as_str(), &list[i], now);
        i = i + 1;
    }
    assert(files_view(list@).take(i as int) =~= files_view(list@));
    out
}

} // verus!
