//! What flattening a built tree gives back.

use crate::builder::{find_dir, leaf, spec_build, spec_insert};
use crate::index::{
    by_path, distinct_paths, flat_files, lemma_absorb_distinct, lemma_absorb_dom,
    lemma_distinct_front, node_files, spec_index,
};
use crate::model::{DirView, FileView, NodeView, Timestamp};
use crate::paths::tree_components;
use vstd::prelude::*;

verus! {

/// Flattening distributes over concatenation.
pub proof fn lemma_flat_concat(a: Seq<NodeView>, b: Seq<NodeView>)
    ensures
        flat_files(a + b) == flat_files(a) + flat_files(b),
    decreases b.len(),
{
    if b.len() == 0 {
        assert(a + b =~= a);
        assert(flat_files(a) + flat_files(b) =~= flat_files(a));
    } else {
        assert((a + b).drop_last() =~= a + b.drop_last());
        assert((a + b).last() == b.last());
        lemma_flat_concat(a, b.drop_last());
        assert(flat_files(a + b) =~= flat_files(a) + flat_files(b));
    }
}

/// The flattening of a forest, cut at the node at `i`.
pub proof fn lemma_flat_split(forest: Seq<NodeView>, i: int)
    requires
        0 <= i < forest.len(),
    ensures
        flat_files(forest) == flat_files(forest.take(i)) + node_files(forest[i]) + flat_files(
            forest.skip(i + 1),
        ),
{
    let head = forest.take(i + 1);
    assert(forest =~= head + forest.skip(i + 1));
    lemma_flat_concat(head, forest.skip(i + 1));
    assert(head.drop_last() =~= forest.take(i));
    assert(head.last() == forest[i]);
}

/// The entry that an insertion along `comps` stores for `fe`: `fe` under the
/// last component as its name.
pub open spec fn stored(comps: Seq<Seq<char>>, fe: FileView) -> FileView {
    FileView { name: comps.last(), ..fe }
}

/// Where in the flattening of `forest`, which lies `from` components deep,
/// an insertion along `comps` puts its entry.
pub open spec fn insert_position(forest: Seq<NodeView>, comps: Seq<Seq<char>>, from: int) -> int
    decreases comps.len() - from,
{
    if from < 0 || from >= comps.len() - 1 {
        flat_files(forest).len() as int
    } else {
        match find_dir(forest, comps[from]) {
            Some(i) => flat_files(forest.take(i)).len() + insert_position(
                forest[i]->Dir_0.entries,
                comps,
                from + 1,
            ),
            None => flat_files(forest).len() as int,
        }
    }
}

/// `find_dir` points at a directory of the forest.
pub proof fn lemma_find_dir_range(forest: Seq<NodeView>, name: Seq<char>)
    ensures
        find_dir(forest, name) matches Some(i) ==> 0 <= i < forest.len() && forest[i] is Dir,
    decreases forest.len(),
{
    if forest.len() > 0 {
        lemma_find_dir_range(forest.drop_first(), name);
    }
}

/// An insertion adds exactly one entry to the flattening, and moves none.
pub proof fn lemma_insert_flat(
    forest: Seq<NodeView>,
    comps: Seq<Seq<char>>,
    from: int,
    fe: FileView,
    now: Timestamp,
)
    requires
        0 <= from < comps.len(),
    ensures
        0 <= insert_position(forest, comps, from) <= flat_files(forest).len(),
        flat_files(spec_insert(forest, comps, from, fe, now)) == flat_files(forest).insert(
            insert_position(forest, comps, from),
            stored(comps, fe),
        ),
    decreases comps.len() - from,
{
    let flat = flat_files(forest);
    let after = spec_insert(forest, comps, from, fe, now);
    if from == comps.len() - 1 {
        assert(after.drop_last() =~= forest);
        assert(after.last() == leaf(comps[from], fe));
        assert(comps.last() == comps[from]);
        assert(node_files(after.last()) =~= seq![stored(comps, fe)]);
        assert(flat_files(after) =~= flat.insert(flat.len() as int, stored(comps, fe)));
    } else {
        lemma_find_dir_range(forest, comps[from]);
        match find_dir(forest, comps[from]) {
            Some(i) => {
                let d = forest[i]->Dir_0;
                lemma_insert_flat(d.entries, comps, from + 1, fe, now);
                lemma_flat_split(forest, i);
                lemma_flat_split(after, i);
                assert(after.take(i) =~= forest.take(i));
                assert(after.skip(i + 1) =~= forest.skip(i + 1));
                let a = flat_files(forest.take(i));
                let b = flat_files(d.entries);
                let c = flat_files(forest.skip(i + 1));
                let k = insert_position(d.entries, comps, from + 1);
                assert(a + b.insert(k, stored(comps, fe)) + c =~= (a + b + c).insert(
                    a.len() + k,
                    stored(comps, fe),
                ));
            },
            None => {
                lemma_insert_flat(Seq::empty(), comps, from + 1, fe, now);
                assert(after.drop_last() =~= forest);
                assert(flat_files(Seq::<NodeView>::empty()) =~= Seq::empty());
                let inner = spec_insert(Seq::empty(), comps, from + 1, fe, now);
                assert(after.last()->Dir_0.entries == inner);
                assert(flat_files(inner) =~= seq![stored(comps, fe)]);
                assert(node_files(after.last()) == flat_files(inner));
                assert(flat_files(after) =~= flat.insert(flat.len() as int, stored(comps, fe)));
            },
        }
    }
}

/// Does an entry of `files` have the path `k`?
pub open spec fn has_path(files: Seq<FileView>, k: Seq<char>) -> bool {
    exists|i: int| 0 <= i < files.len() && (#[trigger] files[i]).path == k
}

/// A new path put anywhere among distinct paths: they stay distinct, and the
/// map gains the entry under its path.
pub proof fn lemma_by_path_insert(files: Seq<FileView>, k: int, x: FileView)
    requires
        0 <= k <= files.len(),
        distinct_paths(files),
        !has_path(files, x.path),
    ensures
        distinct_paths(files.insert(k, x)),
        by_path(files.insert(k, x)) == by_path(files).insert(x.path, x),
{
    let after = files.insert(k, x);
    assert forall|i: int, j: int|
        0 <= i < after.len() && 0 <= j < after.len() && i != j implies (#[trigger] after[i]).path
        != (#[trigger] after[j]).path by {
        let oi = if i < k {
            i
        } else {
            i - 1
        };
        let oj = if j < k {
            j
        } else {
            j - 1
        };
        if i != k {
            assert(after[i] == files[oi]);
        }
        if j != k {
            assert(after[j] == files[oj]);
        }
    }
    let lhs = by_path(after);
    let rhs = by_path(files).insert(x.path, x);
    assert forall|p: Seq<char>|
        #![trigger lhs.dom().contains(p)]
        #![trigger rhs.dom().contains(p)]
        lhs.dom().contains(p) == rhs.dom().contains(p) && (lhs.dom().contains(p) ==> lhs[p]
            == rhs[p]) by {
        lemma_absorb_dom(Map::empty(), after, p);
        lemma_absorb_dom(Map::empty(), files, p);
        if p == x.path {
            assert(after[k] == x);
            lemma_absorb_distinct(Map::empty(), after, k);
        } else {
            if has_path(after, p) {
                let i = choose|i: int| 0 <= i < after.len() && (#[trigger] after[i]).path == p;
                let oi = if i < k {
                    i
                } else {
                    i - 1
                };
                assert(after[i] == files[oi]);
                lemma_absorb_distinct(Map::empty(), after, i);
                lemma_absorb_distinct(Map::empty(), files, oi);
            }
            if has_path(files, p) {
                let i = choose|i: int| 0 <= i < files.len() && (#[trigger] files[i]).path == p;
                let ni = if i < k {
                    i
                } else {
                    i + 1
                };
                assert(after[ni] == files[i]);
            }
        }
    }
    assert(lhs =~= rhs);
}

/// The entries that a build keeps, as it stores them: those whose path has an
/// ordinary component, each under the last such component as its name.
pub open spec fn kept(files: Seq<FileView>) -> Seq<FileView>
    decreases files.len(),
{
    if files.len() == 0 {
        Seq::empty()
    } else {
        let front = kept(files.drop_last());
        let comps = tree_components(files.last().path);
        if comps.len() == 0 {
            front
        } else {
            front.push(stored(comps, files.last()))
        }
    }
}

/// An entry that a build stores unchanged: its path has an ordinary component
/// and its name is the last one.
pub open spec fn well_placed(fe: FileView) -> bool {
    tree_components(fe.path).len() > 0 && fe.name == tree_components(fe.path).last()
}

/// Of well-placed entries a build keeps all, unchanged.
pub proof fn lemma_kept_all(files: Seq<FileView>)
    requires
        forall|i: int| 0 <= i < files.len() ==> well_placed(#[trigger] files[i]),
    ensures
        kept(files) == files,
    decreases files.len(),
{
    if files.len() > 0 {
        let front = files.drop_last();
        assert forall|i: int| 0 <= i < front.len() implies well_placed(#[trigger] front[i]) by {
            assert(front[i] == files[i]);
        }
        lemma_kept_all(front);
        assert(well_placed(files[files.len() - 1]));
        assert(kept(files) =~= files);
    }
}

/// The paths that a build keeps are paths of the input, in the same order.
proof fn lemma_kept_paths(files: Seq<FileView>)
    requires
        distinct_paths(files),
    ensures
        distinct_paths(kept(files)),
        forall|k: Seq<char>| has_path(kept(files), k) ==> has_path(files, k),
    decreases files.len(),
{
    if files.len() > 0 {
        let front = files.drop_last();
        let last = files.last();
        lemma_distinct_front(files);
        lemma_kept_paths(front);
        let kf = kept(front);
        let kk = kept(files);
        assert forall|k: Seq<char>| has_path(front, k) implies has_path(files, k) && k
            != last.path by {
            let i = choose|i: int| 0 <= i < front.len() && (#[trigger] front[i]).path == k;
            assert(files[i] == front[i]);
            assert(files[files.len() - 1] == last);
        }
        assert(files[files.len() - 1].path == last.path);
        assert forall|k: Seq<char>| has_path(kk, k) implies has_path(files, k) by {
            let i = choose|i: int| 0 <= i < kk.len() && (#[trigger] kk[i]).path == k;
            if i < kf.len() {
                assert(kf[i] == kk[i]);
                assert(has_path(kf, k));
            }
        }
        assert forall|a: int, b: int|
            0 <= a < kk.len() && 0 <= b < kk.len() && a != b implies (#[trigger] kk[a]).path != (
        #[trigger] kk[b]).path by {
            if a < kf.len() {
                assert(kk[a] == kf[a]);
                assert(has_path(kf, kk[a].path));
                assert(has_path(front, kk[a].path));
            } else {
                assert(kk[a].path == last.path);
            }
            if b < kf.len() {
                assert(kk[b] == kf[b]);
                assert(has_path(kf, kk[b].path));
                assert(has_path(front, kk[b].path));
            } else {
                assert(kk[b].path == last.path);
            }
        }
    }
}

/// The flattening of a built forest holds the kept entries and no others,
/// each once.
proof fn lemma_build_flat(files: Seq<FileView>, now: Timestamp)
    requires
        distinct_paths(files),
    ensures
        distinct_paths(flat_files(spec_build(files, now))),
        by_path(flat_files(spec_build(files, now))) == by_path(kept(files)),
        forall|k: Seq<char>|
            has_path(flat_files(spec_build(files, now)), k) <==> has_path(kept(files), k),
    decreases files.len(),
{
    if files.len() == 0 {
        assert(flat_files(Seq::<NodeView>::empty()) =~= Seq::empty());
    } else {
        let front = files.drop_last();
        let last = files.last();
        lemma_distinct_front(files);
        lemma_build_flat(front, now);
        lemma_kept_paths(front);
        let comps = tree_components(last.path);
        let forest = spec_build(front, now);
        let flat = flat_files(forest);
        if comps.len() > 0 {
            let x = stored(comps, last);
            let k = insert_position(forest, comps, 0);
            lemma_insert_flat(forest, comps, 0, last, now);
            let kf = kept(front);
            assert(!has_path(front, last.path)) by {
                if has_path(front, last.path) {
                    let i = choose|i: int|
                        0 <= i < front.len() && (#[trigger] front[i]).path == last.path;
                    assert(files[i] == front[i]);
                    assert(files[files.len() - 1] == last);
                }
            }
            assert(!has_path(kf, x.path));
            assert(!has_path(flat, x.path));
            lemma_by_path_insert(flat, k, x);
            lemma_by_path_insert(kf, kf.len() as int, x);
            assert(kf.insert(kf.len() as int, x) =~= kf.push(x));
            let after = flat.insert(k, x);
            let kk = kept(files);
            assert forall|p: Seq<char>| has_path(after, p) <==> has_path(kk, p) by {
                lemma_absorb_dom(Map::empty(), after, p);
                lemma_absorb_dom(Map::empty(), kk, p);
            }
        }
    }
}

/// Flattening a built tree gives back the entries it was built from: those
/// that the build keeps, as it stores them.
pub proof fn lemma_rebuild_index(files: Seq<FileView>, now: Timestamp)
    requires
        distinct_paths(files),
    ensures
        spec_index(spec_build(files, now)) == by_path(kept(files)),
{
    lemma_build_flat(files, now);
}

/// Round trip: for entries with distinct paths, each well placed, the index
/// of the tree built from them is the map they came from.
pub proof fn lemma_rebuild_roundtrip(files: Seq<FileView>, now: Timestamp)
    requires
        distinct_paths(files),
        forall|i: int| 0 <= i < files.len() ==> well_placed(#[trigger] files[i]),
    ensures
        spec_index(spec_build(files, now)) == by_path(files),
{
    lemma_build_flat(files, now);
    lemma_kept_all(files);
}

/// `n` with every directory in it stamped `now`.
pub open spec fn restamped_node(n: NodeView, now: Timestamp) -> NodeView
    decreases n, 0int,
{
    match n {
        NodeView::Dir(d) => NodeView::Dir(
            DirView { updated_at: now, entries: restamped(d.entries, now), ..d },
        ),
        NodeView::File(f) => NodeView::File(f),
    }
}

/// `forest` with every directory in it stamped `now`.
pub open spec fn restamped(forest: Seq<NodeView>, now: Timestamp) -> Seq<NodeView>
    decreases forest, 1int,
{
    Seq::new(
        forest.len(),
        |i: int|
            if 0 <= i < forest.len() {
                restamped_node(forest[i], now)
            } else {
                arbitrary()
            },
    )
}

proof fn lemma_find_dir_restamped(forest: Seq<NodeView>, name: Seq<char>, now: Timestamp)
    ensures
        find_dir(restamped(forest, now), name) == find_dir(forest, name),
    decreases forest.len(),
{
    if forest.len() > 0 {
        assert(restamped(forest, now).drop_first() =~= restamped(forest.drop_first(), now));
        lemma_find_dir_restamped(forest.drop_first(), name, now);
    }
}

/// Stamps are all that the time of an insertion leaves in a tree: inserting
/// at one time and stamping anew is inserting into the tree stamped anew.
pub proof fn lemma_insert_restamped(
    forest: Seq<NodeView>,
    comps: Seq<Seq<char>>,
    from: int,
    fe: FileView,
    at: Timestamp,
    now: Timestamp,
)
    ensures
        restamped(spec_insert(forest, comps, from, fe, at), now) == spec_insert(
            restamped(forest, now),
            comps,
            from,
            fe,
            now,
        ),
    decreases comps.len() - from,
{
    let stamped = restamped(forest, now);
    let before = spec_insert(forest, comps, from, fe, at);
    let after = spec_insert(stamped, comps, from, fe, now);
    if from < 0 || from >= comps.len() {
    } else if from == comps.len() - 1 {
        assert(restamped(before, now) =~= after);
    } else {
        lemma_find_dir_restamped(forest, comps[from], now);
        lemma_find_dir_range(forest, comps[from]);
        match find_dir(forest, comps[from]) {
            Some(i) => {
                let d = forest[i]->Dir_0;
                lemma_insert_restamped(d.entries, comps, from + 1, fe, at, now);
                assert(stamped[i]->Dir_0.entries == restamped(d.entries, now));
                assert(restamped(before, now) =~= after);
            },
            None => {
                lemma_insert_restamped(Seq::empty(), comps, from + 1, fe, at, now);
                assert(restamped(Seq::<NodeView>::empty(), now) =~= Seq::<NodeView>::empty());
                assert(restamped(before, now) =~= after);
            },
        }
    }
}

/// Two builds from the same entries differ in the stamps of their
/// directories alone.
pub proof fn lemma_build_restamped(files: Seq<FileView>, at: Timestamp, now: Timestamp)
    ensures
        restamped(spec_build(files, at), now) == spec_build(files, now),
    decreases files.len(),
{
    if files.len() == 0 {
        assert(restamped(Seq::<NodeView>::empty(), now) =~= Seq::<NodeView>::empty());
    } else {
        lemma_build_restamped(files.drop_last(), at, now);
        lemma_insert_restamped(
            spec_build(files.drop_last(), at),
            tree_components(files.last().path),
            0,
            files.last(),
            at,
            now,
        );
    }
}

} // verus!
