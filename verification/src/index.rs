//! The cache index: file entries keyed by their relative path.

use crate::model::{forest_view, FileEntry, FileView, Node, NodeView};
use vstd::hash_map::StringHashMap;
use vstd::prelude::*;

verus! {

/// The map from path to entry.
pub type PathMap = Map<Seq<char>, FileView>;

/// `m` after the entries of `files` were written into it one after the other,
/// each under its own path: of two entries with one path the later one stays.
pub open spec fn absorb(m: PathMap, files: Seq<FileView>) -> PathMap
    decreases files.len(),
{
    if files.len() == 0 {
        m
    } else {
        absorb(m, files.drop_last()).insert(files.last().path, files.last())
    }
}

/// The entries of `files` by path.
pub open spec fn by_path(files: Seq<FileView>) -> PathMap {
    absorb(Map::empty(), files)
}

/// No two entries of `files` have the same path.
pub open spec fn distinct_paths(files: Seq<FileView>) -> bool {
    forall|i: int, j: int|
        0 <= i < files.len() && 0 <= j < files.len() && i != j ==> (#[trigger] files[i]).path != (
        #[trigger] files[j]).path
}

/// The file entries below one node, depth first.
pub open spec fn node_files(n: NodeView) -> Seq<FileView>
    decreases n, 0int,
{
    match n {
        NodeView::Dir(d) => flat_files(d.entries),
        NodeView::File(f) => seq![f],
    }
}

/// The file entries of a forest in the order of a depth-first traversal.
pub open spec fn flat_files(forest: Seq<NodeView>) -> Seq<FileView>
    decreases forest, 1int,
{
    if forest.len() == 0 {
        Seq::empty()
    } else {
        flat_files(forest.drop_last()) + node_files(forest.last())
    }
}

/// The index of a forest: every file entry under its path, the entry visited
/// last winning where a path occurs twice.
pub open spec fn spec_index(forest: Seq<NodeView>) -> PathMap {
    by_path(flat_files(forest))
}

/// Which paths `absorb` holds, and that a path outside `files` keeps its entry.
pub proof fn lemma_absorb_dom(m: PathMap, files: Seq<FileView>, k: Seq<char>)
    ensures
        absorb(m, files).contains_key(k) <==> (m.contains_key(k) || exists|i: int|
            0 <= i < files.len() && (#[trigger] files[i]).path == k),
        (forall|i: int| 0 <= i < files.len() ==> (#[trigger] files[i]).path != k) ==> absorb(
            m,
            files,
        )[k] == m[k],
    decreases files.len(),
{
    if files.len() > 0 {
        let front = files.drop_last();
        lemma_absorb_dom(m, front, k);
        if exists|i: int| 0 <= i < files.len() && (#[trigger] files[i]).path == k {
            let i = choose|i: int| 0 <= i < files.len() && (#[trigger] files[i]).path == k;
            if i < front.len() {
                assert(front[i].path == k);
            }
        }
        if exists|i: int| 0 <= i < front.len() && (#[trigger] front[i]).path == k {
            let i = choose|i: int| 0 <= i < front.len() && (#[trigger] front[i]).path == k;
            assert(files[i].path == k);
        }
        assert forall|i: int| 0 <= i < front.len() implies files[i] == #[trigger] front[i] by {}
    }
}

/// Distinct paths stay distinct when the last entry is left out.
pub proof fn lemma_distinct_front(files: Seq<FileView>)
    requires
        distinct_paths(files),
        files.len() > 0,
    ensures
        distinct_paths(files.drop_last()),
{
    let front = files.drop_last();
    assert forall|a: int, b: int|
        0 <= a < front.len() && 0 <= b < front.len() && a != b implies (#[trigger] front[a]).path != (
    #[trigger] front[b]).path by {
        assert(front[a] == files[a]);
        assert(front[b] == files[b]);
    }
}

/// Among distinct paths every entry is found under its own path.
pub proof fn lemma_absorb_distinct(m: PathMap, files: Seq<FileView>, i: int)
    requires
        distinct_paths(files),
        0 <= i < files.len(),
    ensures
        absorb(m, files).contains_key(files[i].path),
        absorb(m, files)[files[i].path] == files[i],
    decreases files.len(),
{
    let front = files.drop_last();
    if i < files.len() - 1 {
        lemma_distinct_front(files);
        lemma_absorb_distinct(m, front, i);
        assert(front[i] == files[i]);
        assert(files.last() == files[files.len() - 1]);
    }
}

/// The position of the entry with path `k` in `files`, if there is one.
pub open spec fn position_of(files: Seq<FileView>, k: Seq<char>) -> Option<int>
    decreases files.len(),
{
    if files.len() == 0 {
        None
    } else if files.last().path == k {
        Some(files.len() - 1)
    } else {
        position_of(files.drop_last(), k)
    }
}

/// `files` with `fe` put in the place of the entry that has its path, or at
/// the end where no entry has it.
pub open spec fn placed(files: Seq<FileView>, fe: FileView) -> Seq<FileView> {
    match position_of(files, fe.path) {
        Some(i) => files.update(i, fe),
        None => files.push(fe),
    }
}

/// Where `position_of` points.
pub proof fn lemma_position_of(files: Seq<FileView>, k: Seq<char>)
    ensures
        match position_of(files, k) {
            Some(i) => 0 <= i < files.len() && files[i].path == k,
            None => forall|i: int| 0 <= i < files.len() ==> (#[trigger] files[i]).path != k,
        },
    decreases files.len(),
{
    if files.len() > 0 && files.last().path != k {
        let front = files.drop_last();
        lemma_position_of(front, k);
        if position_of(front, k) is None {
            assert forall|i: int| 0 <= i < files.len() implies (#[trigger] files[i]).path != k by {
                if i < front.len() {
                    assert(front[i].path != k);
                }
            }
        }
    }
}

/// Placing an entry writes it under its path.
pub proof fn lemma_placed(files: Seq<FileView>, fe: FileView)
    ensures
        by_path(placed(files, fe)) == by_path(files).insert(fe.path, fe),
    decreases files.len(),
{
    let after = placed(files, fe);
    if files.len() == 0 {
        assert(after.drop_last() =~= files);
    } else if files.last().path == fe.path {
        assert(after.drop_last() =~= files.drop_last());
        assert(by_path(after) =~= by_path(files).insert(fe.path, fe));
    } else {
        let front = files.drop_last();
        lemma_placed(front, fe);
        lemma_position_of(front, fe.path);
        match position_of(front, fe.path) {
            Some(i) => {
                assert(after.drop_last() =~= placed(front, fe));
                assert(after.last() == files.last());
                assert(by_path(after) =~= by_path(files).insert(fe.path, fe));
            },
            None => {
                assert(after.drop_last() =~= files);
            },
        }
    }
}

/// Placing an entry among distinct paths keeps them distinct.
pub proof fn lemma_placed_distinct(files: Seq<FileView>, fe: FileView)
    requires
        distinct_paths(files),
    ensures
        distinct_paths(placed(files, fe)),
{
    let after = placed(files, fe);
    lemma_position_of(files, fe.path);
    assert forall|i: int, j: int|
        0 <= i < after.len() && 0 <= j < after.len() && i != j implies (#[trigger] after[i]).path != (
    #[trigger] after[j]).path by {
        if i < files.len() {
            assert(after[i].path == files[i].path);
        }
        if j < files.len() {
            assert(after[j].path == files[j].path);
        }
    }
}

/// `order` after the entries `files` were placed one after the other.
pub open spec fn place_all(order: Seq<FileView>, files: Seq<FileView>) -> Seq<FileView>
    decreases files.len(),
{
    if files.len() == 0 {
        order
    } else {
        placed(place_all(order, files.drop_last()), files.last())
    }
}

/// Placing one entry.
pub proof fn lemma_place_one(order: Seq<FileView>, fe: FileView)
    ensures
        place_all(order, seq![fe]) == placed(order, fe),
{
    assert(seq![fe].drop_last() =~= Seq::<FileView>::empty());
    assert(place_all(order, seq![fe].drop_last()) == order);
}

/// Placing `a + b` is placing `a`, then `b`.
pub proof fn lemma_place_all_concat(order: Seq<FileView>, a: Seq<FileView>, b: Seq<FileView>)
    ensures
        place_all(order, a + b) == place_all(place_all(order, a), b),
    decreases b.len(),
{
    if b.len() == 0 {
        assert(a + b =~= a);
    } else {
        assert((a + b).drop_last() =~= a + b.drop_last());
        lemma_place_all_concat(order, a, b.drop_last());
    }
}

/// Placing entries writes each under its path, the later over the earlier.
pub proof fn lemma_place_all(order: Seq<FileView>, files: Seq<FileView>)
    ensures
        by_path(place_all(order, files)) == absorb(by_path(order), files),
    decreases files.len(),
{
    if files.len() > 0 {
        lemma_place_all(order, files.drop_last());
        lemma_placed(place_all(order, files.drop_last()), files.last());
    }
}

/// File entries keyed by path, kept in the order in which their paths first
/// came. The order is part of the map: what is built from it comes out the
/// same on every run. A lookup goes through a hash map from path to place.
pub struct FileMap {
    slots: StringHashMap<usize>,
    files: Vec<FileEntry>,
}

/// The views of a sequence of entries.
pub open spec fn files_view(files: Seq<FileEntry>) -> Seq<FileView> {
    files.map_values(|f: FileEntry| f@)
}

impl View for FileMap {
    type V = PathMap;

    /// The entries by path.
    open spec fn view(&self) -> PathMap {
        by_path(self.order())
    }
}

impl FileMap {
    #[verifier::type_invariant]
    closed spec fn inv(self) -> bool {
        &&& forall|i: int|
            0 <= i < self.files.len() ==> self.slots@.contains_key(#[trigger] self.files[i].path@)
                && self.slots@[self.files[i].path@] == i
        &&& forall|k: Seq<char>| #[trigger]
            self.slots@.contains_key(k) ==> self.slots@[k] < self.files.len()
                && self.files[self.slots@[k] as int].path@ == k
    }

    /// The entries in the order in which their paths first came.
    pub closed spec fn order(&self) -> Seq<FileView> {
        files_view(self.files@)
    }

    /// An empty map.
    pub fn new() -> (r: Self)
        ensures
            r.order() == Seq::<FileView>::empty(),
            r@ == Map::<Seq<char>, FileView>::empty(),
    {
        let r = FileMap { slots: StringHashMap::new(), files: Vec::new() };
        assert(r.order() =~= Seq::<FileView>::empty());
        r
    }

    /// Writes `fe` under its path: over the entry that has this path, in its
    /// place, or else behind all others.
    pub fn insert(&mut self, fe: FileEntry)
        ensures
            final(self).order() == placed(old(self).order(), fe@),
            final(self)@ == old(self)@.insert(fe@.path, fe@),
            distinct_paths(final(self).order()),
    {
        proof {
            use_type_invariant(&*self);
            self.lemma_order();
            lemma_position_of(self.order(), fe@.path);
            lemma_placed(self.order(), fe@);
            lemma_placed_distinct(self.order(), fe@);
        }
        let mut taken = FileMap::new();
        std::mem::swap(self, &mut taken);
        let FileMap { mut slots, mut files } = taken;
        let found: Option<usize> = match slots.get(fe.path.as_str()) {
            Some(i) => Some(*i),
            None => None,
        };
        match found {
            Some(i) => {
                files.set(i, fe);
            },
            None => {
                slots.insert(fe.path.clone(), files.len());
                files.push(fe);
            },
        }
        assert(files_view(files@) =~= placed(old(self).order(), fe@));
        *self = FileMap { slots, files };
    }

    /// The invariant, read on the order: paths are distinct and `slots` holds
    /// each entry's position.
    proof fn lemma_order(self)
        requires
            self.inv(),
        ensures
            distinct_paths(self.order()),
            forall|k: Seq<char>|
                position_of(self.order(), k) == (if self.slots@.contains_key(k) {
                    Some(self.slots@[k] as int)
                } else {
                    None
                }),
    {
        let order = self.order();
        assert forall|k: Seq<char>|
            position_of(order, k) == (if self.slots@.contains_key(k) {
                Some(self.slots@[k] as int)
            } else {
                None
            }) by {
            lemma_position_of(order, k);
            if self.slots@.contains_key(k) {
                let i = self.slots@[k] as int;
                assert(order[i].path == k);
            }
        }
    }

    /// The entry stored under `path`.
    pub fn get(&self, path: &str) -> (r: Option<&FileEntry>)
        ensures
            match r {
                Some(e) => self@.contains_key(path@) && e@ == self@[path@],
                None => !self@.contains_key(path@),
            },
    {
        proof {
            use_type_invariant(self);
            self.lemma_order();
            lemma_position_of(self.order(), path@);
            lemma_absorb_dom(Map::empty(), self.order(), path@);
        }
        match self.slots.get(path) {
            Some(i) => {
                proof {
                    lemma_absorb_distinct(Map::empty(), self.order(), *i as int);
                }
                Some(&self.files[*i])
            },
            None => None,
        }
    }

    /// Is there an entry under `path`?
    pub fn contains_key(&self, path: &str) -> (r: bool)
        ensures
            r == self@.contains_key(path@),
    {
        self.get(path).is_some()
    }

    /// The entries in order.
    pub fn entries(&self) -> (r: &Vec<FileEntry>)
        ensures
            files_view(r@) == self.order(),
            distinct_paths(self.order()),
    {
        proof {
            use_type_invariant(self);
            self.lemma_order();
        }
        &self.files
    }

    /// The number of entries.
    pub fn len(&self) -> (n: usize)
        ensures
            n == self.order().len(),
    {
        self.files.len()
    }
}

/// Adds every file entry of `nodes` to `map` under its path, depth first.
/// Directories are walked and never added; an entry visited later replaces an
/// earlier one with the same path.
pub fn index_files_by_path(nodes: &Vec<Node>, map: &mut FileMap)
    ensures
        final(map).order() == place_all(old(map).order(), flat_files(forest_view(nodes@))),
        final(map)@ == absorb(old(map)@, flat_files(forest_view(nodes@))),
    decreases nodes,
{
    let mut i: usize = 0;
    let ghost forest = forest_view(nodes@);
    let ghost start = map.order();
    assert(forest.take(0) =~= Seq::empty());
    while i < nodes.len()
        invariant
            i <= nodes.len(),
            forest == forest_view(nodes@),
            map.order() == place_all(start, flat_files(forest.take(i as int))),
        decreases nodes.len() - i,
    {
        proof {
            assert(forest.take(i + 1).drop_last() =~= forest.take(i as int));
            lemma_place_all_concat(
                start,
                flat_files(forest.take(i as int)),
                node_files(forest[i as int]),
            );
        }
        match &nodes[i] {
            Node::Dir(d) => {
                index_files_by_path(&d.entries, map);
            },
            Node::File(f) => {
                proof {
                    lemma_place_one(map.order(), f@);
                }
                map.insert(f.clone());
            },
        }
        i = i + 1;
    }
    proof {
        assert(forest.take(i as int) =~= forest);
        lemma_place_all(start, flat_files(forest));
    }
}

} // verus!
