//! Sub-cache discovery: which directories below a root carry a cache file of
//! their own. The walk over the filesystem is the caller's; the decisions are
//! made here, one directory listing at a time.

use crate::paths::{
    path_eq, path_join, path_lt, root_marker, spec_path_eq, spec_path_join, spec_path_lt,
};
use crate::strings::{eq_ignore_ascii_case, same_ignoring_ascii_case, strings_view};
use vstd::prelude::*;

verus! {

/// The name under which a run writes the cache of its root.
pub open spec fn written_cache_name() -> Seq<char> {
    root_marker()
}

/// The other name under which a cache file is recognized.
pub open spec fn short_cache_name() -> Seq<char> {
    seq!['.', 'd', 'i', 'r', '.', 'n', 'u', 'o', 'n']
}

/// Is `name` one of the two recognized cache file names, in any ASCII case?
///
/// The two names are the one that a run writes, `.dirdocs.nuon`, and
/// `.dir.nuon`: a directory that was processed on its own is found again by
/// the cache that this run left in it. So a root that holds a cache of its
/// own is a cache root too, and a walk that starts there stops there.
pub open spec fn spec_is_cache_name(name: Seq<char>) -> bool {
    same_ignoring_ascii_case(written_cache_name(), name) || same_ignoring_ascii_case(
        short_cache_name(),
        name,
    )
}

/// Is `name` one of the two recognized cache file names?
pub fn is_cache_name(name: &str) -> (r: bool)
    ensures
        r == spec_is_cache_name(name@),
{
    proof {
        reveal_strlit(".dirdocs.nuon");
        reveal_strlit(".dir.nuon");
    }
    assert(".dirdocs.nuon"@ =~= written_cache_name());
    assert(".dir.nuon"@ =~= short_cache_name());
    eq_ignore_ascii_case(".dirdocs.nuon", name) || eq_ignore_ascii_case(".dir.nuon", name)
}

/// The places where the cache file of the directory `dir` may lie, in the
/// order in which they are tried.
pub fn cache_candidates(dir: &str) -> (r: Vec<String>)
    ensures
        strings_view(r@) == seq![
            spec_path_join(dir@, written_cache_name()),
            spec_path_join(dir@, short_cache_name()),
        ],
{
    proof {
        reveal_strlit(".dirdocs.nuon");
        reveal_strlit(".dir.nuon");
    }
    assert(".dirdocs.nuon"@ =~= written_cache_name());
    assert(".dir.nuon"@ =~= short_cache_name());
    let mut out: Vec<String> = Vec::new();
    out.push(path_join(dir, ".dirdocs.nuon"));
    out.push(path_join(dir, ".dir.nuon"));
    assert(strings_view(out@) =~= seq![
        spec_path_join(dir@, written_cache_name()),
        spec_path_join(dir@, short_cache_name()),
    ]);
    out
}

/// What kind of thing a directory entry is.
#[derive(Clone, Copy, PartialEq, Eq, Structural, Debug)]
pub enum EntryKind {
    File,
    Dir,
    Other,
}

/// One entry of a directory listing.
#[derive(Debug)]
pub struct DirItem {
    /// The entry's file name.
    pub name: String,
    /// The entry's full path.
    pub path: String,
    pub kind: EntryKind,
}

pub struct ItemView {
    pub name: Seq<char>,
    pub path: Seq<char>,
    pub kind: EntryKind,
}

impl View for DirItem {
    type V = ItemView;

    open spec fn view(&self) -> ItemView {
        ItemView { name: self.name@, path: self.path@, kind: self.kind }
    }
}

/// The views of a listing.
pub open spec fn listing_view(items: Seq<DirItem>) -> Seq<ItemView> {
    items.map_values(|x: DirItem| x@)
}

/// Is `item` a cache file?
pub open spec fn is_cache_file(item: ItemView) -> bool {
    item.kind == EntryKind::File && spec_is_cache_name(item.name)
}

/// Does the listing hold a cache file?
pub open spec fn has_cache(listing: Seq<ItemView>) -> bool {
    exists|i: int| 0 <= i < listing.len() && is_cache_file(#[trigger] listing[i])
}

/// The paths of the directories of a listing, in order.
pub open spec fn subdirs(listing: Seq<ItemView>) -> Seq<Seq<char>>
    decreases listing.len(),
{
    if listing.len() == 0 {
        Seq::empty()
    } else {
        let front = subdirs(listing.drop_last());
        if listing.last().kind == EntryKind::Dir {
            front.push(listing.last().path)
        } else {
            front
        }
    }
}

/// Does the listing hold a cache file?
pub fn listing_has_cache(listing: &Vec<DirItem>) -> (r: bool)
    ensures
        r == has_cache(listing_view(listing@)),
{
    let mut i: usize = 0;
    while i < listing.len()
        invariant
            i <= listing.len(),
            forall|j: int| 0 <= j < i ==> !is_cache_file(#[trigger] listing_view(listing@)[j]),
        decreases listing.len() - i,
    {
        let hit = match listing[i].kind {
            EntryKind::File => is_cache_name(listing[i].name.as_str()),
            _ => false,
        };
        if hit {
            assert(is_cache_file(listing_view(listing@)[i as int]));
            return true;
        }
        i = i + 1;
    }
    false
}

/// `sorted` with `x` put in behind the last path that it does not come before.
pub open spec fn inserted(sorted: Seq<Seq<char>>, x: Seq<char>) -> Seq<Seq<char>>
    decreases sorted.len(),
{
    if sorted.len() == 0 {
        seq![x]
    } else if spec_path_lt(x, sorted.last()) {
        inserted(sorted.drop_last(), x).push(sorted.last())
    } else {
        sorted.push(x)
    }
}

/// `paths` in the order of `Path`, paths that compare alike kept in the order
/// in which they came.
pub open spec fn sorted_paths(paths: Seq<Seq<char>>) -> Seq<Seq<char>>
    decreases paths.len(),
{
    if paths.len() == 0 {
        Seq::empty()
    } else {
        inserted(sorted_paths(paths.drop_last()), paths.last())
    }
}

/// `paths` without those that equal, as paths, the one kept before them.
pub open spec fn deduped(paths: Seq<Seq<char>>) -> Seq<Seq<char>>
    decreases paths.len(),
{
    if paths.len() == 0 {
        Seq::empty()
    } else {
        let front = deduped(paths.drop_last());
        if front.len() > 0 && spec_path_eq(paths.last(), front.last()) {
            front
        } else {
            front.push(paths.last())
        }
    }
}

/// No two neighbours of `paths` stand against the order: the earlier comes
/// before the later, or at least the later not before the earlier.
pub open spec fn in_order(paths: Seq<Seq<char>>) -> bool {
    forall|i: int|
        #![trigger paths[i]]
        0 <= i && i + 1 < paths.len() ==> spec_path_lt(paths[i], paths[i + 1]) || !spec_path_lt(
            paths[i + 1],
            paths[i],
        )
}

/// No two neighbours of `paths` are equal as paths.
pub open spec fn no_repeats(paths: Seq<Seq<char>>) -> bool {
    forall|i: int|
        #![trigger paths[i]]
        0 <= i && i + 1 < paths.len() ==> !spec_path_eq(paths[i + 1], paths[i])
}

/// Putting a path in keeps the others, and keeps the order.
pub proof fn lemma_inserted(sorted: Seq<Seq<char>>, x: Seq<char>)
    ensures
        inserted(sorted, x).to_multiset() == sorted.to_multiset().insert(x),
        in_order(sorted) ==> in_order(inserted(sorted, x)),
        inserted(sorted, x).len() == sorted.len() + 1,
        inserted(sorted, x).last() == x || (sorted.len() > 0 && inserted(sorted, x).last()
            == sorted.last() && spec_path_lt(x, sorted.last())),
    decreases sorted.len(),
{
    broadcast use vstd::seq_lib::group_to_multiset_ensures;

    let after = inserted(sorted, x);
    if sorted.len() == 0 {
        assert(after =~= Seq::<Seq<char>>::empty().push(x));
        assert(sorted =~= Seq::<Seq<char>>::empty());
    } else if spec_path_lt(x, sorted.last()) {
        let front = sorted.drop_last();
        let mid = inserted(front, x);
        lemma_inserted(front, x);
        assert(sorted =~= front.push(sorted.last()));
        assert(after.to_multiset() =~= sorted.to_multiset().insert(x));
        if in_order(sorted) {
            assert forall|i: int| 0 <= i && i + 1 < front.len() implies spec_path_lt(
                #[trigger] front[i],
                front[i + 1],
            ) || !spec_path_lt(front[i + 1], front[i]) by {
                assert(front[i] == sorted[i]);
                assert(front[i + 1] == sorted[i + 1]);
            }
            assert forall|i: int| 0 <= i && i + 1 < after.len() implies spec_path_lt(
                #[trigger] after[i],
                after[i + 1],
            ) || !spec_path_lt(after[i + 1], after[i]) by {
                if i + 1 < mid.len() {
                    assert(after[i] == mid[i]);
                    assert(after[i + 1] == mid[i + 1]);
                } else {
                    assert(after[i] == mid.last());
                    assert(after[i + 1] == sorted.last());
                    if mid.last() != x {
                        assert(front.len() > 0);
                        assert(front.last() == sorted[sorted.len() - 2]);
                        assert(sorted.last() == sorted[sorted.len() - 2 + 1]);
                    }
                }
            }
        }
    } else {
        if in_order(sorted) {
            assert forall|i: int| 0 <= i && i + 1 < after.len() implies spec_path_lt(
                #[trigger] after[i],
                after[i + 1],
            ) || !spec_path_lt(after[i + 1], after[i]) by {
                if i + 1 < sorted.len() {
                    assert(after[i] == sorted[i]);
                    assert(after[i + 1] == sorted[i + 1]);
                }
            }
        }
    }
}

/// Sorting keeps every path, each as often as it came, and leaves no two
/// neighbours against the order.
pub proof fn lemma_sorted_paths(paths: Seq<Seq<char>>)
    ensures
        sorted_paths(paths).to_multiset() == paths.to_multiset(),
        in_order(sorted_paths(paths)),
    decreases paths.len(),
{
    broadcast use vstd::seq_lib::group_to_multiset_ensures;

    if paths.len() == 0 {
        assert(paths =~= Seq::<Seq<char>>::empty());
    } else {
        lemma_sorted_paths(paths.drop_last());
        lemma_inserted(sorted_paths(paths.drop_last()), paths.last());
        assert(paths =~= paths.drop_last().push(paths.last()));
    }
}

/// What is left after dropping repetitions has no two neighbours that are
/// equal as paths.
pub proof fn lemma_deduped(paths: Seq<Seq<char>>)
    ensures
        no_repeats(deduped(paths)),
        deduped(paths).len() <= paths.len(),
        paths.len() > 0 ==> deduped(paths).len() > 0,
    decreases paths.len(),
{
    if paths.len() > 0 {
        let front = deduped(paths.drop_last());
        lemma_deduped(paths.drop_last());
        let after = deduped(paths);
        assert forall|i: int| 0 <= i && i + 1 < after.len() implies !spec_path_eq(
            after[i + 1],
            #[trigger] after[i],
        ) by {
            if i + 1 < front.len() {
                assert(after[i] == front[i]);
                assert(after[i + 1] == front[i + 1]);
            }
        }
    }
}

/// Where `inserted` puts `x`: behind the first `j` paths, when `x` comes
/// before every later one and not before the one at `j - 1`.
proof fn lemma_inserted_at(sorted: Seq<Seq<char>>, x: Seq<char>, j: int)
    requires
        0 <= j <= sorted.len(),
        forall|k: int| j <= k < sorted.len() ==> spec_path_lt(x, #[trigger] sorted[k]),
        j > 0 ==> !spec_path_lt(x, sorted[j - 1]),
    ensures
        inserted(sorted, x) == sorted.insert(j, x),
    decreases sorted.len(),
{
    if sorted.len() == 0 {
        assert(sorted.insert(j, x) =~= seq![x]);
    } else if j == sorted.len() {
        assert(sorted.insert(j, x) =~= sorted.push(x));
    } else {
        assert(spec_path_lt(x, sorted[sorted.len() - 1]));
        let front = sorted.drop_last();
        assert forall|k: int| j <= k < front.len() implies spec_path_lt(x, #[trigger] front[k]) by {
            assert(front[k] == sorted[k]);
        }
        if j > 0 {
            assert(front[j - 1] == sorted[j - 1]);
        }
        lemma_inserted_at(front, x, j);
        assert(front.insert(j, x).push(sorted.last()) =~= sorted.insert(j, x));
    }
}

/// Sorts paths in the order of `Path`; paths that compare alike stay in the
/// order in which they came.
pub fn sort_paths(paths: Vec<String>) -> (r: Vec<String>)
    ensures
        strings_view(r@) == sorted_paths(strings_view(paths@)),
{
    let mut out: Vec<String> = Vec::new();
    let rest = paths;
    let ghost all = strings_view(paths@);
    let mut i: usize = 0;
    assert(all.take(0) =~= Seq::empty());
    assert(strings_view(out@) =~= Seq::empty());
    while i < rest.len()
        invariant
            i <= rest.len(),
            strings_view(rest@) == all,
            strings_view(out@) == sorted_paths(all.take(i as int)),
        decreases rest.len() - i,
    {
        let x = rest[i].clone();
        let mut j: usize = out.len();
        while j > 0 && path_lt(x.as_str(), out[j - 1].as_str())
            invariant
                j <= out.len(),
                forall|k: int|
                    j <= k < out.len() ==> spec_path_lt(x@, #[trigger] strings_view(out@)[k]),
            decreases j,
        {
            j = j - 1;
        }
        proof {
            lemma_inserted_at(strings_view(out@), x@, j as int);
            assert(all.take(i + 1).drop_last() =~= all.take(i as int));
            assert(all.take(i + 1).last() == x@);
        }
        let ghost before = strings_view(out@);
        out.insert(j, x);
        assert(strings_view(out@) =~= before.insert(j as int, x@));
        i = i + 1;
    }
    assert(all.take(i as int) =~= all);
    out
}

/// Drops each path that equals, as a path, the one kept before it.
pub fn dedup_paths(paths: Vec<String>) -> (r: Vec<String>)
    ensures
        strings_view(r@) == deduped(strings_view(paths@)),
{
    let mut out: Vec<String> = Vec::new();
    let ghost all = strings_view(paths@);
    let mut i: usize = 0;
    assert(all.take(0) =~= Seq::empty());
    assert(strings_view(out@) =~= Seq::empty());
    while i < paths.len()
        invariant
            i <= paths.len(),
            strings_view(paths@) == all,
            strings_view(out@) == deduped(all.take(i as int)),
        decreases paths.len() - i,
    {
        assert(all.take(i + 1).drop_last() =~= all.take(i as int));
        let n = out.len();
        let repeated = n > 0 && path_eq(paths[i].as_str(), out[n - 1].as_str());
        if !repeated {
            let ghost before = strings_view(out@);
            out.push(paths[i].clone());
            assert(strings_view(out@) =~= before.push(paths[i as int]@));
        }
        i = i + 1;
    }
    assert(all.take(i as int) =~= all);
    out
}

/// The state of a discovery walk: the directories still to be listed, the
/// one taken last on top, and the cache roots found so far.
pub struct Discovery {
    pending: Vec<String>,
    found: Vec<String>,
}

impl Discovery {
    /// The directories still to be listed; the last one is listed next.
    pub closed spec fn pending(&self) -> Seq<Seq<char>> {
        strings_view(self.pending@)
    }

    /// The cache roots recorded so far.
    pub closed spec fn found(&self) -> Seq<Seq<char>> {
        strings_view(self.found@)
    }

    /// A walk that starts at `root`.
    pub fn new(root: String) -> (r: Self)
        ensures
            r.pending() == seq![root@],
            r.found() == Seq::<Seq<char>>::empty(),
    {
        let mut pending: Vec<String> = Vec::new();
        pending.push(root);
        let r = Discovery { pending, found: Vec::new() };
        assert(r.pending() =~= seq![root@]);
        assert(r.found() =~= Seq::<Seq<char>>::empty());
        r
    }

    /// Takes the directory to list next, or `None` when the walk is over.
    pub fn next_dir(&mut self) -> (r: Option<String>)
        ensures
            final(self).found() == old(self).found(),
            match r {
                Some(d) => old(self).pending().len() > 0 && d@ == old(self).pending().last()
                    && final(self).pending() == old(self).pending().drop_last(),
                None => old(self).pending().len() == 0 && final(self).pending() == old(
                    self,
                ).pending(),
            },
    {
        let r = self.pending.pop();
        proof {
            if old(self).pending@.len() > 0 {
                let before = strings_view(old(self).pending@);
                assert(strings_view(self.pending@) =~= before.drop_last());
            }
        }
        r
    }

    /// Takes in the listing of a directory. Where it holds a cache file, the
    /// directory is a cache root: the answer is `true`, and none of its
    /// subdirectories is queued. Otherwise all of them are queued, in order.
    pub fn visit(&mut self, listing: &Vec<DirItem>) -> (hit: bool)
        ensures
            hit == has_cache(listing_view(listing@)),
            final(self).found() == old(self).found(),
            hit ==> final(self).pending() == old(self).pending(),
            !hit ==> final(self).pending() == old(self).pending() + subdirs(listing_view(listing@)),
    {
        if listing_has_cache(listing) {
            return true;
        }
        let ghost items = listing_view(listing@);
        let ghost start = strings_view(self.pending@);
        let mut i: usize = 0;
        assert(items.take(0) =~= Seq::empty());
        assert(start + subdirs(items.take(0)) =~= start);
        while i < listing.len()
            invariant
                i <= listing.len(),
                items == listing_view(listing@),
                self.found == old(self).found,
                strings_view(self.pending@) == start + subdirs(items.take(i as int)),
            decreases listing.len() - i,
        {
            assert(items.take(i + 1).drop_last() =~= items.take(i as int));
            match listing[i].kind {
                EntryKind::Dir => {
                    let ghost before = strings_view(self.pending@);
                    self.pending.push(listing[i].path.clone());
                    assert(strings_view(self.pending@) =~= before.push(listing[i as int].path@));
                    assert(start + subdirs(items.take(i + 1)) =~= before.push(
                        listing[i as int].path@,
                    ));
                },
                _ => {},
            }
            i = i + 1;
        }
        assert(items.take(i as int) =~= items);
        false
    }

    /// Records a cache root.
    pub fn record(&mut self, dir: String)
        ensures
            final(self).pending() == old(self).pending(),
            final(self).found() == old(self).found().push(dir@),
    {
        self.found.push(dir);
        assert(strings_view(self.found@) =~= strings_view(old(self).found@).push(dir@));
    }

    /// Ends the walk: the cache roots found, sorted as paths and without
    /// repetitions.
    pub fn finish(self) -> (r: Vec<String>)
        ensures
            strings_view(r@) == deduped(sorted_paths(self.found())),
    {
        dedup_paths(sort_paths(self.found))
    }
}

/// What a walk finds: the listing of every directory that can be read.
pub type Listings = Map<Seq<char>, Seq<ItemView>>;

/// The cache roots that a walk records, in the order in which it meets them,
/// when it goes on from `pending` and `found` over the directories `fs` for
/// at most `steps` listings. A directory that cannot be read is passed over;
/// one that holds a cache file is recorded and not entered; of any other the
/// subdirectories are queued.
pub open spec fn spec_walk(
    fs: Listings,
    pending: Seq<Seq<char>>,
    found: Seq<Seq<char>>,
    steps: nat,
) -> Seq<Seq<char>>
    decreases steps,
{
    if steps == 0 || pending.len() == 0 {
        found
    } else {
        let dir = pending.last();
        let rest = pending.drop_last();
        if !fs.contains_key(dir) {
            spec_walk(fs, rest, found, (steps - 1) as nat)
        } else if has_cache(fs[dir]) {
            spec_walk(fs, rest, found.push(dir), (steps - 1) as nat)
        } else {
            spec_walk(fs, rest + subdirs(fs[dir]), found, (steps - 1) as nat)
        }
    }
}

/// A cache root hides what lies below it. A walk that starts at a directory
/// with a cache file records that directory and nothing else, whatever lies
/// below it: a cache nested deeper is not found.
pub proof fn lemma_cache_root_shadows(fs: Listings, root: Seq<char>, steps: nat)
    requires
        fs.contains_key(root),
        has_cache(fs[root]),
        steps > 0,
    ensures
        spec_walk(fs, seq![root], Seq::empty(), steps) == seq![root],
{
    let rest = seq![root].drop_last();
    assert(rest =~= Seq::<Seq<char>>::empty());
    assert(Seq::<Seq<char>>::empty().push(root) =~= seq![root]);
    assert(spec_walk(fs, rest, seq![root], (steps - 1) as nat) == seq![root]);
}

/// The directories that a walk takes from its queue, in order.
pub open spec fn spec_listed(fs: Listings, pending: Seq<Seq<char>>, steps: nat) -> Seq<Seq<char>>
    decreases steps,
{
    if steps == 0 || pending.len() == 0 {
        Seq::empty()
    } else {
        let dir = pending.last();
        let rest = pending.drop_last();
        let next = if !fs.contains_key(dir) || has_cache(fs[dir]) {
            rest
        } else {
            rest + subdirs(fs[dir])
        };
        seq![dir] + spec_listed(fs, next, (steps - 1) as nat)
    }
}

/// Do two sets of listings look alike to a walk at `dir`: is `dir` readable
/// in both or in neither, and where it is, has it the same listing in both,
/// or a cache file in both?
pub open spec fn alike_at(a: Listings, b: Listings, dir: Seq<char>) -> bool {
    a.contains_key(dir) == b.contains_key(dir) && (a.contains_key(dir) ==> a[dir] == b[dir] || (
    has_cache(a[dir]) && has_cache(b[dir])))
}

/// A walk stops at cache roots. It goes by the directories that it takes
/// from its queue alone, and of a cache root only by the fact that it is
/// one. So two sets of listings that differ only below cache roots, in what
/// a cache root lists or in directories that are never queued, give the same
/// cache roots: a cache nested below another is not found, and nothing below
/// is entered.
pub proof fn lemma_walk_stops_at_cache_roots(
    a: Listings,
    b: Listings,
    pending: Seq<Seq<char>>,
    found: Seq<Seq<char>>,
    steps: nat,
)
    requires
        forall|i: int|
            0 <= i < spec_listed(a, pending, steps).len() ==> alike_at(
                a,
                b,
                #[trigger] spec_listed(a, pending, steps)[i],
            ),
    ensures
        spec_listed(b, pending, steps) == spec_listed(a, pending, steps),
        spec_walk(b, pending, found, steps) == spec_walk(a, pending, found, steps),
    decreases steps,
{
    if steps > 0 && pending.len() > 0 {
        let dir = pending.last();
        let rest = pending.drop_last();
        let listed = spec_listed(a, pending, steps);
        assert(listed[0] == dir);
        assert(alike_at(a, b, dir));
        let next = if !a.contains_key(dir) || has_cache(a[dir]) {
            rest
        } else {
            rest + subdirs(a[dir])
        };
        let tail = spec_listed(a, next, (steps - 1) as nat);
        assert forall|i: int| 0 <= i < tail.len() implies alike_at(a, b, #[trigger] tail[i]) by {
            assert(listed[i + 1] == tail[i]);
        }
        if !a.contains_key(dir) {
            lemma_walk_stops_at_cache_roots(a, b, next, found, (steps - 1) as nat);
        } else if has_cache(a[dir]) {
            lemma_walk_stops_at_cache_roots(a, b, next, found.push(dir), (steps - 1) as nat);
        } else {
            lemma_walk_stops_at_cache_roots(a, b, next, found, (steps - 1) as nat);
        }
    }
}

/// Does the walk queue `dir` when it lists `parent`: can `parent` be read,
/// holds it no cache file, and is `dir` one of its subdirectories?
pub open spec fn queued_by(fs: Listings, parent: Seq<char>, dir: Seq<char>) -> bool {
    fs.contains_key(parent) && !has_cache(fs[parent]) && subdirs(fs[parent]).contains(dir)
}

/// Nothing below a cache root is read. Every directory that a walk takes
/// from its queue is one that the walk started with, or a subdirectory of a
/// directory that was taken before it, could be read and held no cache
/// file.
pub proof fn lemma_listed_below_open(fs: Listings, pending: Seq<Seq<char>>, steps: nat, i: int)
    requires
        0 <= i < spec_listed(fs, pending, steps).len(),
    ensures
        pending.contains(spec_listed(fs, pending, steps)[i]) || exists|j: int|
            0 <= j < i && queued_by(
                fs,
                #[trigger] spec_listed(fs, pending, steps)[j],
                spec_listed(fs, pending, steps)[i],
            ),
    decreases steps,
{
    let listed = spec_listed(fs, pending, steps);
    let dir = pending.last();
    let rest = pending.drop_last();
    let open = fs.contains_key(dir) && !has_cache(fs[dir]);
    let next = if open {
        rest + subdirs(fs[dir])
    } else {
        rest
    };
    let tail = spec_listed(fs, next, (steps - 1) as nat);
    assert(listed =~= seq![dir] + tail);
    if i == 0 {
        assert(pending[pending.len() - 1] == dir);
    } else {
        lemma_listed_below_open(fs, next, (steps - 1) as nat, i - 1);
        let d = tail[i - 1];
        assert(listed[i] == d);
        if next.contains(d) {
            let k = choose|k: int| 0 <= k < next.len() && next[k] == d;
            if k < rest.len() {
                assert(pending[k] == d);
            } else {
                assert(subdirs(fs[dir])[k - rest.len()] == d);
                assert(queued_by(fs, listed[0], listed[i]));
            }
        } else {
            let j = choose|j: int| 0 <= j < i - 1 && queued_by(fs, #[trigger] tail[j], tail[i - 1]);
            assert(listed[j + 1] == tail[j]);
            assert(queued_by(fs, listed[j + 1], listed[i]));
        }
    }
}

/// Nothing is reported but cache roots that were read. Every directory that
/// a walk records is one that was recorded before, or one that it took from
/// its queue and found to hold a cache file.
pub proof fn lemma_found_were_listed(
    fs: Listings,
    pending: Seq<Seq<char>>,
    found: Seq<Seq<char>>,
    steps: nat,
    d: Seq<char>,
)
    requires
        spec_walk(fs, pending, found, steps).contains(d),
    ensures
        found.contains(d) || (spec_listed(fs, pending, steps).contains(d) && fs.contains_key(d)
            && has_cache(fs[d])),
    decreases steps,
{
    if steps > 0 && pending.len() > 0 {
        let dir = pending.last();
        let rest = pending.drop_last();
        let open = fs.contains_key(dir) && !has_cache(fs[dir]);
        let next = if open {
            rest + subdirs(fs[dir])
        } else {
            rest
        };
        let tail = spec_listed(fs, next, (steps - 1) as nat);
        let listed = spec_listed(fs, pending, steps);
        assert(listed =~= seq![dir] + tail);
        if fs.contains_key(dir) && has_cache(fs[dir]) {
            lemma_found_were_listed(fs, rest, found.push(dir), (steps - 1) as nat, d);
            if found.push(dir).contains(d) {
                let k = choose|k: int| 0 <= k < found.push(dir).len() && found.push(dir)[k] == d;
                if k < found.len() {
                    assert(found[k] == d);
                } else {
                    assert(listed[0] == d);
                }
            }
        } else {
            lemma_found_were_listed(fs, next, found, (steps - 1) as nat, d);
        }
        if tail.contains(d) {
            let k = choose|k: int| 0 <= k < tail.len() && tail[k] == d;
            assert(listed[k + 1] == d);
        }
    }
}

} // verus!
