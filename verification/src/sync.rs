//! The sync run: for each file that the walk meets, reuse the cached entry or
//! regenerate it; at the end, build the new tree.

use crate::builder::{build_tree, spec_build};
use crate::index::{
    absorb, by_path, distinct_paths, lemma_absorb_distinct, lemma_placed, lemma_placed_distinct,
    lemma_position_of, placed, position_of, spec_index, FileMap, PathMap,
};
use crate::model::{
    empty_doc, DirdocsRoot, Doc, DocView, FileEntry, FileView, RootView, Timestamp,
};
use crate::paths::{spec_tree_name, tree_components, tree_name};
use crate::rebase::{rebased, rebased_entry};
use crate::roundtrip::{lemma_build_restamped, lemma_rebuild_roundtrip, restamped, well_placed};
use crate::strings::str_eq;
use vstd::prelude::*;

verus! {

/// Is the file at `rel` with content hash `hash` clean: known to `existing`
/// with this hash and a description, and no regeneration forced?
pub open spec fn reusable(existing: PathMap, force: bool, rel: Seq<char>, hash: Seq<char>) -> bool {
    &&& existing.contains_key(rel)
    &&& !force
    &&& existing[rel].hash == hash
    &&& existing[rel].doc.description.len() > 0
}

/// The entry of a clean file: annotation and time of `prev`, unchanged.
pub open spec fn reused(
    prev: FileView,
    rel: Seq<char>,
    name: Seq<char>,
    hash: Seq<char>,
) -> FileView {
    FileView { name: name, path: rel, hash: hash, updated_at: prev.updated_at, doc: prev.doc }
}

/// The entry of a regenerated file: the new annotation, or the empty one where
/// none could be made, stamped `at`.
pub open spec fn regenerated(
    rel: Seq<char>,
    name: Seq<char>,
    hash: Seq<char>,
    annotation: Option<DocView>,
    at: Timestamp,
) -> FileView {
    FileView {
        name: name,
        path: rel,
        hash: hash,
        updated_at: at,
        doc: match annotation {
            Some(d) => d,
            None => empty_doc(),
        },
    }
}

/// What is to be done about one file.
#[derive(Debug)]
pub enum Plan {
    /// Its content could not be hashed: it is left out of this run.
    Skip,
    /// It is clean: this is its entry.
    Reuse(FileEntry),
    /// It is new, changed, without annotation, or regeneration is forced.
    Regenerate,
}

/// Decides about the file at `rel`, named `name`, whose content hashed to
/// `hash` (`None`: hashing failed).
pub fn plan_file(existing: &FileMap, force: bool, rel: &str, name: &str, hash: Option<&str>) -> (p:
    Plan)
    ensures
        match hash {
            None => p is Skip,
            Some(h) => if reusable(existing@, force, rel@, h@) {
                p matches Plan::Reuse(e) && e@ == reused(existing@[rel@], rel@, name@, h@)
            } else {
                p is Regenerate
            },
        },
{
    let h = match hash {
        Some(h) => h,
        None => {
            return Plan::Skip;
        },
    };
    match existing.get(rel) {
        Some(prev) => {
            let annotated = !prev.doc.description.as_str().is_empty();
            if !force && str_eq(prev.hash.as_str(), h) && annotated {
                Plan::Reuse(
                    FileEntry {
                        name: name.to_owned(),
                        path: rel.to_owned(),
                        hash: h.to_owned(),
                        updated_at: prev.updated_at,
                        doc: prev.doc.clone(),
                    },
                )
            } else {
                Plan::Regenerate
            }
        },
        None => Plan::Regenerate,
    }
}

/// The entry of a regenerated file.
pub fn regenerated_entry(
    rel: String,
    name: String,
    hash: String,
    annotation: Option<Doc>,
    at: Timestamp,
) -> (e: FileEntry)
    ensures
        e@ == regenerated(
            rel@,
            name@,
            hash@,
            match annotation {
                Some(d) => Some(d@),
                None => None,
            },
            at,
        ),
{
    let doc = match annotation {
        Some(d) => d,
        None => Doc::default(),
    };
    FileEntry { name, path: rel, hash, updated_at: at, doc }
}

/// What the walk saw of one file: where it lies, what its content hashed to
/// (`None`: hashing failed), and, for the case that it has to be
/// regenerated, what the annotator answered (`None`: it failed) and when it
/// was asked.
pub struct Seen {
    pub rel: Seq<char>,
    pub hash: Option<Seq<char>>,
    pub annotation: Option<DocView>,
    pub at: Timestamp,
}

/// The entry that a run writes for one file, if any. The file is listed
/// under the name that its path ends in.
pub open spec fn seen_entry(existing: PathMap, force: bool, s: Seen) -> Option<FileView> {
    match s.hash {
        None => None,
        Some(h) => Some(
            if reusable(existing, force, s.rel, h) {
                reused(existing[s.rel], s.rel, spec_tree_name(s.rel), h)
            } else {
                regenerated(s.rel, spec_tree_name(s.rel), h, s.annotation, s.at)
            },
        ),
    }
}

/// The entries that a run over `seen` collects, in the order in which their
/// paths first came.
pub open spec fn spec_sync(existing: PathMap, force: bool, seen: Seq<Seen>) -> Seq<FileView>
    decreases seen.len(),
{
    if seen.len() == 0 {
        Seq::empty()
    } else {
        let front = spec_sync(existing, force, seen.drop_last());
        match seen_entry(existing, force, seen.last()) {
            Some(e) => placed(front, e),
            None => front,
        }
    }
}

/// What became of a file that was offered to a run.
#[derive(Clone, Copy, PartialEq, Eq, Structural, Debug)]
pub enum Step {
    /// Left out: its content could not be hashed.
    Skipped,
    /// Clean: its cached entry was taken over.
    Reused,
    /// To be annotated; `complete` takes the outcome.
    NeedsAnnotation,
}

/// One sync run: the merged index of what was cached, and the entries
/// collected so far.
pub struct SyncRun {
    existing: FileMap,
    updated: FileMap,
    force: bool,
}

impl SyncRun {
    /// The merged index that the run decides by.
    pub closed spec fn existing(&self) -> PathMap {
        self.existing@
    }

    /// Is regeneration forced?
    pub closed spec fn force(&self) -> bool {
        self.force
    }

    /// The entries collected so far, in the order in which their paths first came.
    pub closed spec fn updated(&self) -> Seq<FileView> {
        self.updated.order()
    }

    /// A run that decides by `existing`; with `force`, nothing is reused.
    pub fn new(existing: FileMap, force: bool) -> (r: Self)
        ensures
            r.existing() == existing@,
            r.force() == force,
            r.updated() == Seq::<FileView>::empty(),
    {
        SyncRun { existing, updated: FileMap::new(), force }
    }

    /// Offers the file at the relative path `rel` to the run. A clean file's
    /// entry is collected at once; a file that cannot be hashed is left out;
    /// any other awaits `complete`.
    pub fn offer(&mut self, rel: &str, hash: Option<&str>) -> (step: Step)
        ensures
            final(self).existing() == old(self).existing(),
            final(self).force() == old(self).force(),
            match hash {
                None => step == Step::Skipped && final(self).updated() == old(self).updated(),
                Some(h) => if reusable(old(self).existing(), old(self).force(), rel@, h@) {
                    step == Step::Reused && final(self).updated() == placed(
                        old(self).updated(),
                        reused(old(self).existing()[rel@], rel@, spec_tree_name(rel@), h@),
                    )
                } else {
                    step == Step::NeedsAnnotation && final(self).updated() == old(self).updated()
                },
            },
    {
        let name = tree_name(rel);
        match plan_file(&self.existing, self.force, rel, name.as_str(), hash) {
            Plan::Skip => Step::Skipped,
            Plan::Reuse(e) => {
                self.updated.insert(e);
                Step::Reused
            },
            Plan::Regenerate => Step::NeedsAnnotation,
        }
    }

    /// Collects the entry of a regenerated file: the annotation (`None`: the
    /// annotator failed, the empty annotation is stored), stamped `at`.
    pub fn complete(&mut self, rel: String, hash: String, annotation: Option<Doc>, at: Timestamp)
        ensures
            final(self).existing() == old(self).existing(),
            final(self).force() == old(self).force(),
            final(self).updated() == placed(
                old(self).updated(),
                regenerated(
                    rel@,
                    spec_tree_name(rel@),
                    hash@,
                    match annotation {
                        Some(d) => Some(d@),
                        None => None,
                    },
                    at,
                ),
            ),
    {
        let name = tree_name(rel.as_str());
        let e = regenerated_entry(rel, name, hash, annotation, at);
        self.updated.insert(e);
    }

    /// The entries collected so far.
    pub fn collected(&self) -> (r: &FileMap)
        ensures
            r.order() == self.updated(),
    {
        &self.updated
    }

    /// Ends the run: a fresh tree, labelled `label` and stamped `now`, built
    /// from the collected entries.
    pub fn finish(self, label: String, now: Timestamp) -> (r: DirdocsRoot)
        ensures
            r@ == (RootView {
                root: label@,
                updated_at: now,
                entries: spec_build(self.updated(), now),
            }),
    {
        let entries = build_tree(&self.updated, now);
        DirdocsRoot { root: label, updated_at: now, entries }
    }
}

/// A path that no entry has is placed behind all.
pub proof fn lemma_placed_new(files: Seq<FileView>, fe: FileView)
    requires
        forall|i: int| 0 <= i < files.len() ==> (#[trigger] files[i]).path != fe.path,
    ensures
        placed(files, fe) == files.push(fe),
{
    lemma_position_of(files, fe.path);
}

/// A second run changes nothing. Let `files` be what one run collected, each
/// entry well placed and with a description, and let the tree built from
/// them be the only cache. A second run without force that meets the same
/// files with the same hashes reuses every entry and collects `files` again:
/// annotations, hashes and times unchanged.
pub proof fn lemma_second_run_reuses(files: Seq<FileView>, built_at: Timestamp, seen: Seq<Seen>)
    requires
        distinct_paths(files),
        forall|i: int|
            0 <= i < files.len() ==> well_placed(#[trigger] files[i])
                && files[i].doc.description.len() > 0,
        seen.len() == files.len(),
        forall|i: int|
            #![trigger seen[i]]
            0 <= i < files.len() ==> seen[i].rel == files[i].path && seen[i].hash == Some(
                files[i].hash,
            ),
    ensures
        spec_sync(spec_index(spec_build(files, built_at)), false, seen) == files,
{
    lemma_rebuild_roundtrip(files, built_at);
    let existing = by_path(files);
    lemma_replay(existing, files, seen, files.len() as int);
    assert(seen.take(seen.len() as int) =~= seen);
    assert(files.take(files.len() as int) =~= files);
}

/// A second run changes nothing but stamps. Under the same conditions the
/// tree of the second run is the tree of the first with the directories
/// stamped anew: nothing else changes but the stamp of the root.
pub proof fn lemma_second_run_tree(
    files: Seq<FileView>,
    built_at: Timestamp,
    seen: Seq<Seen>,
    now: Timestamp,
)
    requires
        distinct_paths(files),
        forall|i: int|
            0 <= i < files.len() ==> well_placed(#[trigger] files[i])
                && files[i].doc.description.len() > 0,
        seen.len() == files.len(),
        forall|i: int|
            #![trigger seen[i]]
            0 <= i < files.len() ==> seen[i].rel == files[i].path && seen[i].hash == Some(
                files[i].hash,
            ),
    ensures
        spec_build(spec_sync(spec_index(spec_build(files, built_at)), false, seen), now)
            == restamped(spec_build(files, built_at), now),
{
    lemma_second_run_reuses(files, built_at, seen);
    lemma_build_restamped(files, built_at, now);
}

proof fn lemma_replay(existing: PathMap, files: Seq<FileView>, seen: Seq<Seen>, n: int)
    requires
        existing == by_path(files),
        distinct_paths(files),
        forall|i: int|
            0 <= i < files.len() ==> well_placed(#[trigger] files[i])
                && files[i].doc.description.len() > 0,
        seen.len() == files.len(),
        forall|i: int|
            #![trigger seen[i]]
            0 <= i < files.len() ==> seen[i].rel == files[i].path && seen[i].hash == Some(
                files[i].hash,
            ),
        0 <= n <= files.len(),
    ensures
        spec_sync(existing, false, seen.take(n)) == files.take(n),
    decreases n,
{
    if n == 0 {
        assert(files.take(0) =~= Seq::empty());
    } else {
        lemma_replay(existing, files, seen, n - 1);
        let s = seen[n - 1];
        let f = files[n - 1];
        assert(seen.take(n).drop_last() =~= seen.take(n - 1));
        assert(seen.take(n).last() == s);
        lemma_absorb_distinct(Map::empty(), files, n - 1);
        assert(reusable(existing, false, s.rel, f.hash));
        assert(reused(existing[s.rel], s.rel, spec_tree_name(s.rel), f.hash) == f);
        let front = files.take(n - 1);
        assert forall|i: int| 0 <= i < front.len() implies (#[trigger] front[i]).path != f.path by {
            assert(front[i] == files[i]);
        }
        lemma_placed_new(front, f);
        assert(front.push(f) =~= files.take(n));
    }
}

/// Is the file that the walk saw clean and listed as the cache has it: is it
/// reusable, and has its entry in the cache the name and the path under
/// which the walk met it?
pub open spec fn met_as_cached(existing: PathMap, s: Seen) -> bool {
    s.hash matches Some(h) && reusable(existing, false, s.rel, h) && existing[s.rel].name
        == spec_tree_name(s.rel) && existing[s.rel].path == s.rel
}

/// Was a file seen at the path `k`?
pub open spec fn seen_at(seen: Seq<Seen>, k: Seq<char>) -> bool {
    exists|i: int| 0 <= i < seen.len() && (#[trigger] seen[i]).rel == k
}

/// A run without force over files that are all met as cached collects, in
/// whatever order it meets them, the cache's own entries for them, and no
/// others.
pub proof fn lemma_clean_run(existing: PathMap, seen: Seq<Seen>)
    requires
        forall|i: int| 0 <= i < seen.len() ==> met_as_cached(existing, #[trigger] seen[i]),
    ensures
        forall|k: Seq<char>|
            #![trigger by_path(spec_sync(existing, false, seen)).dom().contains(k)]
            by_path(spec_sync(existing, false, seen)).dom().contains(k) <==> seen_at(seen, k),
        forall|k: Seq<char>|
            #![trigger by_path(spec_sync(existing, false, seen))[k]]
            seen_at(seen, k) ==> by_path(spec_sync(existing, false, seen))[k] == existing[k],
    decreases seen.len(),
{
    let got = by_path(spec_sync(existing, false, seen));
    if seen.len() == 0 {
        assert forall|k: Seq<char>| !seen_at(seen, k) by {}
    } else {
        let front = seen.drop_last();
        let s = seen.last();
        assert(met_as_cached(existing, seen[seen.len() - 1]));
        assert forall|i: int| 0 <= i < front.len() implies met_as_cached(
            existing,
            #[trigger] front[i],
        ) by {
            assert(front[i] == seen[i]);
        }
        lemma_clean_run(existing, front);
        let before = spec_sync(existing, false, front);
        let e = existing[s.rel];
        assert(seen_entry(existing, false, s) == Some(e));
        lemma_placed(before, e);
        assert(got == by_path(before).insert(s.rel, e));
        assert forall|k: Seq<char>| seen_at(seen, k) <==> (seen_at(front, k) || k == s.rel) by {
            if seen_at(seen, k) {
                let i = choose|i: int| 0 <= i < seen.len() && (#[trigger] seen[i]).rel == k;
                if i < front.len() {
                    assert(front[i] == seen[i]);
                }
            }
            if seen_at(front, k) {
                let i = choose|i: int| 0 <= i < front.len() && (#[trigger] front[i]).rel == k;
                assert(seen[i] == front[i]);
            }
            if k == s.rel {
                assert(seen[seen.len() - 1].rel == k);
            }
        }
    }
}

/// A second run changes nothing, in whatever order it meets the files: where
/// it meets every file of the cache, and each as cached, the entries that
/// it collects are, by path, the cache's.
pub proof fn lemma_second_run_same_map(existing: PathMap, seen: Seq<Seen>)
    requires
        forall|i: int| 0 <= i < seen.len() ==> met_as_cached(existing, #[trigger] seen[i]),
        forall|k: Seq<char>| existing.contains_key(k) ==> seen_at(seen, k),
    ensures
        by_path(spec_sync(existing, false, seen)) == existing,
{
    lemma_clean_run(existing, seen);
    let got = by_path(spec_sync(existing, false, seen));
    assert forall|k: Seq<char>| got.dom().contains(k) <==> existing.dom().contains(k) by {
        if seen_at(seen, k) {
            let i = choose|i: int| 0 <= i < seen.len() && (#[trigger] seen[i]).rel == k;
            assert(met_as_cached(existing, seen[i]));
        }
    }
    assert(got =~= existing);
}

/// The hash decides. A file that the cache knows under another hash is
/// regenerated: its entry carries the new hash and the annotator's answer,
/// nothing of the stale annotation. A file that the cache knows under the
/// same hash, with a description, is reused when nothing is forced.
pub proof fn lemma_hash_decides(existing: PathMap, s: Seen, h: Seq<char>)
    requires
        existing.contains_key(s.rel),
        s.hash == Some(h),
    ensures
        h != existing[s.rel].hash ==> forall|force: bool|
            seen_entry(existing, force, s) == Some(
                #[trigger] regenerated(s.rel, spec_tree_name(s.rel), h, s.annotation, s.at),
            ),
        h == existing[s.rel].hash && existing[s.rel].doc.description.len() > 0 ==> seen_entry(
            existing,
            false,
            s,
        ) == Some(reused(existing[s.rel], s.rel, spec_tree_name(s.rel), h)),
{
    if h != existing[s.rel].hash {
        assert forall|force: bool|
            seen_entry(existing, force, s) == Some(
                #[trigger] regenerated(s.rel, spec_tree_name(s.rel), h, s.annotation, s.at),
            ) by {
            assert(!reusable(existing, force, s.rel, h));
        }
    }
}

/// Force spares nothing. With force, whatever the cache holds, every file
/// that can be hashed is regenerated.
pub proof fn lemma_force_regenerates(existing: PathMap, s: Seen)
    ensures
        seen_entry(existing, true, s) == match s.hash {
            Some(h) => Some(regenerated(s.rel, spec_tree_name(s.rel), h, s.annotation, s.at)),
            None => None,
        },
{
}

/// A sub-cache is taken over. After the entries `child` of a sub-cache were
/// merged under `prefix` into an index, a file that the walk meets at the
/// merged path of the entry at `i`, with that entry's hash, is reused with
/// the sub-cache's annotation and time, provided the entry has a description
/// and no later entry of the sub-cache is merged under the same path.
pub proof fn lemma_sub_cache_absorbed(
    parent: PathMap,
    prefix: Seq<char>,
    child: Seq<FileView>,
    i: int,
    s: Seen,
)
    requires
        0 <= i < child.len(),
        forall|j: int|
            i < j < child.len() ==> (#[trigger] rebased_entry(prefix, child[j])).path
                != rebased_entry(prefix, child[i]).path,
        child[i].doc.description.len() > 0,
        s.rel == rebased_entry(prefix, child[i]).path,
        s.hash == Some(child[i].hash),
    ensures
        seen_entry(absorb(parent, rebased(prefix, child)), false, s) == Some(
            FileView {
                name: spec_tree_name(s.rel),
                path: s.rel,
                hash: child[i].hash,
                updated_at: child[i].updated_at,
                doc: child[i].doc,
            },
        ),
{
    let merged = rebased(prefix, child);
    lemma_absorb_last(parent, merged, i);
    assert(merged[i] == rebased_entry(prefix, child[i]));
}

/// An entry that no later one overwrites is found under its path.
pub proof fn lemma_absorb_last(m: PathMap, files: Seq<FileView>, i: int)
    requires
        0 <= i < files.len(),
        forall|j: int| i < j < files.len() ==> (#[trigger] files[j]).path != files[i].path,
    ensures
        absorb(m, files).contains_key(files[i].path),
        absorb(m, files)[files[i].path] == files[i],
    decreases files.len(),
{
    if i < files.len() - 1 {
        let front = files.drop_last();
        assert forall|j: int| i < j < front.len() implies (#[trigger] front[j]).path
            != front[i].path by {
            assert(front[j] == files[j]);
        }
        lemma_absorb_last(m, front, i);
        assert(files.last() == files[files.len() - 1]);
    }
}

/// Of the entries written under one path the last one is found: for the
/// entry at `i` there is an entry at or behind it with the same path that
/// the map holds under that path.
pub proof fn lemma_absorb_later(m: PathMap, files: Seq<FileView>, i: int) -> (j: int)
    requires
        0 <= i < files.len(),
    ensures
        i <= j < files.len(),
        files[j].path == files[i].path,
        absorb(m, files).contains_key(files[i].path),
        absorb(m, files)[files[i].path] == files[j],
    decreases files.len(),
{
    let last = files.len() - 1;
    if files[last].path == files[i].path {
        assert(files.last() == files[last]);
        last
    } else {
        let front = files.drop_last();
        assert(front[i] == files[i]);
        let j = lemma_absorb_later(m, front, i);
        assert(front[j] == files[j]);
        assert(files.last() == files[last]);
        j
    }
}

/// A sub-cache is taken over, whatever its paths: of the entries of the
/// sub-cache that are merged under one path, the index holds the last one,
/// with its hash, annotation and time.
pub proof fn lemma_sub_cache_merged(
    parent: PathMap,
    prefix: Seq<char>,
    child: Seq<FileView>,
    i: int,
) -> (j: int)
    requires
        0 <= i < child.len(),
    ensures
        i <= j < child.len(),
        rebased_entry(prefix, child[j]).path == rebased_entry(prefix, child[i]).path,
        absorb(parent, rebased(prefix, child)).contains_key(rebased_entry(prefix, child[i]).path),
        absorb(parent, rebased(prefix, child))[rebased_entry(prefix, child[i]).path]
            == rebased_entry(prefix, child[j]),
{
    let merged = rebased(prefix, child);
    let j = lemma_absorb_later(parent, merged, i);
    assert(merged[i] == rebased_entry(prefix, child[i]));
    assert(merged[j] == rebased_entry(prefix, child[j]));
    j
}

/// Is every entry of `files` listed under its path's last ordinary
/// component, with no path twice?
pub open spec fn run_made(files: Seq<FileView>) -> bool {
    distinct_paths(files) && forall|i: int|
        0 <= i < files.len() ==> (#[trigger] files[i]).name == spec_tree_name(files[i].path)
}

/// What a run collects, it lists by the names that the paths end in, each
/// path once.
pub proof fn lemma_run_made(existing: PathMap, force: bool, seen: Seq<Seen>)
    ensures
        run_made(spec_sync(existing, force, seen)),
    decreases seen.len(),
{
    if seen.len() > 0 {
        lemma_run_made(existing, force, seen.drop_last());
        let front = spec_sync(existing, force, seen.drop_last());
        match seen_entry(existing, force, seen.last()) {
            Some(e) => {
                let after = placed(front, e);
                lemma_placed_distinct(front, e);
                lemma_position_of(front, e.path);
                assert forall|i: int| 0 <= i < after.len() implies (#[trigger] after[i]).name
                    == spec_tree_name(after[i].path) by {
                    if after[i] != e {
                        assert(i < front.len() && after[i] == front[i]);
                    }
                }
            },
            None => {},
        }
    }
}

/// The index of the cache that is written for the entries `files`: that of
/// the tree built from them.
pub open spec fn cache_of(files: Seq<FileView>, at: Timestamp) -> PathMap {
    spec_index(spec_build(files, at))
}

/// Two runs in a row. Let a first run, whatever it went by, have collected
/// entries that all have a description and a path with an ordinary
/// component, and let the tree built from them be the only cache. A second
/// run without force that meets the same files, each with the hash that the
/// first run stored, in whatever order, collects by path the very entries of
/// the first: hashes, annotations and times unchanged, and no file
/// regenerated.
pub proof fn lemma_two_runs(
    cache: PathMap,
    force: bool,
    first: Seq<Seen>,
    built_at: Timestamp,
    second: Seq<Seen>,
)
    requires
        forall|i: int|
            #![trigger spec_sync(cache, force, first)[i]]
            0 <= i < spec_sync(cache, force, first).len() ==> spec_sync(
                cache,
                force,
                first,
            )[i].doc.description.len() > 0 && tree_components(
                spec_sync(cache, force, first)[i].path,
            ).len() > 0,
        forall|j: int|
            #![trigger second[j]]
            0 <= j < second.len() ==> by_path(spec_sync(cache, force, first)).contains_key(
                second[j].rel,
            ) && second[j].hash == Some(
                by_path(spec_sync(cache, force, first))[second[j].rel].hash,
            ),
        forall|k: Seq<char>|
            by_path(spec_sync(cache, force, first)).contains_key(k) ==> seen_at(second, k),
    ensures
        by_path(spec_sync(cache_of(spec_sync(cache, force, first), built_at), false, second))
            == by_path(spec_sync(cache, force, first)),
        forall|j: int|
            0 <= j < second.len() ==> met_as_cached(
                cache_of(spec_sync(cache, force, first), built_at),
                #[trigger] second[j],
            ),
{
    let files = spec_sync(cache, force, first);
    lemma_run_made(cache, force, first);
    assert forall|i: int| 0 <= i < files.len() implies well_placed(#[trigger] files[i]) by {}
    lemma_rebuild_roundtrip(files, built_at);
    let existing = by_path(files);
    assert forall|j: int| 0 <= j < second.len() implies met_as_cached(
        existing,
        #[trigger] second[j],
    ) by {
        let k = second[j].rel;
        lemma_position_of(files, k);
        crate::index::lemma_absorb_dom(Map::empty(), files, k);
        let i = position_of(files, k)->Some_0;
        lemma_absorb_distinct(Map::empty(), files, i);
    }
    lemma_second_run_same_map(existing, second);
}

} // verus!
