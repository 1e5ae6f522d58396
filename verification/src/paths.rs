//! The path model: paths are strings; what the platform's path rules and
//! `pathdiff` compute on them is named here and used by the rest.

use crate::strings::{opt_view, strings_view};
use std::path::{Component, Path};
use vstd::prelude::*;

verus! {

/// One component of a path, as the platform's path rules split it.
#[derive(Debug)]
pub enum PathPart {
    /// A volume or drive prefix.
    Prefix(String),
    /// The root directory.
    RootDir,
    /// A reference to the current directory, `.`.
    CurDir,
    /// A reference to the parent directory, `..`.
    ParentDir,
    /// An ordinary name.
    Normal(String),
}

pub enum PartView {
    Prefix(Seq<char>),
    RootDir,
    CurDir,
    ParentDir,
    Normal(Seq<char>),
}

impl View for PathPart {
    type V = PartView;

    open spec fn view(&self) -> PartView {
        match self {
            PathPart::Prefix(s) => PartView::Prefix(s@),
            PathPart::RootDir => PartView::RootDir,
            PathPart::CurDir => PartView::CurDir,
            PathPart::ParentDir => PartView::ParentDir,
            PathPart::Normal(s) => PartView::Normal(s@),
        }
    }
}

/// The views of a sequence of components.
pub open spec fn parts_view(parts: Seq<PathPart>) -> Seq<PartView> {
    parts.map_values(|p: PathPart| p@)
}

/// What `pathdiff::diff_paths(path, base)` returns: `path` as seen from
/// `base`, or `None` where there is no such relative path.
pub uninterp spec fn spec_diff_paths(path: Seq<char>, base: Seq<char>) -> Option<Seq<char>>;

/// What `Path::join` returns for `base` and `rel`.
pub uninterp spec fn spec_path_join(base: Seq<char>, rel: Seq<char>) -> Seq<char>;

/// What `Path::components` yields for `path`.
pub uninterp spec fn spec_path_components(path: Seq<char>) -> Seq<PartView>;

/// What `Path::file_name` returns for `path`.
pub uninterp spec fn spec_file_name(path: Seq<char>) -> Option<Seq<char>>;

/// Calls `pathdiff::diff_paths`. The crate computes the result from the two
/// paths alone, by comparing their components; it is named, not restated.
#[verifier::external_body]
pub(crate) fn diff_paths(path: &str, base: &str) -> (r: Option<String>)
    ensures
        opt_view(r) == spec_diff_paths(path@, base@),
{
    match pathdiff::diff_paths(path, base) {
        Some(p) => Some(p.to_string_lossy().into_owned()),
        None => None,
    }
}

/// Calls `Path::join`: `rel` adjoined to `base`.
#[verifier::external_body]
pub(crate) fn path_join(base: &str, rel: &str) -> (r: String)
    ensures
        r@ == spec_path_join(base@, rel@),
{
    Path::new(base).join(rel).to_string_lossy().into_owned()
}

/// Calls `Path::components` and hands each component over, one for one.
#[verifier::external_body]
pub(crate) fn path_components(path: &str) -> (r: Vec<PathPart>)
    ensures
        parts_view(r@) == spec_path_components(path@),
{
    let mut out = Vec::new();
    for c in Path::new(path).components() {
        out.push(match c {
            Component::Prefix(p) => PathPart::Prefix(p.as_os_str().to_string_lossy().into_owned()),
            Component::RootDir => PathPart::RootDir,
            Component::CurDir => PathPart::CurDir,
            Component::ParentDir => PathPart::ParentDir,
            Component::Normal(s) => PathPart::Normal(s.to_string_lossy().into_owned()),
        });
    }
    out
}

/// Calls `Path::file_name`: the final component, where it is an ordinary name.
#[verifier::external_body]
pub(crate) fn file_name(path: &str) -> (r: Option<String>)
    ensures
        opt_view(r) == spec_file_name(path@),
{
    match Path::new(path).file_name() {
        Some(n) => Some(n.to_string_lossy().into_owned()),
        None => None,
    }
}

/// What `Path::parent` returns for `path`: the path without its final
/// component, if there is one.
pub uninterp spec fn spec_path_parent(path: Seq<char>) -> Option<Seq<char>>;

/// Calls `Path::parent`.
#[verifier::external_body]
pub(crate) fn path_parent(path: &str) -> (r: Option<String>)
    ensures
        opt_view(r) == spec_path_parent(path@),
{
    match Path::new(path).parent() {
        Some(p) => Some(p.to_string_lossy().into_owned()),
        None => None,
    }
}

/// What `Path::extension` returns for `path`: the part of the file name
/// behind its last dot, if there is one.
pub uninterp spec fn spec_path_extension(path: Seq<char>) -> Option<Seq<char>>;

/// Calls `Path::extension`.
#[verifier::external_body]
pub(crate) fn path_extension(path: &str) -> (r: Option<String>)
    ensures
        opt_view(r) == spec_path_extension(path@),
{
    match Path::new(path).extension() {
        Some(e) => Some(e.to_string_lossy().into_owned()),
        None => None,
    }
}

/// What `Path::file_stem` returns for `path`: the file name without its
/// extension, if there is a file name.
pub uninterp spec fn spec_file_stem(path: Seq<char>) -> Option<Seq<char>>;

/// Calls `Path::file_stem`.
#[verifier::external_body]
pub(crate) fn file_stem(path: &str) -> (r: Option<String>)
    ensures
        opt_view(r) == spec_file_stem(path@),
{
    match Path::new(path).file_stem() {
        Some(s) => Some(s.to_string_lossy().into_owned()),
        None => None,
    }
}

/// What `Path`'s order says of two paths: does `a` come before `b`?
pub uninterp spec fn spec_path_lt(a: Seq<char>, b: Seq<char>) -> bool;

/// What `Path`'s equality says of two paths.
pub uninterp spec fn spec_path_eq(a: Seq<char>, b: Seq<char>) -> bool;

/// Compares two paths with `<` of `Path`, which goes by their components.
#[verifier::external_body]
pub(crate) fn path_lt(a: &str, b: &str) -> (r: bool)
    ensures
        r == spec_path_lt(a@, b@),
{
    Path::new(a) < Path::new(b)
}

/// Compares two paths with `==` of `Path`, which goes by their components.
#[verifier::external_body]
pub(crate) fn path_eq(a: &str, b: &str) -> (r: bool)
    ensures
        r == spec_path_eq(a@, b@),
{
    Path::new(a) == Path::new(b)
}

/// The ordinary names among `parts`, in order.
pub open spec fn normal_names(parts: Seq<PartView>) -> Seq<Seq<char>>
    decreases parts.len(),
{
    if parts.len() == 0 {
        Seq::empty()
    } else {
        let front = normal_names(parts.drop_last());
        match parts.last() {
            PartView::Normal(name) => front.push(name),
            _ => front,
        }
    }
}

/// The components along which a tree is descended for `path`: its ordinary
/// names, with root, prefix, `.` and `..` left out.
pub open spec fn tree_components(path: Seq<char>) -> Seq<Seq<char>> {
    normal_names(spec_path_components(path))
}

/// The name of the file at the relative path `path`: its last ordinary
/// component, or the empty text where it has none.
pub open spec fn spec_tree_name(path: Seq<char>) -> Seq<char> {
    let comps = tree_components(path);
    if comps.len() > 0 {
        comps.last()
    } else {
        Seq::empty()
    }
}

/// Keeps the ordinary names of `parts`.
pub fn normal_components(parts: &Vec<PathPart>) -> (r: Vec<String>)
    ensures
        strings_view(r@) == normal_names(parts_view(parts@)),
{
    let mut out: Vec<String> = Vec::new();
    let mut i: usize = 0;
    assert(parts_view(parts@).take(0) =~= Seq::empty());
    assert(strings_view(out@) =~= Seq::empty());
    while i < parts.len()
        invariant
            i <= parts.len(),
            strings_view(out@) == normal_names(parts_view(parts@).take(i as int)),
        decreases parts.len() - i,
    {
        let ghost seen = out@;
        assert(parts_view(parts@).take(i + 1).drop_last() =~= parts_view(parts@).take(i as int));
        match &parts[i] {
            PathPart::Normal(name) => {
                out.push(name.clone());
                assert(strings_view(out@) =~= strings_view(seen).push(name@));
            },
            _ => {},
        }
        i = i + 1;
    }
    assert(parts_view(parts@).take(i as int) =~= parts_view(parts@));
    out
}

/// The label for a diff: the relative path, or `.` where there is none or it
/// is empty.
pub open spec fn spec_label(diff: Option<Seq<char>>) -> Seq<char> {
    match diff {
        Some(p) => if p.len() == 0 {
            seq!['.']
        } else {
            p
        },
        None => seq!['.'],
    }
}

/// The display label of a root, given its path relative to the working
/// directory.
pub fn label_of(diff: Option<String>) -> (r: String)
    ensures
        r@ == spec_label(opt_view(diff)),
{
    proof {
        reveal_strlit(".");
    }
    assert("."@ =~= seq!['.']);
    match diff {
        Some(p) => if p.as_str().is_empty() {
            ".".to_owned()
        } else {
            p
        },
        None => ".".to_owned(),
    }
}

/// The display label of `root_abs` as seen from `cwd`.
pub fn rel_label(root_abs: &str, cwd: &str) -> (r: String)
    ensures
        r@ == spec_label(spec_diff_paths(root_abs@, cwd@)),
{
    label_of(diff_paths(root_abs, cwd))
}

/// `p` as seen from `base`, or `p` itself where there is no relative path.
pub open spec fn spec_rel_str(p: Seq<char>, base: Seq<char>) -> Seq<char> {
    match spec_diff_paths(p, base) {
        Some(rel) => rel,
        None => p,
    }
}

/// The key of `p` below `base`: the relative path, or `p` unchanged where
/// none exists.
pub fn rel_str(p: &str, base: &str) -> (r: String)
    ensures
        r@ == spec_rel_str(p@, base@),
{
    match diff_paths(p, base) {
        Some(rel) => rel,
        None => p.to_owned(),
    }
}

/// The file name of `path`, or the empty string where it has none.
pub open spec fn spec_leaf_name(path: Seq<char>) -> Seq<char> {
    match spec_file_name(path) {
        Some(n) => n,
        None => Seq::empty(),
    }
}

/// The name under which the file at `path` is listed.
pub fn leaf_name(path: &str) -> (r: String)
    ensures
        r@ == spec_leaf_name(path@),
{
    match file_name(path) {
        Some(n) => n,
        None => String::new(),
    }
}

/// The name of the cache file that marks a project root.
pub open spec fn root_marker() -> Seq<char> {
    seq!['.', 'd', 'i', 'r', 'd', 'o', 'c', 's', '.', 'n', 'u', 'o', 'n']
}

/// Where the cache file of the directory `dir` lies.
pub fn marker_path(dir: &str) -> (r: String)
    ensures
        r@ == spec_path_join(dir@, root_marker()),
{
    proof {
        reveal_strlit(".dirdocs.nuon");
    }
    assert(".dirdocs.nuon"@ =~= root_marker());
    path_join(dir, ".dirdocs.nuon")
}

/// How the search for a project root goes on from one directory.
#[derive(Debug)]
pub enum RootSearch {
    /// The directory holds the cache file: it is the project root.
    Found(String),
    /// Look at this directory next: the parent.
    Ascend(String),
    /// There is no directory above: no project root.
    NotFound,
}

/// One step of the search for the project root above a directory: `cur` is
/// the directory looked at, and `has_marker` says whether the cache file lies
/// in it. The search ends where `cur` holds the file, has no parent, or is
/// its own parent.
pub fn find_project_root(cur: &str, has_marker: bool) -> (r: RootSearch)
    ensures
        match r {
            RootSearch::Found(d) => has_marker && d@ == cur@,
            RootSearch::Ascend(p) => !has_marker && spec_path_parent(cur@) == Some(p@)
                && !spec_path_eq(p@, cur@),
            RootSearch::NotFound => !has_marker && (match spec_path_parent(cur@) {
                Some(p) => spec_path_eq(p, cur@),
                None => true,
            }),
        },
{
    if has_marker {
        return RootSearch::Found(cur.to_owned());
    }
    match path_parent(cur) {
        Some(p) => if path_eq(p.as_str(), cur) {
            RootSearch::NotFound
        } else {
            RootSearch::Ascend(p)
        },
        None => RootSearch::NotFound,
    }
}

/// The name of the file at the relative path `path`.
pub fn tree_name(path: &str) -> (r: String)
    ensures
        r@ == spec_tree_name(path@),
{
    let parts = path_components(path);
    let comps = normal_components(&parts);
    let n = comps.len();
    if n > 0 {
        comps[n - 1].clone()
    } else {
        String::new()
    }
}

} // verus!
