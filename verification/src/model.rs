//! The cache file's data model and its mathematical views.

use crate::json::{json_null, json_text};
use vstd::prelude::*;

verus! {

/// An instant in UTC: whole seconds since the Unix epoch and the nanoseconds
/// past that second (a leap second is written with `nanos >= 1_000_000_000`).
#[derive(Clone, Copy, PartialEq, Eq, Structural, Debug)]
pub struct Timestamp {
    pub secs: i64,
    pub nanos: u32,
}

/// Reads the system clock and hands the instant over as seconds and
/// nanoseconds: `SystemTime::now`, turned into a `chrono::DateTime<Utc>` by
/// its `From`, which also takes a clock that stands before 1970. Nothing is
/// promised of the value. Only a clock set beyond the years that `chrono`
/// can hold, some 262,000 either way, makes the conversion give up.
#[verifier::external_body]
pub(crate) fn utc_now() -> Timestamp {
    let t = chrono::DateTime::<chrono::Utc>::from(std::time::SystemTime::now());
    Timestamp { secs: t.timestamp(), nanos: t.timestamp_subsec_nanos() }
}

/// The generated annotation of one file.
#[derive(Debug)]
pub struct Doc {
    /// Free text; empty means that no annotation was produced.
    pub description: String,
    /// Opaque scalar, never interpreted here.
    pub joy: serde_json::Value,
    /// Opaque short string.
    pub personality: String,
}

pub struct DocView {
    pub description: Seq<char>,
    pub joy: Seq<char>,
    pub personality: Seq<char>,
}

impl View for Doc {
    type V = DocView;

    open spec fn view(&self) -> DocView {
        DocView {
            description: self.description@,
            joy: json_text(self.joy),
            personality: self.personality@,
        }
    }
}

/// The annotation that stands for "not annotated": empty texts and JSON null.
pub open spec fn empty_doc() -> DocView {
    DocView { description: Seq::empty(), joy: seq!['n', 'u', 'l', 'l'], personality: Seq::empty() }
}

impl Default for Doc {
    fn default() -> (r: Self)
        ensures
            r@ == empty_doc(),
    {
        Doc { description: String::new(), joy: json_null(), personality: String::new() }
    }
}

impl Clone for Doc {
    fn clone(&self) -> (r: Self)
        ensures
            r@ == self@,
    {
        Doc {
            description: self.description.clone(),
            joy: self.joy.clone(),
            personality: self.personality.clone(),
        }
    }
}

/// One cached file: identity, fingerprint and annotation.
#[derive(Debug)]
pub struct FileEntry {
    pub name: String,
    /// Path relative to the cache root: the lookup key.
    pub path: String,
    pub hash: String,
    pub updated_at: Timestamp,
    pub doc: Doc,
}

pub struct FileView {
    pub name: Seq<char>,
    pub path: Seq<char>,
    pub hash: Seq<char>,
    pub updated_at: Timestamp,
    pub doc: DocView,
}

impl View for FileEntry {
    type V = FileView;

    open spec fn view(&self) -> FileView {
        FileView {
            name: self.name@,
            path: self.path@,
            hash: self.hash@,
            updated_at: self.updated_at,
            doc: self.doc@,
        }
    }
}

impl Clone for FileEntry {
    fn clone(&self) -> (r: Self)
        ensures
            r@ == self@,
    {
        FileEntry {
            name: self.name.clone(),
            path: self.path.clone(),
            hash: self.hash.clone(),
            updated_at: self.updated_at,
            doc: self.doc.clone(),
        }
    }
}

/// A directory of the cache tree.
#[derive(Debug)]
pub struct DirEntry {
    pub name: String,
    /// The directory's own label; not used for traversal.
    pub path: String,
    pub updated_at: Timestamp,
    pub entries: Vec<Node>,
}

/// A node of the cache tree.
#[derive(Debug)]
pub enum Node {
    Dir(DirEntry),
    File(FileEntry),
}

pub struct DirView {
    pub name: Seq<char>,
    pub path: Seq<char>,
    pub updated_at: Timestamp,
    pub entries: Seq<NodeView>,
}

pub enum NodeView {
    Dir(DirView),
    File(FileView),
}

/// The view of a node: strings as character sequences, children as a sequence.
pub open spec fn node_view(n: Node) -> NodeView
    decreases n, 0int,
{
    match n {
        Node::Dir(d) => NodeView::Dir(
            DirView {
                name: d.name@,
                path: d.path@,
                updated_at: d.updated_at,
                entries: forest_view(d.entries@),
            },
        ),
        Node::File(f) => NodeView::File(f@),
    }
}

/// The views of a sequence of nodes, in order.
pub open spec fn forest_view(nodes: Seq<Node>) -> Seq<NodeView>
    decreases nodes, 1int,
{
    Seq::new(
        nodes.len(),
        |i: int|
            if 0 <= i < nodes.len() {
                node_view(nodes[i])
            } else {
                arbitrary()
            },
    )
}

impl View for Node {
    type V = NodeView;

    open spec fn view(&self) -> NodeView {
        node_view(*self)
    }
}

impl View for DirEntry {
    type V = DirView;

    open spec fn view(&self) -> DirView {
        DirView {
            name: self.name@,
            path: self.path@,
            updated_at: self.updated_at,
            entries: forest_view(self.entries@),
        }
    }
}

/// Copies a sequence of nodes.
pub fn clone_nodes(nodes: &Vec<Node>) -> (r: Vec<Node>)
    ensures
        forest_view(r@) == forest_view(nodes@),
    decreases nodes,
{
    let mut out: Vec<Node> = Vec::new();
    let mut i: usize = 0;
    while i < nodes.len()
        invariant
            i <= nodes.len(),
            out@.len() == i,
            forall|j: int| 0 <= j < i ==> node_view(out@[j]) == node_view(nodes@[j]),
        decreases nodes.len() - i,
    {
        let copy = match &nodes[i] {
            Node::Dir(d) => Node::Dir(
                DirEntry {
                    name: d.name.clone(),
                    path: d.path.clone(),
                    updated_at: d.updated_at,
                    entries: clone_nodes(&d.entries),
                },
            ),
            Node::File(f) => Node::File(f.clone()),
        };
        out.push(copy);
        i = i + 1;
    }
    assert(forest_view(out@) =~= forest_view(nodes@));
    out
}

impl Clone for DirEntry {
    fn clone(&self) -> (r: Self)
        ensures
            r@ == self@,
    {
        DirEntry {
            name: self.name.clone(),
            path: self.path.clone(),
            updated_at: self.updated_at,
            entries: clone_nodes(&self.entries),
        }
    }
}

impl Clone for Node {
    fn clone(&self) -> (r: Self)
        ensures
            r@ == self@,
    {
        match self {
            Node::Dir(d) => Node::Dir(d.clone()),
            Node::File(f) => Node::File(f.clone()),
        }
    }
}

/// A whole cache file.
#[derive(Debug)]
pub struct DirdocsRoot {
    /// Display label of the cache root.
    pub root: String,
    pub updated_at: Timestamp,
    pub entries: Vec<Node>,
}

pub struct RootView {
    pub root: Seq<char>,
    pub updated_at: Timestamp,
    pub entries: Seq<NodeView>,
}

impl View for DirdocsRoot {
    type V = RootView;

    open spec fn view(&self) -> RootView {
        RootView {
            root: self.root@,
            updated_at: self.updated_at,
            entries: forest_view(self.entries@),
        }
    }
}

impl Clone for DirdocsRoot {
    fn clone(&self) -> (r: Self)
        ensures
            r@ == self@,
    {
        DirdocsRoot {
            root: self.root.clone(),
            updated_at: self.updated_at,
            entries: clone_nodes(&self.entries),
        }
    }
}

} // verus!
