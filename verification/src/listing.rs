//! What the listing tools read from a cache: for each file, what there is to
//! show of its annotation.

use crate::index::{flat_files, node_files};
use crate::json::{json_as_str, json_is_null, json_string, json_text, json_to_string};
use crate::model::{forest_view, DocView, FileEntry, FileView, Node};
use crate::strings::{spec_trim, trimmed};
use vstd::hash_map::StringHashMap;
use vstd::prelude::*;

verus! {

/// What is shown of one file's annotation.
#[derive(Debug)]
pub struct FileDocInfo {
    pub description: String,
    pub personality: String,
    pub joy: String,
}

pub struct InfoView {
    pub description: Seq<char>,
    pub personality: Seq<char>,
    pub joy: Seq<char>,
}

impl View for FileDocInfo {
    type V = InfoView;

    open spec fn view(&self) -> InfoView {
        InfoView { description: self.description@, personality: self.personality@, joy: self.joy@ }
    }
}

impl Clone for FileDocInfo {
    fn clone(&self) -> (r: Self)
        ensures
            r@ == self@,
    {
        FileDocInfo {
            description: self.description.clone(),
            personality: self.personality.clone(),
            joy: self.joy.clone(),
        }
    }
}

/// The map from path to what is shown.
pub type InfoMap = Map<Seq<char>, InfoView>;

/// How a joy value is shown, given its JSON text: null as nothing, a string
/// as itself, anything else as its JSON text.
pub open spec fn spec_joy_label(text: Seq<char>) -> Seq<char> {
    if text == seq!['n', 'u', 'l', 'l'] {
        Seq::empty()
    } else {
        match json_string(text) {
            Some(s) => s,
            None => text,
        }
    }
}

/// How a joy value is shown.
pub fn joy_label(joy: &serde_json::Value) -> (r: String)
    ensures
        r@ == spec_joy_label(json_text(*joy)),
{
    if json_is_null(joy) {
        return String::new();
    }
    match json_as_str(joy) {
        Some(s) => s,
        None => json_to_string(joy),
    }
}

/// What is shown of the annotation `doc`.
pub open spec fn info_of(doc: DocView) -> InfoView {
    InfoView {
        description: spec_trim(doc.description),
        personality: spec_trim(doc.personality),
        joy: spec_joy_label(doc.joy),
    }
}

/// Is there nothing to show?
pub open spec fn is_bare(info: InfoView) -> bool {
    info.description.len() == 0 && info.personality.len() == 0 && info.joy.len() == 0
}

/// `m` after the file entries `files` were looked at one after the other:
/// each that has something to show is written under its path.
pub open spec fn with_info(m: InfoMap, files: Seq<FileView>) -> InfoMap
    decreases files.len(),
{
    if files.len() == 0 {
        m
    } else {
        let front = with_info(m, files.drop_last());
        let info = info_of(files.last().doc);
        if is_bare(info) {
            front
        } else {
            front.insert(files.last().path, info)
        }
    }
}

/// `m` after the file entries `files` were looked at one after the other:
/// each that has a description is written under its path, with that alone.
pub open spec fn with_descriptions(m: InfoMap, files: Seq<FileView>) -> InfoMap
    decreases files.len(),
{
    if files.len() == 0 {
        m
    } else {
        let front = with_descriptions(m, files.drop_last());
        let description = spec_trim(files.last().doc.description);
        if description.len() == 0 {
            front
        } else {
            front.insert(
                files.last().path,
                InfoView {
                    description: description,
                    personality: Seq::empty(),
                    joy: Seq::empty(),
                },
            )
        }
    }
}

proof fn lemma_with_info_concat(m: InfoMap, a: Seq<FileView>, b: Seq<FileView>)
    ensures
        with_info(m, a + b) == with_info(with_info(m, a), b),
    decreases b.len(),
{
    if b.len() == 0 {
        assert(a + b =~= a);
    } else {
        assert((a + b).drop_last() =~= a + b.drop_last());
        lemma_with_info_concat(m, a, b.drop_last());
    }
}

proof fn lemma_with_descriptions_concat(m: InfoMap, a: Seq<FileView>, b: Seq<FileView>)
    ensures
        with_descriptions(m, a + b) == with_descriptions(with_descriptions(m, a), b),
    decreases b.len(),
{
    if b.len() == 0 {
        assert(a + b =~= a);
    } else {
        assert((a + b).drop_last() =~= a + b.drop_last());
        lemma_with_descriptions_concat(m, a, b.drop_last());
    }
}

/// What is shown, by path.
pub struct DocInfoMap {
    map: StringHashMap<FileDocInfo>,
}

impl View for DocInfoMap {
    type V = InfoMap;

    closed spec fn view(&self) -> InfoMap {
        self.map@.map_values(|i: FileDocInfo| i@)
    }
}

impl DocInfoMap {
    /// An empty map.
    pub fn new() -> (r: Self)
        ensures
            r@ == Map::<Seq<char>, InfoView>::empty(),
    {
        let r = DocInfoMap { map: StringHashMap::new() };
        assert(r@ =~= Map::<Seq<char>, InfoView>::empty());
        r
    }

    /// Writes `info` under `path`.
    pub fn insert(&mut self, path: String, info: FileDocInfo)
        ensures
            final(self)@ == old(self)@.insert(path@, info@),
    {
        self.map.insert(path, info);
        assert(self@ =~= old(self)@.insert(path@, info@));
    }

    /// What is shown of the file at `path`.
    pub fn get(&self, path: &str) -> (r: Option<&FileDocInfo>)
        ensures
            match r {
                Some(i) => self@.contains_key(path@) && i@ == self@[path@],
                None => !self@.contains_key(path@),
            },
    {
        self.map.get(path)
    }

    /// The number of files with something to show.
    pub fn len(&self) -> (n: usize)
        ensures
            n == self@.len(),
    {
        broadcast use vstd::hash_map::axiom_string_hash_map_spec_len;

        assert(self@.dom() =~= self.map@.dom());
        self.map.len()
    }
}

/// What is shown of one file entry.
pub fn doc_info(f: &FileEntry) -> (r: FileDocInfo)
    ensures
        r@ == info_of(f@.doc),
{
    FileDocInfo {
        description: trimmed(f.doc.description.as_str()),
        personality: trimmed(f.doc.personality.as_str()),
        joy: joy_label(&f.doc.joy),
    }
}

/// Gathers what is shown of the files below `nodes`: description,
/// personality and joy of each file that has any of them.
pub fn load_descriptions(nodes: &Vec<Node>, out: &mut DocInfoMap)
    ensures
        final(out)@ == with_info(old(out)@, flat_files(forest_view(nodes@))),
    decreases nodes,
{
    let mut i: usize = 0;
    let ghost forest = forest_view(nodes@);
    assert(forest.take(0) =~= Seq::empty());
    while i < nodes.len()
        invariant
            i <= nodes.len(),
            forest == forest_view(nodes@),
            out@ == with_info(old(out)@, flat_files(forest.take(i as int))),
        decreases nodes.len() - i,
    {
        proof {
            assert(forest.take(i + 1).drop_last() =~= forest.take(i as int));
            lemma_with_info_concat(
                old(out)@,
                flat_files(forest.take(i as int)),
                node_files(forest[i as int]),
            );
        }
        match &nodes[i] {
            Node::Dir(d) => {
                load_descriptions(&d.entries, out);
            },
            Node::File(f) => {
                let info = doc_info(f);
                proof {
                    let before = out@;
                    assert(seq![f@].drop_last() =~= Seq::<FileView>::empty());
                    assert(with_info(before, seq![f@].drop_last()) == before);
                }
                if !(info.description.as_str().is_empty() && info.personality.as_str().is_empty()
                    && info.joy.as_str().is_empty()) {
                    out.insert(f.path.clone(), info);
                }
            },
        }
        i = i + 1;
    }
    assert(forest.take(i as int) =~= forest);
}

/// Gathers the descriptions of the files below `nodes`: of each file that
/// has one.
pub fn load_plain_descriptions(nodes: &Vec<Node>, out: &mut DocInfoMap)
    ensures
        final(out)@ == with_descriptions(old(out)@, flat_files(forest_view(nodes@))),
    decreases nodes,
{
    let mut i: usize = 0;
    let ghost forest = forest_view(nodes@);
    assert(forest.take(0) =~= Seq::empty());
    while i < nodes.len()
        invariant
            i <= nodes.len(),
            forest == forest_view(nodes@),
            out@ == with_descriptions(old(out)@, flat_files(forest.take(i as int))),
        decreases nodes.len() - i,
    {
        proof {
            assert(forest.take(i + 1).drop_last() =~= forest.take(i as int));
            lemma_with_descriptions_concat(
                old(out)@,
                flat_files(forest.take(i as int)),
                node_files(forest[i as int]),
            );
        }
        match &nodes[i] {
            Node::Dir(d) => {
                load_plain_descriptions(&d.entries, out);
            },
            Node::File(f) => {
                let description = trimmed(f.doc.description.as_str());
                proof {
                    let before = out@;
                    assert(seq![f@].drop_last() =~= Seq::<FileView>::empty());
                    assert(with_descriptions(before, seq![f@].drop_last()) == before);
                }
                if !description.as_str().is_empty() {
                    out.insert(
                        f.path.clone(),
                        FileDocInfo {
                            description,
                            personality: String::new(),
                            joy: String::new(),
                        },
                    );
                }
            },
        }
        i = i + 1;
    }
    assert(forest.take(i as int) =~= forest);
}

} // verus!
