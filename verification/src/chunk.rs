//! How a file's text is split for the annotator: which splitter by its kind,
//! and which of the chunks stand for the whole.

use crate::paths::{path_extension, spec_path_extension};
use crate::strings::{
    chars_of, spec_ascii_lowercase, spec_contains, spec_to_lowercase, str_contains, str_eq,
    strings_view, to_ascii_lowercase, to_lowercase, whitespace_flags, whitespace_of,
};
use crate::text::{spec_suppressed_block, suppressed_block};
use text_splitter::{ChunkConfig, CodeSplitter, MarkdownSplitter, TextSplitter};
use vstd::prelude::*;

verus! {

/// A language whose grammar the code splitter knows.
#[derive(Clone, Copy, PartialEq, Eq, Structural, Debug)]
pub enum CodeLanguage {
    Bash,
    C,
    Cpp,
    CSharp,
    Css,
    EmbeddedTemplate,
    Go,
    Haskell,
    Html,
    Java,
    JavaScript,
    Jsdoc,
    Json,
    Julia,
    OCaml,
    Php,
    Python,
    Regex,
    Ruby,
    Rust,
    Scala,
    TypeScript,
    Verilog,
}

/// The splitter to use on a file.
#[derive(Clone, Copy, PartialEq, Eq, Structural, Debug)]
pub enum SplitterKind {
    Code(CodeLanguage),
    Markdown,
    Text,
}

/// The language of files with the extension `ext`, given in lower case.
pub open spec fn spec_language(ext: Seq<char>) -> Option<CodeLanguage> {
    if ext == "sh"@ || ext == "bash"@ || ext == "zsh"@ {
        Some(CodeLanguage::Bash)
    } else if ext == "c"@ || ext == "h"@ {
        Some(CodeLanguage::C)
    } else if ext == "cpp"@ || ext == "cxx"@ || ext == "cc"@ || ext == "hpp"@ || ext == "hxx"@
        || ext == "hh"@ {
        Some(CodeLanguage::Cpp)
    } else if ext == "cs"@ {
        Some(CodeLanguage::CSharp)
    } else if ext == "css"@ {
        Some(CodeLanguage::Css)
    } else if ext == "erb"@ || ext == "ejs"@ {
        Some(CodeLanguage::EmbeddedTemplate)
    } else if ext == "go"@ {
        Some(CodeLanguage::Go)
    } else if ext == "hs"@ {
        Some(CodeLanguage::Haskell)
    } else if ext == "html"@ || ext == "htm"@ {
        Some(CodeLanguage::Html)
    } else if ext == "java"@ {
        Some(CodeLanguage::Java)
    } else if ext == "js"@ || ext == "mjs"@ || ext == "cjs"@ {
        Some(CodeLanguage::JavaScript)
    } else if ext == "jsdoc"@ {
        Some(CodeLanguage::Jsdoc)
    } else if ext == "json"@ {
        Some(CodeLanguage::Json)
    } else if ext == "jl"@ {
        Some(CodeLanguage::Julia)
    } else if ext == "ml"@ || ext == "mli"@ {
        Some(CodeLanguage::OCaml)
    } else if ext == "php"@ || ext == "phtml"@ {
        Some(CodeLanguage::Php)
    } else if ext == "py"@ {
        Some(CodeLanguage::Python)
    } else if ext == "re"@ || ext == "regex"@ {
        Some(CodeLanguage::Regex)
    } else if ext == "rb"@ || ext == "rake"@ || ext == "gemspec"@ {
        Some(CodeLanguage::Ruby)
    } else if ext == "rs"@ {
        Some(CodeLanguage::Rust)
    } else if ext == "scala"@ || ext == "sc"@ {
        Some(CodeLanguage::Scala)
    } else if ext == "ts"@ || ext == "tsx"@ {
        Some(CodeLanguage::TypeScript)
    } else if ext == "v"@ || ext == "vh"@ || ext == "sv"@ || ext == "svh"@ {
        Some(CodeLanguage::Verilog)
    } else {
        None
    }
}

/// The language of files with the extension `ext`, given in lower case.
pub fn language_for_extension(ext: &str) -> (r: Option<CodeLanguage>)
    ensures
        r == spec_language(ext@),
{
    if str_eq(ext, "sh") || str_eq(ext, "bash") || str_eq(ext, "zsh") {
        Some(CodeLanguage::Bash)
    } else if str_eq(ext, "c") || str_eq(ext, "h") {
        Some(CodeLanguage::C)
    } else if str_eq(ext, "cpp") || str_eq(ext, "cxx") || str_eq(ext, "cc") || str_eq(ext, "hpp")
        || str_eq(ext, "hxx") || str_eq(ext, "hh") {
        Some(CodeLanguage::Cpp)
    } else if str_eq(ext, "cs") {
        Some(CodeLanguage::CSharp)
    } else if str_eq(ext, "css") {
        Some(CodeLanguage::Css)
    } else if str_eq(ext, "erb") || str_eq(ext, "ejs") {
        Some(CodeLanguage::EmbeddedTemplate)
    } else if str_eq(ext, "go") {
        Some(CodeLanguage::Go)
    } else if str_eq(ext, "hs") {
        Some(CodeLanguage::Haskell)
    } else if str_eq(ext, "html") || str_eq(ext, "htm") {
        Some(CodeLanguage::Html)
    } else if str_eq(ext, "java") {
        Some(CodeLanguage::Java)
    } else if str_eq(ext, "js") || str_eq(ext, "mjs") || str_eq(ext, "cjs") {
        Some(CodeLanguage::JavaScript)
    } else if str_eq(ext, "jsdoc") {
        Some(CodeLanguage::Jsdoc)
    } else if str_eq(ext, "json") {
        Some(CodeLanguage::Json)
    } else if str_eq(ext, "jl") {
        Some(CodeLanguage::Julia)
    } else if str_eq(ext, "ml") || str_eq(ext, "mli") {
        Some(CodeLanguage::OCaml)
    } else if str_eq(ext, "php") || str_eq(ext, "phtml") {
        Some(CodeLanguage::Php)
    } else if str_eq(ext, "py") {
        Some(CodeLanguage::Python)
    } else if str_eq(ext, "re") || str_eq(ext, "regex") {
        Some(CodeLanguage::Regex)
    } else if str_eq(ext, "rb") || str_eq(ext, "rake") || str_eq(ext, "gemspec") {
        Some(CodeLanguage::Ruby)
    } else if str_eq(ext, "rs") {
        Some(CodeLanguage::Rust)
    } else if str_eq(ext, "scala") || str_eq(ext, "sc") {
        Some(CodeLanguage::Scala)
    } else if str_eq(ext, "ts") || str_eq(ext, "tsx") {
        Some(CodeLanguage::TypeScript)
    } else if str_eq(ext, "v") || str_eq(ext, "vh") || str_eq(ext, "sv") || str_eq(ext, "svh") {
        Some(CodeLanguage::Verilog)
    } else {
        None
    }
}

/// The language of the file at `path`, by its extension in any ASCII case.
pub open spec fn spec_guess_language(path: Seq<char>) -> Option<CodeLanguage> {
    match spec_path_extension(path) {
        Some(ext) => spec_language(spec_ascii_lowercase(ext)),
        None => None,
    }
}

/// Guesses the language of the file at `path` by its extension; the media
/// type plays no part.
pub fn guess_tree_sitter_language(_mime: &str, path: &str) -> (r: Option<CodeLanguage>)
    ensures
        r == spec_guess_language(path@),
{
    match path_extension(path) {
        Some(ext) => language_for_extension(to_ascii_lowercase(ext.as_str()).as_str()),
        None => None,
    }
}

/// Is `ext`, given in lower case, an extension of Markdown files?
pub open spec fn markdown_extension(ext: Seq<char>) -> bool {
    ext == "md"@ || ext == "markdown"@ || ext == "mdx"@
}

/// The splitter for a file, from its media type in lower case and its
/// extension in lower case: Markdown where either says so, else code in the
/// language `language`, else plain text.
pub open spec fn spec_splitter(
    mime_lower: Seq<char>,
    ext_lower: Option<Seq<char>>,
    language: Option<CodeLanguage>,
) -> SplitterKind {
    if spec_contains(mime_lower, "markdown"@) || (ext_lower matches Some(e) && markdown_extension(
        e,
    )) {
        SplitterKind::Markdown
    } else {
        match language {
            Some(l) => SplitterKind::Code(l),
            None => SplitterKind::Text,
        }
    }
}

/// Picks the splitter from the media type and the extension, both in lower
/// case, and the language guessed.
pub fn choose_splitter(
    mime_lower: &str,
    ext_lower: Option<&str>,
    language: Option<CodeLanguage>,
) -> (r: SplitterKind)
    ensures
        r == spec_splitter(
            mime_lower@,
            match ext_lower {
                Some(e) => Some(e@),
                None => None,
            },
            language,
        ),
{
    let by_ext = match ext_lower {
        Some(e) => str_eq(e, "md") || str_eq(e, "markdown") || str_eq(e, "mdx"),
        None => false,
    };
    if str_contains(mime_lower, "markdown") || by_ext {
        SplitterKind::Markdown
    } else {
        match language {
            Some(l) => SplitterKind::Code(l),
            None => SplitterKind::Text,
        }
    }
}

/// Picks the splitter for the file at `path` with the media type `mime`.
pub fn guess_splitter(mime: &str, path: &str) -> (r: SplitterKind)
    ensures
        r == spec_splitter(
            spec_to_lowercase(mime@),
            match spec_path_extension(path@) {
                Some(e) => Some(spec_to_lowercase(e)),
                None => None,
            },
            spec_guess_language(path@),
        ),
{
    let mime_lower = to_lowercase(mime);
    let language = guess_tree_sitter_language(mime, path);
    match path_extension(path) {
        Some(e) => {
            let ext_lower = to_lowercase(e.as_str());
            choose_splitter(mime_lower.as_str(), Some(ext_lower.as_str()), language)
        },
        None => choose_splitter(mime_lower.as_str(), None, language),
    }
}

/// The name under which a splitter is reported.
pub fn splitter_label(kind: SplitterKind) -> (r: String)
    ensures
        r@ == spec_splitter_label(kind),
{
    match kind {
        SplitterKind::Code(_) => "code".to_owned(),
        SplitterKind::Markdown => "markdown".to_owned(),
        SplitterKind::Text => "text".to_owned(),
    }
}

/// Is every character of `s` white space?
pub open spec fn spec_is_blank(s: Seq<char>) -> bool {
    forall|i: int| 0 <= i < s.len() ==> whitespace_flags(s)[i]
}

/// Is `text` empty but for white space?
pub fn is_blank(text: &str) -> (r: bool)
    ensures
        r == spec_is_blank(text@),
{
    let chars = chars_of(text);
    let space = whitespace_of(&chars);
    let mut i: usize = 0;
    while i < space.len()
        invariant
            i <= space.len(),
            space@ == whitespace_flags(text@),
            forall|j: int| 0 <= j < i ==> space@[j],
        decreases space.len() - i,
    {
        if !space[i] {
            assert(!whitespace_flags(text@)[i as int]);
            return false;
        }
        i = i + 1;
    }
    true
}

/// The chunks that stand for a text: the first, the one in the middle and
/// the last; three empty texts where there is no chunk.
pub open spec fn spec_pick_chunks(chunks: Seq<Seq<char>>) -> (Seq<char>, Seq<char>, Seq<char>) {
    if chunks.len() == 0 {
        (Seq::empty(), Seq::empty(), Seq::empty())
    } else {
        (chunks[0], chunks[(chunks.len() / 2) as int], chunks[chunks.len() - 1])
    }
}

/// Picks the first, the middle and the last chunk.
pub fn pick_chunks(chunks: &Vec<String>) -> (r: (String, String, String))
    ensures
        (r.0@, r.1@, r.2@) == spec_pick_chunks(strings_view(chunks@)),
{
    let n = chunks.len();
    if n == 0 {
        return (String::new(), String::new(), String::new());
    }
    (chunks[0].clone(), chunks[n / 2].clone(), chunks[n - 1].clone())
}

/// What is reported of a binary file: the placeholder in place of each
/// chunk, under the label `binary`.
pub fn binary_report() -> (r: ChunkReport)
    ensures
        r@ == (ChunkReportView {
            first: spec_suppressed_block(),
            middle: spec_suppressed_block(),
            last: spec_suppressed_block(),
            splitter: "binary"@,
        }),
{
    ChunkReport {
        first: suppressed_block(),
        middle: suppressed_block(),
        last: suppressed_block(),
        splitter: "binary".to_owned(),
    }
}

/// A grammar of the code splitter.
#[verifier::external_type_specification]
#[verifier::external_body]
pub struct ExGrammar(tree_sitter::Language);

/// The language that a grammar is for.
pub uninterp spec fn grammar_of(g: tree_sitter::Language) -> CodeLanguage;

/// Takes the grammar of Bash from `tree_sitter_bash::LANGUAGE`.
#[verifier::external_body]
pub(crate) fn bash_grammar() -> (g: tree_sitter::Language)
    ensures
        grammar_of(g) == CodeLanguage::Bash,
{
    tree_sitter_bash::LANGUAGE.into()
}

/// Takes the grammar of C from `tree_sitter_c::LANGUAGE`.
#[verifier::external_body]
pub(crate) fn c_grammar() -> (g: tree_sitter::Language)
    ensures
        grammar_of(g) == CodeLanguage::C,
{
    tree_sitter_c::LANGUAGE.into()
}

/// Takes the grammar of C# from `tree_sitter_c_sharp::LANGUAGE`.
#[verifier::external_body]
pub(crate) fn c_sharp_grammar() -> (g: tree_sitter::Language)
    ensures
        grammar_of(g) == CodeLanguage::CSharp,
{
    tree_sitter_c_sharp::LANGUAGE.into()
}

/// Takes the grammar of C++ from `tree_sitter_cpp::LANGUAGE`.
#[verifier::external_body]
pub(crate) fn cpp_grammar() -> (g: tree_sitter::Language)
    ensures
        grammar_of(g) == CodeLanguage::Cpp,
{
    tree_sitter_cpp::LANGUAGE.into()
}

/// Takes the grammar of CSS from `tree_sitter_css::LANGUAGE`.
#[verifier::external_body]
pub(crate) fn css_grammar() -> (g: tree_sitter::Language)
    ensures
        grammar_of(g) == CodeLanguage::Css,
{
    tree_sitter_css::LANGUAGE.into()
}

/// Takes the grammar of Go from `tree_sitter_go::LANGUAGE`.
#[verifier::external_body]
pub(crate) fn go_grammar() -> (g: tree_sitter::Language)
    ensures
        grammar_of(g) == CodeLanguage::Go,
{
    tree_sitter_go::LANGUAGE.into()
}

/// Takes the grammar of Haskell from `tree_sitter_haskell::LANGUAGE`.
#[verifier::external_body]
pub(crate) fn haskell_grammar() -> (g: tree_sitter::Language)
    ensures
        grammar_of(g) == CodeLanguage::Haskell,
{
    tree_sitter_haskell::LANGUAGE.into()
}

/// Takes the grammar of HTML from `tree_sitter_html::LANGUAGE`.
#[verifier::external_body]
pub(crate) fn html_grammar() -> (g: tree_sitter::Language)
    ensures
        grammar_of(g) == CodeLanguage::Html,
{
    tree_sitter_html::LANGUAGE.into()
}

/// Takes the grammar of Java from `tree_sitter_java::LANGUAGE`.
#[verifier::external_body]
pub(crate) fn java_grammar() -> (g: tree_sitter::Language)
    ensures
        grammar_of(g) == CodeLanguage::Java,
{
    tree_sitter_java::LANGUAGE.into()
}

/// Takes the grammar of JavaScript from `tree_sitter_javascript::LANGUAGE`.
#[verifier::external_body]
pub(crate) fn javascript_grammar() -> (g: tree_sitter::Language)
    ensures
        grammar_of(g) == CodeLanguage::JavaScript,
{
    tree_sitter_javascript::LANGUAGE.into()
}

/// Takes the grammar of JSON from `tree_sitter_json::LANGUAGE`.
#[verifier::external_body]
pub(crate) fn json_grammar() -> (g: tree_sitter::Language)
    ensures
        grammar_of(g) == CodeLanguage::Json,
{
    tree_sitter_json::LANGUAGE.into()
}

/// Takes the grammar of Julia from `tree_sitter_julia::LANGUAGE`.
#[verifier::external_body]
pub(crate) fn julia_grammar() -> (g: tree_sitter::Language)
    ensures
        grammar_of(g) == CodeLanguage::Julia,
{
    tree_sitter_julia::LANGUAGE.into()
}

/// Takes the grammar of OCaml from `tree_sitter_ocaml::LANGUAGE_OCAML`.
#[verifier::external_body]
pub(crate) fn ocaml_grammar() -> (g: tree_sitter::Language)
    ensures
        grammar_of(g) == CodeLanguage::OCaml,
{
    tree_sitter_ocaml::LANGUAGE_OCAML.into()
}

/// Takes the grammar of PHP from `tree_sitter_php::LANGUAGE_PHP`.
#[verifier::external_body]
pub(crate) fn php_grammar() -> (g: tree_sitter::Language)
    ensures
        grammar_of(g) == CodeLanguage::Php,
{
    tree_sitter_php::LANGUAGE_PHP.into()
}

/// Takes the grammar of Python from `tree_sitter_python::LANGUAGE`.
#[verifier::external_body]
pub(crate) fn python_grammar() -> (g: tree_sitter::Language)
    ensures
        grammar_of(g) == CodeLanguage::Python,
{
    tree_sitter_python::LANGUAGE.into()
}

/// Takes the grammar of Ruby from `tree_sitter_ruby::LANGUAGE`.
#[verifier::external_body]
pub(crate) fn ruby_grammar() -> (g: tree_sitter::Language)
    ensures
        grammar_of(g) == CodeLanguage::Ruby,
{
    tree_sitter_ruby::LANGUAGE.into()
}

/// Takes the grammar of Rust from `tree_sitter_rust::LANGUAGE`.
#[verifier::external_body]
pub(crate) fn rust_grammar() -> (g: tree_sitter::Language)
    ensures
        grammar_of(g) == CodeLanguage::Rust,
{
    tree_sitter_rust::LANGUAGE.into()
}

/// Takes the grammar of Scala from `tree_sitter_scala::LANGUAGE`.
#[verifier::external_body]
pub(crate) fn scala_grammar() -> (g: tree_sitter::Language)
    ensures
        grammar_of(g) == CodeLanguage::Scala,
{
    tree_sitter_scala::LANGUAGE.into()
}

/// Takes the grammar of TypeScript from `tree_sitter_typescript::LANGUAGE_TYPESCRIPT`.
#[verifier::external_body]
pub(crate) fn typescript_grammar() -> (g: tree_sitter::Language)
    ensures
        grammar_of(g) == CodeLanguage::TypeScript,
{
    tree_sitter_typescript::LANGUAGE_TYPESCRIPT.into()
}

/// Why a text could not be split.
#[derive(Clone, Copy, PartialEq, Eq, Structural, Debug)]
pub enum SplitError {
    /// The tokenizer could not be set up.
    NoTokenizer,
    /// The splitter does not take the grammar.
    BadGrammar,
}

/// What splitting gives: the chunks in order, or why there are none.
pub type Split = Result<Seq<Seq<char>>, SplitError>;

/// The chunks that `TextSplitter` makes of `text`, each of at most
/// `max_tokens` tokens of the tokenizer `cl100k_base`.
pub uninterp spec fn text_chunks(text: Seq<char>, max_tokens: usize) -> Split;

/// The chunks that `MarkdownSplitter` makes of `text`, each of at most
/// `max_tokens` tokens of the tokenizer `cl100k_base`.
pub uninterp spec fn markdown_chunks(text: Seq<char>, max_tokens: usize) -> Split;

/// The chunks that `CodeSplitter` makes of `text` with the grammar of
/// `language`, each of at most `max_tokens` tokens of the tokenizer
/// `cl100k_base`.
pub uninterp spec fn code_chunks(
    language: CodeLanguage,
    text: Seq<char>,
    max_tokens: usize,
) -> Split;

/// The views of the chunks of a split.
pub open spec fn split_view(r: Result<Vec<String>, SplitError>) -> Split {
    match r {
        Ok(chunks) => Ok(strings_view(chunks@)),
        Err(e) => Err(e),
    }
}

/// Sets up the tokenizer with `tiktoken_rs::cl100k_base` and splits `text`
/// with `TextSplitter::chunks`. The capacity must not be zero: the splitter
/// subtracts a chunk's size of at least one from it.
#[verifier::external_body]
pub(crate) fn split_text(text: &str, max_tokens: usize) -> (r: Result<Vec<String>, SplitError>)
    requires
        max_tokens > 0,
    ensures
        split_view(r) == text_chunks(text@, max_tokens),
{
    let bpe = match tiktoken_rs::cl100k_base() {
        Ok(b) => b,
        Err(_) => return Err(SplitError::NoTokenizer),
    };
    let splitter = TextSplitter::new(ChunkConfig::new(max_tokens).with_sizer(&bpe));
    Ok(splitter.chunks(text).map(|c| c.to_owned()).collect())
}

/// Sets up the tokenizer with `tiktoken_rs::cl100k_base` and splits `text`
/// with `MarkdownSplitter::chunks`. The capacity must not be zero.
#[verifier::external_body]
pub(crate) fn split_markdown(text: &str, max_tokens: usize) -> (r: Result<Vec<String>, SplitError>)
    requires
        max_tokens > 0,
    ensures
        split_view(r) == markdown_chunks(text@, max_tokens),
{
    let bpe = match tiktoken_rs::cl100k_base() {
        Ok(b) => b,
        Err(_) => return Err(SplitError::NoTokenizer),
    };
    let splitter = MarkdownSplitter::new(ChunkConfig::new(max_tokens).with_sizer(&bpe));
    Ok(splitter.chunks(text).map(|c| c.to_owned()).collect())
}

/// Sets up the tokenizer with `tiktoken_rs::cl100k_base`, makes a
/// `CodeSplitter` for the grammar with `CodeSplitter::new`, which may refuse
/// it, and splits `text` with `chunks`. The capacity must not be zero.
#[verifier::external_body]
pub(crate) fn split_code(grammar: tree_sitter::Language, text: &str, max_tokens: usize) -> (r:
    Result<Vec<String>, SplitError>)
    requires
        max_tokens > 0,
    ensures
        split_view(r) == code_chunks(grammar_of(grammar), text@, max_tokens),
{
    let bpe = match tiktoken_rs::cl100k_base() {
        Ok(b) => b,
        Err(_) => return Err(SplitError::NoTokenizer),
    };
    let cfg = ChunkConfig::new(max_tokens).with_sizer(&bpe);
    let splitter = match CodeSplitter::new(grammar, cfg) {
        Ok(s) => s,
        Err(_) => return Err(SplitError::BadGrammar),
    };
    Ok(splitter.chunks(text).map(|c| c.to_owned()).collect())
}

/// Is the grammar of `language` built in? All are but those of embedded
/// templates, JSDoc, regular expressions and Verilog.
pub open spec fn has_grammar(language: CodeLanguage) -> bool {
    language != CodeLanguage::EmbeddedTemplate && language != CodeLanguage::Jsdoc && language
        != CodeLanguage::Regex && language != CodeLanguage::Verilog
}

/// The grammar of `language`, where it is built in.
pub fn grammar(language: CodeLanguage) -> (r: Option<tree_sitter::Language>)
    ensures
        r.is_some() == has_grammar(language),
        r matches Some(g) ==> grammar_of(g) == language,
{
    match language {
        CodeLanguage::Bash => Some(bash_grammar()),
        CodeLanguage::C => Some(c_grammar()),
        CodeLanguage::CSharp => Some(c_sharp_grammar()),
        CodeLanguage::Cpp => Some(cpp_grammar()),
        CodeLanguage::Css => Some(css_grammar()),
        CodeLanguage::Go => Some(go_grammar()),
        CodeLanguage::Haskell => Some(haskell_grammar()),
        CodeLanguage::Html => Some(html_grammar()),
        CodeLanguage::Java => Some(java_grammar()),
        CodeLanguage::JavaScript => Some(javascript_grammar()),
        CodeLanguage::Json => Some(json_grammar()),
        CodeLanguage::Julia => Some(julia_grammar()),
        CodeLanguage::OCaml => Some(ocaml_grammar()),
        CodeLanguage::Php => Some(php_grammar()),
        CodeLanguage::Python => Some(python_grammar()),
        CodeLanguage::Ruby => Some(ruby_grammar()),
        CodeLanguage::Rust => Some(rust_grammar()),
        CodeLanguage::Scala => Some(scala_grammar()),
        CodeLanguage::TypeScript => Some(typescript_grammar()),
        CodeLanguage::EmbeddedTemplate => None,
        CodeLanguage::Jsdoc => None,
        CodeLanguage::Regex => None,
        CodeLanguage::Verilog => None,
    }
}

/// The splitter that is used where `kind` was chosen: code in a language
/// without a built-in grammar is split as plain text.
pub open spec fn splitter_in_use(kind: SplitterKind) -> SplitterKind {
    match kind {
        SplitterKind::Code(l) => if has_grammar(l) {
            kind
        } else {
            SplitterKind::Text
        },
        _ => kind,
    }
}

/// The chunks of `text` by the splitter in use for `kind`.
pub open spec fn spec_split(text: Seq<char>, kind: SplitterKind, max_tokens: usize) -> Split {
    match splitter_in_use(kind) {
        SplitterKind::Code(l) => code_chunks(l, text, max_tokens),
        SplitterKind::Markdown => markdown_chunks(text, max_tokens),
        SplitterKind::Text => text_chunks(text, max_tokens),
    }
}

/// Splits `text` with the splitter in use for `kind`, and tells which that is.
pub fn split(text: &str, kind: SplitterKind, max_tokens: usize) -> (r: (
    Result<Vec<String>, SplitError>,
    SplitterKind,
))
    requires
        max_tokens > 0,
    ensures
        r.1 == splitter_in_use(kind),
        split_view(r.0) == spec_split(text@, kind, max_tokens),
{
    match kind {
        SplitterKind::Code(l) => match grammar(l) {
            Some(g) => (split_code(g, text, max_tokens), kind),
            None => (split_text(text, max_tokens), SplitterKind::Text),
        },
        SplitterKind::Markdown => (split_markdown(text, max_tokens), kind),
        SplitterKind::Text => (split_text(text, max_tokens), kind),
    }
}

/// What is reported of a text for the prompt: three chunks and a label.
pub struct ChunkReport {
    pub first: String,
    pub middle: String,
    pub last: String,
    pub splitter: String,
}

pub struct ChunkReportView {
    pub first: Seq<char>,
    pub middle: Seq<char>,
    pub last: Seq<char>,
    pub splitter: Seq<char>,
}

impl View for ChunkReport {
    type V = ChunkReportView;

    open spec fn view(&self) -> ChunkReportView {
        ChunkReportView {
            first: self.first@,
            middle: self.middle@,
            last: self.last@,
            splitter: self.splitter@,
        }
    }
}

/// The label of a splitter.
pub open spec fn spec_splitter_label(kind: SplitterKind) -> Seq<char> {
    match kind {
        SplitterKind::Code(_) => "code"@,
        SplitterKind::Markdown => "markdown"@,
        SplitterKind::Text => "text"@,
    }
}

/// The report of the chunks `chunks` made by the splitter `kind`.
pub open spec fn report_of(chunks: Seq<Seq<char>>, kind: SplitterKind) -> ChunkReportView {
    let picked = spec_pick_chunks(chunks);
    ChunkReportView {
        first: picked.0,
        middle: picked.1,
        last: picked.2,
        splitter: spec_splitter_label(kind),
    }
}

/// The report of a blank text.
pub open spec fn blank_report() -> ChunkReportView {
    ChunkReportView {
        first: Seq::empty(),
        middle: Seq::empty(),
        last: Seq::empty(),
        splitter: "empty"@,
    }
}

/// What is reported of the text of the file at `path` with the media type
/// `mime`: of a blank text the blank report; else the report of its chunks;
/// nothing where the tokenizer cannot be set up; a failure where the
/// splitter does not take the grammar.
pub open spec fn spec_token_chunks(
    text: Seq<char>,
    mime: Seq<char>,
    path: Seq<char>,
    max_tokens: usize,
) -> Result<Option<ChunkReportView>, SplitError> {
    if spec_is_blank(text) {
        Ok(Some(blank_report()))
    } else {
        let kind = spec_splitter(
            spec_to_lowercase(mime),
            match spec_path_extension(path) {
                Some(e) => Some(spec_to_lowercase(e)),
                None => None,
            },
            spec_guess_language(path),
        );
        match spec_split(text, kind, max_tokens) {
            Ok(chunks) => Ok(Some(report_of(chunks, splitter_in_use(kind)))),
            Err(SplitError::NoTokenizer) => Ok(None),
            Err(SplitError::BadGrammar) => Err(SplitError::BadGrammar),
        }
    }
}

/// The view of an outcome of `token_chunks_for_file`.
pub open spec fn outcome_view(r: Result<Option<ChunkReport>, SplitError>) -> Result<
    Option<ChunkReportView>,
    SplitError,
> {
    match r {
        Ok(Some(report)) => Ok(Some(report@)),
        Ok(None) => Ok(None),
        Err(e) => Err(e),
    }
}

/// Splits the text of a file into chunks of at most `max_tokens` tokens and
/// reports the first, the middle and the last of them.
pub fn token_chunks_for_file(text: &str, mime: &str, path: &str, max_tokens: usize) -> (r: Result<
    Option<ChunkReport>,
    SplitError,
>)
    requires
        max_tokens > 0,
    ensures
        outcome_view(r) == spec_token_chunks(text@, mime@, path@, max_tokens),
{
    if is_blank(text) {
        return Ok(
            Some(
                ChunkReport {
                    first: String::new(),
                    middle: String::new(),
                    last: String::new(),
                    splitter: "empty".to_owned(),
                },
            ),
        );
    }
    let kind = guess_splitter(mime, path);
    let (chunks, used) = split(text, kind, max_tokens);
    match chunks {
        Ok(list) => {
            let (first, middle, last) = pick_chunks(&list);
            Ok(Some(ChunkReport { first, middle, last, splitter: splitter_label(used) }))
        },
        Err(SplitError::NoTokenizer) => Ok(None),
        Err(SplitError::BadGrammar) => Err(SplitError::BadGrammar),
    }
}

} // verus!
