//! What goes into the annotator's prompt besides the file's text, and which
//! files the walk offers at all.

use crate::json::{json_object, json_text, object_text};
use crate::paths::{file_name, file_stem, spec_file_name, spec_file_stem};
use crate::strings::strings_view;
use crate::text::{
    indent_for_yaml, sanitize_for_yaml, spec_indent_for_yaml, spec_sanitize_for_yaml,
};
use vstd::prelude::*;

verus! {

/// Has `c` a meaning of its own in a regular expression?
pub open spec fn is_meta(c: char) -> bool {
    c == '\\' || c == '.' || c == '+' || c == '*' || c == '?' || c == '(' || c == ')' || c == '|'
        || c == '[' || c == ']' || c == '{' || c == '}' || c == '^' || c == '$' || c == '#' || c
        == '&' || c == '-' || c == '~'
}

/// `text` with a backslash before each character that has a meaning of its
/// own in a regular expression.
pub open spec fn spec_regex_escape(text: Seq<char>) -> Seq<char>
    decreases text.len(),
{
    if text.len() == 0 {
        Seq::empty()
    } else if is_meta(text.last()) {
        spec_regex_escape(text.drop_last()).push('\\').push(text.last())
    } else {
        spec_regex_escape(text.drop_last()).push(text.last())
    }
}

/// Calls `regex::escape`, which copies the text and puts a backslash before
/// each of the eighteen meta characters.
#[verifier::external_body]
pub(crate) fn regex_escape(text: &str) -> (r: String)
    ensures
        r@ == spec_regex_escape(text@),
{
    regex::escape(text)
}

/// A text as it stands in a block of the prompt: made safe, and indented by
/// two blanks.
pub open spec fn spec_prompt_block(text: Seq<char>) -> Seq<char> {
    spec_indent_for_yaml(spec_sanitize_for_yaml(text), 2)
}

/// Prepares a text for a block of the prompt.
pub fn prompt_block(text: &str) -> (r: String)
    ensures
        r@ == spec_prompt_block(text@),
{
    indent_for_yaml(sanitize_for_yaml(text).as_str(), 2)
}

/// The text of an optional name, or the empty text.
pub open spec fn or_empty(name: Option<Seq<char>>) -> Seq<char> {
    match name {
        Some(n) => n,
        None => Seq::empty(),
    }
}

/// The patterns that match the name of the file at `path` and the name
/// without its extension, each literally.
pub fn filename_patterns(path: &str) -> (r: (String, String))
    ensures
        r.0@ == spec_regex_escape(or_empty(spec_file_name(path@))),
        r.1@ == spec_regex_escape(or_empty(spec_file_stem(path@))),
{
    let name = match file_name(path) {
        Some(n) => n,
        None => String::new(),
    };
    let stem = match file_stem(path) {
        Some(s) => s,
        None => String::new(),
    };
    (regex_escape(name.as_str()), regex_escape(stem.as_str()))
}

/// Does the walk go on with an entry: the root always, and anything but a
/// directory whose name is to be ignored?
pub fn walk_keeps(depth: usize, is_dir: bool, name_ignored: bool) -> (r: bool)
    ensures
        r == (depth == 0 || !(is_dir && name_ignored)),
{
    depth == 0 || !(is_dir && name_ignored)
}

/// Is an entry of the walk a file to annotate: a regular file below the root?
pub fn walk_offers(depth: usize, is_file: bool) -> (r: bool)
    ensures
        r == (depth > 0 && is_file),
{
    depth > 0 && is_file
}

/// What the prompt is told about a file.
#[derive(Debug)]
pub struct PromptFields {
    pub filename: String,
    pub filesize: String,
    pub filetype: String,
    pub mimetype: String,
    pub operating_system: String,
    pub project_is_documented: String,
    pub project_documentation: String,
    pub chunk_one: String,
    pub chunk_two: String,
    pub chunk_three: String,
    pub filename_re: String,
    pub filename_stem_re: String,
}

/// The names under which the prompt's template finds the fields.
pub open spec fn field_names() -> Seq<Seq<char>> {
    seq![
        "filename"@,
        "filesize"@,
        "filetype"@,
        "mimetype"@,
        "operating_system"@,
        "project_is_documented"@,
        "project_documentation"@,
        "chunk_one"@,
        "chunk_two"@,
        "chunk_three"@,
        "filename_re"@,
        "filename_stem_re"@,
    ]
}

/// The fields in the order of their names.
pub open spec fn field_values(f: PromptFields) -> Seq<Seq<char>> {
    seq![
        f.filename@,
        f.filesize@,
        f.filetype@,
        f.mimetype@,
        f.operating_system@,
        f.project_is_documented@,
        f.project_documentation@,
        f.chunk_one@,
        f.chunk_two@,
        f.chunk_three@,
        f.filename_re@,
        f.filename_stem_re@,
    ]
}

/// The data that the prompt's template is rendered with: a JSON object with
/// each field under its name.
pub fn prompt_data(f: PromptFields) -> (r: serde_json::Value)
    ensures
        json_text(r) == object_text(field_names(), field_values(f)),
{
    let mut keys: Vec<String> = Vec::new();
    keys.push("filename".to_owned());
    keys.push("filesize".to_owned());
    keys.push("filetype".to_owned());
    keys.push("mimetype".to_owned());
    keys.push("operating_system".to_owned());
    keys.push("project_is_documented".to_owned());
    keys.push("project_documentation".to_owned());
    keys.push("chunk_one".to_owned());
    keys.push("chunk_two".to_owned());
    keys.push("chunk_three".to_owned());
    keys.push("filename_re".to_owned());
    keys.push("filename_stem_re".to_owned());
    let ghost want = field_values(f);
    let mut values: Vec<String> = Vec::new();
    values.push(f.filename);
    values.push(f.filesize);
    values.push(f.filetype);
    values.push(f.mimetype);
    values.push(f.operating_system);
    values.push(f.project_is_documented);
    values.push(f.project_documentation);
    values.push(f.chunk_one);
    values.push(f.chunk_two);
    values.push(f.chunk_three);
    values.push(f.filename_re);
    values.push(f.filename_stem_re);
    assert(strings_view(keys@) =~= field_names());
    assert(strings_view(values@) =~= want);
    json_object(&keys, &values)
}

/// What `Handlebars::render_template` makes of a template and of data with
/// the JSON text `data`, with nothing registered; `None` where it fails.
pub uninterp spec fn spec_rendered(template: Seq<char>, data: Seq<char>) -> Option<Seq<char>>;

/// Calls `Handlebars::render_template` on a fresh registry. A failure comes
/// back as its message.
#[verifier::external_body]
pub(crate) fn handlebars_render(template: &str, data: &serde_json::Value) -> (r: Result<
    String,
    String,
>)
    ensures
        r is Ok == spec_rendered(template@, json_text(*data)) is Some,
        r matches Ok(s) ==> spec_rendered(template@, json_text(*data)) == Some(s@),
{
    match handlebars::Handlebars::new().render_template(template, data) {
        Ok(s) => Ok(s),
        Err(e) => Err(e.to_string()),
    }
}

/// The prompt could not be rendered; the renderer's message says why.
#[derive(Debug)]
pub struct RenderFailed {
    pub message: String,
}

/// Renders the prompt's template with the fields of a file.
pub fn render_prompt(template: &str, fields: PromptFields) -> (r: Result<String, RenderFailed>)
    ensures
        match spec_rendered(template@, object_text(field_names(), field_values(fields))) {
            Some(text) => r matches Ok(s) && s@ == text,
            None => r is Err,
        },
{
    let data = prompt_data(fields);
    match handlebars_render(template, &data) {
        Ok(s) => Ok(s),
        Err(message) => Err(RenderFailed { message }),
    }
}

} // verus!
