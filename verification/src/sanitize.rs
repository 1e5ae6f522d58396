//! Cleaning the annotator's description before it is stored.

use crate::json::json_text;
use crate::model::{Doc, DocView};
use crate::strings::{
    alphabetic_flags, alphabetic_of, chars_of, find_first_set, first_set, replace_char,
    spec_to_uppercase, spec_trim, string_of, to_uppercase, trim_by, trim_flagged, whitespace_of,
};
use vstd::prelude::*;

verus! {

/// The error of compiling a regular expression.
#[verifier::external_type_specification]
#[verifier::external_body]
pub struct ExRegexError(regex::Error);

/// Does `pattern` compile with `Regex::new`?
pub uninterp spec fn spec_regex_compiles(pattern: Seq<char>) -> bool;

/// `text` after the leftmost match of the regular expression that
/// `Regex::new` makes of `pattern` was replaced by `with`, as
/// `Regex::replace` does it.
pub uninterp spec fn spec_regex_replace(
    pattern: Seq<char>,
    text: Seq<char>,
    with: Seq<char>,
) -> Seq<char>;

/// Compiles `pattern` with `Regex::new` and, where that succeeds, replaces
/// the leftmost match in `text` with `Regex::replace`.
#[verifier::external_body]
pub(crate) fn regex_replace_first(pattern: &str, text: &str, with: &str) -> (r: Result<
    String,
    regex::Error,
>)
    ensures
        r is Ok == spec_regex_compiles(pattern@),
        r matches Ok(s) ==> s@ == spec_regex_replace(pattern@, text@, with@),
{
    match regex::Regex::new(pattern) {
        Ok(re) => Ok(re.replace(text, with).into_owned()),
        Err(e) => Err(e),
    }
}

/// A pattern of this library did not compile.
#[derive(Clone, Copy, PartialEq, Eq, Structural, Debug)]
pub struct PatternError;

/// The pattern of the phrases that a description must not open with:
/// "this file", "this script" and their like.
pub const LEAD_PATTERN: &'static str =
    r#"(?i)^\s*this\s+(?:file|script|module|class|service|program|document|config(?:uration)?(?:\s+file)?|shell\s+script)\b[,:;\-\s]*"#;

/// The pattern of the verbs that are left in front once such a phrase is gone.
pub const VERB_PATTERN: &'static str = r#"(?i)^\s*(?:is|does|provides|contains)\b[,:;\-\s]*"#;

/// `text` without the leftmost match of `pattern`.
pub open spec fn without_match(pattern: Seq<char>, text: Seq<char>) -> Seq<char> {
    spec_regex_replace(pattern, text, Seq::empty())
}

/// Removes the leftmost match of `pattern` from `text`.
pub fn remove_match(pattern: &str, text: &str) -> (r: Result<String, PatternError>)
    ensures
        match r {
            Ok(s) => spec_regex_compiles(pattern@) && s@ == without_match(pattern@, text@),
            Err(_) => !spec_regex_compiles(pattern@),
        },
{
    proof {
        reveal_strlit("");
    }
    assert(""@ =~= Seq::<char>::empty());
    match regex_replace_first(pattern, text, "") {
        Ok(s) => Ok(s),
        Err(_) => Err(PatternError),
    }
}

/// For each character of `s`, whether it is a quotation mark, double or single.
pub open spec fn quote_flags(s: Seq<char>) -> Seq<bool> {
    s.map_values(|c: char| c == '"' || c == '\'')
}

/// For each of `chars`, whether it is a quotation mark.
pub fn quotes_of(chars: &Vec<char>) -> (r: Vec<bool>)
    ensures
        r@ == quote_flags(chars@),
{
    let mut flags: Vec<bool> = Vec::new();
    let mut i: usize = 0;
    while i < chars.len()
        invariant
            i <= chars.len(),
            flags@ == quote_flags(chars@).take(i as int),
        decreases chars.len() - i,
    {
        flags.push(chars[i] == '"' || chars[i] == '\'');
        assert(flags@ =~= quote_flags(chars@).take(i + 1));
        i = i + 1;
    }
    assert(flags@ =~= quote_flags(chars@));
    flags
}

/// `s` without white space at its ends, and then without quotation marks there.
pub open spec fn spec_unquoted(s: Seq<char>) -> Seq<char> {
    let t = spec_trim(s);
    trim_by(t, quote_flags(t))
}

/// Strips white space, then quotation marks, from the ends of `s`.
pub fn unquoted(s: &str) -> (r: String)
    ensures
        r@ == spec_unquoted(s@),
{
    let chars = chars_of(s);
    let space = whitespace_of(&chars);
    let inner = trim_flagged(&chars, &space);
    let quotes = quotes_of(&inner);
    let bare = trim_flagged(&inner, &quotes);
    string_of(&bare)
}

/// `s` with its first alphabetic character in upper case; `alpha[i]` says
/// whether `s[i]` is alphabetic.
pub open spec fn capitalized(s: Seq<char>, alpha: Seq<bool>) -> Seq<char> {
    match first_set(alpha) {
        Some(i) => s.take(i) + spec_to_uppercase(s[i]) + s.skip(i + 1),
        None => s,
    }
}

/// `s` with its first alphabetic character in upper case, and without white
/// space at its ends.
pub open spec fn spec_capitalize_first_alpha(s: Seq<char>) -> Seq<char> {
    spec_trim(capitalized(s, alphabetic_flags(s)))
}

/// Puts the first alphabetic character of `s` in upper case and strips white
/// space from the ends.
pub fn capitalize_first_alpha(s: &str) -> (r: String)
    ensures
        r@ == spec_capitalize_first_alpha(s@),
{
    let chars = chars_of(s);
    let alpha = alphabetic_of(&chars);
    let raised = match find_first_set(&alpha) {
        Some(i) => {
            let upper = to_uppercase(chars[i]);
            replace_char(&chars, i, &upper)
        },
        None => chars,
    };
    let space = whitespace_of(&raised);
    let trimmed = trim_flagged(&raised, &space);
    string_of(&trimmed)
}

/// Do the two patterns compile?
pub open spec fn patterns_compile() -> bool {
    spec_regex_compiles(LEAD_PATTERN@) && spec_regex_compiles(VERB_PATTERN@)
}

/// The description as it is stored: unquoted, without an opening "this file"
/// and the verb behind it, and capitalized.
pub open spec fn spec_sanitize_description(input: Seq<char>) -> Seq<char> {
    spec_capitalize_first_alpha(
        without_match(VERB_PATTERN@, without_match(LEAD_PATTERN@, spec_unquoted(input))),
    )
}

/// Cleans a description of the annotator. It fails where one of the two
/// patterns does not compile, and only there.
pub fn sanitize_description(input: &str) -> (r: Result<String, PatternError>)
    ensures
        match r {
            Ok(s) => patterns_compile() && s@ == spec_sanitize_description(input@),
            Err(_) => !patterns_compile(),
        },
{
    let bare = unquoted(input);
    let without_lead = match remove_match(LEAD_PATTERN, bare.as_str()) {
        Ok(s) => s,
        Err(e) => {
            return Err(e);
        },
    };
    let without_verb = match remove_match(VERB_PATTERN, without_lead.as_str()) {
        Ok(s) => s,
        Err(e) => {
            return Err(e);
        },
    };
    Ok(capitalize_first_alpha(without_verb.as_str()))
}

/// The annotation made of the annotator's answer: the description cleaned,
/// the two other fields as they came.
pub fn annotation_from_reply(description: &str, joy: serde_json::Value, personality: String) -> (r:
    Result<Doc, PatternError>)
    ensures
        match r {
            Ok(d) => patterns_compile() && d@ == (DocView {
                description: spec_sanitize_description(description@),
                joy: json_text(joy),
                personality: personality@,
            }),
            Err(_) => !patterns_compile(),
        },
{
    match sanitize_description(description) {
        Ok(clean) => Ok(Doc { description: clean, joy, personality }),
        Err(e) => Err(e),
    }
}

} // verus!
