//! Small rules of the listing tools: what counts as hidden, how sizes and
//! kinds are written, which columns the table has, how the tree is drawn.

use crate::strings::{push_char, strings_view};
use vstd::prelude::*;
use vstd::string::StringExecFns;

verus! {

/// Is an entry called `name` hidden: does the name start with a dot?
pub open spec fn spec_is_hidden(name: Seq<char>) -> bool {
    name.len() > 0 && name[0] == '.'
}

/// Is an entry called `name` hidden?
pub fn is_hidden(name: &str) -> (r: bool)
    ensures
        r == spec_is_hidden(name@),
{
    let mut first = true;
    let mut hidden = false;
    for c in it: name.chars()
        invariant
            it.seq() == name@,
            first == (it.index() == 0),
            hidden == (it.index() > 0 && name@[0] == '.'),
    {
        if first {
            hidden = c == '.';
            first = false;
        }
    }
    hidden
}

/// What `humansize::format_size` writes for `size` with the decimal units.
pub uninterp spec fn decimal_size(size: u64) -> Seq<char>;

/// Calls `humansize::format_size` with `DECIMAL`: the size in units of 1000.
#[verifier::external_body]
pub(crate) fn format_decimal_size(size: u64) -> (r: String)
    ensures
        r@ == decimal_size(size),
{
    humansize::format_size(size, humansize::DECIMAL)
}

/// How a size is shown: nothing as `0 B`, anything else in decimal units.
pub open spec fn spec_size_label(size: u64) -> Seq<char> {
    if size == 0 {
        "0 B"@
    } else {
        decimal_size(size)
    }
}

/// How the size of an entry is shown; of anything but a file it is nothing.
pub fn size_label(is_file: bool, len: u64) -> (r: String)
    ensures
        r@ == spec_size_label(
            if is_file {
                len
            } else {
                0
            },
        ),
{
    if !is_file || len == 0 {
        "0 B".to_owned()
    } else {
        format_decimal_size(len)
    }
}

/// How the kind of an entry is shown.
pub fn kind_label(is_dir: bool) -> (r: String)
    ensures
        r@ == (if is_dir {
            "dir"@
        } else {
            "file"@
        }),
{
    if is_dir {
        "dir".to_owned()
    } else {
        "file".to_owned()
    }
}

/// The columns of the table; with `fun`, personality and joy are shown too.
pub open spec fn spec_headers(fun: bool) -> Seq<Seq<char>> {
    let base = seq!["#"@, "name"@, "type"@, "size"@, "modified"@, "description"@];
    if fun {
        base + seq!["personality"@, "joy"@]
    } else {
        base
    }
}

/// The columns of the table.
pub fn headers(fun: bool) -> (r: Vec<String>)
    ensures
        strings_view(r@) == spec_headers(fun),
{
    let mut out: Vec<String> = Vec::new();
    out.push("#".to_owned());
    out.push("name".to_owned());
    out.push("type".to_owned());
    out.push("size".to_owned());
    out.push("modified".to_owned());
    out.push("description".to_owned());
    if fun {
        out.push("personality".to_owned());
        out.push("joy".to_owned());
    }
    assert(strings_view(out@) =~= spec_headers(fun));
    out
}

/// The mark of a branch in the emoji tree.
pub open spec fn branch_mark() -> char {
    '\u{1FABE}'
}

/// The mark of a leaf in the emoji tree.
pub open spec fn leaf_mark() -> char {
    '\u{1F343}'
}

/// What is drawn before the name of an entry: in emoji mode a mark for its
/// kind, else the classic corner for the last entry and tee for the others.
pub open spec fn spec_connector(emoji: bool, is_last: bool, is_dir: bool) -> Seq<char> {
    if emoji {
        if is_dir {
            seq![branch_mark(), ' ']
        } else {
            seq![leaf_mark(), ' ']
        }
    } else if is_last {
        seq!['\u{2514}', '\u{2500}', '\u{2500}', ' ']
    } else {
        seq!['\u{251C}', '\u{2500}', '\u{2500}', ' ']
    }
}

/// What is drawn before the name of an entry.
pub fn connector(emoji: bool, is_last: bool, is_dir: bool) -> (r: String)
    ensures
        r@ == spec_connector(emoji, is_last, is_dir),
{
    let mut out = String::new();
    if emoji {
        if is_dir {
            push_char(&mut out, '\u{1FABE}');
        } else {
            push_char(&mut out, '\u{1F343}');
        }
        push_char(&mut out, ' ');
    } else {
        if is_last {
            push_char(&mut out, '\u{2514}');
        } else {
            push_char(&mut out, '\u{251C}');
        }
        push_char(&mut out, '\u{2500}');
        push_char(&mut out, '\u{2500}');
        push_char(&mut out, ' ');
    }
    out
}

/// What the lines below an entry start with: `prefix` and, under the last
/// entry, blanks; under any other, the trunk and blanks.
pub open spec fn spec_next_prefix(prefix: Seq<char>, emoji: bool, is_last: bool) -> Seq<char> {
    if emoji {
        if is_last {
            prefix + seq![' ', ' ', ' ']
        } else {
            prefix + seq![branch_mark(), ' ', ' ']
        }
    } else if is_last {
        prefix + seq![' ', ' ', ' ', ' ']
    } else {
        prefix + seq!['\u{2502}', ' ', ' ', ' ']
    }
}

/// What the lines below an entry start with.
pub fn next_prefix(prefix: &str, emoji: bool, is_last: bool) -> (r: String)
    ensures
        r@ == spec_next_prefix(prefix@, emoji, is_last),
{
    let mut out = prefix.to_owned();
    if emoji {
        if is_last {
            push_char(&mut out, ' ');
        } else {
            push_char(&mut out, '\u{1FABE}');
        }
    } else {
        if is_last {
            push_char(&mut out, ' ');
        } else {
            push_char(&mut out, '\u{2502}');
        }
        push_char(&mut out, ' ');
    }
    push_char(&mut out, ' ');
    push_char(&mut out, ' ');
    assert(out@ =~= spec_next_prefix(prefix@, emoji, is_last));
    out
}

/// The line of an entry in the tree: what is drawn before it, its name, and
/// behind a dash its description, where it has one.
pub open spec fn spec_tree_line(
    prefix: Seq<char>,
    connector: Seq<char>,
    name: Seq<char>,
    description: Seq<char>,
) -> Seq<char> {
    if description.len() == 0 {
        prefix + connector + name
    } else {
        prefix + connector + name + seq![' ', '\u{2014}', ' '] + description
    }
}

/// The line of an entry in the tree.
pub fn tree_line(prefix: &str, connector: &str, name: &str, description: &str) -> (r: String)
    ensures
        r@ == spec_tree_line(prefix@, connector@, name@, description@),
{
    let mut out = prefix.to_owned().concat(connector).concat(name);
    if !description.is_empty() {
        push_char(&mut out, ' ');
        push_char(&mut out, '\u{2014}');
        push_char(&mut out, ' ');
        out = out.concat(description);
    }
    out
}

} // verus!
