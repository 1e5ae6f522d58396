//! Styles for the listing tools: colors by name, by hex code, and styles
//! written as words.

use crate::json::{json_as_str, json_get, json_is_object, json_member, json_string, json_text};
use crate::strings::{
    chars_of, spec_contains, spec_to_lowercase, spec_trim, str_contains, str_eq, string_of,
    to_lowercase, trimmed,
};
use vstd::prelude::*;
use vstd::utf8::{encode_utf8, is_char_boundary};

verus! {

/// A color to paint with.
#[derive(Clone, Copy, PartialEq, Eq, Structural, Debug)]
pub enum Color {
    Black,
    Red,
    Green,
    Yellow,
    Blue,
    Purple,
    Cyan,
    White,
    LightRed,
    LightGreen,
    LightYellow,
    LightBlue,
    LightPurple,
    LightCyan,
    Rgb(u8, u8, u8),
}

/// How text is painted.
#[derive(Clone, Copy, PartialEq, Eq, Structural, Debug)]
pub struct Style {
    pub foreground: Option<Color>,
    pub background: Option<Color>,
    pub bold: bool,
    pub underline: bool,
    pub reverse: bool,
}

/// The style that changes nothing.
pub open spec fn plain() -> Style {
    Style { foreground: None, background: None, bold: false, underline: false, reverse: false }
}

impl Style {
    /// The style that changes nothing.
    pub fn new() -> (r: Style)
        ensures
            r == plain(),
    {
        Style { foreground: None, background: None, bold: false, underline: false, reverse: false }
    }
}

/// The color called `name`.
pub open spec fn spec_parse_color(name: Seq<char>) -> Option<Color> {
    if name == "black"@ {
        Some(Color::Black)
    } else if name == "red"@ {
        Some(Color::Red)
    } else if name == "green"@ {
        Some(Color::Green)
    } else if name == "yellow"@ {
        Some(Color::Yellow)
    } else if name == "blue"@ {
        Some(Color::Blue)
    } else if name == "purple"@ || name == "magenta"@ {
        Some(Color::Purple)
    } else if name == "cyan"@ {
        Some(Color::Cyan)
    } else if name == "white"@ {
        Some(Color::White)
    } else if name == "dark_gray"@ || name == "grey"@ || name == "gray"@ {
        Some(Color::Rgb(128, 128, 128))
    } else if name == "light_black"@ {
        Some(Color::Rgb(96, 96, 96))
    } else if name == "light_white"@ {
        Some(Color::Rgb(240, 240, 240))
    } else if name == "light_red"@ {
        Some(Color::LightRed)
    } else if name == "light_green"@ {
        Some(Color::LightGreen)
    } else if name == "light_yellow"@ {
        Some(Color::LightYellow)
    } else if name == "light_blue"@ {
        Some(Color::LightBlue)
    } else if name == "light_purple"@ || name == "light_magenta"@ {
        Some(Color::LightPurple)
    } else if name == "light_cyan"@ {
        Some(Color::LightCyan)
    } else {
        None
    }
}

/// Reads a color by its name.
pub fn parse_color(name: &str) -> (r: Option<Color>)
    ensures
        r == spec_parse_color(name@),
{
    if str_eq(name, "black") {
        Some(Color::Black)
    } else if str_eq(name, "red") {
        Some(Color::Red)
    } else if str_eq(name, "green") {
        Some(Color::Green)
    } else if str_eq(name, "yellow") {
        Some(Color::Yellow)
    } else if str_eq(name, "blue") {
        Some(Color::Blue)
    } else if str_eq(name, "purple") || str_eq(name, "magenta") {
        Some(Color::Purple)
    } else if str_eq(name, "cyan") {
        Some(Color::Cyan)
    } else if str_eq(name, "white") {
        Some(Color::White)
    } else if str_eq(name, "dark_gray") || str_eq(name, "grey") || str_eq(name, "gray") {
        Some(Color::Rgb(128, 128, 128))
    } else if str_eq(name, "light_black") {
        Some(Color::Rgb(96, 96, 96))
    } else if str_eq(name, "light_white") {
        Some(Color::Rgb(240, 240, 240))
    } else if str_eq(name, "light_red") {
        Some(Color::LightRed)
    } else if str_eq(name, "light_green") {
        Some(Color::LightGreen)
    } else if str_eq(name, "light_yellow") {
        Some(Color::LightYellow)
    } else if str_eq(name, "light_blue") {
        Some(Color::LightBlue)
    } else if str_eq(name, "light_purple") || str_eq(name, "light_magenta") {
        Some(Color::LightPurple)
    } else if str_eq(name, "light_cyan") {
        Some(Color::LightCyan)
    } else {
        None
    }
}

/// The value of the byte `b` as a hexadecimal digit.
pub open spec fn hex_value(b: u8) -> Option<u8> {
    if 0x30 <= b && b <= 0x39 {
        Some((b - 0x30) as u8)
    } else if 0x61 <= b && b <= 0x66 {
        Some((b - 0x61 + 10) as u8)
    } else if 0x41 <= b && b <= 0x46 {
        Some((b - 0x41 + 10) as u8)
    } else {
        None
    }
}

/// The number that two bytes spell in hexadecimal: two digits, or a plus
/// sign and one digit.
pub open spec fn pair_value(hi: u8, lo: u8) -> Option<u8> {
    match hex_value(lo) {
        Some(l) => match hex_value(hi) {
            Some(h) => Some((16 * h + l) as u8),
            None => if hi == 0x2B {
                Some(l)
            } else {
                None
            },
        },
        None => None,
    }
}

/// The color that `#rrggbb` spells; `bytes` are the bytes of the text.
pub open spec fn rgb_of(bytes: Seq<u8>) -> Option<Color> {
    if bytes.len() == 7 && bytes[0] == 0x23 {
        match pair_value(bytes[1], bytes[2]) {
            Some(r) => match pair_value(bytes[3], bytes[4]) {
                Some(g) => match pair_value(bytes[5], bytes[6]) {
                    Some(b) => Some(Color::Rgb(r, g, b)),
                    None => None,
                },
                None => None,
            },
            None => None,
        }
    } else {
        None
    }
}

/// The color that `s` spells as `#rrggbb`.
pub open spec fn spec_parse_hex_rgb(s: Seq<char>) -> Option<Color> {
    rgb_of(encode_utf8(s))
}

/// Can `s` be cut into the pairs of `#rrggbb`: where it has that length and
/// starts with `#`, does no character straddle the end of the first pair,
/// nor, where that pair is a number, the end of the second?
pub open spec fn pairs_apart(s: Seq<char>) -> bool {
    let bytes = encode_utf8(s);
    bytes.len() == 7 && bytes[0] == 0x23 ==> is_char_boundary(bytes, 3) && (pair_value(
        bytes[1],
        bytes[2],
    ) is Some ==> is_char_boundary(bytes, 5))
}

/// The value of a byte as a hexadecimal digit.
pub fn hex_digit(b: u8) -> (r: Option<u8>)
    ensures
        r == hex_value(b),
{
    if 0x30 <= b && b <= 0x39 {
        Some(b - 0x30)
    } else if 0x61 <= b && b <= 0x66 {
        Some(b - 0x61 + 10)
    } else if 0x41 <= b && b <= 0x46 {
        Some(b - 0x41 + 10)
    } else {
        None
    }
}

/// The number that two bytes spell in hexadecimal.
pub fn hex_pair(hi: u8, lo: u8) -> (r: Option<u8>)
    ensures
        r == pair_value(hi, lo),
{
    match hex_digit(lo) {
        Some(l) => match hex_digit(hi) {
            Some(h) => Some(16 * h + l),
            None => if hi == 0x2B {
                Some(l)
            } else {
                None
            },
        },
        None => None,
    }
}

/// Reads a color written as `#rrggbb`. The text must be such that its pairs
/// can be cut apart.
pub fn parse_hex_rgb(s: &str) -> (r: Option<Color>)
    requires
        pairs_apart(s@),
    ensures
        r == spec_parse_hex_rgb(s@),
{
    let bytes = s.as_bytes();
    if bytes.len() != 7 || bytes[0] != 0x23 {
        return None;
    }
    let r = match hex_pair(bytes[1], bytes[2]) {
        Some(v) => v,
        None => {
            return None;
        },
    };
    let g = match hex_pair(bytes[3], bytes[4]) {
        Some(v) => v,
        None => {
            return None;
        },
    };
    let b = match hex_pair(bytes[5], bytes[6]) {
        Some(v) => v,
        None => {
            return None;
        },
    };
    Some(Color::Rgb(r, g, b))
}

/// Can the pairs of `s` be cut apart?
pub fn check_pairs_apart(s: &str) -> (r: bool)
    ensures
        r == pairs_apart(s@),
{
    let bytes = s.as_bytes();
    if bytes.len() != 7 || bytes[0] != 0x23 {
        return true;
    }
    if !s.is_char_boundary(3) {
        return false;
    }
    match hex_pair(bytes[1], bytes[2]) {
        Some(_) => s.is_char_boundary(5),
        None => true,
    }
}

/// The parts of `s` between the separators `sep`; there is always one part.
pub open spec fn split_parts(s: Seq<char>, sep: char) -> Seq<Seq<char>>
    decreases s.len(),
{
    if s.len() == 0 {
        seq![Seq::empty()]
    } else {
        let front = split_parts(s.drop_last(), sep);
        if s.last() == sep {
            front.push(Seq::empty())
        } else {
            front.update(front.len() - 1, front.last().push(s.last()))
        }
    }
}

/// `st` after one word of a style: `bold`, `underline` or `u`, `reverse` or
/// `r` switch that on; the name of a color sets the foreground; anything
/// else changes nothing.
pub open spec fn with_word(st: Style, word: Seq<char>) -> Style {
    if word == "bold"@ {
        Style { bold: true, ..st }
    } else if word == "underline"@ || word == "u"@ {
        Style { underline: true, ..st }
    } else if word == "reverse"@ || word == "r"@ {
        Style { reverse: true, ..st }
    } else {
        match spec_parse_color(word) {
            Some(c) => Style { foreground: Some(c), ..st },
            None => st,
        }
    }
}

/// `st` after the words `words`, one after the other.
pub open spec fn with_words(st: Style, words: Seq<Seq<char>>) -> Style
    decreases words.len(),
{
    if words.len() == 0 {
        st
    } else {
        with_word(with_words(st, words.drop_last()), words.last())
    }
}

/// Applies one word of a style.
pub fn apply_word(st: Style, word: &str) -> (r: Style)
    ensures
        r == with_word(st, word@),
{
    let mut out = st;
    if str_eq(word, "bold") {
        out.bold = true;
    } else if str_eq(word, "underline") || str_eq(word, "u") {
        out.underline = true;
    } else if str_eq(word, "reverse") || str_eq(word, "r") {
        out.reverse = true;
    } else {
        match parse_color(word) {
            Some(c) => {
                out.foreground = Some(c);
            },
            None => {},
        }
    }
    out
}

proof fn lemma_split_nonempty(s: Seq<char>, sep: char)
    ensures
        split_parts(s, sep).len() > 0,
    decreases s.len(),
{
    if s.len() > 0 {
        lemma_split_nonempty(s.drop_last(), sep);
    }
}

/// The style that the words of `text` spell, words being set apart by `_`.
pub open spec fn spec_style_of_words(text: Seq<char>) -> Style {
    with_words(plain(), split_parts(text, '_'))
}

/// Reads a style from words set apart by `_`.
pub fn style_of_words(text: &str) -> (r: Style)
    ensures
        r == spec_style_of_words(text@),
{
    let chars = chars_of(text);
    let mut st = Style::new();
    let mut word: Vec<char> = Vec::new();
    let mut i: usize = 0;
    assert(chars@.take(0) =~= Seq::empty());
    assert(split_parts(Seq::<char>::empty(), '_').drop_last() =~= Seq::<Seq<char>>::empty());
    while i < chars.len()
        invariant
            i <= chars.len(),
            chars@ == text@,
            word@ == split_parts(chars@.take(i as int), '_').last(),
            st == with_words(plain(), split_parts(chars@.take(i as int), '_').drop_last()),
        decreases chars.len() - i,
    {
        let ghost before = split_parts(chars@.take(i as int), '_');
        proof {
            assert(chars@.take(i + 1).drop_last() =~= chars@.take(i as int));
            lemma_split_nonempty(chars@.take(i as int), '_');
        }
        if chars[i] == '_' {
            let w = string_of(&word);
            st = apply_word(st, w.as_str());
            word = Vec::new();
            assert(before.push(Seq::empty()).drop_last() =~= before);
            assert(before =~= before.drop_last().push(before.last()));
        } else {
            word.push(chars[i]);
            assert(before.update(before.len() - 1, before.last().push(chars@[i as int])).drop_last()
                =~= before.drop_last());
        }
        i = i + 1;
    }
    proof {
        assert(chars@.take(i as int) =~= chars@);
        lemma_split_nonempty(chars@, '_');
        let parts = split_parts(chars@, '_');
        assert(parts =~= parts.drop_last().push(parts.last()));
    }
    let w = string_of(&word);
    apply_word(st, w.as_str())
}

/// A style text as it is read: without white space at its ends, in lower case.
pub open spec fn normalized(s: Seq<char>) -> Seq<char> {
    spec_to_lowercase(spec_trim(s))
}

/// The style that a normalized style text spells: a hex color as the
/// foreground, or else its words.
pub open spec fn spec_style_of(text: Seq<char>) -> Style {
    match spec_parse_hex_rgb(text) {
        Some(rgb) => Style { foreground: Some(rgb), ..plain() },
        None => spec_style_of_words(text),
    }
}

/// Reads a normalized style text.
pub fn style_of(text: &str) -> (r: Style)
    requires
        pairs_apart(text@),
    ensures
        r == spec_style_of(text@),
{
    match parse_hex_rgb(text) {
        Some(rgb) => {
            let mut st = Style::new();
            st.foreground = Some(rgb);
            st
        },
        None => style_of_words(text),
    }
}

/// Reads a style text such as `green_bold` or `#ff8800`. The text, once
/// normalized, must be such that its pairs can be cut apart.
pub fn parse_style_string(s: &str) -> (r: Option<Style>)
    requires
        pairs_apart(normalized(s@)),
    ensures
        r == Some(spec_style_of(normalized(s@))),
{
    let text = to_lowercase(trimmed(s).as_str());
    Some(style_of(text.as_str()))
}

/// Reads a style text where that can be done: `None` where the pairs of the
/// normalized text cannot be cut apart.
pub fn try_parse_style_string(s: &str) -> (r: Option<Style>)
    ensures
        r == (if pairs_apart(normalized(s@)) {
            Some(spec_style_of(normalized(s@)))
        } else {
            None
        }),
{
    let text = to_lowercase(trimmed(s).as_str());
    if check_pairs_apart(text.as_str()) {
        parse_style_string(s)
    } else {
        None
    }
}

/// A style text cannot be read: a character straddles the pairs of a hex
/// color.
#[derive(Clone, Copy, PartialEq, Eq, Structural, Debug)]
pub struct StyleError;

/// The string that the member `key` of the object with the JSON text `text`
/// holds, if it holds one.
pub open spec fn member_string(text: Seq<char>, key: Seq<char>) -> Option<Seq<char>> {
    match json_member(text, key) {
        Some(m) => json_string(m),
        None => None,
    }
}

/// The string that the member `key` of `v` holds.
pub fn member_str(v: &serde_json::Value, key: &str) -> (r: Option<String>)
    ensures
        crate::strings::opt_view(r) == member_string(json_text(*v), key@),
{
    match json_get(v, key) {
        Some(m) => json_as_str(&m),
        None => None,
    }
}

/// `st` with the foreground of the name `fg`, where that names a color.
pub open spec fn with_fg(st: Style, fg: Option<Seq<char>>) -> Style {
    match fg {
        Some(name) => match spec_parse_color(name) {
            Some(c) => Style { foreground: Some(c), ..st },
            None => st,
        },
        None => st,
    }
}

/// `st` with the background of the name `bg`, where that names a color.
pub open spec fn with_bg(st: Style, bg: Option<Seq<char>>) -> Style {
    match bg {
        Some(name) => match spec_parse_color(name) {
            Some(c) => Style { background: Some(c), ..st },
            None => st,
        },
        None => st,
    }
}

/// `st` with the attributes that the letters of `attr`, given in lower case,
/// switch on: `b` bold, `u` underline, `r` reverse.
pub open spec fn with_attr(st: Style, attr: Option<Seq<char>>) -> Style {
    match attr {
        Some(a) => Style {
            bold: st.bold || spec_contains(a, "b"@),
            underline: st.underline || spec_contains(a, "u"@),
            reverse: st.reverse || spec_contains(a, "r"@),
            ..st
        },
        None => st,
    }
}

/// The style of a record: foreground, background and attributes, each where
/// it is given.
pub fn record_style(fg: Option<String>, bg: Option<String>, attr_lower: Option<String>) -> (r:
    Style)
    ensures
        r == with_attr(
            with_bg(with_fg(plain(), crate::strings::opt_view(fg)), crate::strings::opt_view(bg)),
            crate::strings::opt_view(attr_lower),
        ),
{
    let mut st = Style::new();
    match fg {
        Some(name) => match parse_color(name.as_str()) {
            Some(c) => {
                st.foreground = Some(c);
            },
            None => {},
        },
        None => {},
    }
    match bg {
        Some(name) => match parse_color(name.as_str()) {
            Some(c) => {
                st.background = Some(c);
            },
            None => {},
        },
        None => {},
    }
    match attr_lower {
        Some(a) => {
            if str_contains(a.as_str(), "b") {
                st.bold = true;
            }
            if str_contains(a.as_str(), "u") {
                st.underline = true;
            }
            if str_contains(a.as_str(), "r") {
                st.reverse = true;
            }
        },
        None => {},
    }
    st
}

/// The lower-case form of an optional text.
pub open spec fn opt_lower(s: Option<Seq<char>>) -> Option<Seq<char>> {
    match s {
        Some(x) => Some(spec_to_lowercase(x)),
        None => None,
    }
}

/// The style that a record with the JSON text `text` gives.
pub open spec fn spec_record_style(text: Seq<char>) -> Style {
    with_attr(
        with_bg(with_fg(plain(), member_string(text, "fg"@)), member_string(text, "bg"@)),
        opt_lower(member_string(text, "attr"@)),
    )
}

/// Is `text` the JSON text of an object?
pub open spec fn is_object_text(text: Seq<char>) -> bool {
    text.len() > 0 && text[0] == '{'
}

/// The style that the JSON text `text` gives: of a string, the style it
/// spells; of a record, the style of its members; of anything else, none.
pub open spec fn spec_value_style(text: Seq<char>) -> Option<Style> {
    match json_string(text) {
        Some(s) => Some(spec_style_of(normalized(s))),
        None => if is_object_text(text) {
            Some(spec_record_style(text))
        } else {
            None
        },
    }
}

/// Can the style of the JSON text `text` be read: where it is a string, can
/// the pairs of the normalized string be cut apart?
pub open spec fn readable(text: Seq<char>) -> bool {
    json_string(text) matches Some(s) ==> pairs_apart(normalized(s))
}

/// Reads a style from an entry of a color configuration. A string must be
/// such that it can be read.
pub fn value_to_style(v: &serde_json::Value) -> (r: Option<Style>)
    requires
        readable(json_text(*v)),
    ensures
        r == spec_value_style(json_text(*v)),
{
    match json_as_str(v) {
        Some(s) => parse_style_string(s.as_str()),
        None => {
            if json_is_object(v) {
                let attr = match member_str(v, "attr") {
                    Some(a) => Some(to_lowercase(a.as_str())),
                    None => None,
                };
                Some(record_style(member_str(v, "fg"), member_str(v, "bg"), attr))
            } else {
                None
            }
        },
    }
}

/// Reads a style from an entry of a color configuration, or fails where it
/// is a string that cannot be read.
pub fn try_value_to_style(v: &serde_json::Value) -> (r: Result<Option<Style>, StyleError>)
    ensures
        r == (if readable(json_text(*v)) {
            Ok::<Option<Style>, StyleError>(spec_value_style(json_text(*v)))
        } else {
            Err::<Option<Style>, StyleError>(StyleError)
        }),
{
    let ok = match json_as_str(v) {
        Some(s) => check_pairs_apart(to_lowercase(trimmed(s.as_str()).as_str()).as_str()),
        None => true,
    };
    if ok {
        Ok(value_to_style(v))
    } else {
        Err(StyleError)
    }
}

/// The styles of the listing tools.
#[derive(Clone, Copy, PartialEq, Eq, Structural, Debug)]
pub struct Theme {
    pub header: Style,
    pub dir: Style,
    pub file: Style,
    pub filesize: Style,
    pub date: Style,
    pub index: Style,
    pub enabled: bool,
}

/// Green and bold: the header's style where none is configured.
pub open spec fn green_bold() -> Style {
    Style { foreground: Some(Color::Green), bold: true, ..plain() }
}

/// A foreground color and nothing else.
pub open spec fn colored(c: Color) -> Style {
    Style { foreground: Some(c), ..plain() }
}

/// The built-in theme.
pub open spec fn spec_default_theme(enabled: bool) -> Theme {
    Theme {
        header: green_bold(),
        dir: colored(Color::Cyan),
        file: plain(),
        filesize: colored(Color::Cyan),
        date: colored(Color::Purple),
        index: plain(),
        enabled: enabled,
    }
}

impl Theme {
    /// The built-in theme, switched on or off.
    pub fn default_enabled(enabled: bool) -> (r: Theme)
        ensures
            r == spec_default_theme(enabled),
    {
        let mut green = Style::new();
        green.foreground = Some(Color::Green);
        green.bold = true;
        let mut cyan = Style::new();
        cyan.foreground = Some(Color::Cyan);
        let mut purple = Style::new();
        purple.foreground = Some(Color::Purple);
        Theme {
            header: green,
            dir: cyan,
            file: Style::new(),
            filesize: cyan,
            date: purple,
            index: Style::new(),
            enabled,
        }
    }
}

/// What looking up a style gives: a style, none, or a failure.
pub type Looked = Result<Option<Style>, StyleError>;

/// The style configured under `key` in the configuration with the JSON text
/// `text`: none where there is no such entry, a failure where the entry
/// cannot be read.
pub open spec fn spec_resolve(text: Seq<char>, key: Seq<char>) -> Looked {
    match json_member(text, key) {
        Some(m) => if readable(m) {
            Ok(spec_value_style(m))
        } else {
            Err(StyleError)
        },
        None => Ok(None),
    }
}

/// `found`, or where that is none, the style configured under `key`.
pub open spec fn spec_or_resolve(found: Looked, text: Seq<char>, key: Seq<char>) -> Looked {
    match found {
        Ok(None) => spec_resolve(text, key),
        _ => found,
    }
}

/// Looks up the style configured under `key`.
pub fn resolve(config: &serde_json::Value, key: &str) -> (r: Looked)
    ensures
        r == spec_resolve(json_text(*config), key@),
{
    match json_get(config, key) {
        Some(m) => try_value_to_style(&m),
        None => Ok(None),
    }
}

/// Keeps `found`, or where that is none, looks up the style under `key`.
pub fn or_resolve(found: Looked, config: &serde_json::Value, key: &str) -> (r: Looked)
    ensures
        r == spec_or_resolve(found, json_text(*config), key@),
{
    match found {
        Ok(None) => resolve(config, key),
        _ => found,
    }
}

/// The style looked up, or `fallback` where there is none.
pub open spec fn or_default(found: Option<Style>, fallback: Style) -> Style {
    match found {
        Some(st) => st,
        None => fallback,
    }
}

/// The theme of the table view for the configuration with the JSON text
/// `text`: each style from the first of its keys that is configured, or the
/// built-in one; the index falls back on the header's style.
pub open spec fn spec_table_theme(text: Seq<char>) -> Result<Theme, StyleError> {
    let header = spec_or_resolve(spec_resolve(text, "header"@), text, "shape_table"@);
    let dir = spec_or_resolve(
        spec_or_resolve(spec_resolve(text, "shape_directory"@), text, "shape_filepath"@),
        text,
        "string"@,
    );
    let filesize = spec_or_resolve(spec_resolve(text, "filesize"@), text, "int"@);
    let date = spec_or_resolve(spec_resolve(text, "date"@), text, "shape_datetime"@);
    let index = spec_resolve(text, "row_index"@);
    match (header, dir, filesize, date, index) {
        (Ok(h), Ok(d), Ok(f), Ok(t), Ok(i)) => Ok(
            Theme {
                header: or_default(h, green_bold()),
                dir: or_default(d, colored(Color::Cyan)),
                file: plain(),
                filesize: or_default(f, colored(Color::Cyan)),
                date: or_default(t, colored(Color::Purple)),
                index: or_default(
                    match i {
                        Some(st) => Some(st),
                        None => h,
                    },
                    plain(),
                ),
                enabled: true,
            },
        ),
        _ => Err(StyleError),
    }
}

/// Makes the theme of the table view from a color configuration. It fails
/// where an entry that it goes by cannot be read.
pub fn table_theme(config: &serde_json::Value) -> (r: Result<Theme, StyleError>)
    ensures
        r == spec_table_theme(json_text(*config)),
{
    let base = Theme::default_enabled(true);
    let header = match or_resolve(resolve(config, "header"), config, "shape_table") {
        Ok(x) => x,
        Err(e) => {
            return Err(e);
        },
    };
    let dir = match or_resolve(
        or_resolve(resolve(config, "shape_directory"), config, "shape_filepath"),
        config,
        "string",
    ) {
        Ok(x) => x,
        Err(e) => {
            return Err(e);
        },
    };
    let filesize = match or_resolve(resolve(config, "filesize"), config, "int") {
        Ok(x) => x,
        Err(e) => {
            return Err(e);
        },
    };
    let date = match or_resolve(resolve(config, "date"), config, "shape_datetime") {
        Ok(x) => x,
        Err(e) => {
            return Err(e);
        },
    };
    let index = match resolve(config, "row_index") {
        Ok(Some(st)) => Some(st),
        Ok(None) => header,
        Err(e) => {
            return Err(e);
        },
    };
    Ok(
        Theme {
            header: style_or(header, base.header),
            dir: style_or(dir, base.dir),
            file: base.file,
            filesize: style_or(filesize, base.filesize),
            date: style_or(date, base.date),
            index: style_or(index, base.index),
            enabled: true,
        },
    )
}

/// The style looked up, or `fallback` where there is none.
pub fn style_or(found: Option<Style>, fallback: Style) -> (r: Style)
    ensures
        r == or_default(found, fallback),
{
    match found {
        Some(st) => st,
        None => fallback,
    }
}

/// The theme of the tree view for the configuration with the JSON text
/// `text`: each style from the first of its keys that is configured, or the
/// built-in one.
pub open spec fn spec_tree_theme(text: Seq<char>) -> Result<Theme, StyleError> {
    let header = spec_or_resolve(spec_resolve(text, "header"@), text, "shape_table"@);
    let dir = spec_or_resolve(
        spec_or_resolve(spec_resolve(text, "shape_directory"@), text, "shape_filepath"@),
        text,
        "string"@,
    );
    let file = spec_or_resolve(
        spec_or_resolve(spec_resolve(text, "shape_filepath"@), text, "string"@),
        text,
        "nothing"@,
    );
    match (header, dir, file) {
        (Ok(h), Ok(d), Ok(f)) => Ok(
            Theme {
                header: or_default(h, green_bold()),
                dir: or_default(d, colored(Color::Cyan)),
                file: or_default(f, plain()),
                filesize: colored(Color::Cyan),
                date: colored(Color::Purple),
                index: plain(),
                enabled: true,
            },
        ),
        _ => Err(StyleError),
    }
}

/// Makes the theme of the tree view from a color configuration. It fails
/// where an entry that it goes by cannot be read.
pub fn tree_theme(config: &serde_json::Value) -> (r: Result<Theme, StyleError>)
    ensures
        r == spec_tree_theme(json_text(*config)),
{
    let base = Theme::default_enabled(true);
    let header = match or_resolve(resolve(config, "header"), config, "shape_table") {
        Ok(x) => x,
        Err(e) => {
            return Err(e);
        },
    };
    let dir = match or_resolve(
        or_resolve(resolve(config, "shape_directory"), config, "shape_filepath"),
        config,
        "string",
    ) {
        Ok(x) => x,
        Err(e) => {
            return Err(e);
        },
    };
    let file = match or_resolve(
        or_resolve(resolve(config, "shape_filepath"), config, "string"),
        config,
        "nothing",
    ) {
        Ok(x) => x,
        Err(e) => {
            return Err(e);
        },
    };
    Ok(
        Theme {
            header: style_or(header, base.header),
            dir: style_or(dir, base.dir),
            file: style_or(file, base.file),
            filesize: base.filesize,
            date: base.date,
            index: base.index,
            enabled: true,
        },
    )
}

} // verus!
