//! Text helpers of the annotation pipeline and of the listing tools.

use crate::strings::{
    chars_of, classify_whitespace, is_control, push_char, spec_is_control, whitespace_flags,
};
use vstd::string::StringSliceAdditionalSpecFns;
use vstd::utf8::{decode_utf8, encode_utf8, is_char_boundary};
use vstd::prelude::*;

verus! {

/// The variation selector that asks for emoji presentation.
pub open spec fn vs16() -> char {
    '\u{FE0F}'
}

/// `s` in emoji presentation: a single character that carries no variation
/// selector gets one appended; any other text is unchanged.
pub open spec fn spec_emoji_presentation(s: Seq<char>) -> Seq<char> {
    if s.len() == 1 && s[0] != vs16() {
        s.push(vs16())
    } else {
        s
    }
}

/// Forces emoji presentation on a single character.
pub fn as_emoji_presentation(s: &str) -> (r: String)
    ensures
        r@ == spec_emoji_presentation(s@),
{
    let mut count: usize = 0;
    let mut selector = false;
    for c in it: s.chars()
        invariant
            it.seq() == s@,
            count == (if it.index() < 2 { it.index() as usize } else { 2usize }),
            selector == exists|j: int| 0 <= j < it.index() && s@[j] == vs16(),
    {
        if c == '\u{FE0F}' {
            selector = true;
        }
        if count < 2 {
            count = count + 1;
        }
    }
    let mut out = s.to_owned();
    if count == 1 && !selector {
        push_char(&mut out, '\u{FE0F}');
    }
    out
}

/// The placeholder that stands for the content of a binary file.
pub open spec fn spec_suppressed_block() -> Seq<char> {
    "[[binary content suppressed]]"@
}

/// The placeholder that stands for the content of a binary file.
pub fn suppressed_block() -> (r: String)
    ensures
        r@ == spec_suppressed_block(),
{
    "[[binary content suppressed]]".to_owned()
}

/// The whole milliseconds in a duration of `secs` seconds and `subsec_nanos`
/// nanoseconds.
pub fn as_ms(secs: u64, subsec_nanos: u32) -> (ms: u128)
    ensures
        ms == secs * 1000 + subsec_nanos / 1_000_000,
{
    let whole: u128 = secs as u128 * 1000;
    let part: u128 = (subsec_nanos / 1_000_000) as u128;
    whole + part
}

/// What becomes of one character in text that is put into a YAML block:
/// line feed, carriage return and tab stay; any other control character goes;
/// the line and paragraph separators and the byte order mark become a blank.
pub open spec fn yaml_char(c: char, control: bool) -> Option<char> {
    if c == '\n' || c == '\r' || c == '\t' {
        Some(c)
    } else if control {
        None
    } else if c == '\u{2028}' || c == '\u{2029}' || c == '\u{FEFF}' {
        Some(' ')
    } else {
        Some(c)
    }
}

/// What becomes of `c` in a YAML block; `control` says whether it is a
/// control character.
pub fn sanitize_char(c: char, control: bool) -> (r: Option<char>)
    ensures
        r == yaml_char(c, control),
{
    if c == '\n' || c == '\r' || c == '\t' {
        Some(c)
    } else if control {
        None
    } else if c == '\u{2028}' || c == '\u{2029}' || c == '\u{FEFF}' {
        Some(' ')
    } else {
        Some(c)
    }
}

/// `s` made safe for a YAML block, character by character.
pub open spec fn spec_sanitize_for_yaml(s: Seq<char>) -> Seq<char>
    decreases s.len(),
{
    if s.len() == 0 {
        Seq::empty()
    } else {
        let front = spec_sanitize_for_yaml(s.drop_last());
        match yaml_char(s.last(), spec_is_control(s.last())) {
            Some(c) => front.push(c),
            None => front,
        }
    }
}

/// May `c` stand in a YAML block: is it a line feed, a carriage return or a
/// tab, or else neither a control character, nor a line or paragraph
/// separator, nor the byte order mark?
pub open spec fn yaml_safe(c: char) -> bool {
    c == '\n' || c == '\r' || c == '\t' || (!spec_is_control(c) && c != '\u{2028}' && c
        != '\u{2029}' && c != '\u{FEFF}')
}

/// Text made safe holds only characters that may stand in a YAML block, and
/// no more characters than the text it was made of.
pub proof fn lemma_sanitized(s: Seq<char>)
    ensures
        spec_sanitize_for_yaml(s).len() <= s.len(),
        forall|i: int|
            0 <= i < spec_sanitize_for_yaml(s).len() ==> yaml_safe(
                #[trigger] spec_sanitize_for_yaml(s)[i],
            ),
    decreases s.len(),
{
    if s.len() > 0 {
        lemma_sanitized(s.drop_last());
        let front = spec_sanitize_for_yaml(s.drop_last());
        let after = spec_sanitize_for_yaml(s);
        assert forall|i: int| 0 <= i < after.len() implies yaml_safe(#[trigger] after[i]) by {
            if i < front.len() {
                assert(after[i] == front[i]);
            }
        }
    }
}

/// Makes text safe for a YAML block.
pub fn sanitize_for_yaml(s: &str) -> (r: String)
    ensures
        r@ == spec_sanitize_for_yaml(s@),
        r@.len() <= s@.len(),
        forall|i: int| 0 <= i < r@.len() ==> yaml_safe(#[trigger] r@[i]),
{
    proof {
        lemma_sanitized(s@);
    }
    let mut out = String::new();
    for c in it: s.chars()
        invariant
            it.seq() == s@,
            out@ == spec_sanitize_for_yaml(s@.take(it.index())),
    {
        assert(s@.take(it.index() + 1).drop_last() =~= s@.take(it.index()));
        match sanitize_char(c, is_control(c)) {
            Some(k) => {
                push_char(&mut out, k);
            },
            None => {},
        }
    }
    assert(s@.take(s@.len() as int) =~= s@);
    out
}

/// The words of a text: its longest runs of characters that are not white
/// space; `space[i]` says whether `chars[i]` is.
pub open spec fn words(chars: Seq<char>, space: Seq<bool>) -> Seq<Seq<char>>
    decreases chars.len(),
{
    if chars.len() == 0 {
        Seq::empty()
    } else {
        let n = chars.len() - 1;
        let front = words(chars.take(n), space.take(n));
        if space[n] {
            front
        } else if n > 0 && !space[n - 1] {
            front.update(front.len() - 1, front.last().push(chars[n]))
        } else {
            front.push(seq![chars[n]])
        }
    }
}

/// `parts` with `sep` between each two.
pub open spec fn joined(parts: Seq<Seq<char>>, sep: char) -> Seq<char>
    decreases parts.len(),
{
    if parts.len() == 0 {
        Seq::empty()
    } else if parts.len() == 1 {
        parts[0]
    } else {
        joined(parts.drop_last(), sep).push(sep) + parts.last()
    }
}

/// The first `n` words of a text, one blank between each two.
pub open spec fn spec_first_n_words(chars: Seq<char>, space: Seq<bool>, n: nat) -> Seq<char> {
    let w = words(chars, space);
    joined(
        w.take(
            if n <= w.len() {
                n as int
            } else {
                w.len() as int
            },
        ),
        ' ',
    )
}

proof fn lemma_words_shape(chars: Seq<char>, space: Seq<bool>)
    requires
        space.len() == chars.len(),
    ensures
        words(chars, space).len() <= chars.len(),
        chars.len() > 0 && !space[chars.len() - 1] ==> words(chars, space).len() > 0,
    decreases chars.len(),
{
    if chars.len() > 0 {
        let n = chars.len() - 1;
        lemma_words_shape(chars.take(n), space.take(n));
    }
}

proof fn lemma_joined_grow(parts: Seq<Seq<char>>, sep: char, c: char)
    requires
        parts.len() > 0,
    ensures
        joined(parts.update(parts.len() - 1, parts.last().push(c)), sep) == joined(parts, sep).push(
            c,
        ),
{
    let grown = parts.update(parts.len() - 1, parts.last().push(c));
    if parts.len() == 1 {
    } else {
        assert(grown.drop_last() =~= parts.drop_last());
        assert(joined(grown, sep) =~= joined(parts, sep).push(c));
    }
}

/// The first `n` words of the text `chars`, one blank between each two;
/// `space[i]` says whether `chars[i]` is white space.
pub fn join_first_words(chars: &Vec<char>, space: &Vec<bool>, n: usize) -> (r: String)
    requires
        space@.len() == chars@.len(),
    ensures
        r@ == spec_first_n_words(chars@, space@, n as nat),
{
    let mut out = String::new();
    let mut count: usize = 0;
    let mut in_word = false;
    let mut i: usize = 0;
    assert(chars@.take(0) =~= Seq::empty());
    assert(Seq::<Seq<char>>::empty().take(0) =~= Seq::empty());
    while i < chars.len()
        invariant
            i <= chars.len(),
            space@.len() == chars@.len(),
            count == words(chars@.take(i as int), space@.take(i as int)).len(),
            in_word == (i > 0 && !space@[i - 1]),
            out@ == spec_first_n_words(chars@.take(i as int), space@.take(i as int), n as nat),
        decreases chars.len() - i,
    {
        let ghost w = words(chars@.take(i as int), space@.take(i as int));
        let ghost next = words(chars@.take(i + 1), space@.take(i + 1));
        let c = chars[i];
        proof {
            assert(chars@.take(i + 1).take(i as int) =~= chars@.take(i as int));
            assert(space@.take(i + 1).take(i as int) =~= space@.take(i as int));
            lemma_words_shape(chars@.take(i as int), space@.take(i as int));
            lemma_words_shape(chars@.take(i + 1), space@.take(i + 1));
        }
        if space[i] {
            in_word = false;
        } else if in_word {
            if count <= n {
                push_char(&mut out, c);
                proof {
                    assert(next.take(next.len() as int) =~= next);
                    assert(w.take(w.len() as int) =~= w);
                    lemma_joined_grow(w, ' ', c);
                }
            } else {
                assert(next.take(n as int) =~= w.take(n as int));
            }
        } else {
            if count < n {
                if count > 0 {
                    push_char(&mut out, ' ');
                }
                push_char(&mut out, c);
                proof {
                    assert(next.take(next.len() as int) =~= next);
                    assert(w.take(w.len() as int) =~= w);
                    assert(next.drop_last() =~= w);
                    assert(joined(w, ' ').push(' ') + seq![c] =~= joined(w, ' ').push(' ').push(c));
                }
            } else {
                assert(next.take(n as int) =~= w.take(n as int));
            }
            count = count + 1;
            in_word = true;
        }
        i = i + 1;
    }
    assert(chars@.take(i as int) =~= chars@);
    assert(space@.take(i as int) =~= space@);
    out
}

/// The first `n` words of `s`, one blank between each two.
pub fn first_n_words(s: &str, n: usize) -> (r: String)
    ensures
        r@ == spec_first_n_words(s@, whitespace_flags(s@), n as nat),
{
    let (chars, space) = classify_whitespace(s);
    join_first_words(&chars, &space, n)
}

/// What is told of a project's README: whether there is one, as `true` or
/// `false`, and the first 500 words of its text.
pub fn readme_context(readme: Option<&str>) -> (r: (String, String))
    ensures
        match readme {
            Some(text) => r.0@ == "true"@ && r.1@ == spec_first_n_words(
                text@,
                whitespace_flags(text@),
                500,
            ),
            None => r.0@ == "false"@ && r.1@ == Seq::<char>::empty(),
        },
{
    match readme {
        Some(text) => ("true".to_owned(), first_n_words(text, 500)),
        None => ("false".to_owned(), String::new()),
    }
}

/// The decimal digit for `d`.
pub open spec fn digit(d: nat) -> char {
    (('0' as u8) + d) as u8 as char
}

/// `n` in decimal.
pub open spec fn spec_decimal(n: nat) -> Seq<char>
    decreases n,
{
    if n < 10 {
        seq![digit(n)]
    } else {
        spec_decimal(n / 10).push(digit(n % 10))
    }
}

/// Appends `n` in decimal to `out`.
pub fn push_decimal(out: &mut String, n: u64)
    ensures
        final(out)@ == old(out)@ + spec_decimal(n as nat),
{
    let mut rev: Vec<char> = Vec::new();
    let mut m: u64 = n;
    let mut pending = true;
    assert(rev@.reverse() =~= Seq::<char>::empty());
    assert(spec_decimal(n as nat) + Seq::<char>::empty() =~= spec_decimal(n as nat));
    while pending
        invariant
            spec_decimal(n as nat) == (if pending {
                spec_decimal(m as nat)
            } else {
                Seq::<char>::empty()
            }) + rev@.reverse(),
            !pending ==> rev@.len() > 0,
        decreases
                (if pending {
                    m + 1
                } else {
                    0
                }),
    {
        let d: u8 = (m % 10) as u8;
        let c: char = (48u8 + d) as char;
        assert(c == digit((m % 10) as nat));
        let ghost before = rev@;
        rev.push(c);
        assert(rev@.reverse() =~= seq![c] + before.reverse());
        if m < 10 {
            pending = false;
            assert(spec_decimal(n as nat) =~= rev@.reverse());
        } else {
            assert(spec_decimal((m / 10) as nat).push(c) + before.reverse() =~= spec_decimal(
                (m / 10) as nat,
            ) + rev@.reverse());
        }
        m = m / 10;
    }
    let mut k: usize = rev.len();
    while k > 0
        invariant
            k <= rev.len(),
            out@ == old(out)@ + rev@.reverse().take(rev.len() - k),
        decreases k,
    {
        k = k - 1;
        push_char(out, rev[k]);
        assert(out@ =~= old(out)@ + rev@.reverse().take(rev.len() - k));
    }
    assert(rev@.reverse().take(rev.len() as int) =~= rev@.reverse());
}

/// The mark that stands for what was cut off.
pub open spec fn ellipsis() -> char {
    '\u{2026}'
}

/// The note behind cut-off text: the mark and the full length in bytes.
pub open spec fn cut_note(total: nat) -> Seq<char> {
    seq![ellipsis(), ' ', '('] + spec_decimal(total) + " bytes total)"@
}

/// `s` cut down to its first `max` bytes, with a note of its full length;
/// unchanged where it has no more bytes than that.
pub open spec fn spec_truncate(s: Seq<char>, max: nat) -> Seq<char> {
    let bytes = encode_utf8(s);
    if bytes.len() <= max {
        s
    } else {
        decode_utf8(bytes.subrange(0, max as int)) + cut_note(bytes.len())
    }
}

/// Cuts `s` down to `max` bytes for display. Where `s` is longer, `max` has
/// to fall between two of its characters.
pub fn truncate(s: &str, max: usize) -> (r: String)
    requires
        s.spec_bytes().len() > max ==> is_char_boundary(s.spec_bytes(), max as int),
    ensures
        r@ == spec_truncate(s@, max as nat),
{
    broadcast use vstd::utf8::encode_utf8_decode_utf8;

    let total = s.as_bytes().len();
    if total <= max {
        return s.to_owned();
    }
    let (head, _) = s.split_at(max);
    assert(head@ == decode_utf8(encode_utf8(s@).subrange(0, max as int))) by {
        assert(decode_utf8(encode_utf8(head@)) == head@);
    }
    let mut out = head.to_owned();
    push_char(&mut out, '\u{2026}');
    push_char(&mut out, ' ');
    push_char(&mut out, '(');
    push_decimal(&mut out, total as u64);
    let out = out.concat(" bytes total)");
    assert(out@ =~= spec_truncate(s@, max as nat));
    out
}

/// The text of `s` behind its last line feed.
pub open spec fn open_line(s: Seq<char>) -> Seq<char>
    decreases s.len(),
{
    if s.len() == 0 || s.last() == '\n' {
        Seq::empty()
    } else {
        open_line(s.drop_last()).push(s.last())
    }
}

/// `line` without a carriage return at its end.
pub open spec fn without_cr(line: Seq<char>) -> Seq<char> {
    if line.len() > 0 && line.last() == '\r' {
        line.drop_last()
    } else {
        line
    }
}

/// The lines of `s` that a line feed ends, each without the line feed and
/// without a carriage return before it.
pub open spec fn closed_lines(s: Seq<char>) -> Seq<Seq<char>>
    decreases s.len(),
{
    if s.len() == 0 {
        Seq::empty()
    } else if s.last() == '\n' {
        closed_lines(s.drop_last()).push(without_cr(open_line(s.drop_last())))
    } else {
        closed_lines(s.drop_last())
    }
}

/// The lines of `s`: a line ends at a line feed, or at a carriage return and
/// a line feed; text behind the last line feed is a line of its own, as it is.
pub open spec fn spec_lines(s: Seq<char>) -> Seq<Seq<char>> {
    if open_line(s).len() > 0 {
        closed_lines(s).push(open_line(s))
    } else {
        closed_lines(s)
    }
}

/// The views of a sequence of lines.
pub open spec fn lines_view(lines: Seq<Vec<char>>) -> Seq<Seq<char>> {
    lines.map_values(|l: Vec<char>| l@)
}

/// Splits text into its lines.
pub fn lines_of(chars: &Vec<char>) -> (r: Vec<Vec<char>>)
    ensures
        lines_view(r@) == spec_lines(chars@),
{
    let mut done: Vec<Vec<char>> = Vec::new();
    let mut cur: Vec<char> = Vec::new();
    let mut i: usize = 0;
    assert(chars@.take(0) =~= Seq::empty());
    assert(lines_view(done@) =~= Seq::empty());
    while i < chars.len()
        invariant
            i <= chars.len(),
            lines_view(done@) == closed_lines(chars@.take(i as int)),
            cur@ == open_line(chars@.take(i as int)),
        decreases chars.len() - i,
    {
        assert(chars@.take(i + 1).drop_last() =~= chars@.take(i as int));
        let c = chars[i];
        if c == '\n' {
            let n = cur.len();
            if n > 0 && cur[n - 1] == '\r' {
                cur.pop();
            }
            let ghost before = lines_view(done@);
            let ghost line = cur@;
            done.push(cur);
            assert(lines_view(done@) =~= before.push(line));
            cur = Vec::new();
        } else {
            cur.push(c);
        }
        i = i + 1;
    }
    assert(chars@.take(i as int) =~= chars@);
    if cur.len() > 0 {
        let ghost before = lines_view(done@);
        let ghost line = cur@;
        done.push(cur);
        assert(lines_view(done@) =~= before.push(line));
    }
    done
}

/// `n` blanks.
pub open spec fn blanks(n: nat) -> Seq<char> {
    Seq::new(n, |i: int| ' ')
}

/// Each line with `pad` before it.
pub open spec fn padded(lines: Seq<Seq<char>>, pad: Seq<char>) -> Seq<Seq<char>> {
    lines.map_values(|l: Seq<char>| pad + l)
}

/// `s` with every line indented by `n` blanks, a line feed between each two.
pub open spec fn spec_indent_for_yaml(s: Seq<char>, n: nat) -> Seq<char> {
    joined(padded(spec_lines(s), blanks(n)), '\n')
}

/// Indents every line of `s` by `n` blanks.
pub fn indent_for_yaml(s: &str, n: usize) -> (r: String)
    ensures
        r@ == spec_indent_for_yaml(s@, n as nat),
{
    let chars = chars_of(s);
    let lines = lines_of(&chars);
    let ghost want = padded(spec_lines(s@), blanks(n as nat));
    let mut out = String::new();
    let mut k: usize = 0;
    assert(want.take(0) =~= Seq::empty());
    while k < lines.len()
        invariant
            k <= lines.len(),
            lines_view(lines@) == spec_lines(s@),
            want == padded(spec_lines(s@), blanks(n as nat)),
            out@ == joined(want.take(k as int), '\n'),
        decreases lines.len() - k,
    {
        let ghost start = out@;
        if k > 0 {
            push_char(&mut out, '\n');
        }
        let ghost lead = out@;
        let mut p: usize = 0;
        while p < n
            invariant
                p <= n,
                out@ == lead + blanks(p as nat),
            decreases n - p,
        {
            push_char(&mut out, ' ');
            assert(out@ =~= lead + blanks((p + 1) as nat));
            p = p + 1;
        }
        let line = &lines[k];
        let mut j: usize = 0;
        while j < line.len()
            invariant
                j <= line.len(),
                out@ == lead + blanks(n as nat) + line@.take(j as int),
            decreases line.len() - j,
        {
            push_char(&mut out, line[j]);
            assert(out@ =~= lead + blanks(n as nat) + line@.take(j + 1));
            j = j + 1;
        }
        proof {
            assert(line@.take(j as int) =~= line@);
            assert(want[k as int] == blanks(n as nat) + line@);
            assert(want.take(k + 1).drop_last() =~= want.take(k as int));
            assert(want.take(k + 1).last() == want[k as int]);
            if k == 0 {
                assert(out@ =~= want[0]);
            } else {
                assert(out@ =~= start.push('\n') + want[k as int]);
            }
        }
        k = k + 1;
    }
    assert(want.take(k as int) =~= want);
    out
}

} // verus!
