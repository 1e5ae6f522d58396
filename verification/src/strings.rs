//! String operations of std that the rest builds on.

use vstd::prelude::*;

verus! {

/// The characters of an optional string.
pub open spec fn opt_view(s: Option<String>) -> Option<Seq<char>> {
    match s {
        Some(x) => Some(x@),
        None => None,
    }
}

/// The views of a sequence of strings.
pub open spec fn strings_view(s: Seq<String>) -> Seq<Seq<char>> {
    s.map_values(|x: String| x@)
}

/// Calls `==` of `str`: true where the two strings hold the same characters.
#[verifier::external_body]
pub(crate) fn str_eq(a: &str, b: &str) -> (r: bool)
    ensures
        r == (a@ == b@),
{
    a == b
}

/// Calls `String::push`, which appends `c`.
#[verifier::external_body]
pub(crate) fn push_char(s: &mut String, c: char)
    ensures
        final(s)@ == old(s)@.push(c),
{
    s.push(c)
}

/// Is `c` white space: has it the Unicode property `White_Space`? These
/// are the characters from tab to carriage return, the blank, the next-line
/// control, the no-break blank, the Ogham space mark, the blanks from en
/// quad to hair space, the line and the paragraph separator, the narrow
/// no-break blank, the medium mathematical blank and the ideographic blank.
pub open spec fn spec_is_whitespace(c: char) -> bool {
    ||| ('\u{9}' <= c && c <= '\u{D}')
    ||| c == '\u{20}'
    ||| c == '\u{85}'
    ||| c == '\u{A0}'
    ||| c == '\u{1680}'
    ||| ('\u{2000}' <= c && c <= '\u{200A}')
    ||| c == '\u{2028}'
    ||| c == '\u{2029}'
    ||| c == '\u{202F}'
    ||| c == '\u{205F}'
    ||| c == '\u{3000}'
}

/// Is `c` a control character: is its Unicode general category `Cc`? These
/// are the characters up to U+001F and those from U+007F to U+009F.
pub open spec fn spec_is_control(c: char) -> bool {
    c <= '\u{1F}' || ('\u{7F}' <= c && c <= '\u{9F}')
}

/// Is `c` alphabetic, as `char::is_alphabetic` says: has it the Unicode
/// property `Alphabetic`?
pub uninterp spec fn spec_is_alphabetic(c: char) -> bool;

/// The upper-case mapping of `c`, as `char::to_uppercase` yields it: one
/// character or more.
pub uninterp spec fn spec_to_uppercase(c: char) -> Seq<char>;

/// Calls `char::is_whitespace`, which tells whether a character has the
/// Unicode property `White_Space`.
#[verifier::external_body]
pub(crate) fn is_whitespace(c: char) -> (r: bool)
    ensures
        r == spec_is_whitespace(c),
{
    c.is_whitespace()
}

/// Calls `char::is_control`, which tells whether a character has the
/// Unicode general category `Cc`.
#[verifier::external_body]
pub(crate) fn is_control(c: char) -> (r: bool)
    ensures
        r == spec_is_control(c),
{
    c.is_control()
}

/// Calls `char::is_alphabetic`.
#[verifier::external_body]
pub(crate) fn is_alphabetic(c: char) -> (r: bool)
    ensures
        r == spec_is_alphabetic(c),
{
    c.is_alphabetic()
}

/// Calls `char::to_uppercase` and collects the characters it yields.
#[verifier::external_body]
pub(crate) fn to_uppercase(c: char) -> (r: Vec<char>)
    ensures
        r@ == spec_to_uppercase(c),
{
    c.to_uppercase().collect()
}

/// For each character of `s`, whether it is white space.
pub open spec fn whitespace_flags(s: Seq<char>) -> Seq<bool> {
    s.map_values(|c: char| spec_is_whitespace(c))
}

/// The characters of `s` and, for each, whether it is white space.
pub fn classify_whitespace(s: &str) -> (r: (Vec<char>, Vec<bool>))
    ensures
        r.0@ == s@,
        r.1@ == whitespace_flags(s@),
{
    let mut chars: Vec<char> = Vec::new();
    let mut flags: Vec<bool> = Vec::new();
    for c in it: s.chars()
        invariant
            it.seq() == s@,
            chars@ == s@.take(it.index()),
            flags@ == whitespace_flags(s@).take(it.index()),
    {
        chars.push(c);
        flags.push(is_whitespace(c));
        assert(chars@ =~= s@.take(it.index() + 1));
        assert(flags@ =~= whitespace_flags(s@).take(it.index() + 1));
    }
    assert(chars@ =~= s@);
    assert(flags@ =~= whitespace_flags(s@));
    (chars, flags)
}

/// For each character of `s`, whether it is alphabetic.
pub open spec fn alphabetic_flags(s: Seq<char>) -> Seq<bool> {
    s.map_values(|c: char| spec_is_alphabetic(c))
}

/// The characters of `s`.
pub fn chars_of(s: &str) -> (r: Vec<char>)
    ensures
        r@ == s@,
{
    let mut chars: Vec<char> = Vec::new();
    for c in it: s.chars()
        invariant
            it.seq() == s@,
            chars@ == s@.take(it.index()),
    {
        chars.push(c);
        assert(chars@ =~= s@.take(it.index() + 1));
    }
    assert(chars@ =~= s@);
    chars
}

/// The string of the characters `chars`.
pub fn string_of(chars: &Vec<char>) -> (r: String)
    ensures
        r@ == chars@,
{
    let mut out = String::new();
    let mut i: usize = 0;
    while i < chars.len()
        invariant
            i <= chars.len(),
            out@ == chars@.take(i as int),
        decreases chars.len() - i,
    {
        push_char(&mut out, chars[i]);
        assert(out@ =~= chars@.take(i + 1));
        i = i + 1;
    }
    assert(out@ =~= chars@);
    out
}

/// For each of `chars`, whether it is white space.
pub fn whitespace_of(chars: &Vec<char>) -> (r: Vec<bool>)
    ensures
        r@ == whitespace_flags(chars@),
{
    let mut flags: Vec<bool> = Vec::new();
    let mut i: usize = 0;
    while i < chars.len()
        invariant
            i <= chars.len(),
            flags@ == whitespace_flags(chars@).take(i as int),
        decreases chars.len() - i,
    {
        flags.push(is_whitespace(chars[i]));
        assert(flags@ =~= whitespace_flags(chars@).take(i + 1));
        i = i + 1;
    }
    assert(flags@ =~= whitespace_flags(chars@));
    flags
}

/// For each of `chars`, whether it is alphabetic.
pub fn alphabetic_of(chars: &Vec<char>) -> (r: Vec<bool>)
    ensures
        r@ == alphabetic_flags(chars@),
{
    let mut flags: Vec<bool> = Vec::new();
    let mut i: usize = 0;
    while i < chars.len()
        invariant
            i <= chars.len(),
            flags@ == alphabetic_flags(chars@).take(i as int),
        decreases chars.len() - i,
    {
        flags.push(is_alphabetic(chars[i]));
        assert(flags@ =~= alphabetic_flags(chars@).take(i + 1));
        i = i + 1;
    }
    assert(flags@ =~= alphabetic_flags(chars@));
    flags
}

/// How many flags are set at the start of `strip`, without a gap.
pub open spec fn leading(strip: Seq<bool>) -> nat
    decreases strip.len(),
{
    if strip.len() > 0 && strip[0] {
        1 + leading(strip.drop_first())
    } else {
        0
    }
}

/// How many flags are set at the end of `strip`, without a gap.
pub open spec fn trailing(strip: Seq<bool>) -> nat
    decreases strip.len(),
{
    if strip.len() > 0 && strip.last() {
        1 + trailing(strip.drop_last())
    } else {
        0
    }
}

/// `s` without the characters flagged at its two ends; `strip[i]` says
/// whether `s[i]` may go.
pub open spec fn trim_by(s: Seq<char>, strip: Seq<bool>) -> Seq<char> {
    if leading(strip) >= s.len() {
        Seq::empty()
    } else {
        s.subrange(leading(strip) as int, s.len() - trailing(strip))
    }
}

proof fn lemma_leading(strip: Seq<bool>, n: int)
    requires
        0 <= n <= strip.len(),
        forall|j: int| 0 <= j < n ==> strip[j],
        n < strip.len() ==> !strip[n],
    ensures
        leading(strip) == n,
    decreases n,
{
    if n > 0 {
        lemma_leading(strip.drop_first(), n - 1);
    }
}

proof fn lemma_trailing(strip: Seq<bool>, n: int)
    requires
        0 <= n <= strip.len(),
        forall|j: int| strip.len() - n <= j < strip.len() ==> strip[j],
        n < strip.len() ==> !strip[strip.len() - n - 1],
    ensures
        trailing(strip) == n,
    decreases n,
{
    if n > 0 {
        lemma_trailing(strip.drop_last(), n - 1);
    }
}

/// `chars` without the characters flagged at its two ends.
pub fn trim_flagged(chars: &Vec<char>, strip: &Vec<bool>) -> (r: Vec<char>)
    requires
        strip@.len() == chars@.len(),
    ensures
        r@ == trim_by(chars@, strip@),
{
    let n = chars.len();
    let mut start: usize = 0;
    while start < n && strip[start]
        invariant
            start <= n,
            n == strip@.len(),
            forall|j: int| 0 <= j < start ==> strip@[j],
        decreases n - start,
    {
        start = start + 1;
    }
    proof {
        lemma_leading(strip@, start as int);
    }
    let mut out: Vec<char> = Vec::new();
    if start == n {
        return out;
    }
    let mut end: usize = n;
    while end > start && strip[end - 1]
        invariant
            start < end <= n,
            n == strip@.len(),
            !strip@[start as int],
            forall|j: int| end <= j < n ==> strip@[j],
        decreases end,
    {
        end = end - 1;
    }
    proof {
        lemma_trailing(strip@, n - end);
    }
    let mut i: usize = start;
    while i < end
        invariant
            start <= i <= end <= n,
            n == chars@.len(),
            out@ == chars@.subrange(start as int, i as int),
        decreases end - i,
    {
        out.push(chars[i]);
        assert(out@ =~= chars@.subrange(start as int, i + 1));
        i = i + 1;
    }
    out
}

/// `s` without white space at its ends.
pub open spec fn spec_trim(s: Seq<char>) -> Seq<char> {
    trim_by(s, whitespace_flags(s))
}

/// `s` without white space at its ends.
pub fn trimmed(s: &str) -> (r: String)
    ensures
        r@ == spec_trim(s@),
{
    let chars = chars_of(s);
    let space = whitespace_of(&chars);
    let inner = trim_flagged(&chars, &space);
    string_of(&inner)
}

/// The position of the first flag that is set.
pub open spec fn first_set(flags: Seq<bool>) -> Option<int>
    decreases flags.len(),
{
    if flags.len() == 0 {
        None
    } else if flags[0] {
        Some(0)
    } else {
        match first_set(flags.drop_first()) {
            Some(i) => Some(i + 1),
            None => None,
        }
    }
}

proof fn lemma_first_set(flags: Seq<bool>, n: int)
    requires
        0 <= n <= flags.len(),
        forall|j: int| 0 <= j < n ==> !flags[j],
    ensures
        n < flags.len() && flags[n] ==> first_set(flags) == Some(n),
        n == flags.len() ==> first_set(flags) is None,
    decreases n,
{
    if n > 0 {
        lemma_first_set(flags.drop_first(), n - 1);
    }
}

/// Finds the first flag that is set.
pub fn find_first_set(flags: &Vec<bool>) -> (r: Option<usize>)
    ensures
        match r {
            Some(i) => i < flags.len() && first_set(flags@) == Some(i as int),
            None => first_set(flags@) is None,
        },
{
    let mut i: usize = 0;
    while i < flags.len()
        invariant
            i <= flags.len(),
            forall|j: int| 0 <= j < i ==> !flags@[j],
        decreases flags.len() - i,
    {
        if flags[i] {
            proof {
                lemma_first_set(flags@, i as int);
            }
            return Some(i);
        }
        i = i + 1;
    }
    proof {
        lemma_first_set(flags@, i as int);
    }
    None
}

/// `chars` with the character at `at` replaced by the characters `with`.
pub fn replace_char(chars: &Vec<char>, at: usize, with: &Vec<char>) -> (r: Vec<char>)
    requires
        at < chars@.len(),
    ensures
        r@ == chars@.take(at as int) + with@ + chars@.skip(at + 1),
{
    let mut out: Vec<char> = Vec::new();
    let mut i: usize = 0;
    while i < at
        invariant
            i <= at < chars.len(),
            out@ == chars@.take(i as int),
        decreases at - i,
    {
        out.push(chars[i]);
        assert(out@ =~= chars@.take(i + 1));
        i = i + 1;
    }
    let mut k: usize = 0;
    while k < with.len()
        invariant
            k <= with.len(),
            out@ == chars@.take(at as int) + with@.take(k as int),
        decreases with.len() - k,
    {
        out.push(with[k]);
        assert(out@ =~= chars@.take(at as int) + with@.take(k + 1));
        k = k + 1;
    }
    assert(with@.take(k as int) =~= with@);
    let mut j: usize = at + 1;
    while j < chars.len()
        invariant
            at < j <= chars.len(),
            out@ == chars@.take(at as int) + with@ + chars@.subrange(at + 1, j as int),
        decreases chars.len() - j,
    {
        out.push(chars[j]);
        assert(out@ =~= chars@.take(at as int) + with@ + chars@.subrange(at + 1, j + 1));
        j = j + 1;
    }
    assert(chars@.subrange(at + 1, j as int) =~= chars@.skip(at + 1));
    out
}

/// `c` with an ASCII capital letter made small.
pub open spec fn ascii_lower(c: char) -> char {
    if 'A' <= c && c <= 'Z' {
        ((c as u8 + 32) as u8) as char
    } else {
        c
    }
}

/// `s` with its ASCII capital letters made small.
pub open spec fn spec_ascii_lowercase(s: Seq<char>) -> Seq<char> {
    s.map_values(|c: char| ascii_lower(c))
}

/// Are `a` and `b` the same but for the case of ASCII letters?
pub open spec fn same_ignoring_ascii_case(a: Seq<char>, b: Seq<char>) -> bool {
    spec_ascii_lowercase(a) == spec_ascii_lowercase(b)
}

/// The lower-case form of `s`, as `str::to_lowercase` gives it by the rules
/// of Unicode.
pub uninterp spec fn spec_to_lowercase(s: Seq<char>) -> Seq<char>;

/// Does `hay` hold `needle` as a run of characters?
pub open spec fn spec_contains(hay: Seq<char>, needle: Seq<char>) -> bool {
    exists|i: int|
        0 <= i && i + needle.len() <= hay.len() && #[trigger] hay.subrange(i, i + needle.len())
            == needle
}

/// `c` with an ASCII capital letter made small.
pub fn lower_ascii_char(c: char) -> (r: char)
    ensures
        r == ascii_lower(c),
{
    if 'A' <= c && c <= 'Z' {
        (c as u8 + 32) as char
    } else {
        c
    }
}

/// A copy of `s` with its ASCII capital letters made small.
pub fn to_ascii_lowercase(s: &str) -> (r: String)
    ensures
        r@ == spec_ascii_lowercase(s@),
{
    let mut out = String::new();
    for c in it: s.chars()
        invariant
            it.seq() == s@,
            out@ == spec_ascii_lowercase(s@).take(it.index()),
    {
        push_char(&mut out, lower_ascii_char(c));
        assert(out@ =~= spec_ascii_lowercase(s@).take(it.index() + 1));
    }
    assert(out@ =~= spec_ascii_lowercase(s@));
    out
}

/// Are `a` and `b` the same but for the case of ASCII letters?
pub fn eq_ignore_ascii_case(a: &str, b: &str) -> (r: bool)
    ensures
        r == same_ignoring_ascii_case(a@, b@),
{
    to_ascii_lowercase(a) == to_ascii_lowercase(b)
}

/// Calls `str::to_lowercase`.
#[verifier::external_body]
pub(crate) fn to_lowercase(s: &str) -> (r: String)
    ensures
        r@ == spec_to_lowercase(s@),
{
    s.to_lowercase()
}

/// Does `hay` hold `needle` as a run of characters?
pub fn str_contains(hay: &str, needle: &str) -> (r: bool)
    ensures
        r == spec_contains(hay@, needle@),
{
    let h = chars_of(hay);
    let n = chars_of(needle);
    if n.len() > h.len() {
        return false;
    }
    let last = h.len() - n.len();
    let mut i: usize = 0;
    while i <= last
        invariant
            i <= last + 1,
            last == h.len() - n.len(),
            h@ == hay@,
            n@ == needle@,
            forall|k: int| 0 <= k < i ==> #[trigger] h@.subrange(k, k + n.len()) != n@,
        decreases last + 1 - i,
    {
        let mut j: usize = 0;
        while j < n.len() && h[i + j] == n[j]
            invariant
                j <= n.len(),
                i + n.len() <= h.len(),
                forall|t: int| 0 <= t < j ==> h@[i + t] == n@[t],
            decreases n.len() - j,
        {
            j = j + 1;
        }
        if j == n.len() {
            assert(h@.subrange(i as int, i + n.len()) =~= n@);
            return true;
        }
        assert(h@.subrange(i as int, i + n.len())[j as int] != n@[j as int]);
        i = i + 1;
    }
    false
}

/// How many bytes `a` and `b` have in common at their start.
pub open spec fn common_prefix_len(a: Seq<u8>, b: Seq<u8>) -> int
    decreases a.len(),
{
    if a.len() > 0 && b.len() > 0 && a[0] == b[0] {
        1 + common_prefix_len(a.drop_first(), b.drop_first())
    } else {
        0
    }
}

proof fn lemma_common_prefix(a: Seq<u8>, b: Seq<u8>, k: int)
    requires
        0 <= k <= a.len(),
        k <= b.len(),
        forall|i: int| 0 <= i < k ==> a[i] == b[i],
        k < a.len() && k < b.len() ==> a[k] != b[k],
    ensures
        common_prefix_len(a, b) == k,
    decreases k,
{
    if k > 0 {
        lemma_common_prefix(a.drop_first(), b.drop_first(), k - 1);
    }
}

/// Counts the bytes that `a` and `b` have in common at their start.
pub fn common_prefix(a: &[u8], b: &[u8]) -> (k: usize)
    ensures
        k == common_prefix_len(a@, b@),
        k <= a@.len(),
        k <= b@.len(),
{
    let mut k: usize = 0;
    while k < a.len() && k < b.len() && a[k] == b[k]
        invariant
            k <= a.len(),
            k <= b.len(),
            forall|i: int| 0 <= i < k ==> a@[i] == b@[i],
        decreases a.len() - k,
    {
        k = k + 1;
    }
    proof {
        lemma_common_prefix(a@, b@, k as int);
    }
    k
}

} // verus!
