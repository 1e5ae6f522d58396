//! What is told of a file's content: whether it reads as text.

use crate::paths::{path_extension, path_join, spec_path_extension, spec_path_join};
use crate::strings::{opt_view, push_char, strings_view};
use crate::text::{digit, push_decimal, spec_decimal};
use std::path::Path;
use vstd::prelude::*;
use vstd::string::StringExecFns;

verus! {

/// Is `b` printable: line feed, carriage return, tab, or ASCII from blank to
/// tilde?
pub open spec fn printable(b: u8) -> bool {
    b == 0x0A || b == 0x0D || b == 0x09 || (0x20 <= b && b <= 0x7E)
}

/// How many bytes of `sample` are printable.
pub open spec fn printable_count(sample: Seq<u8>) -> nat
    decreases sample.len(),
{
    if sample.len() == 0 {
        0
    } else {
        printable_count(sample.drop_last()) + if printable(sample.last()) {
            1nat
        } else {
            0nat
        }
    }
}

/// Does `sample` read as text: is it empty, or free of NUL with at least 85
/// in 100 bytes printable?
pub open spec fn spec_is_probably_text(sample: Seq<u8>) -> bool {
    sample.len() == 0 || ((forall|i: int| 0 <= i < sample.len() ==> sample[i] != 0)
        && printable_count(sample) * 100 / sample.len() >= 85)
}

/// How many bytes to sample of a file, given the caller's limit.
pub fn sample_size(limit: usize) -> (n: usize)
    ensures
        n == (if limit <= 8192 { limit } else { 8192 }),
{
    if limit <= 8192 {
        limit
    } else {
        8192
    }
}

/// Does the sample from the start of a file read as text?
pub fn is_probably_text(sample: &[u8]) -> (r: bool)
    ensures
        r == spec_is_probably_text(sample@),
{
    let n = sample.len();
    if n == 0 {
        return true;
    }
    let mut count: usize = 0;
    let mut i: usize = 0;
    assert(sample@.take(0) =~= Seq::empty());
    while i < n
        invariant
            i <= n,
            n == sample@.len(),
            count == printable_count(sample@.take(i as int)),
            count <= i,
            forall|j: int| 0 <= j < i ==> sample@[j] != 0,
        decreases n - i,
    {
        let b = sample[i];
        if b == 0 {
            return false;
        }
        assert(sample@.take(i + 1).drop_last() =~= sample@.take(i as int));
        if b == 0x0A || b == 0x0D || b == 0x09 || (0x20 <= b && b <= 0x7E) {
            count = count + 1;
        }
        i = i + 1;
    }
    assert(sample@.take(i as int) =~= sample@);
    let share: u128 = count as u128 * 100 / (n as u128);
    share >= 85
}

/// The media type that `mime_guess` knows first for the extension of `path`.
pub uninterp spec fn spec_mime_guess(path: Seq<char>) -> Option<Seq<char>>;

/// Calls `mime_guess::from_path` and takes the first media type of the guess
/// with `first_raw`. The guess goes by the extension alone; the file is not read.
#[verifier::external_body]
pub(crate) fn mime_guess_first(path: &str) -> (r: Option<String>)
    ensures
        opt_view(r) == spec_mime_guess(path@),
{
    match mime_guess::from_path(Path::new(path)).first_raw() {
        Some(m) => Some(m.to_owned()),
        None => None,
    }
}

/// The kind of the file at `path`: its extension, or `unknown`.
pub open spec fn spec_file_type(path: Seq<char>) -> Seq<char> {
    match spec_path_extension(path) {
        Some(e) => e,
        None => "unknown"@,
    }
}

/// The kind of the file at `path`.
pub fn file_type(path: &str) -> (r: String)
    ensures
        r@ == spec_file_type(path@),
{
    match path_extension(path) {
        Some(e) => e,
        None => "unknown".to_owned(),
    }
}

/// The media type to go by: what the content showed, else what the name
/// suggests, else that of arbitrary bytes.
pub open spec fn spec_media_type(sniffed: Option<Seq<char>>, guessed: Option<Seq<char>>) -> Seq<
    char,
> {
    match sniffed {
        Some(m) => m,
        None => match guessed {
            Some(g) => g,
            None => "application/octet-stream"@,
        },
    }
}

/// Settles the media type from what the content showed and what the name
/// suggests.
pub fn media_type(sniffed: Option<String>, guessed: Option<String>) -> (r: String)
    ensures
        r@ == spec_media_type(opt_view(sniffed), opt_view(guessed)),
{
    match sniffed {
        Some(m) => m,
        None => match guessed {
            Some(g) => g,
            None => "application/octet-stream".to_owned(),
        },
    }
}

/// The places where a project's README may lie below `root`, in the order in
/// which they are tried.
pub fn readme_candidates(root: &str) -> (r: Vec<String>)
    ensures
        strings_view(r@) == seq![
            spec_path_join(root@, "README.md"@),
            spec_path_join(root@, "README.txt"@),
            spec_path_join(root@, "README"@),
            spec_path_join(root@, "Readme.md"@),
            spec_path_join(root@, "readme.md"@),
        ],
{
    let mut out: Vec<String> = Vec::new();
    out.push(path_join(root, "README.md"));
    out.push(path_join(root, "README.txt"));
    out.push(path_join(root, "README"));
    out.push(path_join(root, "Readme.md"));
    out.push(path_join(root, "readme.md"));
    assert(strings_view(out@) =~= seq![
        spec_path_join(root@, "README.md"@),
        spec_path_join(root@, "README.txt"@),
        spec_path_join(root@, "README"@),
        spec_path_join(root@, "Readme.md"@),
        spec_path_join(root@, "readme.md"@),
    ]);
    out
}

/// The least number above all that a double holds exactly without gaps: two
/// to the power of 53.
pub const DOUBLE_EXACT: u64 = 9007199254740992;

/// `num / den`, rounded to the nearest whole number, a half to the even one.
pub open spec fn round_half_even(num: nat, den: nat) -> nat {
    let q = num / den;
    let r = num % den;
    if 2 * r > den || (2 * r == den && q % 2 == 1) {
        q + 1
    } else {
        q
    }
}

/// The distance between the doubles around `b`: 1 below two to the power
/// of 53, and twice as much with each further power of two.
pub open spec fn spacing(b: nat) -> nat {
    if b < 9007199254740992 {
        1
    } else if b < 18014398509481984 {
        2
    } else if b < 36028797018963968 {
        4
    } else if b < 72057594037927936 {
        8
    } else if b < 144115188075855872 {
        16
    } else if b < 288230376151711744 {
        32
    } else if b < 576460752303423488 {
        64
    } else if b < 1152921504606846976 {
        128
    } else if b < 2305843009213693952 {
        256
    } else if b < 4611686018427387904 {
        512
    } else if b < 9223372036854775808 {
        1024
    } else {
        2048
    }
}

/// The double nearest to `b`, a tie going to the one with the even
/// significand: what `b` becomes when it is taken as a double.
pub open spec fn nearest_double(b: nat) -> nat {
    let den = spacing(b);
    round_half_even(b, den) * den
}

/// The unit in which a size is shown: bytes below 1024, and so on up to
/// the fourth power of 1024.
pub open spec fn unit_index(m: nat) -> nat {
    if m < 1024 {
        0
    } else if m < 1048576 {
        1
    } else if m < 1073741824 {
        2
    } else if m < 1099511627776 {
        3
    } else {
        4
    }
}

/// The size of the unit with the index `idx`.
pub open spec fn unit_size(idx: nat) -> nat {
    if idx == 0 {
        1
    } else if idx == 1 {
        1024
    } else if idx == 2 {
        1048576
    } else if idx == 3 {
        1073741824
    } else {
        1099511627776
    }
}

/// The name of the unit with the index `idx`.
pub open spec fn unit_name(idx: nat) -> Seq<char> {
    if idx == 0 {
        "B"@
    } else if idx == 1 {
        "KB"@
    } else if idx == 2 {
        "MB"@
    } else if idx == 3 {
        "GB"@
    } else {
        "TB"@
    }
}

/// A byte count as it is shown: below 1024 as it is, in bytes; else, taken
/// as a double, in the largest unit up to TB that it reaches, with one
/// decimal, a half rounded to the even digit.
pub open spec fn spec_human_bytes(b: u64) -> Seq<char> {
    let m = nearest_double(b as nat);
    let idx = unit_index(m);
    if idx == 0 {
        spec_decimal(b as nat) + seq![' '] + unit_name(0)
    } else {
        let tenths = round_half_even(m * 10, unit_size(idx));
        spec_decimal(tenths / 10) + seq!['.', digit(tenths % 10), ' '] + unit_name(idx)
    }
}

/// `num / den`, rounded to the nearest whole number, a half to the even one.
pub fn rounded_half_even(num: u128, den: u128) -> (r: u128)
    requires
        den > 0,
        num / den < u128::MAX,
    ensures
        r == round_half_even(num as nat, den as nat),
{
    let q = num / den;
    let r = num % den;
    if r > den - r || (r == den - r && q % 2 == 1) {
        q + 1
    } else {
        q
    }
}

/// The distance between the doubles around `b`.
pub fn double_spacing(b: u64) -> (den: u64)
    ensures
        den == spacing(b as nat),
        1 <= den <= 2048,
        b / den <= DOUBLE_EXACT,
{
    if b < 9007199254740992 {
        1
    } else if b < 18014398509481984 {
        2
    } else if b < 36028797018963968 {
        4
    } else if b < 72057594037927936 {
        8
    } else if b < 144115188075855872 {
        16
    } else if b < 288230376151711744 {
        32
    } else if b < 576460752303423488 {
        64
    } else if b < 1152921504606846976 {
        128
    } else if b < 2305843009213693952 {
        256
    } else if b < 4611686018427387904 {
        512
    } else if b < 9223372036854775808 {
        1024
    } else {
        2048
    }
}

/// The double nearest to `b`.
pub fn as_double(b: u64) -> (m: u128)
    ensures
        m == nearest_double(b as nat),
        m <= 18446744073709553664,
{
    let den = double_spacing(b);
    let q = rounded_half_even(b as u128, den as u128);
    assert(q <= DOUBLE_EXACT + 1);
    assert(q * den <= 18446744073709553664) by (nonlinear_arith)
        requires
            q <= 9007199254740993,
            den <= 2048,
    ;
    q * (den as u128)
}

/// A byte count as it is shown, with the units B, KB, MB, GB and TB.
pub fn human_bytes(b: u64) -> (r: String)
    ensures
        r@ == spec_human_bytes(b),
{
    let m = as_double(b);
    let mut out = String::new();
    if m < 1024 {
        push_decimal(&mut out, b);
        push_char(&mut out, ' ');
        let out = out.concat("B");
        assert(out@ =~= spec_human_bytes(b));
        return out;
    }
    let (size, name): (u128, &str) = if m < 1048576 {
        (1024, "KB")
    } else if m < 1073741824 {
        (1048576, "MB")
    } else if m < 1099511627776 {
        (1073741824, "GB")
    } else {
        (1099511627776, "TB")
    };
    assert(size == unit_size(unit_index(m as nat)));
    assert(name@ == unit_name(unit_index(m as nat)));
    let tenths = rounded_half_even(m * 10, size);
    let whole = (tenths / 10) as u64;
    let tenth = (tenths % 10) as u8;
    push_decimal(&mut out, whole);
    push_char(&mut out, '.');
    let c: char = (48u8 + tenth) as char;
    assert(c == digit((tenths % 10) as nat));
    push_char(&mut out, c);
    push_char(&mut out, ' ');
    let out = out.concat(name);
    assert(out@ =~= spec_human_bytes(b));
    out
}

/// What is told of a file: its size as text, its kind and its media type.
/// `size` is the size in bytes, and `sniffed` the media type that the
/// content showed, if any.
pub fn file_meta(path: &str, size: u64, sniffed: Option<String>) -> (r: (String, String, String))
    ensures
        r.0@ == spec_human_bytes(size),
        r.1@ == spec_file_type(path@),
        r.2@ == spec_media_type(opt_view(sniffed), spec_mime_guess(path@)),
{
    let guessed = mime_guess_first(path);
    (human_bytes(size), file_type(path), media_type(sniffed, guessed))
}

} // verus!
