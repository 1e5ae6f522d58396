//! The order in which the listing tools show the entries of a directory.

use crate::strings::{common_prefix, common_prefix_len, spec_to_lowercase, to_lowercase};
use std::cmp::Ordering;
use vstd::prelude::*;
use vstd::utf8::encode_utf8;

verus! {

/// The order of two byte strings: by the first byte in which they differ,
/// and where one is the start of the other, the shorter first.
pub open spec fn bytes_order(a: Seq<u8>, b: Seq<u8>) -> Ordering {
    let k = common_prefix_len(a, b);
    if k < a.len() && k < b.len() {
        if a[k] < b[k] {
            Ordering::Less
        } else {
            Ordering::Greater
        }
    } else if a.len() < b.len() {
        Ordering::Less
    } else if a.len() > b.len() {
        Ordering::Greater
    } else {
        Ordering::Equal
    }
}

/// The order of two texts: that of their bytes.
pub open spec fn str_order(a: Seq<char>, b: Seq<char>) -> Ordering {
    bytes_order(encode_utf8(a), encode_utf8(b))
}

/// Compares two texts by their bytes.
pub fn compare_str(a: &str, b: &str) -> (o: Ordering)
    ensures
        o == str_order(a@, b@),
{
    let x = a.as_bytes();
    let y = b.as_bytes();
    let k = common_prefix(x, y);
    if k < x.len() && k < y.len() {
        if x[k] < y[k] {
            Ordering::Less
        } else {
            Ordering::Greater
        }
    } else if x.len() < y.len() {
        Ordering::Less
    } else if x.len() > y.len() {
        Ordering::Greater
    } else {
        Ordering::Equal
    }
}

/// The order of the tree view: directories before anything else, and within
/// each kind by name; `a_name` and `b_name` are the names to go by.
pub open spec fn tree_order_of(
    a_is_dir: bool,
    a_name: Seq<char>,
    b_is_dir: bool,
    b_name: Seq<char>,
) -> Ordering {
    if a_is_dir && !b_is_dir {
        Ordering::Less
    } else if !a_is_dir && b_is_dir {
        Ordering::Greater
    } else {
        str_order(a_name, b_name)
    }
}

/// Compares two entries for the tree view; the names are given in lower case.
pub fn tree_order(a_is_dir: bool, a_name_lower: &str, b_is_dir: bool, b_name_lower: &str) -> (o:
    Ordering)
    ensures
        o == tree_order_of(a_is_dir, a_name_lower@, b_is_dir, b_name_lower@),
{
    if a_is_dir && !b_is_dir {
        Ordering::Less
    } else if !a_is_dir && b_is_dir {
        Ordering::Greater
    } else {
        compare_str(a_name_lower, b_name_lower)
    }
}

/// The order of the table view: anything else before directories, and within
/// each kind by name; `a_name` and `b_name` are the names to go by.
pub open spec fn table_order_of(
    a_is_dir: bool,
    a_name: Seq<char>,
    b_is_dir: bool,
    b_name: Seq<char>,
) -> Ordering {
    if !a_is_dir && b_is_dir {
        Ordering::Less
    } else if a_is_dir && !b_is_dir {
        Ordering::Greater
    } else {
        str_order(a_name, b_name)
    }
}

/// Compares two entries for the table view by kind and by name in lower case.
pub fn table_order(a_is_dir: bool, a_name: &str, b_is_dir: bool, b_name: &str) -> (o: Ordering)
    ensures
        o == table_order_of(
            a_is_dir,
            spec_to_lowercase(a_name@),
            b_is_dir,
            spec_to_lowercase(b_name@),
        ),
{
    if !a_is_dir && b_is_dir {
        Ordering::Less
    } else if a_is_dir && !b_is_dir {
        Ordering::Greater
    } else {
        compare_str(to_lowercase(a_name).as_str(), to_lowercase(b_name).as_str())
    }
}

} // verus!
