//! Byte search primitives: the first or last position of one of up to three
//! bytes in a haystack, all such positions in either direction, and substring
//! search with a reusable searcher.

use vstd::prelude::*;

pub mod iter;
pub mod memmem;
pub mod model;
pub mod scan;
pub mod vector;

pub use iter::{Memchr, Memchr2, Memchr3};

use model::{is_first, is_last, positions};
use scan::{
    memchr2_range, memchr3_range, memchr_range, memrchr2_range, memrchr3_range, memrchr_range,
};

verus! {

/// An iterator over all occurrences of the needle in a haystack.
pub fn memchr_iter(needle: u8, haystack: &[u8]) -> (r: Memchr)
    ensures
        r.wf(),
        !r.is_reversed(),
        r.remaining() == positions(haystack@, set![needle], 0, haystack@.len() as int),
{
    Memchr::new(needle, haystack)
}

/// An iterator over all occurrences of the needles in a haystack.
pub fn memchr2_iter(needle1: u8, needle2: u8, haystack: &[u8]) -> (r: Memchr2)
    ensures
        r.wf(),
        !r.is_reversed(),
        r.remaining() == positions(haystack@, set![needle1, needle2], 0, haystack@.len() as int),
{
    Memchr2::new(needle1, needle2, haystack)
}

/// An iterator over all occurrences of the needles in a haystack.
pub fn memchr3_iter(needle1: u8, needle2: u8, needle3: u8, haystack: &[u8]) -> (r: Memchr3)
    ensures
        r.wf(),
        !r.is_reversed(),
        r.remaining() == positions(
            haystack@,
            set![needle1, needle2, needle3],
            0,
            haystack@.len() as int,
        ),
{
    Memchr3::new(needle1, needle2, needle3, haystack)
}

/// An iterator over all occurrences of the needle in a haystack, in reverse.
pub fn memrchr_iter(needle: u8, haystack: &[u8]) -> (r: Memchr)
    ensures
        r.wf(),
        r.is_reversed(),
        r.remaining() == positions(haystack@, set![needle], 0, haystack@.len() as int),
{
    Memchr::new(needle, haystack).rev()
}

/// An iterator over all occurrences of the needles in a haystack, in reverse.
pub fn memrchr2_iter(needle1: u8, needle2: u8, haystack: &[u8]) -> (r: Memchr2)
    ensures
        r.wf(),
        r.is_reversed(),
        r.remaining() == positions(haystack@, set![needle1, needle2], 0, haystack@.len() as int),
{
    Memchr2::new(needle1, needle2, haystack).rev()
}

/// An iterator over all occurrences of the needles in a haystack, in reverse.
pub fn memrchr3_iter(needle1: u8, needle2: u8, needle3: u8, haystack: &[u8]) -> (r: Memchr3)
    ensures
        r.wf(),
        r.is_reversed(),
        r.remaining() == positions(
            haystack@,
            set![needle1, needle2, needle3],
            0,
            haystack@.len() as int,
        ),
{
    Memchr3::new(needle1, needle2, needle3, haystack).rev()
}

/// Search for the first occurrence of a byte in a slice: the index of the
/// first byte equal to `needle`, or `None` if there is none.
pub fn memchr(needle: u8, haystack: &[u8]) -> (r: Option<usize>)
    ensures
        is_first(haystack@, set![needle], 0, haystack@.len() as int, r),
{
    if haystack.is_empty() {
        None
    } else {
        memchr_range(needle, haystack, 0, haystack.len())
    }
}

/// Like `memchr`, but searches for either of two bytes: the first index that
/// holds `needle1` or `needle2`.
pub fn memchr2(needle1: u8, needle2: u8, haystack: &[u8]) -> (r: Option<usize>)
    ensures
        is_first(haystack@, set![needle1, needle2], 0, haystack@.len() as int, r),
{
    if haystack.is_empty() {
        None
    } else {
        memchr2_range(needle1, needle2, haystack, 0, haystack.len())
    }
}

/// Like `memchr`, but searches for any of three bytes: the first index that
/// holds `needle1`, `needle2` or `needle3`.
pub fn memchr3(needle1: u8, needle2: u8, needle3: u8, haystack: &[u8]) -> (r: Option<usize>)
    ensures
        is_first(haystack@, set![needle1, needle2, needle3], 0, haystack@.len() as int, r),
{
    if haystack.is_empty() {
        None
    } else {
        memchr3_range(needle1, needle2, needle3, haystack, 0, haystack.len())
    }
}

/// Search for the last occurrence of a byte in a slice: the index of the last
/// byte equal to `needle`, or `None` if there is none.
pub fn memrchr(needle: u8, haystack: &[u8]) -> (r: Option<usize>)
    ensures
        is_last(haystack@, set![needle], 0, haystack@.len() as int, r),
{
    if haystack.is_empty() {
        None
    } else {
        memrchr_range(needle, haystack, 0, haystack.len())
    }
}

/// Like `memrchr`, but searches for either of two bytes: the last index that
/// holds `needle1` or `needle2`.
pub fn memrchr2(needle1: u8, needle2: u8, haystack: &[u8]) -> (r: Option<usize>)
    ensures
        is_last(haystack@, set![needle1, needle2], 0, haystack@.len() as int, r),
{
    if haystack.is_empty() {
        None
    } else {
        memrchr2_range(needle1, needle2, haystack, 0, haystack.len())
    }
}

/// Like `memrchr`, but searches for any of three bytes: the last index that
/// holds `needle1`, `needle2` or `needle3`.
pub fn memrchr3(needle1: u8, needle2: u8, needle3: u8, haystack: &[u8]) -> (r: Option<usize>)
    ensures
        is_last(haystack@, set![needle1, needle2, needle3], 0, haystack@.len() as int, r),
{
    if haystack.is_empty() {
        None
    } else {
        memrchr3_range(needle1, needle2, needle3, haystack, 0, haystack.len())
    }
}

/// A byte placed at `d` and nowhere else in a haystack is what both the
/// forward and the reverse scan report, whatever the haystack's length and
/// wherever `d` falls relative to a block boundary.
pub proof fn law_placed_byte_found(
    h: Seq<u8>,
    n: u8,
    d: int,
    first: Option<usize>,
    last: Option<usize>,
)
    requires
        0 <= d < h.len(),
        h[d] == n,
        forall|j: int| 0 <= j < h.len() && j != d ==> h[j] != n,
        is_first(h, set![n], 0, h.len() as int, first),
        is_last(h, set![n], 0, h.len() as int, last),
    ensures
        first == Some(d as usize),
        last == Some(d as usize),
{
    assert(set![n].contains(h[d]));
}

} // verus!
