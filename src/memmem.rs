//! Substring search: the first or last occurrence of a needle in a haystack,
//! every non-overlapping occurrence in either direction, and a reusable
//! searcher that does its preprocessing once.

use vstd::prelude::*;

use crate::model::taken_front;
use crate::scan::{memchr_range, memrchr_range};

verus! {

/// `n` occurs in `h` at position `p`.
pub open spec fn occurs_at(h: Seq<u8>, n: Seq<u8>, p: int) -> bool {
    0 <= p && p + n.len() <= h.len() && h.subrange(p, p + n.len()) == n
}

/// `r` is the first position at or after `from` where `n` occurs in `h`, or
/// `None` when there is none.
pub open spec fn first_from(h: Seq<u8>, n: Seq<u8>, from: int, r: Option<usize>) -> bool {
    match r {
        Some(p) => from <= p && occurs_at(h, n, p as int) && forall|q: int|
            from <= q < p ==> !#[trigger] occurs_at(h, n, q),
        None => forall|q: int| from <= q ==> !#[trigger] occurs_at(h, n, q),
    }
}

/// `r` is the last position where `n` occurs in `h` and ends at or before
/// `end`, or `None` when there is none.
pub open spec fn last_to(h: Seq<u8>, n: Seq<u8>, end: int, r: Option<usize>) -> bool {
    match r {
        Some(p) => p + n.len() <= end && occurs_at(h, n, p as int) && forall|q: int|
            p < q && q + n.len() <= end ==> !#[trigger] occurs_at(h, n, q),
        None => forall|q: int| q + n.len() <= end ==> !#[trigger] occurs_at(h, n, q),
    }
}

/// How far a forward iteration moves past a match: the needle's length, and
/// one for the empty needle.
pub open spec fn step(n: Seq<u8>) -> int {
    if n.len() == 0 {
        1
    } else {
        n.len() as int
    }
}

/// The non-overlapping occurrences of `n` in `h` that a forward iteration
/// from `pos` produces, in order: after a match at `p` the search resumes at
/// `p + step(n)`.
pub open spec fn matches_from(h: Seq<u8>, n: Seq<u8>, pos: int) -> Seq<int>
    decreases h.len() + 1 - pos,
{
    if pos < 0 || pos > h.len() {
        Seq::empty()
    } else if occurs_at(h, n, pos) {
        seq![pos] + matches_from(h, n, pos + step(n))
    } else {
        matches_from(h, n, pos + 1)
    }
}

/// The non-overlapping occurrences of `n` in `h` that end at or before `end`,
/// as a reverse iteration produces them: the last first, and after a match
/// at `p` the search goes on among those that end at or before `p` (before
/// `p` for the empty needle).
pub open spec fn rmatches_to(h: Seq<u8>, n: Seq<u8>, end: int) -> Seq<int>
    decreases end + 1,
{
    if end < 0 || end > h.len() || end < n.len() {
        Seq::empty()
    } else if occurs_at(h, n, end - n.len()) {
        seq![end - n.len()] + rmatches_to(
            h,
            n,
            if n.len() == 0 {
                end - 1
            } else {
                end - n.len()
            },
        )
    } else {
        rmatches_to(h, n, end - 1)
    }
}

/// Positions without an occurrence do not change what a forward iteration
/// produces.
proof fn lemma_matches_skip(h: Seq<u8>, n: Seq<u8>, pos: int, p: int)
    requires
        0 <= pos <= p <= h.len() + 1,
        forall|q: int| pos <= q < p ==> !#[trigger] occurs_at(h, n, q),
    ensures
        matches_from(h, n, pos) == matches_from(h, n, p),
    decreases p - pos,
{
    if pos < p {
        assert(!occurs_at(h, n, pos));
        lemma_matches_skip(h, n, pos + 1, p);
    }
}

/// Ends without an occurrence before them do not change what a reverse
/// iteration produces.
proof fn lemma_rmatches_skip(h: Seq<u8>, n: Seq<u8>, e: int, end: int)
    requires
        -1 <= e <= end <= h.len(),
        forall|q: int| e < q + n.len() <= end ==> !#[trigger] occurs_at(h, n, q),
    ensures
        rmatches_to(h, n, end) == rmatches_to(h, n, e),
    decreases end - e,
{
    if e < end && end >= n.len() {
        assert(!occurs_at(h, n, end - n.len()));
        lemma_rmatches_skip(h, n, e, end - 1);
    }
}

/// From `pos` on, the empty needle matches at every position up to and
/// including the haystack's length.
proof fn lemma_empty_matches(h: Seq<u8>, pos: int)
    requires
        0 <= pos <= h.len() + 1,
    ensures
        matches_from(h, Seq::empty(), pos) == Seq::new(
            (h.len() + 1 - pos) as nat,
            |i: int| pos + i,
        ),
    decreases h.len() + 1 - pos,
{
    let e = Seq::<u8>::empty();
    if pos <= h.len() {
        assert(h.subrange(pos, pos) =~= e);
        lemma_empty_matches(h, pos + 1);
        assert(matches_from(h, e, pos) =~= Seq::new(
            (h.len() + 1 - pos) as nat,
            |i: int| pos + i,
        ));
    } else {
        assert(matches_from(h, e, pos) =~= Seq::new(
            (h.len() + 1 - pos) as nat,
            |i: int| pos + i,
        ));
    }
}

/// The empty needle: the first occurrence is at 0, the last at the
/// haystack's length, and a forward iteration produces every position from 0
/// to the haystack's length.
pub proof fn law_empty_needle(h: Seq<u8>)
    requires
        h.len() <= usize::MAX,
    ensures
        forall|r: Option<usize>| first_from(h, Seq::empty(), 0, r) <==> r == Some(0usize),
        forall|r: Option<usize>|
            last_to(h, Seq::empty(), h.len() as int, r) <==> r == Some(h.len() as usize),
        matches_from(h, Seq::empty(), 0) == Seq::new(h.len() + 1, |i: int| i),
{
    let e = Seq::<u8>::empty();
    assert(h.subrange(0, 0) =~= e);
    assert(h.subrange(h.len() as int, h.len() as int) =~= e);
    assert(occurs_at(h, e, 0));
    assert(occurs_at(h, e, h.len() as int));
    lemma_empty_matches(h, 0);
    assert(Seq::new((h.len() + 1 - 0) as nat, |i: int| 0 + i) =~= Seq::new(
        h.len() + 1,
        |i: int| i,
    ));
}

/// Every occurrence that a forward iteration from `pos` produces lies at or
/// after `pos`.
proof fn lemma_matches_above(h: Seq<u8>, n: Seq<u8>, pos: int)
    requires
        0 <= pos,
    ensures
        forall|k: int|
            0 <= k < matches_from(h, n, pos).len() ==> pos <= #[trigger] matches_from(h, n, pos)[k],
    decreases h.len() + 1 - pos,
{
    if pos <= h.len() {
        if occurs_at(h, n, pos) {
            let rest = matches_from(h, n, pos + step(n));
            lemma_matches_above(h, n, pos + step(n));
            assert(matches_from(h, n, pos) == seq![pos] + rest);
            assert forall|k: int| 0 <= k < matches_from(h, n, pos).len() implies pos
                <= #[trigger] matches_from(h, n, pos)[k] by {
                if k > 0 {
                    assert(matches_from(h, n, pos)[k] == rest[k - 1]);
                }
            }
        } else {
            lemma_matches_above(h, n, pos + 1);
            assert(matches_from(h, n, pos) == matches_from(h, n, pos + 1));
        }
    }
}

/// Consecutive occurrences from a forward iteration do not overlap: each
/// lies at least the needle's length (at least one) after the one before.
pub proof fn law_non_overlap(h: Seq<u8>, n: Seq<u8>, pos: int)
    requires
        0 <= pos,
    ensures
        forall|k: int|
            0 <= k && k + 1 < matches_from(h, n, pos).len() ==> #[trigger] matches_from(
                h,
                n,
                pos,
            )[k] + step(n) <= matches_from(h, n, pos)[k + 1],
    decreases h.len() + 1 - pos,
{
    if pos <= h.len() {
        if occurs_at(h, n, pos) {
            let rest = matches_from(h, n, pos + step(n));
            law_non_overlap(h, n, pos + step(n));
            lemma_matches_above(h, n, pos + step(n));
            assert(matches_from(h, n, pos) == seq![pos] + rest);
            assert forall|k: int|
                0 <= k && k + 1 < matches_from(h, n, pos).len() implies #[trigger] matches_from(
                h,
                n,
                pos,
            )[k] + step(n) <= matches_from(h, n, pos)[k + 1] by {
                assert(matches_from(h, n, pos)[k + 1] == rest[k]);
                assert(pos + step(n) <= rest[k]);
                if k == 0 {
                    assert(matches_from(h, n, pos)[k] == pos);
                }
                if k > 0 {
                    assert(matches_from(h, n, pos)[k] == rest[k - 1]);
                }
            }
        } else {
            law_non_overlap(h, n, pos + 1);
            assert(matches_from(h, n, pos) == matches_from(h, n, pos + 1));
        }
    }
}

/// The first occurrence at or after a position is one value: so a `Finder`
/// built for a needle finds in every haystack what `find` finds there.
pub proof fn law_first_unique(
    h: Seq<u8>,
    n: Seq<u8>,
    from: int,
    r1: Option<usize>,
    r2: Option<usize>,
)
    requires
        first_from(h, n, from, r1),
        first_from(h, n, from, r2),
    ensures
        r1 == r2,
{
    match (r1, r2) {
        (Some(a), Some(b)) => {
            if a < b {
                assert(!occurs_at(h, n, a as int));
            } else if b < a {
                assert(!occurs_at(h, n, b as int));
            }
        },
        (Some(a), None) => {
            assert(!occurs_at(h, n, a as int));
        },
        (None, Some(b)) => {
            assert(!occurs_at(h, n, b as int));
        },
        (None, None) => {},
    }
}

/// A rough commonness of a byte in text: the higher, the more common. Probe
/// bytes are chosen with the lowest ranks, so that the prefilter stops at few
/// false candidates.
fn byte_rank(b: u8) -> u8 {
    if b == 32 {
        255
    } else if b == 101 || b == 116 || b == 97 || b == 111 || b == 105 || b == 110 || b == 115
        || b == 114 || b == 104 {
        240
    } else if 97 <= b && b <= 122 {
        200
    } else if b == 10 || b == 9 || b == 13 {
        160
    } else if 48 <= b && b <= 57 {
        150
    } else if 65 <= b && b <= 90 {
        140
    } else if 33 <= b && b <= 126 {
        120
    } else if b == 0 {
        100
    } else {
        20
    }
}

/// The two probe positions of a needle: the two rarest bytes by
/// `byte_rank`, in increasing order of position.
fn choose_probes(needle: &[u8]) -> (r: (usize, usize))
    requires
        needle@.len() >= 1,
    ensures
        r.0 <= r.1 < needle@.len(),
        needle@.len() >= 2 ==> r.0 < r.1,
{
    let m = needle.len();
    let mut best: usize = 0;
    let mut best_rank = byte_rank(needle[0]);
    let mut i: usize = 1;
    while i < m
        invariant
            1 <= i <= m,
            m == needle@.len(),
            best < m,
        decreases m - i,
    {
        let rank = byte_rank(needle[i]);
        if rank < best_rank {
            best = i;
            best_rank = rank;
        }
        i = i + 1;
    }
    if m == 1 {
        return (0, 0);
    }
    let mut second: usize = if best == 0 { 1 } else { 0 };
    let mut second_rank = byte_rank(needle[second]);
    let mut k: usize = 0;
    while k < m
        invariant
            k <= m,
            m == needle@.len(),
            m >= 2,
            best < m,
            second < m,
            second != best,
        decreases m - k,
    {
        if k != best {
            let rank = byte_rank(needle[k]);
            if rank < second_rank {
                second = k;
                second_rank = rank;
            }
        }
        k = k + 1;
    }
    if best < second {
        (best, second)
    } else {
        (second, best)
    }
}

/// `shift` is a bad-byte table for moving forward past a failed candidate:
/// for each byte `b`, none of the `shift[b] - 1` bytes just before the last
/// byte of `n` equals `b`.
pub open spec fn forward_shift_ok(n: Seq<u8>, shift: Seq<usize>) -> bool {
    &&& shift.len() == 256
    &&& forall|b: int| 0 <= b < 256 ==> 1 <= #[trigger] shift[b] <= n.len()
    &&& forall|b: int, j: int|
        #![trigger shift[b], n[j]]
        0 <= b < 256 && n.len() - shift[b] <= j < n.len() - 1 ==> n[j] != b as u8
}

/// `shift` is a bad-byte table for moving backward past a failed candidate:
/// for each byte `b`, none of the bytes `n[1..shift[b]]` equals `b`.
pub open spec fn reverse_shift_ok(n: Seq<u8>, shift: Seq<usize>) -> bool {
    &&& shift.len() == 256
    &&& forall|b: int| 0 <= b < 256 ==> 1 <= #[trigger] shift[b] <= n.len()
    &&& forall|b: int, j: int|
        #![trigger shift[b], n[j]]
        0 <= b < 256 && 1 <= j < shift[b] ==> n[j] != b as u8
}

/// For each byte, how far a forward search may move when the last byte of a
/// failed candidate window is that byte.
fn forward_shift_table(needle: &[u8]) -> (shift: Vec<usize>)
    requires
        needle@.len() >= 1,
    ensures
        forward_shift_ok(needle@, shift@),
{
    let m = needle.len();
    let mut shift: Vec<usize> = Vec::with_capacity(256);
    let mut b: usize = 0;
    while b < 256
        invariant
            b <= 256,
            m == needle@.len(),
            m >= 1,
            shift@.len() == b,
            forall|k: int| 0 <= k < b ==> shift@[k] == m,
        decreases 256 - b,
    {
        shift.push(m);
        b = b + 1;
    }
    let mut j: usize = 0;
    while j + 1 < m
        invariant
            j + 1 <= m,
            m == needle@.len(),
            shift@.len() == 256,
            forall|k: int| 0 <= k < 256 ==> 1 <= #[trigger] shift@[k] <= m,
            forall|k: int, i: int|
                #![trigger shift@[k], needle@[i]]
                0 <= k < 256 && m - shift@[k] <= i < j ==> needle@[i] != k as u8,
        decreases m - j,
    {
        let byte = needle[j] as usize;
        shift.set(byte, m - 1 - j);
        j = j + 1;
    }
    shift
}

/// For each byte, how far a reverse search may move when the first byte of a
/// failed candidate window is that byte.
fn reverse_shift_table(needle: &[u8]) -> (shift: Vec<usize>)
    requires
        needle@.len() >= 1,
    ensures
        reverse_shift_ok(needle@, shift@),
{
    let m = needle.len();
    let mut shift: Vec<usize> = Vec::with_capacity(256);
    let mut b: usize = 0;
    while b < 256
        invariant
            b <= 256,
            m == needle@.len(),
            m >= 1,
            shift@.len() == b,
            forall|k: int| 0 <= k < b ==> shift@[k] == m,
        decreases 256 - b,
    {
        shift.push(m);
        b = b + 1;
    }
    let mut j: usize = m;
    while j > 1
        invariant
            1 <= j <= m,
            m == needle@.len(),
            shift@.len() == 256,
            forall|k: int| 0 <= k < 256 ==> 1 <= #[trigger] shift@[k] <= m,
            forall|k: int, i: int|
                #![trigger shift@[k], needle@[i]]
                0 <= k < 256 && j <= i < m && 1 <= i < shift@[k] ==> needle@[i] != k as u8,
        decreases j,
    {
        j = j - 1;
        let byte = needle[j] as usize;
        shift.set(byte, j);
    }
    shift
}

/// A substring searcher for one needle, built once and used on any number of
/// haystacks.
pub struct Finder {
    needle: Vec<u8>,
    probe1: usize,
    probe2: usize,
    forward_shift: Vec<usize>,
    reverse_shift: Vec<usize>,
}

impl Finder {
    /// The needle this searcher looks for.
    pub closed spec fn needle_view(&self) -> Seq<u8> {
        self.needle@
    }

    /// The probe positions lie within the needle, the first before the
    /// second, and the shift tables are sound for the needle.
    pub closed spec fn wf(&self) -> bool {
        self.needle@.len() > 0 ==> {
            &&& self.probe1 <= self.probe2 < self.needle@.len()
            &&& self.needle@.len() >= 2 ==> self.probe1 < self.probe2
            &&& forward_shift_ok(self.needle@, self.forward_shift@)
            &&& reverse_shift_ok(self.needle@, self.reverse_shift@)
        }
    }

    /// A searcher for `needle`; it keeps a copy of the needle and its probe
    /// positions.
    pub fn new(needle: &[u8]) -> (r: Finder)
        ensures
            r.wf(),
            r.needle_view() == needle@,
    {
        let m = needle.len();
        let mut copy: Vec<u8> = Vec::with_capacity(m);
        let mut i: usize = 0;
        while i < m
            invariant
                i <= m,
                m == needle@.len(),
                copy@ == needle@.subrange(0, i as int),
            decreases m - i,
        {
            copy.push(needle[i]);
            i = i + 1;
            assert(copy@ =~= needle@.subrange(0, i as int));
        }
        assert(copy@ =~= needle@);
        if m == 0 {
            Finder {
                needle: copy,
                probe1: 0,
                probe2: 0,
                forward_shift: Vec::new(),
                reverse_shift: Vec::new(),
            }
        } else {
            let (probe1, probe2) = choose_probes(needle);
            let forward_shift = forward_shift_table(needle);
            let reverse_shift = reverse_shift_table(needle);
            Finder { needle: copy, probe1, probe2, forward_shift, reverse_shift }
        }
    }

    /// The first occurrence of the needle in `haystack`.
    pub fn find(&self, haystack: &[u8]) -> (r: Option<usize>)
        requires
            self.wf(),
        ensures
            first_from(haystack@, self.needle_view(), 0, r),
    {
        self.find_at(haystack, 0)
    }

    /// The last occurrence of the needle in `haystack`.
    pub fn rfind(&self, haystack: &[u8]) -> (r: Option<usize>)
        requires
            self.wf(),
        ensures
            last_to(haystack@, self.needle_view(), haystack@.len() as int, r),
    {
        self.rfind_to(haystack, haystack.len())
    }

    /// Whether the needle occurs in `h` at `c`, checked byte by byte.
    fn matches_at(&self, h: &[u8], c: usize) -> (r: bool)
        requires
            c + self.needle@.len() <= h.len(),
        ensures
            r == occurs_at(h@, self.needle@, c as int),
    {
        let m = self.needle.len();
        let mut k: usize = 0;
        while k < m
            invariant
                k <= m,
                m == self.needle@.len(),
                c + m <= h.len(),
                forall|j: int| 0 <= j < k ==> h@[c + j] == self.needle@[j],
            decreases m - k,
        {
            if h[c + k] != self.needle[k] {
                assert(h@.subrange(c as int, c + m)[k as int] != self.needle@[k as int]);
                return false;
            }
            k = k + 1;
        }
        assert(h@.subrange(c as int, c + m) =~= self.needle@);
        true
    }

    /// The first occurrence of the needle in `h` at or after `start`.
    fn find_at(&self, h: &[u8], start: usize) -> (r: Option<usize>)
        requires
            self.wf(),
            start <= h@.len(),
        ensures
            first_from(h@, self.needle@, start as int, r),
    {
        let m = self.needle.len();
        let n = h.len();
        if m == 0 {
            assert(h@.subrange(start as int, start as int) =~= self.needle@);
            return Some(start);
        }
        if m > n - start {
            return None;
        }
        let last = n - m;
        let probe1 = self.probe1;
        let probe2 = self.probe2;
        let b1 = self.needle[probe1];
        let b2 = self.needle[probe2];
        let mut i: usize = start;
        while i <= last
            invariant
                self.wf(),
                m == self.needle@.len(),
                m >= 1,
                n == h@.len(),
                last == n - m,
                start <= i <= n,
                probe1 == self.probe1,
                probe2 == self.probe2,
                b1 == self.needle@[probe1 as int],
                b2 == self.needle@[probe2 as int],
                forall|q: int| start <= q < i ==> !#[trigger] occurs_at(h@, self.needle@, q),
            decreases n - i,
        {
            match memchr_range(b1, h, i + probe1, last + probe1 + 1) {
                None => {
                    assert forall|q: int| start <= q implies !#[trigger] occurs_at(
                        h@,
                        self.needle@,
                        q,
                    ) by {
                        if i <= q && occurs_at(h@, self.needle@, q) {
                            assert(h@.subrange(q, q + m)[probe1 as int] == h@[q + probe1]);
                        }
                    }
                    return None;
                },
                Some(j) => {
                    let c = j - probe1;
                    assert forall|q: int| i <= q < c implies !#[trigger] occurs_at(
                        h@,
                        self.needle@,
                        q,
                    ) by {
                        if occurs_at(h@, self.needle@, q) {
                            assert(h@.subrange(q, q + m)[probe1 as int] == h@[q + probe1]);
                        }
                    }
                    if h[c + probe2] == b2 && self.matches_at(h, c) {
                        return Some(c);
                    }
                    if h[c + probe2] != b2 {
                        assert(!occurs_at(h@, self.needle@, c as int)) by {
                            if occurs_at(h@, self.needle@, c as int) {
                                assert(h@.subrange(c as int, c + m)[probe2 as int] == h@[c
                                    + probe2]);
                            }
                        }
                    }
                    let b = h[c + m - 1];
                    let skip = self.forward_shift[b as usize];
                    assert forall|q: int| c < q < c + skip implies !#[trigger] occurs_at(
                        h@,
                        self.needle@,
                        q,
                    ) by {
                        if occurs_at(h@, self.needle@, q) {
                            let j = c + m - 1 - q;
                            assert(h@.subrange(q, q + m)[j] == h@[c + m - 1]);
                            assert(self.needle@[j] != b);
                        }
                    }
                    i = c + skip;
                },
            }
        }
        None
    }

    /// The last occurrence of the needle in `h` that ends at or before `end`.
    fn rfind_to(&self, h: &[u8], end: usize) -> (r: Option<usize>)
        requires
            self.wf(),
            end <= h@.len(),
        ensures
            last_to(h@, self.needle@, end as int, r),
    {
        let m = self.needle.len();
        if m == 0 {
            assert(h@.subrange(end as int, end as int) =~= self.needle@);
            return Some(end);
        }
        if m > end {
            return None;
        }
        let probe1 = self.probe1;
        let probe2 = self.probe2;
        let b1 = self.needle[probe1];
        let b2 = self.needle[probe2];
        let mut top: usize = end - m + 1;
        while top > 0
            invariant
                self.wf(),
                m == self.needle@.len(),
                m >= 1,
                end <= h@.len(),
                top <= end - m + 1,
                probe1 == self.probe1,
                probe2 == self.probe2,
                b1 == self.needle@[probe1 as int],
                b2 == self.needle@[probe2 as int],
                forall|q: int| top <= q && q + m <= end ==> !#[trigger] occurs_at(
                    h@,
                    self.needle@,
                    q,
                ),
            decreases top,
        {
            match memrchr_range(b1, h, probe1, top + probe1) {
                None => {
                    assert forall|q: int| q + m <= end implies !#[trigger] occurs_at(
                        h@,
                        self.needle@,
                        q,
                    ) by {
                        if 0 <= q < top && occurs_at(h@, self.needle@, q) {
                            assert(h@.subrange(q, q + m)[probe1 as int] == h@[q + probe1]);
                        }
                    }
                    return None;
                },
                Some(j) => {
                    let c = j - probe1;
                    assert forall|q: int| c < q < top implies !#[trigger] occurs_at(
                        h@,
                        self.needle@,
                        q,
                    ) by {
                        if occurs_at(h@, self.needle@, q) {
                            assert(h@.subrange(q, q + m)[probe1 as int] == h@[q + probe1]);
                        }
                    }
                    if h[c + probe2] == b2 && self.matches_at(h, c) {
                        return Some(c);
                    }
                    if h[c + probe2] != b2 {
                        assert(!occurs_at(h@, self.needle@, c as int)) by {
                            if occurs_at(h@, self.needle@, c as int) {
                                assert(h@.subrange(c as int, c + m)[probe2 as int] == h@[c
                                    + probe2]);
                            }
                        }
                    }
                    let b = h[c];
                    let skip = self.reverse_shift[b as usize];
                    assert forall|q: int| c - skip < q < c implies !#[trigger] occurs_at(
                        h@,
                        self.needle@,
                        q,
                    ) by {
                        if occurs_at(h@, self.needle@, q) {
                            let j = c - q;
                            assert(h@.subrange(q, q + m)[j] == h@[c as int]);
                            assert(self.needle@[j] != b);
                        }
                    }
                    top = if skip <= c { c + 1 - skip } else { 0 };
                },
            }
        }
        None
    }
}

/// The first occurrence of `needle` in `haystack`; `Some(0)` for the empty
/// needle.
pub fn find(haystack: &[u8], needle: &[u8]) -> (r: Option<usize>)
    ensures
        first_from(haystack@, needle@, 0, r),
{
    Finder::new(needle).find(haystack)
}

/// The last occurrence of `needle` in `haystack`; `Some(haystack.len())` for
/// the empty needle.
pub fn rfind(haystack: &[u8], needle: &[u8]) -> (r: Option<usize>)
    ensures
        last_to(haystack@, needle@, haystack@.len() as int, r),
{
    Finder::new(needle).rfind(haystack)
}

/// The non-overlapping occurrences of a needle, from the front.
pub struct FindIter<'h> {
    haystack: &'h [u8],
    finder: Finder,
    pos: usize,
    done: bool,
}

impl<'h> FindIter<'h> {
    /// The occurrences not produced yet, in order.
    pub closed spec fn remaining(&self) -> Seq<int> {
        if self.done {
            Seq::empty()
        } else {
            matches_from(self.haystack@, self.finder.needle@, self.pos as int)
        }
    }

    /// The searcher is well formed and the position lies within the haystack.
    pub closed spec fn wf(&self) -> bool {
        self.finder.wf() && self.pos <= self.haystack@.len()
    }

    /// The next occurrence.
    pub fn next(&mut self) -> (r: Option<usize>)
        requires
            old(self).wf(),
        ensures
            final(self).wf(),
            taken_front(old(self).remaining(), final(self).remaining(), r),
    {
        if self.done {
            return None;
        }
        let ghost h = self.haystack@;
        let ghost n = self.finder.needle@;
        let ghost pos = self.pos as int;
        match self.finder.find_at(self.haystack, self.pos) {
            None => {
                proof {
                    lemma_matches_skip(h, n, pos, h.len() + 1int);
                }
                self.done = true;
                None
            },
            Some(p) => {
                proof {
                    lemma_matches_skip(h, n, pos, p as int);
                    assert((seq![p as int] + matches_from(h, n, p + step(n))).drop_first()
                        =~= matches_from(h, n, p + step(n)));
                }
                let m = self.finder.needle.len();
                let len = self.haystack.len();
                if m == 0 {
                    if p == len {
                        self.done = true;
                    } else {
                        self.pos = p + 1;
                    }
                } else {
                    self.pos = p + m;
                }
                Some(p)
            },
        }
    }
}

/// The non-overlapping occurrences of a needle, from the back.
pub struct FindRevIter<'h> {
    haystack: &'h [u8],
    finder: Finder,
    end: usize,
    done: bool,
}

impl<'h> FindRevIter<'h> {
    /// The occurrences not produced yet, in the order they come.
    pub closed spec fn remaining(&self) -> Seq<int> {
        if self.done {
            Seq::empty()
        } else {
            rmatches_to(self.haystack@, self.finder.needle@, self.end as int)
        }
    }

    /// The searcher is well formed and the end lies within the haystack.
    pub closed spec fn wf(&self) -> bool {
        self.finder.wf() && self.end <= self.haystack@.len()
    }

    /// The next occurrence, going backward.
    pub fn next(&mut self) -> (r: Option<usize>)
        requires
            old(self).wf(),
        ensures
            final(self).wf(),
            taken_front(old(self).remaining(), final(self).remaining(), r),
    {
        if self.done {
            return None;
        }
        let ghost h = self.haystack@;
        let ghost n = self.finder.needle@;
        let ghost end = self.end as int;
        match self.finder.rfind_to(self.haystack, self.end) {
            None => {
                proof {
                    lemma_rmatches_skip(h, n, -1, end);
                }
                self.done = true;
                None
            },
            Some(p) => {
                let m = self.finder.needle.len();
                let ghost next_end = if m == 0 { p - 1 } else { p as int };
                proof {
                    lemma_rmatches_skip(h, n, p + m, end);
                    assert((seq![p as int] + rmatches_to(h, n, next_end)).drop_first()
                        =~= rmatches_to(h, n, next_end));
                }
                if m == 0 {
                    if p == 0 {
                        self.done = true;
                    } else {
                        self.end = p - 1;
                    }
                } else {
                    self.end = p;
                }
                Some(p)
            },
        }
    }
}

/// An iterator over the non-overlapping occurrences of `needle` in
/// `haystack`, from the front.
pub fn find_iter<'h>(haystack: &'h [u8], needle: &[u8]) -> (r: FindIter<'h>)
    ensures
        r.wf(),
        r.remaining() == matches_from(haystack@, needle@, 0),
{
    FindIter { haystack, finder: Finder::new(needle), pos: 0, done: false }
}

/// An iterator over the non-overlapping occurrences of `needle` in
/// `haystack`, from the back.
pub fn rfind_iter<'h>(haystack: &'h [u8], needle: &[u8]) -> (r: FindRevIter<'h>)
    ensures
        r.wf(),
        r.remaining() == rmatches_to(haystack@, needle@, haystack@.len() as int),
{
    FindRevIter { haystack, finder: Finder::new(needle), end: haystack.len(), done: false }
}

} // verus!
