//! What the searches mean, stated over sequences of bytes.

use vstd::prelude::*;

verus! {

/// No byte of `h[lo..hi]` is one of the needle bytes `ns`.
pub open spec fn no_hit(h: Seq<u8>, ns: Set<u8>, lo: int, hi: int) -> bool {
    forall|j: int| lo <= j < hi ==> !ns.contains(#[trigger] h[j])
}

/// `r` is the first position in `h[lo..hi]` that holds a needle byte, or
/// `None` when there is none.
pub open spec fn is_first(h: Seq<u8>, ns: Set<u8>, lo: int, hi: int, r: Option<usize>) -> bool {
    match r {
        Some(i) => lo <= i < hi && ns.contains(h[i as int]) && no_hit(h, ns, lo, i as int),
        None => no_hit(h, ns, lo, hi),
    }
}

/// `r` is the last position in `h[lo..hi]` that holds a needle byte, or
/// `None` when there is none.
pub open spec fn is_last(h: Seq<u8>, ns: Set<u8>, lo: int, hi: int, r: Option<usize>) -> bool {
    match r {
        Some(i) => lo <= i < hi && ns.contains(h[i as int]) && no_hit(h, ns, i + 1, hi),
        None => no_hit(h, ns, lo, hi),
    }
}

/// The positions in `h[lo..hi]` that hold a needle byte, in increasing order.
pub open spec fn positions(h: Seq<u8>, ns: Set<u8>, lo: int, hi: int) -> Seq<int>
    decreases hi - lo,
{
    if hi <= lo {
        Seq::empty()
    } else if ns.contains(h[hi - 1]) {
        positions(h, ns, lo, hi - 1).push(hi - 1)
    } else {
        positions(h, ns, lo, hi - 1)
    }
}

/// A range without needle bytes has no positions.
pub proof fn lemma_positions_none(h: Seq<u8>, ns: Set<u8>, lo: int, hi: int)
    requires
        no_hit(h, ns, lo, hi),
    ensures
        positions(h, ns, lo, hi) == Seq::<int>::empty(),
    decreases hi - lo,
{
    if hi > lo {
        assert(!ns.contains(h[hi - 1]));
        lemma_positions_none(h, ns, lo, hi - 1);
    }
}

/// When `i` is the first hit of `h[lo..hi]`, the positions are `i` followed by
/// those of `h[i + 1..hi]`.
pub proof fn lemma_positions_front(h: Seq<u8>, ns: Set<u8>, lo: int, i: int, hi: int)
    requires
        lo <= i < hi,
        ns.contains(h[i]),
        no_hit(h, ns, lo, i),
    ensures
        positions(h, ns, lo, hi) == seq![i] + positions(h, ns, i + 1, hi),
    decreases hi - lo,
{
    if hi == i + 1 {
        lemma_positions_none(h, ns, lo, i);
        assert(positions(h, ns, lo, hi) =~= seq![i] + positions(h, ns, i + 1, hi));
    } else {
        lemma_positions_front(h, ns, lo, i, hi - 1);
        if ns.contains(h[hi - 1]) {
            assert(positions(h, ns, lo, hi) =~= seq![i] + positions(h, ns, i + 1, hi));
        }
    }
}

/// When `i` is the last hit of `h[lo..hi]`, the positions are those of
/// `h[lo..i]` followed by `i`.
pub proof fn lemma_positions_back(h: Seq<u8>, ns: Set<u8>, lo: int, i: int, hi: int)
    requires
        lo <= i < hi,
        ns.contains(h[i]),
        no_hit(h, ns, i + 1, hi),
    ensures
        positions(h, ns, lo, hi) == positions(h, ns, lo, i).push(i),
    decreases hi - lo,
{
    if hi > i + 1 {
        assert(!ns.contains(h[hi - 1]));
        lemma_positions_back(h, ns, lo, i, hi - 1);
    }
}

/// The positions of a range are strictly increasing and are exactly the
/// indices in the range that hold a needle byte.
pub proof fn lemma_positions_exact(h: Seq<u8>, ns: Set<u8>, lo: int, hi: int)
    requires
        0 <= lo,
        hi <= h.len(),
    ensures
        forall|a: int, b: int|
            0 <= a < b < positions(h, ns, lo, hi).len() ==> positions(h, ns, lo, hi)[a]
                < positions(h, ns, lo, hi)[b],
        forall|k: int|
            0 <= k < positions(h, ns, lo, hi).len() ==> lo <= #[trigger] positions(
                h,
                ns,
                lo,
                hi,
            )[k] < hi && ns.contains(h[positions(h, ns, lo, hi)[k]]),
        forall|p: int|
            lo <= p < hi && ns.contains(#[trigger] h[p]) ==> positions(h, ns, lo, hi).contains(p),
    decreases hi - lo,
{
    if hi > lo {
        lemma_positions_exact(h, ns, lo, hi - 1);
        let prev = positions(h, ns, lo, hi - 1);
        if ns.contains(h[hi - 1]) {
            assert(positions(h, ns, lo, hi) == prev.push(hi - 1));
            assert(prev.push(hi - 1)[prev.len() as int] == hi - 1);
            assert forall|p: int| lo <= p < hi && ns.contains(#[trigger] h[p]) implies positions(
                h,
                ns,
                lo,
                hi,
            ).contains(p) by {
                if p < hi - 1 {
                    let k = choose|k: int| 0 <= k < prev.len() && prev[k] == p;
                    assert(prev.push(hi - 1)[k] == p);
                } else {
                    assert(prev.push(hi - 1)[prev.len() as int] == p);
                }
            }
        }
    }
}

/// `r` is the first of the positions `before`, and `after` is what is left of
/// them; or both are empty and `r` is `None`.
pub open spec fn taken_front(before: Seq<int>, after: Seq<int>, r: Option<usize>) -> bool {
    match r {
        Some(i) => before.len() > 0 && before[0] == i && after == before.drop_first(),
        None => before.len() == 0 && after.len() == 0,
    }
}

/// `r` is the last of the positions `before`, and `after` is what is left of
/// them; or both are empty and `r` is `None`.
pub open spec fn taken_back(before: Seq<int>, after: Seq<int>, r: Option<usize>) -> bool {
    match r {
        Some(i) => before.len() > 0 && before.last() == i && after == before.drop_last(),
        None => before.len() == 0 && after.len() == 0,
    }
}

} // verus!
