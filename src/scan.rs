//! Forward and reverse scans for one, two or three needle bytes.
//!
//! Every scan follows one skeleton: a byte-by-byte loop for short inputs, an
//! unaligned probe of the first (or last) block, an unrolled loop over
//! aligned blocks, a loop over the remaining aligned blocks, and a last
//! unaligned probe that overlaps the block before it.

use vstd::prelude::*;

use crate::model::{is_first, is_last, no_hit};
use crate::vector::{
    any, forward_pos, forward_pos2, forward_pos3, lane, lemma_zero_mask, reverse_pos, reverse_pos2,
    reverse_pos3, Vector, WIDTH,
};

verus! {

/// Bytes examined by one round of the unrolled one-needle loop.
const LOOP_SIZE: usize = 64;

/// Bytes examined by one round of the unrolled two- and three-needle loops.
const LOOP_SIZE2: usize = 32;

/// Relates a lane mask from comparing a loaded block with a broadcast needle
/// to the bytes of the haystack.
proof fn lemma_block(h: Seq<u8>, at: int, chunk: Vector, vn: Vector, n: u8, mask: u16)
    requires
        0 <= at,
        at + 16 <= h.len(),
        chunk@ == h.subrange(at, at + 16),
        vn@ == Seq::new(16, |_i: int| n),
        forall|i: int| 0 <= i < 16 ==> lane(mask, i) == (chunk@[i] == vn@[i]),
    ensures
        forall|p: int| at <= p < at + 16 ==> (#[trigger] h[p] == n) == lane(mask, p - at),
{
    assert forall|p: int| at <= p < at + 16 implies (#[trigger] h[p] == n) == lane(mask, p - at)
        by {
        assert(chunk@[p - at] == h[p]);
    }
}

/// Loads the block at `at` and compares it with the broadcast needle `vn1`.
fn block_mask(h: &[u8], at: usize, vn1: &Vector, n1: Ghost<u8>) -> (mask: u16)
    requires
        at + 16 <= h@.len(),
        vn1@ == Seq::new(16, |_i: int| n1@),
    ensures
        forall|p: int| at <= p < at + 16 ==> (#[trigger] h@[p] == n1@) == lane(mask, p - at),
{
    let chunk = Vector::load(h, at);
    let mask = chunk.eq(vn1);
    proof {
        lemma_block(h@, at as int, chunk, *vn1, n1@, mask);
    }
    mask
}

/// The first position in the block at `at` that holds the needle.
fn forward_search1(h: &[u8], at: usize, vn1: &Vector, n1: Ghost<u8>) -> (r: Option<usize>)
    requires
        at + 16 <= h.len(),
        vn1@ == Seq::new(16, |_i: int| n1@),
    ensures
        is_first(h@, set![n1@], at as int, at + 16, r),
{
    let eq = block_mask(h, at, vn1, n1);
    proof {
        lemma_zero_mask(eq);
    }
    if any(eq) {
        Some(at + forward_pos(eq))
    } else {
        None
    }
}

/// The last position in the block at `at` that holds the needle.
fn reverse_search1(h: &[u8], at: usize, vn1: &Vector, n1: Ghost<u8>) -> (r: Option<usize>)
    requires
        at + 16 <= h.len(),
        vn1@ == Seq::new(16, |_i: int| n1@),
    ensures
        is_last(h@, set![n1@], at as int, at + 16, r),
{
    let eq = block_mask(h, at, vn1, n1);
    proof {
        lemma_zero_mask(eq);
    }
    if any(eq) {
        Some(at + reverse_pos(eq))
    } else {
        None
    }
}

/// The first position in the block at `at` that holds either needle.
fn forward_search2(
    h: &[u8],
    at: usize,
    vn1: &Vector,
    vn2: &Vector,
    n1: Ghost<u8>,
    n2: Ghost<u8>,
) -> (r: Option<usize>)
    requires
        at + 16 <= h.len(),
        vn1@ == Seq::new(16, |_i: int| n1@),
        vn2@ == Seq::new(16, |_i: int| n2@),
    ensures
        is_first(h@, set![n1@, n2@], at as int, at + 16, r),
{
    let eq1 = block_mask(h, at, vn1, n1);
    let eq2 = block_mask(h, at, vn2, n2);
    let or = eq1 | eq2;
    proof {
        lemma_zero_mask(eq1);
        lemma_zero_mask(eq2);
        assert(or == 0 <==> eq1 == 0 && eq2 == 0) by (bit_vector)
            requires
                or == eq1 | eq2,
        ;
    }
    if any(or) {
        Some(at + forward_pos2(eq1, eq2))
    } else {
        None
    }
}

/// The first position in the block at `at` that holds any of three needles.
fn forward_search3(
    h: &[u8],
    at: usize,
    vn1: &Vector,
    vn2: &Vector,
    vn3: &Vector,
    n1: Ghost<u8>,
    n2: Ghost<u8>,
    n3: Ghost<u8>,
) -> (r: Option<usize>)
    requires
        at + 16 <= h.len(),
        vn1@ == Seq::new(16, |_i: int| n1@),
        vn2@ == Seq::new(16, |_i: int| n2@),
        vn3@ == Seq::new(16, |_i: int| n3@),
    ensures
        is_first(h@, set![n1@, n2@, n3@], at as int, at + 16, r),
{
    let eq1 = block_mask(h, at, vn1, n1);
    let eq2 = block_mask(h, at, vn2, n2);
    let eq3 = block_mask(h, at, vn3, n3);
    let or1 = eq1 | eq2;
    let or2 = or1 | eq3;
    proof {
        lemma_zero_mask(eq1);
        lemma_zero_mask(eq2);
        lemma_zero_mask(eq3);
        assert(or2 == 0 <==> eq1 == 0 && eq2 == 0 && eq3 == 0) by (bit_vector)
            requires
                or2 == (eq1 | eq2) | eq3,
        ;
    }
    if any(or2) {
        Some(at + forward_pos3(eq1, eq2, eq3))
    } else {
        None
    }
}

/// The last position in the block at `at` that holds either needle.
fn reverse_search2(
    h: &[u8],
    at: usize,
    vn1: &Vector,
    vn2: &Vector,
    n1: Ghost<u8>,
    n2: Ghost<u8>,
) -> (r: Option<usize>)
    requires
        at + 16 <= h.len(),
        vn1@ == Seq::new(16, |_i: int| n1@),
        vn2@ == Seq::new(16, |_i: int| n2@),
    ensures
        is_last(h@, set![n1@, n2@], at as int, at + 16, r),
{
    let eq1 = block_mask(h, at, vn1, n1);
    let eq2 = block_mask(h, at, vn2, n2);
    let or = eq1 | eq2;
    proof {
        lemma_zero_mask(eq1);
        lemma_zero_mask(eq2);
        assert(or == 0 <==> eq1 == 0 && eq2 == 0) by (bit_vector)
            requires
                or == eq1 | eq2,
        ;
    }
    if any(or) {
        Some(at + reverse_pos2(eq1, eq2))
    } else {
        None
    }
}

/// The last position in the block at `at` that holds any of three needles.
fn reverse_search3(
    h: &[u8],
    at: usize,
    vn1: &Vector,
    vn2: &Vector,
    vn3: &Vector,
    n1: Ghost<u8>,
    n2: Ghost<u8>,
    n3: Ghost<u8>,
) -> (r: Option<usize>)
    requires
        at + 16 <= h.len(),
        vn1@ == Seq::new(16, |_i: int| n1@),
        vn2@ == Seq::new(16, |_i: int| n2@),
        vn3@ == Seq::new(16, |_i: int| n3@),
    ensures
        is_last(h@, set![n1@, n2@, n3@], at as int, at + 16, r),
{
    let eq1 = block_mask(h, at, vn1, n1);
    let eq2 = block_mask(h, at, vn2, n2);
    let eq3 = block_mask(h, at, vn3, n3);
    let or1 = eq1 | eq2;
    let or2 = or1 | eq3;
    proof {
        lemma_zero_mask(eq1);
        lemma_zero_mask(eq2);
        lemma_zero_mask(eq3);
        assert(or2 == 0 <==> eq1 == 0 && eq2 == 0 && eq3 == 0) by (bit_vector)
            requires
                or2 == (eq1 | eq2) | eq3,
        ;
    }
    if any(or2) {
        Some(at + reverse_pos3(eq1, eq2, eq3))
    } else {
        None
    }
}

/// The first position in `h[start..end]` that holds `n1`.
pub fn memchr_range(n1: u8, h: &[u8], start: usize, end: usize) -> (r: Option<usize>)
    requires
        start <= end <= h@.len(),
    ensures
        is_first(h@, set![n1], start as int, end as int, r),
{
    let vn1 = Vector::splat(n1);
    let len = end - start;
    let loop_size = if len < LOOP_SIZE { len } else { LOOP_SIZE };
    if len < WIDTH {
        let mut i: usize = start;
        while i < end
            invariant
                start <= i <= end,
                end <= h@.len(),
                no_hit(h@, set![n1], start as int, i as int),
            decreases end - i,
        {
            if h[i] == n1 {
                return Some(i);
            }
            i = i + 1;
        }
        return None;
    }
    if let Some(i) = forward_search1(h, start, &vn1, Ghost(n1)) {
        return Some(i);
    }
    let mut at: usize = start + (WIDTH - start % WIDTH);
    while loop_size == LOOP_SIZE && loop_size <= end - at
        invariant
            start < at <= end,
            end <= h.len(),
            vn1@ == Seq::new(16, |_i: int| n1),
            no_hit(h@, set![n1], start as int, at as int),
        decreases end - at,
    {
        let a = block_mask(h, at, &vn1, Ghost(n1));
        let b = block_mask(h, at + WIDTH, &vn1, Ghost(n1));
        let c = block_mask(h, at + 2 * WIDTH, &vn1, Ghost(n1));
        let d = block_mask(h, at + 3 * WIDTH, &vn1, Ghost(n1));
        let or1 = a | b;
        let or2 = c | d;
        let or3 = or1 | or2;
        proof {
            lemma_zero_mask(a);
            lemma_zero_mask(b);
            lemma_zero_mask(c);
            lemma_zero_mask(d);
            assert(or3 == 0 ==> a == 0 && b == 0 && c == 0 && d == 0) by (bit_vector)
                requires
                    or3 == (a | b) | (c | d),
            ;
            assert(or3 != 0 && a == 0 && b == 0 && c == 0 ==> d != 0) by (bit_vector)
                requires
                    or3 == (a | b) | (c | d),
            ;
        }
        if any(or3) {
            let mut pos = at;
            if any(a) {
                return Some(pos + forward_pos(a));
            }
            pos = pos + WIDTH;
            if any(b) {
                return Some(pos + forward_pos(b));
            }
            pos = pos + WIDTH;
            if any(c) {
                return Some(pos + forward_pos(c));
            }
            pos = pos + WIDTH;
            return Some(pos + forward_pos(d));
        }
        at = at + loop_size;
    }
    while WIDTH <= end - at
        invariant
            start < at <= end,
            end <= h.len(),
            vn1@ == Seq::new(16, |_i: int| n1),
            no_hit(h@, set![n1], start as int, at as int),
        decreases end - at,
    {
        if let Some(i) = forward_search1(h, at, &vn1, Ghost(n1)) {
            return Some(i);
        }
        at = at + WIDTH;
    }
    if at < end {
        let back = end - WIDTH;
        return forward_search1(h, back, &vn1, Ghost(n1));
    }
    None
}

/// The last position in `h[start..end]` that holds `n1`.
pub fn memrchr_range(n1: u8, h: &[u8], start: usize, end: usize) -> (r: Option<usize>)
    requires
        start <= end <= h@.len(),
    ensures
        is_last(h@, set![n1], start as int, end as int, r),
{
    let vn1 = Vector::splat(n1);
    let len = end - start;
    let loop_size = if len < LOOP_SIZE { len } else { LOOP_SIZE };
    if len < WIDTH {
        let mut i: usize = end;
        while i > start
            invariant
                start <= i <= end,
                end <= h@.len(),
                no_hit(h@, set![n1], i as int, end as int),
            decreases i - start,
        {
            i = i - 1;
            if h[i] == n1 {
                return Some(i);
            }
        }
        return None;
    }
    if let Some(i) = reverse_search1(h, end - WIDTH, &vn1, Ghost(n1)) {
        return Some(i);
    }
    let mut at: usize = end - end % WIDTH;
    while loop_size == LOOP_SIZE && loop_size <= at - start
        invariant
            start <= at <= end,
            end <= h.len(),
            vn1@ == Seq::new(16, |_i: int| n1),
            no_hit(h@, set![n1], at as int, end as int),
        decreases at - start,
    {
        at = at - loop_size;
        let a = block_mask(h, at, &vn1, Ghost(n1));
        let b = block_mask(h, at + WIDTH, &vn1, Ghost(n1));
        let c = block_mask(h, at + 2 * WIDTH, &vn1, Ghost(n1));
        let d = block_mask(h, at + 3 * WIDTH, &vn1, Ghost(n1));
        let or1 = a | b;
        let or2 = c | d;
        let or3 = or1 | or2;
        proof {
            lemma_zero_mask(a);
            lemma_zero_mask(b);
            lemma_zero_mask(c);
            lemma_zero_mask(d);
            assert(or3 == 0 ==> a == 0 && b == 0 && c == 0 && d == 0) by (bit_vector)
                requires
                    or3 == (a | b) | (c | d),
            ;
            assert(or3 != 0 && d == 0 && c == 0 && b == 0 ==> a != 0) by (bit_vector)
                requires
                    or3 == (a | b) | (c | d),
            ;
        }
        if any(or3) {
            let mut pos = at + 3 * WIDTH;
            if any(d) {
                return Some(pos + reverse_pos(d));
            }
            pos = pos - WIDTH;
            if any(c) {
                return Some(pos + reverse_pos(c));
            }
            pos = pos - WIDTH;
            if any(b) {
                return Some(pos + reverse_pos(b));
            }
            pos = pos - WIDTH;
            return Some(pos + reverse_pos(a));
        }
    }
    while WIDTH <= at - start
        invariant
            start <= at <= end,
            end <= h.len(),
            vn1@ == Seq::new(16, |_i: int| n1),
            no_hit(h@, set![n1], at as int, end as int),
        decreases at - start,
    {
        at = at - WIDTH;
        if let Some(i) = reverse_search1(h, at, &vn1, Ghost(n1)) {
            return Some(i);
        }
    }
    if at > start {
        return reverse_search1(h, start, &vn1, Ghost(n1));
    }
    None
}

/// The first position in `h[start..end]` that holds `n1` or `n2`.
pub fn memchr2_range(n1: u8, n2: u8, h: &[u8], start: usize, end: usize) -> (r: Option<usize>)
    requires
        start <= end <= h@.len(),
    ensures
        is_first(h@, set![n1, n2], start as int, end as int, r),
{
    let vn1 = Vector::splat(n1);
    let vn2 = Vector::splat(n2);
    let len = end - start;
    let loop_size = if len < LOOP_SIZE2 { len } else { LOOP_SIZE2 };
    if len < WIDTH {
        let mut i: usize = start;
        while i < end
            invariant
                start <= i <= end,
                end <= h@.len(),
                no_hit(h@, set![n1, n2], start as int, i as int),
            decreases end - i,
        {
            if h[i] == n1 || h[i] == n2 {
                return Some(i);
            }
            i = i + 1;
        }
        return None;
    }
    if let Some(i) = forward_search2(h, start, &vn1, &vn2, Ghost(n1), Ghost(n2)) {
        return Some(i);
    }
    let mut at: usize = start + (WIDTH - start % WIDTH);
    while loop_size == LOOP_SIZE2 && loop_size <= end - at
        invariant
            start < at <= end,
            end <= h.len(),
            vn1@ == Seq::new(16, |_i: int| n1),
            vn2@ == Seq::new(16, |_i: int| n2),
            no_hit(h@, set![n1, n2], start as int, at as int),
        decreases end - at,
    {
        let a1 = block_mask(h, at, &vn1, Ghost(n1));
        let b1 = block_mask(h, at + WIDTH, &vn1, Ghost(n1));
        let a2 = block_mask(h, at, &vn2, Ghost(n2));
        let b2 = block_mask(h, at + WIDTH, &vn2, Ghost(n2));
        let or1 = a1 | b1;
        let or2 = a2 | b2;
        let or3 = or1 | or2;
        proof {
            lemma_zero_mask(a1);
            lemma_zero_mask(b1);
            lemma_zero_mask(a2);
            lemma_zero_mask(b2);
            assert(or3 == 0 ==> a1 == 0 && b1 == 0 && a2 == 0 && b2 == 0) by (bit_vector)
                requires
                    or3 == (a1 | b1) | (a2 | b2),
            ;
        }
        if any(or3) {
            let mut pos = at;
            if any(a1) || any(a2) {
                return Some(pos + forward_pos2(a1, a2));
            }
            pos = pos + WIDTH;
            if any(b1) || any(b2) {
                return Some(pos + forward_pos2(b1, b2));
            }
        }
        at = at + loop_size;
    }
    while WIDTH <= end - at
        invariant
            start < at <= end,
            end <= h.len(),
            vn1@ == Seq::new(16, |_i: int| n1),
            vn2@ == Seq::new(16, |_i: int| n2),
            no_hit(h@, set![n1, n2], start as int, at as int),
        decreases end - at,
    {
        if let Some(i) = forward_search2(h, at, &vn1, &vn2, Ghost(n1), Ghost(n2)) {
            return Some(i);
        }
        at = at + WIDTH;
    }
    if at < end {
        let back = end - WIDTH;
        return forward_search2(h, back, &vn1, &vn2, Ghost(n1), Ghost(n2));
    }
    None
}

/// The last position in `h[start..end]` that holds `n1` or `n2`.
pub fn memrchr2_range(n1: u8, n2: u8, h: &[u8], start: usize, end: usize) -> (r: Option<usize>)
    requires
        start <= end <= h@.len(),
    ensures
        is_last(h@, set![n1, n2], start as int, end as int, r),
{
    let vn1 = Vector::splat(n1);
    let vn2 = Vector::splat(n2);
    let len = end - start;
    let loop_size = if len < LOOP_SIZE2 { len } else { LOOP_SIZE2 };
    if len < WIDTH {
        let mut i: usize = end;
        while i > start
            invariant
                start <= i <= end,
                end <= h@.len(),
                no_hit(h@, set![n1, n2], i as int, end as int),
            decreases i - start,
        {
            i = i - 1;
            if h[i] == n1 || h[i] == n2 {
                return Some(i);
            }
        }
        return None;
    }
    if let Some(i) = reverse_search2(h, end - WIDTH, &vn1, &vn2, Ghost(n1), Ghost(n2)) {
        return Some(i);
    }
    let mut at: usize = end - end % WIDTH;
    while loop_size == LOOP_SIZE2 && loop_size <= at - start
        invariant
            start <= at <= end,
            end <= h.len(),
            vn1@ == Seq::new(16, |_i: int| n1),
            vn2@ == Seq::new(16, |_i: int| n2),
            no_hit(h@, set![n1, n2], at as int, end as int),
        decreases at - start,
    {
        at = at - loop_size;
        let a1 = block_mask(h, at, &vn1, Ghost(n1));
        let b1 = block_mask(h, at + WIDTH, &vn1, Ghost(n1));
        let a2 = block_mask(h, at, &vn2, Ghost(n2));
        let b2 = block_mask(h, at + WIDTH, &vn2, Ghost(n2));
        let or1 = a1 | b1;
        let or2 = a2 | b2;
        let or3 = or1 | or2;
        proof {
            lemma_zero_mask(a1);
            lemma_zero_mask(b1);
            lemma_zero_mask(a2);
            lemma_zero_mask(b2);
            assert(or3 == 0 ==> a1 == 0 && b1 == 0 && a2 == 0 && b2 == 0) by (bit_vector)
                requires
                    or3 == (a1 | b1) | (a2 | b2),
            ;
        }
        if any(or3) {
            let mut pos = at + WIDTH;
            if any(b1) || any(b2) {
                return Some(pos + reverse_pos2(b1, b2));
            }
            pos = pos - WIDTH;
            if any(a1) || any(a2) {
                return Some(pos + reverse_pos2(a1, a2));
            }
        }
    }
    while WIDTH <= at - start
        invariant
            start <= at <= end,
            end <= h.len(),
            vn1@ == Seq::new(16, |_i: int| n1),
            vn2@ == Seq::new(16, |_i: int| n2),
            no_hit(h@, set![n1, n2], at as int, end as int),
        decreases at - start,
    {
        at = at - WIDTH;
        if let Some(i) = reverse_search2(h, at, &vn1, &vn2, Ghost(n1), Ghost(n2)) {
            return Some(i);
        }
    }
    if at > start {
        return reverse_search2(h, start, &vn1, &vn2, Ghost(n1), Ghost(n2));
    }
    None
}

/// The first position in `h[start..end]` that holds `n1`, `n2` or `n3`.
pub fn memchr3_range(
    n1: u8,
    n2: u8,
    n3: u8,
    h: &[u8],
    start: usize,
    end: usize,
) -> (r: Option<usize>)
    requires
        start <= end <= h@.len(),
    ensures
        is_first(h@, set![n1, n2, n3], start as int, end as int, r),
{
    let vn1 = Vector::splat(n1);
    let vn2 = Vector::splat(n2);
    let vn3 = Vector::splat(n3);
    let len = end - start;
    let loop_size = if len < LOOP_SIZE2 { len } else { LOOP_SIZE2 };
    if len < WIDTH {
        let mut i: usize = start;
        while i < end
            invariant
                start <= i <= end,
                end <= h@.len(),
                no_hit(h@, set![n1, n2, n3], start as int, i as int),
            decreases end - i,
        {
            if h[i] == n1 || h[i] == n2 || h[i] == n3 {
                return Some(i);
            }
            i = i + 1;
        }
        return None;
    }
    if let Some(i) = forward_search3(h, start, &vn1, &vn2, &vn3, Ghost(n1), Ghost(n2), Ghost(n3)) {
        return Some(i);
    }
    let mut at: usize = start + (WIDTH - start % WIDTH);
    while loop_size == LOOP_SIZE2 && loop_size <= end - at
        invariant
            start < at <= end,
            end <= h.len(),
            vn1@ == Seq::new(16, |_i: int| n1),
            vn2@ == Seq::new(16, |_i: int| n2),
            vn3@ == Seq::new(16, |_i: int| n3),
            no_hit(h@, set![n1, n2, n3], start as int, at as int),
        decreases end - at,
    {
        let a1 = block_mask(h, at, &vn1, Ghost(n1));
        let b1 = block_mask(h, at + WIDTH, &vn1, Ghost(n1));
        let a2 = block_mask(h, at, &vn2, Ghost(n2));
        let b2 = block_mask(h, at + WIDTH, &vn2, Ghost(n2));
        let a3 = block_mask(h, at, &vn3, Ghost(n3));
        let b3 = block_mask(h, at + WIDTH, &vn3, Ghost(n3));
        let or1 = a1 | b1;
        let or2 = a2 | b2;
        let or3 = a3 | b3;
        let or4 = or1 | or2;
        let or5 = or3 | or4;
        proof {
            lemma_zero_mask(a1);
            lemma_zero_mask(b1);
            lemma_zero_mask(a2);
            lemma_zero_mask(b2);
            lemma_zero_mask(a3);
            lemma_zero_mask(b3);
            assert(or5 == 0 ==> a1 == 0 && b1 == 0 && a2 == 0 && b2 == 0 && a3 == 0 && b3 == 0)
                by (bit_vector)
                requires
                    or5 == (a3 | b3) | ((a1 | b1) | (a2 | b2)),
            ;
        }
        if any(or5) {
            let mut pos = at;
            if any(a1) || any(a2) || any(a3) {
                return Some(pos + forward_pos3(a1, a2, a3));
            }
            pos = pos + WIDTH;
            if any(b1) || any(b2) || any(b3) {
                return Some(pos + forward_pos3(b1, b2, b3));
            }
        }
        at = at + loop_size;
    }
    while WIDTH <= end - at
        invariant
            start < at <= end,
            end <= h.len(),
            vn1@ == Seq::new(16, |_i: int| n1),
            vn2@ == Seq::new(16, |_i: int| n2),
            vn3@ == Seq::new(16, |_i: int| n3),
            no_hit(h@, set![n1, n2, n3], start as int, at as int),
        decreases end - at,
    {
        if let Some(i) = forward_search3(h, at, &vn1, &vn2, &vn3, Ghost(n1), Ghost(n2), Ghost(n3)) {
            return Some(i);
        }
        at = at + WIDTH;
    }
    if at < end {
        let back = end - WIDTH;
        return forward_search3(h, back, &vn1, &vn2, &vn3, Ghost(n1), Ghost(n2), Ghost(n3));
    }
    None
}

/// The last position in `h[start..end]` that holds `n1`, `n2` or `n3`.
pub fn memrchr3_range(
    n1: u8,
    n2: u8,
    n3: u8,
    h: &[u8],
    start: usize,
    end: usize,
) -> (r: Option<usize>)
    requires
        start <= end <= h@.len(),
    ensures
        is_last(h@, set![n1, n2, n3], start as int, end as int, r),
{
    let vn1 = Vector::splat(n1);
    let vn2 = Vector::splat(n2);
    let vn3 = Vector::splat(n3);
    let len = end - start;
    let loop_size = if len < LOOP_SIZE2 { len } else { LOOP_SIZE2 };
    if len < WIDTH {
        let mut i: usize = end;
        while i > start
            invariant
                start <= i <= end,
                end <= h@.len(),
                no_hit(h@, set![n1, n2, n3], i as int, end as int),
            decreases i - start,
        {
            i = i - 1;
            if h[i] == n1 || h[i] == n2 || h[i] == n3 {
                return Some(i);
            }
        }
        return None;
    }
    let back = end - WIDTH;
    if let Some(i) = reverse_search3(h, back, &vn1, &vn2, &vn3, Ghost(n1), Ghost(n2), Ghost(n3)) {
        return Some(i);
    }
    let mut at: usize = end - end % WIDTH;
    while loop_size == LOOP_SIZE2 && loop_size <= at - start
        invariant
            start <= at <= end,
            end <= h.len(),
            vn1@ == Seq::new(16, |_i: int| n1),
            vn2@ == Seq::new(16, |_i: int| n2),
            vn3@ == Seq::new(16, |_i: int| n3),
            no_hit(h@, set![n1, n2, n3], at as int, end as int),
        decreases at - start,
    {
        at = at - loop_size;
        let a1 = block_mask(h, at, &vn1, Ghost(n1));
        let b1 = block_mask(h, at + WIDTH, &vn1, Ghost(n1));
        let a2 = block_mask(h, at, &vn2, Ghost(n2));
        let b2 = block_mask(h, at + WIDTH, &vn2, Ghost(n2));
        let a3 = block_mask(h, at, &vn3, Ghost(n3));
        let b3 = block_mask(h, at + WIDTH, &vn3, Ghost(n3));
        let or1 = a1 | b1;
        let or2 = a2 | b2;
        let or3 = a3 | b3;
        let or4 = or1 | or2;
        let or5 = or3 | or4;
        proof {
            lemma_zero_mask(a1);
            lemma_zero_mask(b1);
            lemma_zero_mask(a2);
            lemma_zero_mask(b2);
            lemma_zero_mask(a3);
            lemma_zero_mask(b3);
            assert(or5 == 0 ==> a1 == 0 && b1 == 0 && a2 == 0 && b2 == 0 && a3 == 0 && b3 == 0)
                by (bit_vector)
                requires
                    or5 == (a3 | b3) | ((a1 | b1) | (a2 | b2)),
            ;
        }
        if any(or5) {
            let mut pos = at + WIDTH;
            if any(b1) || any(b2) || any(b3) {
                return Some(pos + reverse_pos3(b1, b2, b3));
            }
            pos = pos - WIDTH;
            if any(a1) || any(a2) || any(a3) {
                return Some(pos + reverse_pos3(a1, a2, a3));
            }
        }
    }
    while WIDTH <= at - start
        invariant
            start <= at <= end,
            end <= h.len(),
            vn1@ == Seq::new(16, |_i: int| n1),
            vn2@ == Seq::new(16, |_i: int| n2),
            vn3@ == Seq::new(16, |_i: int| n3),
            no_hit(h@, set![n1, n2, n3], at as int, end as int),
        decreases at - start,
    {
        at = at - WIDTH;
        if let Some(i) = reverse_search3(h, at, &vn1, &vn2, &vn3, Ghost(n1), Ghost(n2), Ghost(n3)) {
            return Some(i);
        }
    }
    if at > start {
        return reverse_search3(h, start, &vn1, &vn2, &vn3, Ghost(n1), Ghost(n2), Ghost(n3));
    }
    None
}

} // verus!
