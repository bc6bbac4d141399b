//! A sixteen-lane byte vector and the lane masks that comparisons produce.

use vstd::prelude::*;

verus! {

/// Number of byte lanes in a [`Vector`].
pub const WIDTH: usize = 16;

/// Whether lane `i` is set in a lane mask: bit `i` stands for lane `i`, so
/// increasing lane index means increasing address.
pub open spec fn lane(mask: u16, i: int) -> bool {
    (mask >> (i as u16)) & 1u16 == 1u16
}

/// A vector of sixteen byte lanes.
#[derive(Clone, Copy)]
pub struct Vector {
    pub lanes: [u8; 16],
}

impl View for Vector {
    type V = Seq<u8>;

    open spec fn view(&self) -> Seq<u8> {
        self.lanes@
    }
}

/// Setting bit `i` of a mask sets lane `i` and leaves the others.
proof fn lemma_set_lane(mask: u16, bit: u16, i: u16)
    requires
        i < 16,
        bit == 1u16 << i,
    ensures
        forall|j: int| 0 <= j < 16 ==> #[trigger] lane(mask | bit, j) == (lane(mask, j) || j == i),
{
    assert forall|j: int| 0 <= j < 16 implies #[trigger] lane(mask | bit, j) == (lane(mask, j) || j
        == i) by {
        let k = j as u16;
        assert(k == i <==> j == i);
        assert(i < 16 && k < 16 && bit == 1u16 << i ==> (((mask | bit) >> k) & 1u16 == 1u16 <==> (
        (mask >> k) & 1u16 == 1u16 || k == i))) by (bit_vector);
    }
}

/// A lane of the union of two masks is set when it is set in either.
pub proof fn lemma_or_lanes(a: u16, b: u16)
    ensures
        forall|j: int| 0 <= j < 16 ==> lane(a | b, j) == (lane(a, j) || lane(b, j)),
{
    assert forall|j: int| 0 <= j < 16 implies lane(a | b, j) == (lane(a, j) || lane(b, j)) by {
        let k = j as u16;
        assert(((a | b) >> k) & 1u16 == 1u16 <==> ((a >> k) & 1u16 == 1u16 || (b >> k) & 1u16
            == 1u16)) by (bit_vector);
    }
}

/// A mask is zero exactly when none of its lanes is set.
pub proof fn lemma_zero_mask(mask: u16)
    ensures
        mask == 0 <==> forall|j: int| 0 <= j < 16 ==> !lane(mask, j),
{
    broadcast use vstd::std_specs::bits::axiom_u16_trailing_zeros;

    if mask == 0 {
        assert forall|j: int| 0 <= j < 16 implies !lane(mask, j) by {
            let k = j as u16;
            assert((0u16 >> k) & 1u16 == 0u16) by (bit_vector);
        }
    } else {
        let t = mask.trailing_zeros();
        assert(lane(mask, t as int));
    }
}

impl Vector {
    /// Broadcasts `b` into every lane.
    pub fn splat(b: u8) -> (r: Vector)
        ensures
            r@ == Seq::new(16, |_i: int| b),
    {
        let r = Vector { lanes: [b;16] };
        assert(r@ =~= Seq::new(16, |_i: int| b));
        r
    }

    /// Reads the sixteen bytes of `h` that start at `at`, with no alignment
    /// asked of `at`.
    pub fn load(h: &[u8], at: usize) -> (r: Vector)
        requires
            at + 16 <= h@.len(),
        ensures
            r@ == h@.subrange(at as int, at + 16),
    {
        let n = h.len();
        let mut lanes = [0u8;16];
        let mut k: usize = 0;
        while k < WIDTH
            invariant
                k <= 16,
                n == h@.len(),
                at + 16 <= n,
                lanes@.len() == 16,
                forall|j: int| 0 <= j < k ==> lanes@[j] == h@[at + j],
            decreases 16 - k,
        {
            lanes[k] = h[at + k];
            k = k + 1;
        }
        let r = Vector { lanes };
        assert(r@ =~= h@.subrange(at as int, at + 16));
        r
    }

    /// Compares lane by lane: lane `i` of the mask is set when lane `i` of
    /// both vectors holds the same byte.
    pub fn eq(&self, other: &Vector) -> (mask: u16)
        ensures
            forall|i: int| 0 <= i < 16 ==> lane(mask, i) == (self@[i] == other@[i]),
    {
        let mut mask: u16 = 0;
        let mut i: u16 = 0;
        proof {
            lemma_zero_mask(0);
        }
        while i < 16
            invariant
                i <= 16,
                self@.len() == 16,
                other@.len() == 16,
                forall|j: int| 0 <= j < i ==> lane(mask, j) == (self@[j] == other@[j]),
                forall|j: int| i <= j < 16 ==> !lane(mask, j),
            decreases 16 - i,
        {
            if self.lanes[i as usize] == other.lanes[i as usize] {
                let bit: u16 = 1u16 << i;
                proof {
                    lemma_set_lane(mask, bit, i);
                }
                mask = mask | bit;
            }
            i = i + 1;
        }
        mask
    }
}

/// Whether any lane of `mask` is set.
pub fn any(mask: u16) -> (r: bool)
    ensures
        r == (mask != 0),
        r == exists|j: int| 0 <= j < 16 && lane(mask, j),
{
    proof {
        lemma_zero_mask(mask);
    }
    mask != 0
}

/// The lowest set lane of a non-zero mask: the first matching byte of a
/// block.
pub fn forward_pos(mask: u16) -> (r: usize)
    requires
        mask != 0,
    ensures
        r < 16,
        lane(mask, r as int),
        forall|j: int| 0 <= j < r ==> !lane(mask, j),
{
    broadcast use vstd::std_specs::bits::axiom_u16_trailing_zeros;

    let t = mask.trailing_zeros();
    assert forall|j: int| 0 <= j < t implies !lane(mask, j) by {
        let k = j as u16;
        assert((mask >> k) & 1u16 == 0u16);
    }
    t as usize
}

/// The lowest set lane of the union of two masks, one of them non-zero.
pub fn forward_pos2(mask1: u16, mask2: u16) -> (r: usize)
    requires
        mask1 != 0 || mask2 != 0,
    ensures
        r < 16,
        lane(mask1, r as int) || lane(mask2, r as int),
        forall|j: int| 0 <= j < r ==> !lane(mask1, j) && !lane(mask2, j),
{
    proof {
        lemma_or_lanes(mask1, mask2);
        assert(mask1 | mask2 != 0) by (bit_vector)
            requires
                mask1 != 0 || mask2 != 0,
        ;
    }
    forward_pos(mask1 | mask2)
}

/// The lowest set lane of the union of three masks, one of them non-zero.
pub fn forward_pos3(mask1: u16, mask2: u16, mask3: u16) -> (r: usize)
    requires
        mask1 != 0 || mask2 != 0 || mask3 != 0,
    ensures
        r < 16,
        lane(mask1, r as int) || lane(mask2, r as int) || lane(mask3, r as int),
        forall|j: int| 0 <= j < r ==> !lane(mask1, j) && !lane(mask2, j) && !lane(mask3, j),
{
    proof {
        lemma_or_lanes(mask1, mask2);
        lemma_or_lanes(mask1 | mask2, mask3);
        assert(mask1 | mask2 | mask3 != 0) by (bit_vector)
            requires
                mask1 != 0 || mask2 != 0 || mask3 != 0,
        ;
    }
    forward_pos(mask1 | mask2 | mask3)
}

/// The highest set lane of a non-zero mask: the last matching byte of a
/// block.
pub fn reverse_pos(mask: u16) -> (r: usize)
    requires
        mask != 0,
    ensures
        r < 16,
        lane(mask, r as int),
        forall|j: int| r < j < 16 ==> !lane(mask, j),
{
    broadcast use vstd::std_specs::bits::axiom_u16_leading_zeros;

    let z = mask.leading_zeros();
    let r = WIDTH - z as usize - 1;
    assert(lane(mask, r as int)) by {
        let k = r as u16;
        assert((mask >> (15u16 - z as u16) as u16) & 1u16 != 0u16);
        assert(k == (15u16 - z as u16) as u16);
        assert((mask >> k) & 1u16 != 0u16 ==> (mask >> k) & 1u16 == 1u16) by (bit_vector);
    }
    assert forall|j: int| r < j < 16 implies !lane(mask, j) by {
        let k = j as u16;
        assert((mask >> k) & 1u16 == 0u16);
    }
    r
}

/// The highest set lane of the union of two masks, one of them non-zero.
pub fn reverse_pos2(mask1: u16, mask2: u16) -> (r: usize)
    requires
        mask1 != 0 || mask2 != 0,
    ensures
        r < 16,
        lane(mask1, r as int) || lane(mask2, r as int),
        forall|j: int| r < j < 16 ==> !lane(mask1, j) && !lane(mask2, j),
{
    proof {
        lemma_or_lanes(mask1, mask2);
        assert(mask1 | mask2 != 0) by (bit_vector)
            requires
                mask1 != 0 || mask2 != 0,
        ;
    }
    reverse_pos(mask1 | mask2)
}

/// The highest set lane of the union of three masks, one of them non-zero.
pub fn reverse_pos3(mask1: u16, mask2: u16, mask3: u16) -> (r: usize)
    requires
        mask1 != 0 || mask2 != 0 || mask3 != 0,
    ensures
        r < 16,
        lane(mask1, r as int) || lane(mask2, r as int) || lane(mask3, r as int),
        forall|j: int| r < j < 16 ==> !lane(mask1, j) && !lane(mask2, j) && !lane(mask3, j),
{
    proof {
        lemma_or_lanes(mask1, mask2);
        lemma_or_lanes(mask1 | mask2, mask3);
        assert(mask1 | mask2 | mask3 != 0) by (bit_vector)
            requires
                mask1 != 0 || mask2 != 0 || mask3 != 0,
        ;
    }
    reverse_pos(mask1 | mask2 | mask3)
}

} // verus!
