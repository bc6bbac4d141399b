//! Iterators over every position of one, two or three needle bytes, in
//! either direction.

use vstd::prelude::*;

use crate::model::{
    lemma_positions_back, lemma_positions_front, lemma_positions_none, positions, taken_back,
    taken_front,
};
use crate::scan::{
    memchr2_range, memchr3_range, memchr_range, memrchr2_range, memrchr3_range, memrchr_range,
};

verus! {

/// The positions of one needle byte in a haystack, produced from the front
/// (or from the back once reversed).
pub struct Memchr<'h> {
    needle1: u8,
    haystack: &'h [u8],
    front: usize,
    back: usize,
    reversed: bool,
}

impl<'h> Memchr<'h> {
    /// The needle bytes.
    pub closed spec fn needles(&self) -> Set<u8> {
        set![self.needle1]
    }

    /// The positions not produced yet, in increasing order.
    pub closed spec fn remaining(&self) -> Seq<int> {
        positions(self.haystack@, self.needles(), self.front as int, self.back as int)
    }

    /// The bounds of the unsearched part lie within the haystack.
    pub closed spec fn wf(&self) -> bool {
        self.front <= self.back <= self.haystack@.len()
    }

    /// Whether `next` produces positions from the back.
    pub closed spec fn is_reversed(&self) -> bool {
        self.reversed
    }

    /// An iterator over every position of `needle` in `haystack`.
    pub fn new(needle: u8, haystack: &'h [u8]) -> (r: Self)
        ensures
            r.wf(),
            !r.is_reversed(),
            r.remaining() == positions(haystack@, set![needle], 0, haystack@.len() as int),
    {
        Memchr { needle1: needle, haystack, front: 0, back: haystack.len(), reversed: false }
    }

    /// Produces the lowest position not produced yet.
    fn take_front(&mut self) -> (r: Option<usize>)
        requires
            old(self).wf(),
        ensures
            final(self).wf(),
            final(self).is_reversed() == old(self).is_reversed(),
            taken_front(old(self).remaining(), final(self).remaining(), r),
    {
        let found = memchr_range(self.needle1, self.haystack, self.front, self.back);
        match found {
            Some(i) => {
                proof {
                    lemma_positions_front(
                        self.haystack@,
                        self.needles(),
                        self.front as int,
                        i as int,
                        self.back as int,
                    );
                    let rest = positions(self.haystack@, self.needles(), i + 1, self.back as int);
                    assert((seq![i as int] + rest).drop_first() =~= rest);
                }
                self.front = i + 1;
                Some(i)
            },
            None => {
                proof {
                    lemma_positions_none(
                        self.haystack@,
                        self.needles(),
                        self.front as int,
                        self.back as int,
                    );
                }
                None
            },
        }
    }

    /// Produces the highest position not produced yet.
    fn take_back(&mut self) -> (r: Option<usize>)
        requires
            old(self).wf(),
        ensures
            final(self).wf(),
            final(self).is_reversed() == old(self).is_reversed(),
            taken_back(old(self).remaining(), final(self).remaining(), r),
    {
        let found = memrchr_range(self.needle1, self.haystack, self.front, self.back);
        match found {
            Some(i) => {
                proof {
                    lemma_positions_back(
                        self.haystack@,
                        self.needles(),
                        self.front as int,
                        i as int,
                        self.back as int,
                    );
                    let rest = positions(
                        self.haystack@,
                        self.needles(),
                        self.front as int,
                        i as int,
                    );
                    assert(rest.push(i as int).drop_last() =~= rest);
                }
                self.back = i;
                Some(i)
            },
            None => {
                proof {
                    lemma_positions_none(
                        self.haystack@,
                        self.needles(),
                        self.front as int,
                        self.back as int,
                    );
                }
                None
            },
        }
    }

    /// The next position: the lowest one not produced yet, or the highest
    /// one once reversed.
    pub fn next(&mut self) -> (r: Option<usize>)
        requires
            old(self).wf(),
        ensures
            final(self).wf(),
            final(self).is_reversed() == old(self).is_reversed(),
            !old(self).is_reversed() ==> taken_front(
                old(self).remaining(),
                final(self).remaining(),
                r,
            ),
            old(self).is_reversed() ==> taken_back(
                old(self).remaining(),
                final(self).remaining(),
                r,
            ),
    {
        if self.reversed {
            self.take_back()
        } else {
            self.take_front()
        }
    }

    /// The position at the other end from the one `next` produces.
    pub fn next_back(&mut self) -> (r: Option<usize>)
        requires
            old(self).wf(),
        ensures
            final(self).wf(),
            final(self).is_reversed() == old(self).is_reversed(),
            !old(self).is_reversed() ==> taken_back(
                old(self).remaining(),
                final(self).remaining(),
                r,
            ),
            old(self).is_reversed() ==> taken_front(
                old(self).remaining(),
                final(self).remaining(),
                r,
            ),
    {
        if self.reversed {
            self.take_front()
        } else {
            self.take_back()
        }
    }

    /// The same iterator with its direction turned around.
    pub fn rev(self) -> (r: Self)
        requires
            self.wf(),
        ensures
            r.wf(),
            r.remaining() == self.remaining(),
            r.is_reversed() == !self.is_reversed(),
    {
        Memchr { reversed: !self.reversed, ..self }
    }
}

/// The positions of either of two needle bytes in a haystack, produced from the front
/// (or from the back once reversed).
pub struct Memchr2<'h> {
    needle1: u8,
    needle2: u8,
    haystack: &'h [u8],
    front: usize,
    back: usize,
    reversed: bool,
}

impl<'h> Memchr2<'h> {
    /// The needle bytes.
    pub closed spec fn needles(&self) -> Set<u8> {
        set![self.needle1, self.needle2]
    }

    /// The positions not produced yet, in increasing order.
    pub closed spec fn remaining(&self) -> Seq<int> {
        positions(self.haystack@, self.needles(), self.front as int, self.back as int)
    }

    /// The bounds of the unsearched part lie within the haystack.
    pub closed spec fn wf(&self) -> bool {
        self.front <= self.back <= self.haystack@.len()
    }

    /// Whether `next` produces positions from the back.
    pub closed spec fn is_reversed(&self) -> bool {
        self.reversed
    }

    /// An iterator over every position of `needle1` or `needle2` in `haystack`.
    pub fn new(needle1: u8, needle2: u8, haystack: &'h [u8]) -> (r: Self)
        ensures
            r.wf(),
            !r.is_reversed(),
            r.remaining() == positions(
                haystack@,
                set![needle1, needle2],
                0,
                haystack@.len() as int,
            ),
    {
        Memchr2 { needle1, needle2, haystack, front: 0, back: haystack.len(), reversed: false }
    }

    /// Produces the lowest position not produced yet.
    fn take_front(&mut self) -> (r: Option<usize>)
        requires
            old(self).wf(),
        ensures
            final(self).wf(),
            final(self).is_reversed() == old(self).is_reversed(),
            taken_front(old(self).remaining(), final(self).remaining(), r),
    {
        let found = memchr2_range(self.needle1, self.needle2, self.haystack, self.front, self.back);
        match found {
            Some(i) => {
                proof {
                    lemma_positions_front(
                        self.haystack@,
                        self.needles(),
                        self.front as int,
                        i as int,
                        self.back as int,
                    );
                    let rest = positions(self.haystack@, self.needles(), i + 1, self.back as int);
                    assert((seq![i as int] + rest).drop_first() =~= rest);
                }
                self.front = i + 1;
                Some(i)
            },
            None => {
                proof {
                    lemma_positions_none(
                        self.haystack@,
                        self.needles(),
                        self.front as int,
                        self.back as int,
                    );
                }
                None
            },
        }
    }

    /// Produces the highest position not produced yet.
    fn take_back(&mut self) -> (r: Option<usize>)
        requires
            old(self).wf(),
        ensures
            final(self).wf(),
            final(self).is_reversed() == old(self).is_reversed(),
            taken_back(old(self).remaining(), final(self).remaining(), r),
    {
        let found = memrchr2_range(
            self.needle1,
            self.needle2,
            self.haystack,
            self.front,
            self.back,
        );
        match found {
            Some(i) => {
                proof {
                    lemma_positions_back(
                        self.haystack@,
                        self.needles(),
                        self.front as int,
                        i as int,
                        self.back as int,
                    );
                    let rest = positions(
                        self.haystack@,
                        self.needles(),
                        self.front as int,
                        i as int,
                    );
                    assert(rest.push(i as int).drop_last() =~= rest);
                }
                self.back = i;
                Some(i)
            },
            None => {
                proof {
                    lemma_positions_none(
                        self.haystack@,
                        self.needles(),
                        self.front as int,
                        self.back as int,
                    );
                }
                None
            },
        }
    }

    /// The next position: the lowest one not produced yet, or the highest
    /// one once reversed.
    pub fn next(&mut self) -> (r: Option<usize>)
        requires
            old(self).wf(),
        ensures
            final(self).wf(),
            final(self).is_reversed() == old(self).is_reversed(),
            !old(self).is_reversed() ==> taken_front(
                old(self).remaining(),
                final(self).remaining(),
                r,
            ),
            old(self).is_reversed() ==> taken_back(
                old(self).remaining(),
                final(self).remaining(),
                r,
            ),
    {
        if self.reversed {
            self.take_back()
        } else {
            self.take_front()
        }
    }

    /// The position at the other end from the one `next` produces.
    pub fn next_back(&mut self) -> (r: Option<usize>)
        requires
            old(self).wf(),
        ensures
            final(self).wf(),
            final(self).is_reversed() == old(self).is_reversed(),
            !old(self).is_reversed() ==> taken_back(
                old(self).remaining(),
                final(self).remaining(),
                r,
            ),
            old(self).is_reversed() ==> taken_front(
                old(self).remaining(),
                final(self).remaining(),
                r,
            ),
    {
        if self.reversed {
            self.take_front()
        } else {
            self.take_back()
        }
    }

    /// The same iterator with its direction turned around.
    pub fn rev(self) -> (r: Self)
        requires
            self.wf(),
        ensures
            r.wf(),
            r.remaining() == self.remaining(),
            r.is_reversed() == !self.is_reversed(),
    {
        Memchr2 { reversed: !self.reversed, ..self }
    }
}

/// The positions of any of three needle bytes in a haystack, produced from the front
/// (or from the back once reversed).
pub struct Memchr3<'h> {
    needle1: u8,
    needle2: u8,
    needle3: u8,
    haystack: &'h [u8],
    front: usize,
    back: usize,
    reversed: bool,
}

impl<'h> Memchr3<'h> {
    /// The needle bytes.
    pub closed spec fn needles(&self) -> Set<u8> {
        set![self.needle1, self.needle2, self.needle3]
    }

    /// The positions not produced yet, in increasing order.
    pub closed spec fn remaining(&self) -> Seq<int> {
        positions(self.haystack@, self.needles(), self.front as int, self.back as int)
    }

    /// The bounds of the unsearched part lie within the haystack.
    pub closed spec fn wf(&self) -> bool {
        self.front <= self.back <= self.haystack@.len()
    }

    /// Whether `next` produces positions from the back.
    pub closed spec fn is_reversed(&self) -> bool {
        self.reversed
    }

    /// An iterator over every position of `needle1`, `needle2` or `needle3` in `haystack`.
    pub fn new(needle1: u8, needle2: u8, needle3: u8, haystack: &'h [u8]) -> (r: Self)
        ensures
            r.wf(),
            !r.is_reversed(),
            r.remaining() == positions(
                haystack@,
                set![needle1, needle2, needle3],
                0,
                haystack@.len() as int,
            ),
    {
        Memchr3 {
            needle1,
            needle2,
            needle3,
            haystack,
            front: 0,
            back: haystack.len(),
            reversed: false,
        }
    }

    /// Produces the lowest position not produced yet.
    fn take_front(&mut self) -> (r: Option<usize>)
        requires
            old(self).wf(),
        ensures
            final(self).wf(),
            final(self).is_reversed() == old(self).is_reversed(),
            taken_front(old(self).remaining(), final(self).remaining(), r),
    {
        let found = memchr3_range(
            self.needle1,
            self.needle2,
            self.needle3,
            self.haystack,
            self.front,
            self.back,
        );
        match found {
            Some(i) => {
                proof {
                    lemma_positions_front(
                        self.haystack@,
                        self.needles(),
                        self.front as int,
                        i as int,
                        self.back as int,
                    );
                    let rest = positions(self.haystack@, self.needles(), i + 1, self.back as int);
                    assert((seq![i as int] + rest).drop_first() =~= rest);
                }
                self.front = i + 1;
                Some(i)
            },
            None => {
                proof {
                    lemma_positions_none(
                        self.haystack@,
                        self.needles(),
                        self.front as int,
                        self.back as int,
                    );
                }
                None
            },
        }
    }

    /// Produces the highest position not produced yet.
    fn take_back(&mut self) -> (r: Option<usize>)
        requires
            old(self).wf(),
        ensures
            final(self).wf(),
            final(self).is_reversed() == old(self).is_reversed(),
            taken_back(old(self).remaining(), final(self).remaining(), r),
    {
        let found = memrchr3_range(
            self.needle1,
            self.needle2,
            self.needle3,
            self.haystack,
            self.front,
            self.back,
        );
        match found {
            Some(i) => {
                proof {
                    lemma_positions_back(
                        self.haystack@,
                        self.needles(),
                        self.front as int,
                        i as int,
                        self.back as int,
                    );
                    let rest = positions(
                        self.haystack@,
                        self.needles(),
                        self.front as int,
                        i as int,
                    );
                    assert(rest.push(i as int).drop_last() =~= rest);
                }
                self.back = i;
                Some(i)
            },
            None => {
                proof {
                    lemma_positions_none(
                        self.haystack@,
                        self.needles(),
                        self.front as int,
                        self.back as int,
                    );
                }
                None
            },
        }
    }

    /// The next position: the lowest one not produced yet, or the highest
    /// one once reversed.
    pub fn next(&mut self) -> (r: Option<usize>)
        requires
            old(self).wf(),
        ensures
            final(self).wf(),
            final(self).is_reversed() == old(self).is_reversed(),
            !old(self).is_reversed() ==> taken_front(
                old(self).remaining(),
                final(self).remaining(),
                r,
            ),
            old(self).is_reversed() ==> taken_back(
                old(self).remaining(),
                final(self).remaining(),
                r,
            ),
    {
        if self.reversed {
            self.take_back()
        } else {
            self.take_front()
        }
    }

    /// The position at the other end from the one `next` produces.
    pub fn next_back(&mut self) -> (r: Option<usize>)
        requires
            old(self).wf(),
        ensures
            final(self).wf(),
            final(self).is_reversed() == old(self).is_reversed(),
            !old(self).is_reversed() ==> taken_back(
                old(self).remaining(),
                final(self).remaining(),
                r,
            ),
            old(self).is_reversed() ==> taken_front(
                old(self).remaining(),
                final(self).remaining(),
                r,
            ),
    {
        if self.reversed {
            self.take_front()
        } else {
            self.take_back()
        }
    }

    /// The same iterator with its direction turned around.
    pub fn rev(self) -> (r: Self)
        requires
            self.wf(),
        ensures
            r.wf(),
            r.remaining() == self.remaining(),
            r.is_reversed() == !self.is_reversed(),
    {
        Memchr3 { reversed: !self.reversed, ..self }
    }
}

} // verus!
