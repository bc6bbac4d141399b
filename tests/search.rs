use memchr::memmem::{find, find_iter, rfind, rfind_iter, Finder};
use memchr::{
    memchr, memchr2, memchr2_iter, memchr3, memchr3_iter, memchr_iter, memrchr, memrchr2,
    memrchr2_iter, memrchr3, memrchr3_iter, memrchr_iter,
};

fn naive_first(h: &[u8], set: &[u8]) -> Option<usize> {
    h.iter().position(|b| set.contains(b))
}

fn naive_last(h: &[u8], set: &[u8]) -> Option<usize> {
    h.iter().rposition(|b| set.contains(b))
}

fn naive_find(h: &[u8], n: &[u8]) -> Option<usize> {
    if n.len() > h.len() {
        return None;
    }
    (0..=h.len() - n.len()).find(|&p| &h[p..p + n.len()] == n)
}

fn naive_rfind(h: &[u8], n: &[u8]) -> Option<usize> {
    if n.len() > h.len() {
        return None;
    }
    (0..=h.len() - n.len()).rev().find(|&p| &h[p..p + n.len()] == n)
}

#[test]
fn memchr_first_z_and_iterator() {
    let h = b"foo bar baz quuz";
    assert_eq!(memchr(b'z', h), Some(10));
    let mut it = memchr_iter(b'z', h);
    assert_eq!(it.next(), Some(10));
    assert_eq!(it.next(), Some(15));
    assert_eq!(it.next(), None);
    assert_eq!(it.next(), None);
}

#[test]
fn memchr3_reverse_iteration() {
    let mut it = memchr3_iter(b'a', b'b', b'c', b"xyzaxyzbxyzc").rev();
    assert_eq!(it.next(), Some(11));
    assert_eq!(it.next(), Some(7));
    assert_eq!(it.next(), Some(3));
    assert_eq!(it.next(), None);
}

#[test]
fn memrchr3_iter_matches_reversed_forward() {
    let mut it = memrchr3_iter(b'a', b'b', b'c', b"xyzaxyzbxyzc");
    assert_eq!(it.next(), Some(11));
    assert_eq!(it.next(), Some(7));
    assert_eq!(it.next(), Some(3));
    assert_eq!(it.next(), None);
}

#[test]
fn find_iter_three_foos() {
    let mut it = find_iter(b"foo bar foo baz foo", b"foo");
    assert_eq!(it.next(), Some(0));
    assert_eq!(it.next(), Some(8));
    assert_eq!(it.next(), Some(16));
    assert_eq!(it.next(), None);
}

#[test]
fn rfind_iter_three_foos() {
    let mut it = rfind_iter(b"foo bar foo baz foo", b"foo");
    assert_eq!(it.next(), Some(16));
    assert_eq!(it.next(), Some(8));
    assert_eq!(it.next(), Some(0));
    assert_eq!(it.next(), None);
}

#[test]
fn find_after_partial_matches() {
    assert_eq!(find(b"aaaaaaab", b"aaab"), Some(4));
    assert_eq!(rfind(b"aaaaaaab", b"aaab"), Some(4));
}

#[test]
fn find_iter_does_not_overlap() {
    let mut it = find_iter(b"abababab", b"abab");
    assert_eq!(it.next(), Some(0));
    assert_eq!(it.next(), Some(4));
    assert_eq!(it.next(), None);
}

#[test]
fn find_with_empty_inputs() {
    assert_eq!(find(b"", b""), Some(0));
    assert_eq!(find(b"x", b""), Some(0));
    assert_eq!(find(b"", b"x"), None);
    assert_eq!(rfind(b"", b""), Some(0));
    assert_eq!(rfind(b"xyz", b""), Some(3));
    assert_eq!(rfind(b"", b"x"), None);
}

#[test]
fn empty_needle_iterates_every_position() {
    let mut it = find_iter(b"abc", b"");
    for expected in 0..=3usize {
        assert_eq!(it.next(), Some(expected));
    }
    assert_eq!(it.next(), None);
    let mut rit = rfind_iter(b"abc", b"");
    for expected in (0..=3usize).rev() {
        assert_eq!(rit.next(), Some(expected));
    }
    assert_eq!(rit.next(), None);
}

#[test]
fn memrchr_last_o() {
    assert_eq!(memrchr(b'o', b"the quick brown fox"), Some(17));
}

#[test]
fn single_and_multi_byte_examples() {
    let h = b"the quick brown fox";
    assert_eq!(memchr(b'k', h), Some(8));
    assert_eq!(memchr2(b'k', b'q', h), Some(4));
    assert_eq!(memchr3(b'k', b'q', b'e', h), Some(2));
    assert_eq!(memrchr2(b'k', b'q', h), Some(8));
    assert_eq!(memrchr3(b'k', b'q', b'e', h), Some(8));
    assert_eq!(memchr(b'z', h), None);
    assert_eq!(memrchr3(b'z', b'Z', b'!', h), None);
    assert_eq!(memchr(b'a', b""), None);
    assert_eq!(memrchr(b'a', b""), None);
}

#[test]
fn duplicate_needles_act_as_one() {
    let h = b"abcabcabcabcabcabcabcabc";
    assert_eq!(memchr2(b'c', b'c', h), memchr(b'c', h));
    assert_eq!(memchr3(b'c', b'c', b'c', h), memchr(b'c', h));
    assert_eq!(memrchr2(b'b', b'b', h), memrchr(b'b', h));
    assert_eq!(memrchr3(b'b', b'b', b'b', h), memrchr(b'b', h));
}

#[test]
fn finder_reuse() {
    let finder = Finder::new(b"foo");
    assert_eq!(finder.find(b"baz foo quux"), Some(4));
    assert_eq!(finder.find(b"quux baz bar"), None);
    assert_eq!(finder.rfind(b"foo baz foo"), Some(8));
}

#[test]
fn iterator_from_both_ends() {
    let h = b"a.b.c.d.e";
    let mut it = memchr_iter(b'.', h);
    assert_eq!(it.next(), Some(1));
    assert_eq!(it.next_back(), Some(7));
    assert_eq!(it.next(), Some(3));
    assert_eq!(it.next_back(), Some(5));
    assert_eq!(it.next(), None);
    assert_eq!(it.next_back(), None);
}

#[test]
fn needle_at_every_block_boundary() {
    let w = 16usize;
    let lengths = [w - 1, w, w + 1, 2 * w - 1, 2 * w, 4 * w - 1, 4 * w, 4 * w + 1];
    for &len in lengths.iter() {
        let mut places: Vec<usize> = (0..w).filter(|&d| d < len).collect();
        places.push(len - 1);
        for &d in places.iter() {
            let mut h = vec![b'a'; len];
            h[d] = b'z';
            assert_eq!(memchr(b'z', &h), Some(d));
            assert_eq!(memrchr(b'z', &h), Some(d));
            assert_eq!(memchr2(b'y', b'z', &h), Some(d));
            assert_eq!(memrchr2(b'z', b'y', &h), Some(d));
            assert_eq!(memchr3(b'x', b'y', b'z', &h), Some(d));
            assert_eq!(memrchr3(b'z', b'x', b'y', &h), Some(d));
            assert_eq!(find(&h, b"z"), Some(d));
        }
    }
}

#[test]
fn scans_agree_with_scalar_on_long_inputs() {
    for len in 0..200usize {
        for &(p, q) in [(0usize, 0usize), (3, 70), (17, 150), (63, 64), (100, 199)].iter() {
            let mut h: Vec<u8> = (0..len).map(|i| b'a' + (i % 7) as u8).collect();
            if p < len {
                h[p] = b'X';
            }
            if q < len {
                h[q] = b'Y';
            }
            assert_eq!(memchr(b'X', &h), naive_first(&h, b"X"));
            assert_eq!(memrchr(b'Y', &h), naive_last(&h, b"Y"));
            assert_eq!(memchr2(b'X', b'Y', &h), naive_first(&h, b"XY"));
            assert_eq!(memrchr2(b'X', b'Y', &h), naive_last(&h, b"XY"));
            assert_eq!(memchr3(b'X', b'Y', b'Z', &h), naive_first(&h, b"XYZ"));
            assert_eq!(memrchr3(b'X', b'Y', b'Z', &h), naive_last(&h, b"XYZ"));
            assert_eq!(memchr(b'g', &h), naive_first(&h, b"g"));
            assert_eq!(memrchr(b'a', &h), naive_last(&h, b"a"));
        }
    }
}

fn collect_memchr(n: u8, h: &[u8], reverse: bool) -> Vec<usize> {
    let mut it = if reverse { memrchr_iter(n, h) } else { memchr_iter(n, h) };
    let mut out = Vec::new();
    while let Some(i) = it.next() {
        out.push(i);
    }
    out
}

#[test]
fn iterators_agree_with_scalar_on_long_input() {
    let h: Vec<u8> = (0..300usize).map(|i| (i * 31 % 11) as u8).collect();
    let expected: Vec<usize> = (0..h.len()).filter(|&i| h[i] == 3).collect();
    assert_eq!(collect_memchr(3, &h, false), expected);
    let mut reversed = expected.clone();
    reversed.reverse();
    assert_eq!(collect_memchr(3, &h, true), reversed);
    let mut it2 = memrchr2_iter(3, 5, &h);
    let mut got2 = Vec::new();
    while let Some(i) = it2.next() {
        got2.push(i);
    }
    let mut exp2: Vec<usize> = (0..h.len()).filter(|&i| h[i] == 3 || h[i] == 5).collect();
    exp2.reverse();
    assert_eq!(got2, exp2);
    let mut it3 = memchr2_iter(3, 5, &h);
    assert_eq!(it3.next(), exp2.last().copied());
}

fn prop_scans(h: Vec<u8>, a: u8, b: u8, c: u8) -> bool {
    memchr(a, &h) == naive_first(&h, &[a])
        && memchr2(a, b, &h) == naive_first(&h, &[a, b])
        && memchr3(a, b, c, &h) == naive_first(&h, &[a, b, c])
        && memrchr(a, &h) == naive_last(&h, &[a])
        && memrchr2(a, b, &h) == naive_last(&h, &[a, b])
        && memrchr3(a, b, c, &h) == naive_last(&h, &[a, b, c])
}

#[test]
fn scans_agree_with_scalar_reference() {
    quickcheck::quickcheck(prop_scans as fn(Vec<u8>, u8, u8, u8) -> bool);
}

fn prop_iter(h: Vec<u8>, a: u8) -> bool {
    let expected: Vec<usize> = (0..h.len()).filter(|&i| h[i] == a).collect();
    let mut reversed = expected.clone();
    reversed.reverse();
    collect_memchr(a, &h, false) == expected && collect_memchr(a, &h, true) == reversed
}

#[test]
fn iterator_is_complete_and_increasing() {
    quickcheck::quickcheck(prop_iter as fn(Vec<u8>, u8) -> bool);
}

fn prop_find(h: Vec<u8>, n: Vec<u8>) -> bool {
    let h: Vec<u8> = h.iter().map(|b| b % 3).collect();
    let n: Vec<u8> = n.iter().take(4).map(|b| b % 3).collect();
    let r = find(&h, &n);
    let sound = match r {
        Some(p) => &h[p..p + n.len()] == &n[..],
        None => true,
    };
    sound
        && r == naive_find(&h, &n)
        && rfind(&h, &n) == naive_rfind(&h, &n)
        && Finder::new(&n).find(&h) == r
}

#[test]
fn find_is_sound_and_complete() {
    quickcheck::quickcheck(prop_find as fn(Vec<u8>, Vec<u8>) -> bool);
}

fn prop_find_iter(h: Vec<u8>, n: Vec<u8>) -> bool {
    let h: Vec<u8> = h.iter().map(|b| b % 2).collect();
    let n: Vec<u8> = n.iter().take(3).map(|b| b % 2).collect();
    let step = if n.is_empty() { 1 } else { n.len() };
    let mut it = find_iter(&h, &n);
    let mut prev: Option<usize> = None;
    let mut pos = 0usize;
    while let Some(p) = it.next() {
        if let Some(q) = prev {
            if p < q + step {
                return false;
            }
        }
        if naive_find(&h[pos..], &n).map(|x| x + pos) != Some(p) {
            return false;
        }
        prev = Some(p);
        pos = p + step;
    }
    pos > h.len() || naive_find(&h[pos..], &n).is_none()
}

#[test]
fn find_iter_is_non_overlapping() {
    quickcheck::quickcheck(prop_find_iter as fn(Vec<u8>, Vec<u8>) -> bool);
}
