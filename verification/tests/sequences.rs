use rseq::{Doubler, FibStep, First, IsEven, IsOdd, Pair, RSeq, RSeqIter};

#[test]
fn cnst() {
    let s = RSeq::cnst(1);
    assert_eq!(s.take(5), vec![1, 1, 1, 1, 1]);
}

#[test]
fn incr() {
    let s = RSeq::incr(2i64);
    assert_eq!(s.take(5), vec![2, 3, 4, 5, 6]);
}

#[test]
fn ops() {
    let s = RSeq::cnst(8i64);
    let t = RSeq::cnst(2i64);
    assert_eq!(s.add(&t).take(5), vec![10, 10, 10, 10, 10]);
    assert_eq!(s.sub(&t).take(5), vec![6, 6, 6, 6, 6]);
    assert_eq!(s.mul(&t).take(5), vec![16, 16, 16, 16, 16]);
    assert_eq!(s.div(&t).take(5), vec![4, 4, 4, 4, 4]);
}

#[test]
fn map() {
    let s = RSeq::incr(2i64);
    assert_eq!(s.map(Doubler).take(5), vec![4, 6, 8, 10, 12]);
}

#[test]
fn filter() {
    let s = RSeq::incr(2i64);
    assert_eq!(s.filter(IsEven).take(5), vec![2, 4, 6, 8, 10]);
    assert_eq!(s.filter(IsOdd).take(5), vec![3, 5, 7, 9, 11]);
}

#[test]
fn interleave() {
    let s = RSeq::incr(0i64).filter(IsEven);
    let t = RSeq::incr(0i64).filter(IsOdd);
    assert_eq!(RSeq::interleave(&s, &t).take(5), vec![0, 1, 2, 3, 4]);
}

#[test]
fn iterator() {
    let s = RSeq::incr(0i64).filter(IsEven);
    let mut iter = s.into_iter();
    let mut squares: Vec<i64> = Vec::new();
    for _ in 0..10 {
        let n = iter.next().unwrap();
        squares.push(n * n);
    }
    assert_eq!(
        squares,
        vec![0, 4, 16, 36, 64, 100, 144, 196, 256, 324]
    );
}

#[test]
fn unfold() {
    let s = RSeq::unfold(Pair { fst: 0, snd: 1 }, FibStep).map(First);
    assert_eq!(s.take(10), vec![0, 1, 1, 2, 3, 5, 8, 13, 21, 34]);
}

#[test]
fn take_zero_is_empty() {
    let s = RSeq::cnst(7i64);
    assert_eq!(s.take(0), Vec::<i64>::new());
}

#[test]
fn take_one() {
    let s = RSeq::incr(41i64);
    assert_eq!(s.take(1), vec![41]);
}

#[test]
fn thunk_drops_the_head() {
    let s = RSeq::incr(10i64);
    assert_eq!(s.thunk().take(4), vec![11, 12, 13, 14]);
    assert_eq!(s.take(4), vec![10, 11, 12, 13]);
}

#[test]
fn thunk_is_deterministic() {
    let s = RSeq::incr(5i64).filter(IsOdd);
    let a = s.clone();
    let b = s.clone();
    assert_eq!(a.thunk().take(4), b.thunk().take(4));
    assert_eq!(a.thunk().take(4), vec![7, 9, 11, 13]);
    assert_eq!(s.take(3), vec![5, 7, 9]);
}

#[test]
fn filter_skips_a_rejected_head() {
    let s = RSeq::incr(1i64);
    assert_eq!(s.filter(IsEven).take(3), vec![2, 4, 6]);
}

#[test]
fn map_on_a_constant() {
    let s = RSeq::cnst(3i64);
    assert_eq!(s.map(Doubler).take(4), vec![6, 6, 6, 6]);
}

#[test]
fn interleave_keeps_both_branches() {
    let zeros = RSeq::cnst(0i64);
    let counted = RSeq::incr(1i64);
    assert_eq!(
        RSeq::interleave(&zeros, &counted).take(6),
        vec![0, 1, 0, 2, 0, 3]
    );
}

#[test]
fn division_truncates_toward_zero() {
    let a = RSeq::cnst(-7i64);
    let b = RSeq::cnst(2i64);
    assert_eq!(a.div(&b).take(3), vec![-3, -3, -3]);
    assert_eq!(b.div(&a).take(3), vec![0, 0, 0]);
}

#[test]
fn subtraction_below_zero() {
    let a = RSeq::cnst(2i64);
    let b = RSeq::cnst(8i64);
    assert_eq!(a.sub(&b).take(2), vec![-6, -6]);
}

#[test]
fn unfold_pairs_directly() {
    let s = RSeq::unfold(Pair { fst: 0, snd: 1 }, FibStep);
    let out = s.take(3);
    assert!(out[0] == Pair { fst: 0, snd: 1 });
    assert!(out[1] == Pair { fst: 1, snd: 1 });
    assert!(out[2] == Pair { fst: 1, snd: 2 });
}

#[test]
fn iterator_restarts_from_a_retained_copy() {
    let s = RSeq::incr(0i64);
    let mut first_pass = RSeqIter::new(s);
    assert_eq!(first_pass.next(), Some(0));
    assert_eq!(first_pass.next(), Some(1));
    let mut second_pass = RSeqIter::new(s);
    assert_eq!(second_pass.next(), Some(0));
}

#[test]
fn arithmetic_tracks_both_sequences() {
    let a = RSeq::incr(1i64);
    let b = RSeq::incr(10i64);
    assert_eq!(a.add(&b).take(4), vec![11, 13, 15, 17]);
    assert_eq!(b.mul(&a).take(4), vec![10, 22, 36, 52]);
}
