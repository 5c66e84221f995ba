//! The theory of matches used by the filter combinator.
//!
//! For a node `s` and a predicate `p`, a *first match at or after `from`*
//! is the least index `k >= from` whose element satisfies `p`.  Chaining
//! first matches gives `nth_from(s, p, from, i)`, the index in `s` of the
//! `i`-th matching element at or after `from`; `nth_from_ok` says that the
//! chain really exists up to `i`.  The filtered sequence's model reads its
//! elements at exactly these indices.

use vstd::prelude::*;

use crate::node::{Node, Predicate};

verus! {

/// `k` is the least index at or after `from` whose element satisfies `p`.
pub open spec fn fmatch<S: Node, P: Predicate<Elem = S::Elem>>(
    s: S,
    p: P,
    from: nat,
    k: nat,
) -> bool {
    from <= k && p.val(s.at(k)) && forall|m: nat| from <= m < k ==> !(#[trigger] p.val(s.at(m)))
}

/// Some element at or after `from` satisfies `p` (so a least one does).
pub open spec fn ex_first<S: Node, P: Predicate<Elem = S::Elem>>(s: S, p: P, from: nat) -> bool {
    exists|k: nat| fmatch(s, p, from, k)
}

/// The least matching index at or after `from`.
pub open spec fn first_from<S: Node, P: Predicate<Elem = S::Elem>>(s: S, p: P, from: nat) -> nat {
    choose|k: nat| fmatch(s, p, from, k)
}

/// The index in `s` of the `i`-th matching element at or after `from`.
pub open spec fn nth_from<S: Node, P: Predicate<Elem = S::Elem>>(
    s: S,
    p: P,
    from: nat,
    i: nat,
) -> nat
    decreases i,
{
    if i == 0 {
        first_from(s, p, from)
    } else {
        first_from(s, p, nth_from(s, p, from, (i - 1) as nat) + 1)
    }
}

/// At least `i + 1` matching elements lie at or after `from`.
pub open spec fn nth_from_ok<S: Node, P: Predicate<Elem = S::Elem>>(
    s: S,
    p: P,
    from: nat,
    i: nat,
) -> bool
    decreases i,
{
    if i == 0 {
        ex_first(s, p, from)
    } else {
        nth_from_ok(s, p, from, (i - 1) as nat) && ex_first(
            s,
            p,
            nth_from(s, p, from, (i - 1) as nat) + 1,
        )
    }
}

/// Any match at or after `from` yields a least one.
pub proof fn lemma_ex_first<S: Node, P: Predicate<Elem = S::Elem>>(s: S, p: P, from: nat, w: nat)
    requires
        from <= w,
        p.val(s.at(w)),
    ensures
        ex_first(s, p, from),
    decreases w - from,
{
    if p.val(s.at(from)) {
        assert(fmatch(s, p, from, from));
    } else {
        lemma_ex_first(s, p, from + 1, w);
        let k = choose|k: nat| #[trigger] fmatch(s, p, from + 1, k);
        assert(fmatch(s, p, from, k));
    }
}

/// A first match is unique.
pub proof fn lemma_first_unique<S: Node, P: Predicate<Elem = S::Elem>>(
    s: S,
    p: P,
    from: nat,
    k1: nat,
    k2: nat,
)
    requires
        fmatch(s, p, from, k1),
        fmatch(s, p, from, k2),
    ensures
        k1 == k2,
{
}

/// Where a first match exists, `first_from` is it.
pub proof fn lemma_first_props<S: Node, P: Predicate<Elem = S::Elem>>(s: S, p: P, from: nat)
    requires
        ex_first(s, p, from),
    ensures
        fmatch(s, p, from, first_from(s, p, from)),
{
}

/// An element that satisfies the predicate is the first match at its own
/// position.
pub proof fn lemma_first_at_match<S: Node, P: Predicate<Elem = S::Elem>>(s: S, p: P, k: nat)
    requires
        p.val(s.at(k)),
    ensures
        ex_first(s, p, k),
        first_from(s, p, k) == k,
{
    assert(fmatch(s, p, k, k));
    lemma_first_props(s, p, k);
    lemma_first_unique(s, p, k, first_from(s, p, k), k);
}

/// Match indices transport along a shift: if `t` denotes `s` seen from
/// position `c` on — at least up to position `d` of `s` — then first
/// matches of `t` below that bound are first matches of `s` moved by `c`.
pub proof fn lemma_first_shift<
    S1: Node,
    S2: Node<Elem = S1::Elem>,
    P: Predicate<Elem = S1::Elem>,
>(s: S1, t: S2, p: P, c: nat, a: nat, d: nat)
    requires
        forall|u: nat| u + c <= d ==> #[trigger] t.at(u) == s.at(u + c),
        ex_first(s, p, a + c),
        first_from(s, p, a + c) <= d,
    ensures
        ex_first(t, p, a),
        first_from(t, p, a) + c == first_from(s, p, a + c),
{
    lemma_first_props(s, p, a + c);
    let ks = first_from(s, p, a + c);
    assert(t.at((ks - c) as nat) == s.at(ks));
    assert(fmatch(t, p, a, (ks - c) as nat)) by {
        assert forall|m: nat| a <= m < ks - c implies !(#[trigger] p.val(t.at(m))) by {
            assert(t.at(m) == s.at(m + c));
        }
    }
    lemma_first_props(t, p, a);
    lemma_first_unique(t, p, a, first_from(t, p, a), (ks - c) as nat);
}

/// `nth_from` transports along a shift, too, as far as the bound reaches.
pub proof fn lemma_nth_shift<S1: Node, S2: Node<Elem = S1::Elem>, P: Predicate<Elem = S1::Elem>>(
    s: S1,
    t: S2,
    p: P,
    c: nat,
    a: nat,
    i: nat,
    d: nat,
)
    requires
        forall|u: nat| u + c <= d ==> #[trigger] t.at(u) == s.at(u + c),
        nth_from_ok(s, p, a + c, i),
        nth_from(s, p, a + c, i) <= d,
    ensures
        nth_from_ok(t, p, a, i),
        nth_from(t, p, a, i) + c == nth_from(s, p, a + c, i),
    decreases i,
{
    if i == 0 {
        lemma_first_shift(s, t, p, c, a, d);
    } else {
        lemma_nth_props(s, p, a + c, i);
        lemma_nth_shift(s, t, p, c, a, (i - 1) as nat, d);
        let a1 = nth_from(t, p, a, (i - 1) as nat) + 1;
        assert(a1 + c == nth_from(s, p, a + c, (i - 1) as nat) + 1);
        assert(ex_first(s, p, a1 + c));
        assert(first_from(s, p, a1 + c) == nth_from(s, p, a + c, i));
        lemma_first_shift(s, t, p, c, a1, d);
        assert(nth_from(t, p, a, i) == first_from(t, p, a1));
        assert(nth_from_ok(t, p, a, i) <==> nth_from_ok(t, p, a, (i - 1) as nat) && ex_first(
            t,
            p,
            a1,
        ));
    }
}

/// Counting matches from `a0` or from the first match at or after `a0`
/// reaches the same indices.
pub proof fn lemma_nth_align<S: Node, P: Predicate<Elem = S::Elem>>(s: S, p: P, a0: nat, i: nat)
    requires
        ex_first(s, p, a0),
    ensures
        nth_from(s, p, first_from(s, p, a0), i) == nth_from(s, p, a0, i),
        nth_from_ok(s, p, first_from(s, p, a0), i) <==> nth_from_ok(s, p, a0, i),
    decreases i,
{
    let m = first_from(s, p, a0);
    lemma_first_props(s, p, a0);
    lemma_first_at_match(s, p, m);
    if i == 0 {
        assert(nth_from(s, p, a0, 0) == first_from(s, p, a0));
        assert(nth_from(s, p, m, 0) == first_from(s, p, m));
        assert(nth_from_ok(s, p, a0, 0) <==> ex_first(s, p, a0));
        assert(nth_from_ok(s, p, m, 0) <==> ex_first(s, p, m));
    } else {
        lemma_nth_chain(s, p, a0, (i - 1) as nat);
        lemma_nth_chain(s, p, m, (i - 1) as nat);
    }
}

/// Chaining from the front: the matches after the first one, counted from
/// `from`, are the matches counted from just past the first one.
pub proof fn lemma_nth_chain<S: Node, P: Predicate<Elem = S::Elem>>(s: S, p: P, a: nat, i: nat)
    ensures
        nth_from(s, p, a, i + 1) == nth_from(s, p, first_from(s, p, a) + 1, i),
        nth_from_ok(s, p, a, i + 1) <==> (ex_first(s, p, a) && nth_from_ok(
            s,
            p,
            first_from(s, p, a) + 1,
            i,
        )),
    decreases i,
{
    let b = first_from(s, p, a) + 1;
    assert(nth_from(s, p, a, i + 1) == first_from(s, p, nth_from(s, p, a, i) + 1));
    assert(nth_from_ok(s, p, a, i + 1) <==> nth_from_ok(s, p, a, i) && ex_first(
        s,
        p,
        nth_from(s, p, a, i) + 1,
    ));
    if i == 0 {
        assert(nth_from(s, p, a, 0) == first_from(s, p, a));
        assert(nth_from(s, p, b, 0) == first_from(s, p, b));
        assert(nth_from_ok(s, p, a, 0) <==> ex_first(s, p, a));
        assert(nth_from_ok(s, p, b, 0) <==> ex_first(s, p, b));
    } else {
        lemma_nth_chain(s, p, a, (i - 1) as nat);
        assert(nth_from(s, p, b, i) == first_from(s, p, nth_from(s, p, b, (i - 1) as nat) + 1));
        assert(nth_from_ok(s, p, b, i) <==> nth_from_ok(s, p, b, (i - 1) as nat) && ex_first(
            s,
            p,
            nth_from(s, p, b, (i - 1) as nat) + 1,
        ));
    }
}

/// Transport of the whole match chain onto a node `t` that denotes `s`
/// seen from its first match at or after `a0` — as far as `s` is
/// available.  This is the alignment a filter establishes when it skips to
/// a match: counting matches of `t` from zero reaches, shifted, exactly
/// the matches of `s` counted from `a0`.
pub proof fn lemma_nth_transport<S: Node, P: Predicate<Elem = S::Elem>>(
    s: S,
    t: S,
    p: P,
    a0: nat,
    i: nat,
)
    requires
        s.inv(),
        ex_first(s, p, a0),
        forall|u: nat|
            s.ok((u + first_from(s, p, a0)) as nat) ==> #[trigger] t.at(u) == s.at(
                (u + first_from(s, p, a0)) as nat,
            ),
        nth_from_ok(s, p, a0, i),
        s.ok(nth_from(s, p, a0, i)),
    ensures
        nth_from_ok(t, p, 0, i),
        nth_from(t, p, 0, i) + first_from(s, p, a0) == nth_from(s, p, a0, i),
{
    let m = first_from(s, p, a0);
    let d = nth_from(s, p, a0, i);
    lemma_nth_align(s, p, a0, i);
    lemma_nth_ok_mono(s, p, a0, 0, i);
    assert forall|u: nat| u + m <= d implies #[trigger] t.at(u) == s.at(u + m) by {
        s.lemma_ok_mono(u + m, d);
    }
    lemma_nth_shift(s, t, p, m, 0, i, d);
}

/// The basic facts about the `i`-th match: it satisfies the predicate, it
/// lies at or after `from + i`, and successive match indices increase.
pub proof fn lemma_nth_props<S: Node, P: Predicate<Elem = S::Elem>>(s: S, p: P, a: nat, i: nat)
    requires
        nth_from_ok(s, p, a, i),
    ensures
        nth_from(s, p, a, i) >= a + i,
        p.val(s.at(nth_from(s, p, a, i))),
        i > 0 ==> nth_from_ok(s, p, a, (i - 1) as nat) && nth_from(s, p, a, i) > nth_from(
            s,
            p,
            a,
            (i - 1) as nat,
        ),
    decreases i,
{
    if i == 0 {
        lemma_first_props(s, p, a);
    } else {
        lemma_nth_props(s, p, a, (i - 1) as nat);
        lemma_first_props(s, p, nth_from(s, p, a, (i - 1) as nat) + 1);
    }
}

/// Availability of matches is downward closed, and match indices are
/// ordered.
pub proof fn lemma_nth_ok_mono<S: Node, P: Predicate<Elem = S::Elem>>(
    s: S,
    p: P,
    a: nat,
    j: nat,
    i: nat,
)
    requires
        j <= i,
        nth_from_ok(s, p, a, i),
    ensures
        nth_from_ok(s, p, a, j),
        nth_from(s, p, a, j) <= nth_from(s, p, a, i),
    decreases i,
{
    if j < i {
        lemma_nth_props(s, p, a, i);
        lemma_nth_ok_mono(s, p, a, j, (i - 1) as nat);
    }
}

} // verus!
