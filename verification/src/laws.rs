//! The library's laws: what holds of every constructor, combinator and
//! materialization, stated over the models and proved once and for all.
//! Each law speaks about a materialized prefix through the contract of
//! `take` — a sequence `out` of length `n` whose entries equal the node's
//! model — so it applies to every vector `take` can return.

use vstd::prelude::*;

use crate::arith::Arith;
use crate::combinators::{op_val, Filtered, Interleaved, Mapped, Pointwise};
use crate::matching::{
    first_from, fmatch, lemma_first_props, lemma_nth_ok_mono, lemma_nth_props, nth_from,
    nth_from_ok,
};
use crate::node::{Node, Predicate, Stepper, Transform};
use crate::sources::{iter_at, succ_at, Constant, Increment, Unfolding};

verus! {

/// Determinism: the tail-generator's contract pins the successor's whole
/// model from the predecessor's model alone.  Any two results of stepping
/// one node — say, through independently held copies — agree wherever the
/// sequence is available.
pub proof fn lemma_step_deterministic<S: Node>(s: S, r1: S, r2: S)
    requires
        forall|i: nat| s.ok(i + 1) ==> #[trigger] r1.at(i) == s.at(i + 1),
        forall|i: nat| s.ok(i + 1) ==> #[trigger] r2.at(i) == s.at(i + 1),
    ensures
        forall|i: nat| s.ok(i + 1) ==> #[trigger] r1.at(i) == r2.at(i),
{
}

/// A materialized prefix of a constant sequence repeats its value.
pub proof fn lemma_take_constant<T: Copy>(c: Constant<T>, out: Seq<T>, n: nat)
    requires
        out.len() == n,
        forall|i: int| 0 <= i < n ==> out[i] == c.at(i as nat),
    ensures
        forall|i: int| 0 <= i < n ==> out[i] == c.v,
{
}

/// A materialized prefix of an arithmetic progression is `start`,
/// `start + 1`, ..., `start + n - 1`.
pub proof fn lemma_take_increment(s: Increment<i64>, out: Seq<i64>, n: nat)
    requires
        n > 0 ==> s.ok((n - 1) as nat),
        out.len() == n,
        forall|i: int| 0 <= i < n ==> out[i] == s.at(i as nat),
    ensures
        forall|i: int| 0 <= i < n ==> out[i] == s.cur + i,
{
    assert forall|i: int| 0 <= i < n implies out[i] == s.cur + i by {
        s.lemma_ok_mono(i as nat, (n - 1) as nat);
        lemma_succ_at_linear(s, i as nat);
    }
}

/// Within availability, the successor chain over `i64` is plain addition.
proof fn lemma_succ_at_linear(s: Increment<i64>, i: nat)
    requires
        s.ok(i),
    ensures
        succ_at(s.cur, i) == s.cur + i,
    decreases i,
{
    if i > 0 {
        s.lemma_ok_mono((i - 1) as nat, i);
        lemma_succ_at_linear(s, (i - 1) as nat);
        assert(succ_at(s.cur, (i - 1) as nat).add_ok(<i64 as Arith>::one_val()));
    }
}

/// A materialized prefix of an unfolding is the successive applications
/// of the step function to the seed.
pub proof fn lemma_take_unfold<F: Stepper>(u: Unfolding<F>, out: Seq<F::St>, n: nat)
    requires
        out.len() == n,
        forall|i: int| 0 <= i < n ==> out[i] == u.at(i as nat),
    ensures
        forall|i: int| 0 <= i < n ==> out[i] == iter_at(u.f, u.cur, i as nat),
{
}

/// Map and take commute: materializing a mapped sequence equals mapping
/// the materialized prefix of the inner sequence, elementwise.
pub proof fn lemma_map_take_commute<S: Node, F: Transform<In = S::Elem>>(
    m: Mapped<S, F>,
    mapped_out: Seq<F::Out>,
    inner_out: Seq<S::Elem>,
    n: nat,
)
    requires
        mapped_out.len() == n,
        inner_out.len() == n,
        forall|i: int| 0 <= i < n ==> mapped_out[i] == m.at(i as nat),
        forall|i: int| 0 <= i < n ==> inner_out[i] == m.inner.at(i as nat),
    ensures
        forall|i: int| 0 <= i < n ==> mapped_out[i] == m.f.val(inner_out[i]),
{
}

/// Filter correctness: a materialized prefix of a filtered sequence
/// consists of exactly the matching elements of the source, in their
/// original order.  Each entry satisfies the predicate and is the source
/// element at its match index; the match indices increase; and each match
/// index is the least match past the previous one, so no satisfying
/// element is skipped.
pub proof fn lemma_filter_take<S: Node, P: Predicate<Elem = S::Elem>>(
    f: Filtered<S, P>,
    out: Seq<S::Elem>,
    n: nat,
)
    requires
        n > 0 ==> nth_from_ok(f.inner, f.p, 0, (n - 1) as nat),
        out.len() == n,
        forall|i: int| 0 <= i < n ==> out[i] == f.at(i as nat),
    ensures
        forall|i: int|
            0 <= i < n ==> out[i] == f.inner.at(#[trigger] nth_from(f.inner, f.p, 0, i as nat)),
        forall|i: int| 0 <= i < n ==> f.p.val(#[trigger] out[i]),
        forall|i: int|
            0 < i < n ==> nth_from(f.inner, f.p, 0, (i - 1) as nat) < #[trigger] nth_from(
                f.inner,
                f.p,
                0,
                i as nat,
            ),
        forall|i: int|
            0 <= i < n ==> fmatch(
                f.inner,
                f.p,
                if i == 0 {
                    0
                } else {
                    nth_from(f.inner, f.p, 0, (i - 1) as nat) + 1
                },
                #[trigger] nth_from(f.inner, f.p, 0, i as nat),
            ),
{
    assert forall|i: int| 0 <= i < n implies {
        &&& out[i] == f.inner.at(#[trigger] nth_from(f.inner, f.p, 0, i as nat))
        &&& f.p.val(out[i])
        &&& (0 < i ==> nth_from(f.inner, f.p, 0, (i - 1) as nat) < nth_from(
            f.inner,
            f.p,
            0,
            i as nat,
        ))
        &&& fmatch(
            f.inner,
            f.p,
            if i == 0 {
                0
            } else {
                nth_from(f.inner, f.p, 0, (i - 1) as nat) + 1
            },
            nth_from(f.inner, f.p, 0, i as nat),
        )
    } by {
        lemma_nth_ok_mono(f.inner, f.p, 0, i as nat, (n - 1) as nat);
        lemma_nth_props(f.inner, f.p, 0, i as nat);
        if i == 0 {
            lemma_first_props(f.inner, f.p, 0);
            assert(nth_from(f.inner, f.p, 0, 0) == first_from(f.inner, f.p, 0));
        } else {
            let prev = nth_from(f.inner, f.p, 0, (i - 1) as nat);
            assert(nth_from(f.inner, f.p, 0, i as nat) == first_from(f.inner, f.p, prev + 1));
            lemma_first_props(f.inner, f.p, prev + 1);
        }
    }
}

/// Interleave ordering: the elements at even output positions are the
/// left sequence's, those at odd positions the right sequence's, each
/// advancing by one every two outputs.
pub proof fn lemma_take_interleave<A: Node, B: Node<Elem = A::Elem>>(
    w: Interleaved<A, B>,
    out: Seq<A::Elem>,
    n: nat,
)
    requires
        !w.flip,
        out.len() == n,
        forall|i: int| 0 <= i < n ==> out[i] == w.at(i as nat),
    ensures
        forall|k: int| 0 <= k && 2 * k < n ==> out[2 * k] == #[trigger] w.a.at(k as nat),
        forall|k: int| 0 <= k && 2 * k + 1 < n ==> out[2 * k + 1] == #[trigger] w.b.at(k as nat),
{
    assert forall|k: int| 0 <= k && 2 * k < n implies out[2 * k] == #[trigger] w.a.at(
        k as nat,
    ) by {
        assert((2 * k) % 2 == 0 && (2 * k) / 2 == k) by (nonlinear_arith);
    }
    assert forall|k: int| 0 <= k && 2 * k + 1 < n implies out[2 * k + 1] == #[trigger] w.b.at(
        k as nat,
    ) by {
        assert((2 * k + 1) % 2 == 1 && (2 * k + 1) / 2 == k) by (nonlinear_arith);
    }
}

/// Elementwise arithmetic: each materialized element of the combined
/// sequence is the operation applied to the inputs' materialized elements
/// at the same position.
pub proof fn lemma_take_pointwise<A: Node, B: Node<Elem = A::Elem>>(
    w: Pointwise<A, B>,
    out: Seq<A::Elem>,
    a_out: Seq<A::Elem>,
    b_out: Seq<A::Elem>,
    n: nat,
) where A::Elem: Arith
    requires
        out.len() == n,
        a_out.len() == n,
        b_out.len() == n,
        forall|i: int| 0 <= i < n ==> out[i] == w.at(i as nat),
        forall|i: int| 0 <= i < n ==> a_out[i] == w.a.at(i as nat),
        forall|i: int| 0 <= i < n ==> b_out[i] == w.b.at(i as nat),
    ensures
        forall|i: int| 0 <= i < n ==> out[i] == op_val(w.op, a_out[i], b_out[i]),
{
}

} // verus!
