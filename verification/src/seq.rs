//! The public face of the library: `RSeq`, a lazy infinite sequence, and
//! `RSeqIter`, its pull iterator.
//!
//! `RSeq` wraps a sequence node (see [`crate::node::Node`]).  Constructors
//! and combinators build new node states; nothing is computed until the
//! sequence is advanced.  Advancing never consumes a sequence: nodes are
//! plain copyable values, so a retained copy stays valid and yields the
//! same elements again — the tail-generators are pure.
//!
//! Materializing a prefix is `take`; `take(0)` is defined to yield the
//! empty vector.  Unbounded consumption goes through `RSeqIter`, which
//! keeps a cursor and never signals exhaustion.

use vstd::prelude::*;

use crate::arith::Arith;
use crate::combinators::{op_val, BinOp, Filtered, Interleaved, Mapped, Pointwise};
use crate::matching::{
    first_from, fmatch, lemma_ex_first, lemma_first_props, lemma_nth_transport, nth_from,
    nth_from_ok,
};
use crate::node::{Node, Predicate, Stepper, Transform};
use crate::sources::{Constant, Increment, Unfolding};

verus! {

/// A lazy infinite sequence: a present head plus a deferred, re-invokable
/// rule for the rest, carried as the node state `node`.
#[derive(Clone, Copy)]
pub struct RSeq<S: Node> {
    pub node: S,
}

/// A pull iterator over a lazy sequence: a mutable cursor that yields the
/// current head and advances.  It is infinite; any bound is the caller's.
/// Restart by retaining a copy of the starting sequence.
#[derive(Clone, Copy)]
pub struct RSeqIter<S: Node> {
    pub curr: RSeq<S>,
}

impl<S: Node> RSeq<S> {
    /// The model: the `i`-th element of the sequence.
    pub open spec fn at(self, i: nat) -> S::Elem {
        self.node.at(i)
    }

    pub open spec fn inv(self) -> bool {
        self.node.inv()
    }

    /// The first `k` advances of this sequence are available.
    pub open spec fn ok(self, k: nat) -> bool {
        self.node.ok(k)
    }

    /// Invokes the tail-generator once: the sequence of all elements after
    /// the head.  Pure and repeatable; the original sequence stays valid.
    pub fn thunk(&self) -> (r: Self)
        requires
            self.inv(),
            self.ok(1),
        ensures
            r.inv(),
            forall|i: nat| self.ok(i + 1) ==> #[trigger] r.at(i) == self.at(i + 1),
            forall|k: nat| self.ok(k + 1) ==> #[trigger] r.ok(k),
    {
        RSeq { node: self.node.step() }
    }

    /// Materializes the first `n` elements, in order.  A request for zero
    /// elements is defined to yield the empty vector.
    pub fn take(&self, n: usize) -> (out: Vec<S::Elem>)
        requires
            self.inv(),
            n >= 1 ==> self.ok((n - 1) as nat),
        ensures
            out.len() == n,
            forall|i: int| 0 <= i < n ==> out[i] == self.at(i as nat),
    {
        let mut out: Vec<S::Elem> = Vec::new();
        if n == 0 {
            return out;
        }
        let mut cur: S = self.node;
        proof {
            cur.lemma_ok_mono(0, (n - 1) as nat);
        }
        out.push(cur.head());
        let mut i: usize = 1;
        while i < n
            invariant
                1 <= i <= n,
                cur.inv(),
                cur.ok((n - i) as nat),
                out.len() == i,
                forall|j: int| 0 <= j < i ==> out[j] == self.at(j as nat),
                forall|m: nat| m + i <= n ==> #[trigger] cur.at(m) == self.at(
                    (m + i - 1) as nat,
                ),
            decreases n - i,
        {
            proof {
                cur.lemma_ok_mono(1, (n - i) as nat);
            }
            let ghost prev = cur;
            cur = cur.step();
            proof {
                cur.lemma_ok_mono(0, (n - i - 1) as nat);
                assert forall|m: nat| m + i + 1 <= n implies #[trigger] cur.at(m) == self.at(
                    (m + i) as nat,
                ) by {
                    prev.lemma_ok_mono((m + 1) as nat, (n - i) as nat);
                    assert(prev.at((m + 1) as nat) == self.at((m + i) as nat));
                }
            }
            out.push(cur.head());
            i = i + 1;
        }
        out
    }

    /// The elementwise transformation of this sequence under `f`.
    pub fn map<F: Transform<In = S::Elem>>(&self, f: F) -> (r: RSeq<Mapped<S, F>>)
        requires
            self.inv(),
        ensures
            r.inv(),
            r.node == (Mapped { inner: self.node, f }),
            forall|i: nat| #[trigger] r.at(i) == f.val(self.at(i)),
    {
        RSeq { node: Mapped { inner: self.node, f } }
    }

    /// The subsequence of elements satisfying `p`, in their original
    /// order: element `i` of the result is the element of this sequence at
    /// the `i`-th matching index.  The search for a match would not
    /// terminate over a sequence with no further match, by design; hence
    /// the precondition that a match is reachable, and the availability
    /// guards on the conclusions.
    pub fn filter<P: Predicate<Elem = S::Elem>>(&self, p: P) -> (r: RSeq<Filtered<S, P>>)
        requires
            self.inv(),
            exists|k: nat| #[trigger] self.ok(k) && p.val(self.at(k)),
        ensures
            r.inv(),
            forall|i: nat|
                nth_from_ok(self.node, p, 0, i) && self.node.ok(nth_from(self.node, p, 0, i))
                    ==> #[trigger] r.at(i) == self.at(nth_from(self.node, p, 0, i)),
            forall|k: nat|
                nth_from_ok(self.node, p, 0, k) && self.node.ok(nth_from(self.node, p, 0, k))
                    ==> #[trigger] r.ok(k),
    {
        proof {
            let k0 = choose|k: nat| #[trigger] self.ok(k) && p.val(self.at(k));
            lemma_ex_first(self.node, p, 0, k0);
            lemma_first_props(self.node, p, 0);
            self.node.lemma_ok_mono(first_from(self.node, p, 0), k0);
        }
        let ghost m: nat = first_from(self.node, p, 0);
        let mut cur: S = self.node;
        let ghost j: nat = 0;
        loop
            invariant
                self.inv(),
                m == first_from(self.node, p, 0),
                fmatch(self.node, p, 0, m),
                self.node.ok(m),
                j <= m,
                cur.inv(),
                forall|q: nat| self.node.ok((q + j) as nat) ==> #[trigger] cur.ok(q),
                forall|u: nat|
                    self.node.ok((u + j) as nat) ==> #[trigger] cur.at(u) == self.node.at(
                        (u + j) as nat,
                    ),
            ensures
                cur.inv(),
                forall|q: nat| self.node.ok((q + m) as nat) ==> #[trigger] cur.ok(q),
                forall|u: nat|
                    self.node.ok((u + m) as nat) ==> #[trigger] cur.at(u) == self.node.at(
                        (u + m) as nat,
                    ),
            decreases m - j,
        {
            proof {
                self.node.lemma_ok_mono(j, m);
                assert(cur.ok(0));
                assert(cur.at(0) == self.node.at(j));
            }
            let h = cur.head();
            if p.test(h) {
                proof {
                    assert(j == m);
                }
                break;
            }
            proof {
                assert(j < m);
                self.node.lemma_ok_mono(j + 1, m);
                assert(cur.ok(1));
            }
            let ghost prev = cur;
            cur = cur.step();
            proof {
                j = j + 1;
                assert forall|q: nat| self.node.ok((q + j) as nat) implies #[trigger] cur.ok(
                    q,
                ) by {
                    assert(prev.ok((q + 1) as nat));
                }
                assert forall|u: nat| self.node.ok((u + j) as nat) implies #[trigger] cur.at(u)
                    == self.node.at((u + j) as nat) by {
                    assert(prev.ok((u + 1) as nat));
                    assert(cur.at(u) == prev.at((u + 1) as nat));
                }
            }
        }
        let r = RSeq { node: Filtered { inner: cur, p } };
        proof {
            assert(self.node.ok((0 + m) as nat));
            assert(cur.at(0) == self.node.at(m));
            assert forall|i: nat|
                nth_from_ok(self.node, p, 0, i) && self.node.ok(
                    nth_from(self.node, p, 0, i),
                ) implies #[trigger] r.at(i) == self.at(nth_from(self.node, p, 0, i)) by {
                lemma_nth_transport(self.node, cur, p, 0, i);
                let big = nth_from(self.node, p, 0, i);
                assert(cur.at((big - m) as nat) == self.node.at(big));
            }
            assert forall|k: nat|
                nth_from_ok(self.node, p, 0, k) && self.node.ok(
                    nth_from(self.node, p, 0, k),
                ) implies #[trigger] r.ok(k) by {
                lemma_nth_transport(self.node, cur, p, 0, k);
                let big = nth_from(self.node, p, 0, k);
                assert(cur.ok((big - m) as nat));
            }
        }
        r
    }

    /// The alternating merge: this sequence's elements at even output
    /// positions, `right`'s at odd ones.  Both inputs stay valid and
    /// independent.
    pub fn interleave<S2: Node<Elem = S::Elem>>(left: &RSeq<S>, right: &RSeq<S2>) -> (r: RSeq<
        Interleaved<S, S2>,
    >)
        requires
            left.inv(),
            right.inv(),
        ensures
            r.inv(),
            r.node == (Interleaved { a: left.node, b: right.node, flip: false }),
            forall|i: nat| i % 2 == 0 ==> #[trigger] r.at(i) == left.at(i / 2),
            forall|i: nat| i % 2 == 1 ==> #[trigger] r.at(i) == right.at(i / 2),
    {
        RSeq { node: Interleaved { a: left.node, b: right.node, flip: false } }
    }

    /// Wraps the sequence as a pull iterator starting at its head.
    pub fn into_iter(self) -> (r: RSeqIter<S>)
        ensures
            r.curr == self,
    {
        RSeqIter::new(self)
    }
}

impl<S: Node> RSeq<S> where S::Elem: Arith {
    /// The elementwise sum of two sequences.
    pub fn add<S2: Node<Elem = S::Elem>>(&self, o: &RSeq<S2>) -> (r: RSeq<Pointwise<S, S2>>)
        requires
            self.inv(),
            o.inv(),
        ensures
            r.inv(),
            r.node == (Pointwise { op: BinOp::Plus, a: self.node, b: o.node }),
            forall|i: nat| #[trigger] r.at(i) == op_val(BinOp::Plus, self.at(i), o.at(i)),
    {
        RSeq { node: Pointwise { op: BinOp::Plus, a: self.node, b: o.node } }
    }

    /// The elementwise difference of two sequences.
    pub fn sub<S2: Node<Elem = S::Elem>>(&self, o: &RSeq<S2>) -> (r: RSeq<Pointwise<S, S2>>)
        requires
            self.inv(),
            o.inv(),
        ensures
            r.inv(),
            r.node == (Pointwise { op: BinOp::Minus, a: self.node, b: o.node }),
            forall|i: nat| #[trigger] r.at(i) == op_val(BinOp::Minus, self.at(i), o.at(i)),
    {
        RSeq { node: Pointwise { op: BinOp::Minus, a: self.node, b: o.node } }
    }

    /// The elementwise product of two sequences.
    pub fn mul<S2: Node<Elem = S::Elem>>(&self, o: &RSeq<S2>) -> (r: RSeq<Pointwise<S, S2>>)
        requires
            self.inv(),
            o.inv(),
        ensures
            r.inv(),
            r.node == (Pointwise { op: BinOp::Times, a: self.node, b: o.node }),
            forall|i: nat| #[trigger] r.at(i) == op_val(BinOp::Times, self.at(i), o.at(i)),
    {
        RSeq { node: Pointwise { op: BinOp::Times, a: self.node, b: o.node } }
    }

    /// The elementwise quotient of two sequences, under the element type's
    /// own division contract: nothing is checked or substituted here.
    pub fn div<S2: Node<Elem = S::Elem>>(&self, o: &RSeq<S2>) -> (r: RSeq<Pointwise<S, S2>>)
        requires
            self.inv(),
            o.inv(),
        ensures
            r.inv(),
            r.node == (Pointwise { op: BinOp::Quot, a: self.node, b: o.node }),
            forall|i: nat| #[trigger] r.at(i) == op_val(BinOp::Quot, self.at(i), o.at(i)),
    {
        RSeq { node: Pointwise { op: BinOp::Quot, a: self.node, b: o.node } }
    }
}

impl<T: Copy> RSeq<Constant<T>> {
    /// The infinite repetition of `v`.
    pub fn cnst(v: T) -> (r: Self)
        ensures
            r.inv(),
            forall|i: nat| #[trigger] r.at(i) == v,
            forall|k: nat| #[trigger] r.ok(k),
    {
        RSeq { node: Constant { v } }
    }
}

impl<T: Arith> RSeq<Increment<T>> {
    /// The arithmetic progression `start`, `start + 1`, `start + 2`, ...
    pub fn incr(start: T) -> (r: Self)
        ensures
            r.inv(),
            r.node == (Increment { cur: start }),
            forall|i: nat| #[trigger] r.at(i) == crate::sources::succ_at(start, i),
    {
        RSeq { node: Increment { cur: start } }
    }
}

impl<F: Stepper> RSeq<Unfolding<F>> {
    /// The general recurrence: `seed`, `f(seed)`, `f(f(seed))`, ...
    pub fn unfold(seed: F::St, f: F) -> (r: Self)
        ensures
            r.inv(),
            r.node == (Unfolding { cur: seed, f }),
            forall|i: nat| #[trigger] r.at(i) == crate::sources::iter_at(f, seed, i),
    {
        RSeq { node: Unfolding { cur: seed, f } }
    }
}

impl<S: Node> RSeqIter<S> {
    /// The model of the cursor position.
    pub open spec fn at(self, i: nat) -> S::Elem {
        self.curr.at(i)
    }

    pub open spec fn inv(self) -> bool {
        self.curr.inv()
    }

    pub open spec fn ok(self, k: nat) -> bool {
        self.curr.ok(k)
    }

    /// A pull iterator positioned at the head of `start`.
    pub fn new(start: RSeq<S>) -> (r: Self)
        ensures
            r.curr == start,
    {
        RSeqIter { curr: start }
    }

    /// Yields the element under the cursor and advances the cursor.  The
    /// sequence is infinite, so this always yields a value.
    pub fn next(&mut self) -> (r: Option<S::Elem>)
        requires
            old(self).inv(),
            old(self).ok(1),
        ensures
            final(self).inv(),
            r == Some(old(self).at(0)),
            forall|i: nat| old(self).ok(i + 1) ==> #[trigger] final(self).at(i) == old(self).at(
                i + 1,
            ),
            forall|k: nat| old(self).ok(k + 1) ==> #[trigger] final(self).ok(k),
    {
        proof {
            self.curr.node.lemma_ok_mono(0, 1);
        }
        let out = self.curr.node.head();
        self.curr = self.curr.thunk();
        Some(out)
    }
}

} // verus!
