//! Transformation combinators: map, filter, interleave, and elementwise
//! binary arithmetic.  Each wraps the node state of one or two input
//! sequences and denotes a transformed infinite sequence; no input is ever
//! mutated or consumed.

use vstd::prelude::*;

use crate::arith::Arith;
use crate::matching::{
    ex_first, first_from, fmatch, lemma_first_at_match, lemma_first_props, lemma_nth_chain,
    lemma_nth_ok_mono, lemma_nth_transport, nth_from, nth_from_ok,
};
use crate::node::{Node, Predicate, Transform};

verus! {

/// An elementwise transformation of an inner sequence.
#[derive(Clone, Copy)]
pub struct Mapped<S: Node, F: Transform<In = S::Elem>> {
    pub inner: S,
    pub f: F,
}

impl<S: Node, F: Transform<In = S::Elem>> Node for Mapped<S, F> {
    type Elem = F::Out;

    open spec fn inv(self) -> bool {
        self.inner.inv()
    }

    open spec fn at(self, i: nat) -> F::Out {
        self.f.val(self.inner.at(i))
    }

    open spec fn ok(self, k: nat) -> bool {
        self.inner.ok(k) && forall|j: nat| j <= k ==> #[trigger] self.f.can(self.inner.at(j))
    }

    proof fn lemma_ok_mono(self, j: nat, k: nat) {
        self.inner.lemma_ok_mono(j, k);
    }

    fn head(&self) -> (r: F::Out) {
        self.f.apply(self.inner.head())
    }

    fn step(self) -> (r: Self) {
        let next = Mapped { inner: self.inner.step(), f: self.f };
        proof {
            assert forall|k: nat| self.ok(k + 1) implies #[trigger] next.ok(k) by {
                assert forall|j: nat| j <= k implies #[trigger] next.f.can(
                    next.inner.at(j),
                ) by {
                    self.inner.lemma_ok_mono(j + 1, k + 1);
                    assert(next.inner.at(j) == self.inner.at(j + 1));
                    assert(self.f.can(self.inner.at(j + 1)));
                }
            }
        }
        next
    }
}

/// The subsequence of an inner sequence whose elements satisfy a
/// predicate, in their original order.  The state keeps the inner
/// sequence positioned on a match, so the invariant says the inner head
/// satisfies the predicate.
///
/// Advancing skips past every rejected element to the next match; the
/// precondition (`ok`) that the required matches exist within the inner
/// sequence's availability is what bounds that search.  Over a sequence
/// with no further match the search would not terminate, by design; that
/// caveat surfaces here as the `ok` obligation on callers.
#[derive(Clone, Copy)]
pub struct Filtered<S: Node, P: Predicate<Elem = S::Elem>> {
    pub inner: S,
    pub p: P,
}

impl<S: Node, P: Predicate<Elem = S::Elem>> Node for Filtered<S, P> {
    type Elem = S::Elem;

    open spec fn inv(self) -> bool {
        self.inner.inv() && self.p.val(self.inner.at(0))
    }

    open spec fn at(self, i: nat) -> S::Elem {
        self.inner.at(nth_from(self.inner, self.p, 0, i))
    }

    open spec fn ok(self, k: nat) -> bool {
        nth_from_ok(self.inner, self.p, 0, k) && self.inner.ok(
            nth_from(self.inner, self.p, 0, k),
        )
    }

    proof fn lemma_ok_mono(self, j: nat, k: nat) {
        lemma_nth_ok_mono(self.inner, self.p, 0, j, k);
        self.inner.lemma_ok_mono(
            nth_from(self.inner, self.p, 0, j),
            nth_from(self.inner, self.p, 0, k),
        );
    }

    fn head(&self) -> (r: S::Elem) {
        proof {
            lemma_first_at_match(self.inner, self.p, 0);
            assert(nth_from(self.inner, self.p, 0, 0) == 0);
        }
        self.inner.head()
    }

    fn step(self) -> (r: Self) {
        proof {
            lemma_first_at_match(self.inner, self.p, 0);
            assert(nth_from(self.inner, self.p, 0, 0) == 0);
            assert(nth_from_ok(self.inner, self.p, 0, 1) ==> ex_first(self.inner, self.p, 1));
            assert(nth_from(self.inner, self.p, 0, 1) == first_from(self.inner, self.p, 1));
            lemma_first_props(self.inner, self.p, 1);
        }
        let ghost m: nat = first_from(self.inner, self.p, 1);
        proof {
            self.inner.lemma_ok_mono(1, m);
        }
        let mut cur = self.inner.step();
        let ghost j: nat = 1;
        loop
            invariant
                self.inv(),
                self.ok(1),
                m == first_from(self.inner, self.p, 1),
                fmatch(self.inner, self.p, 1, m),
                self.inner.ok(m),
                1 <= j <= m,
                cur.inv(),
                forall|q: nat| self.inner.ok((q + j) as nat) ==> #[trigger] cur.ok(q),
                forall|u: nat|
                    self.inner.ok((u + j) as nat) ==> #[trigger] cur.at(u) == self.inner.at(
                        (u + j) as nat,
                    ),
            ensures
                cur.inv(),
                forall|q: nat| self.inner.ok((q + m) as nat) ==> #[trigger] cur.ok(q),
                forall|u: nat|
                    self.inner.ok((u + m) as nat) ==> #[trigger] cur.at(u) == self.inner.at(
                        (u + m) as nat,
                    ),
            decreases m - j,
        {
            proof {
                self.inner.lemma_ok_mono(j, m);
                assert(cur.ok(0));
                assert(cur.at(0) == self.inner.at(j));
            }
            let h = cur.head();
            if self.p.test(h) {
                proof {
                    assert(j == m);
                }
                break;
            }
            proof {
                assert(j < m);
                self.inner.lemma_ok_mono(j + 1, m);
                assert(cur.ok(1));
            }
            let ghost prev = cur;
            cur = cur.step();
            proof {
                j = j + 1;
                assert forall|q: nat| self.inner.ok((q + j) as nat) implies #[trigger] cur.ok(
                    q,
                ) by {
                    assert(prev.ok((q + 1) as nat));
                }
                assert forall|u: nat| self.inner.ok((u + j) as nat) implies #[trigger] cur.at(u)
                    == self.inner.at((u + j) as nat) by {
                    assert(prev.ok((u + 1) as nat));
                    assert(cur.at(u) == prev.at((u + 1) as nat));
                }
            }
        }
        let next = Filtered { inner: cur, p: self.p };
        proof {
            assert(self.inner.ok((0 + m) as nat));
            assert(cur.at(0) == self.inner.at(m));
            assert(next.inv());
            assert forall|i: nat| self.ok(i + 1) implies #[trigger] next.at(i) == self.at(
                i + 1,
            ) by {
                lemma_filter_advance(self, cur, m, i);
            }
            assert forall|k: nat| self.ok(k + 1) implies #[trigger] next.ok(k) by {
                lemma_filter_advance(self, cur, m, k);
                let big = nth_from(self.inner, self.p, 0, k + 1);
                assert(cur.ok((big - m) as nat));
            }
        }
        next
    }
}

/// After a filter has skipped to the next match — `cur` denotes the inner
/// sequence seen from `m`, its first match at or after one — the match
/// chain of `cur` continues the inner sequence's own chain, one match
/// later.
proof fn lemma_filter_advance<S: Node, P: Predicate<Elem = S::Elem>>(
    f: Filtered<S, P>,
    cur: S,
    m: nat,
    i: nat,
)
    requires
        f.inv(),
        f.ok(i + 1),
        ex_first(f.inner, f.p, 1),
        m == first_from(f.inner, f.p, 1),
        forall|u: nat|
            f.inner.ok((u + m) as nat) ==> #[trigger] cur.at(u) == f.inner.at((u + m) as nat),
    ensures
        nth_from_ok(cur, f.p, 0, i),
        nth_from(cur, f.p, 0, i) + m == nth_from(f.inner, f.p, 0, i + 1),
        cur.at(nth_from(cur, f.p, 0, i)) == f.inner.at(nth_from(f.inner, f.p, 0, i + 1)),
{
    let s = f.inner;
    let p = f.p;
    lemma_first_at_match(s, p, 0);
    lemma_nth_chain(s, p, 0, i);
    assert(first_from(s, p, 0) == 0);
    assert(nth_from(s, p, 0, i + 1) == nth_from(s, p, 1, i));
    assert(nth_from_ok(s, p, 1, i));
    lemma_nth_transport(s, cur, p, 1, i);
    let big = nth_from(s, p, 0, i + 1);
    assert(nth_from(cur, p, 0, i) + m == big);
    assert(cur.at((big - m) as nat) == s.at(big));
}

/// The alternating merge of two sequences.  `flip` records whose turn it
/// is: with `flip` false the next element comes from `a`, with `flip` true
/// from `b`.  Each branch retains its own unconsumed state independently.
#[derive(Clone, Copy)]
pub struct Interleaved<A: Node, B: Node<Elem = A::Elem>> {
    pub a: A,
    pub b: B,
    pub flip: bool,
}

impl<A: Node, B: Node<Elem = A::Elem>> Node for Interleaved<A, B> {
    type Elem = A::Elem;

    open spec fn inv(self) -> bool {
        self.a.inv() && self.b.inv()
    }

    open spec fn at(self, i: nat) -> A::Elem {
        if !self.flip {
            if i % 2 == 0 {
                self.a.at(i / 2)
            } else {
                self.b.at(i / 2)
            }
        } else {
            if i % 2 == 0 {
                self.b.at(i / 2)
            } else {
                self.a.at(i / 2)
            }
        }
    }

    open spec fn ok(self, k: nat) -> bool {
        if !self.flip {
            self.a.ok((k + 1) / 2) && self.b.ok(k / 2)
        } else {
            self.a.ok(k / 2) && self.b.ok((k + 1) / 2)
        }
    }

    proof fn lemma_ok_mono(self, j: nat, k: nat) {
        if !self.flip {
            self.a.lemma_ok_mono((j + 1) / 2, (k + 1) / 2);
            self.b.lemma_ok_mono(j / 2, k / 2);
        } else {
            self.a.lemma_ok_mono(j / 2, k / 2);
            self.b.lemma_ok_mono((j + 1) / 2, (k + 1) / 2);
        }
    }

    fn head(&self) -> (r: A::Elem) {
        if !self.flip {
            self.a.head()
        } else {
            self.b.head()
        }
    }

    fn step(self) -> (r: Self) {
        if !self.flip {
            Interleaved { a: self.a.step(), b: self.b, flip: true }
        } else {
            Interleaved { a: self.a, b: self.b.step(), flip: false }
        }
    }
}

/// One of the four elementwise arithmetic operations.
#[derive(Clone, Copy, PartialEq, Eq, Structural)]
pub enum BinOp {
    Plus,
    Minus,
    Times,
    Quot,
}

/// Whether `op` applies to the element pair, by the element type's own
/// contract.  Division in particular follows the type's native division:
/// nothing here intercepts a divisor the type rejects.
pub open spec fn op_ok<T: Arith>(op: BinOp, x: T, y: T) -> bool {
    match op {
        BinOp::Plus => x.add_ok(y),
        BinOp::Minus => x.sub_ok(y),
        BinOp::Times => x.mul_ok(y),
        BinOp::Quot => x.div_ok(y),
    }
}

/// The value of `op` on the element pair.
pub open spec fn op_val<T: Arith>(op: BinOp, x: T, y: T) -> T {
    match op {
        BinOp::Plus => x.add_val(y),
        BinOp::Minus => x.sub_val(y),
        BinOp::Times => x.mul_val(y),
        BinOp::Quot => x.div_val(y),
    }
}

/// The elementwise combination of two sequences under one arithmetic
/// operation.
#[derive(Clone, Copy)]
pub struct Pointwise<A: Node, B: Node<Elem = A::Elem>> where A::Elem: Arith {
    pub op: BinOp,
    pub a: A,
    pub b: B,
}

impl<A: Node, B: Node<Elem = A::Elem>> Node for Pointwise<A, B> where A::Elem: Arith {
    type Elem = A::Elem;

    open spec fn inv(self) -> bool {
        self.a.inv() && self.b.inv()
    }

    open spec fn at(self, i: nat) -> A::Elem {
        op_val(self.op, self.a.at(i), self.b.at(i))
    }

    open spec fn ok(self, k: nat) -> bool {
        self.a.ok(k) && self.b.ok(k) && forall|j: nat|
            j <= k ==> #[trigger] op_ok(self.op, self.a.at(j), self.b.at(j))
    }

    proof fn lemma_ok_mono(self, j: nat, k: nat) {
        self.a.lemma_ok_mono(j, k);
        self.b.lemma_ok_mono(j, k);
    }

    fn head(&self) -> (r: A::Elem) {
        let x = self.a.head();
        let y = self.b.head();
        proof {
            assert(op_ok(self.op, self.a.at(0), self.b.at(0)));
        }
        match self.op {
            BinOp::Plus => x.add(y),
            BinOp::Minus => x.sub(y),
            BinOp::Times => x.mul(y),
            BinOp::Quot => x.div(y),
        }
    }

    fn step(self) -> (r: Self) {
        let next = Pointwise { op: self.op, a: self.a.step(), b: self.b.step() };
        proof {
            assert forall|k: nat| self.ok(k + 1) implies #[trigger] next.ok(k) by {
                assert forall|j: nat| j <= k implies #[trigger] op_ok(
                    next.op,
                    next.a.at(j),
                    next.b.at(j),
                ) by {
                    self.a.lemma_ok_mono(j + 1, k + 1);
                    self.b.lemma_ok_mono(j + 1, k + 1);
                    assert(next.a.at(j) == self.a.at(j + 1));
                    assert(next.b.at(j) == self.b.at(j + 1));
                    assert(op_ok(self.op, self.a.at(j + 1), self.b.at(j + 1)));
                }
            }
        }
        next
    }
}

} // verus!
