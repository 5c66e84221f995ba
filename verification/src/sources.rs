//! Primitive sequence constructors: a constant, an arithmetic progression
//! with step one, and a general unfolding of a seed through a pure step
//! function.

use vstd::prelude::*;

use crate::arith::Arith;
use crate::node::{Node, Stepper};

verus! {

/// The value reached from `x` after applying the successor step `i` times.
pub open spec fn succ_at<T: Arith>(x: T, i: nat) -> T
    decreases i,
{
    if i == 0 {
        x
    } else {
        succ_at(x, (i - 1) as nat).add_val(T::one_val())
    }
}

/// Unrolling a successor chain from the front instead of the back.
pub proof fn lemma_succ_at_unroll<T: Arith>(x: T, i: nat)
    ensures
        succ_at(x, i + 1) == succ_at(x.add_val(T::one_val()), i),
    decreases i,
{
    if i == 0 {
        assert(succ_at(x, 0) == x);
        assert(succ_at(x.add_val(T::one_val()), 0) == x.add_val(T::one_val()));
    } else {
        lemma_succ_at_unroll(x, (i - 1) as nat);
    }
}

/// The value reached from `x` after applying `f` `i` times.
pub open spec fn iter_at<F: Stepper>(f: F, x: F::St, i: nat) -> F::St
    decreases i,
{
    if i == 0 {
        x
    } else {
        f.val(iter_at(f, x, (i - 1) as nat))
    }
}

/// Unrolling an iteration chain from the front instead of the back.
pub proof fn lemma_iter_at_unroll<F: Stepper>(f: F, x: F::St, i: nat)
    ensures
        iter_at(f, x, i + 1) == iter_at(f, f.val(x), i),
    decreases i,
{
    if i == 0 {
        assert(iter_at(f, x, 0) == x);
        assert(iter_at(f, f.val(x), 0) == f.val(x));
    } else {
        lemma_iter_at_unroll(f, x, (i - 1) as nat);
    }
}

/// The infinite repetition of one value.
#[derive(Clone, Copy)]
pub struct Constant<T: Copy> {
    pub v: T,
}

impl<T: Copy> Node for Constant<T> {
    type Elem = T;

    open spec fn inv(self) -> bool {
        true
    }

    open spec fn at(self, i: nat) -> T {
        self.v
    }

    open spec fn ok(self, k: nat) -> bool {
        true
    }

    proof fn lemma_ok_mono(self, j: nat, k: nat) {
    }

    fn head(&self) -> (r: T) {
        self.v
    }

    fn step(self) -> (r: Self) {
        self
    }
}

/// The arithmetic progression with step one, starting at `cur`.
#[derive(Clone, Copy)]
pub struct Increment<T: Arith> {
    pub cur: T,
}

impl<T: Arith> Node for Increment<T> {
    type Elem = T;

    open spec fn inv(self) -> bool {
        true
    }

    open spec fn at(self, i: nat) -> T {
        succ_at(self.cur, i)
    }

    open spec fn ok(self, k: nat) -> bool {
        forall|j: nat| j < k ==> #[trigger] succ_at(self.cur, j).add_ok(T::one_val())
    }

    proof fn lemma_ok_mono(self, j: nat, k: nat) {
    }

    fn head(&self) -> (r: T) {
        self.cur
    }

    fn step(self) -> (r: Self) {
        proof {
            assert(succ_at(self.cur, 0) == self.cur);
            assert(succ_at(self.cur, 0).add_ok(T::one_val()));
        }
        let next = Increment { cur: self.cur.add(T::one()) };
        proof {
            assert forall|i: nat| #[trigger] next.at(i) == self.at(i + 1) by {
                lemma_succ_at_unroll::<T>(self.cur, i);
            }
            assert forall|k: nat| self.ok(k + 1) implies #[trigger] next.ok(k) by {
                assert forall|j: nat| j < k implies #[trigger] succ_at(next.cur, j).add_ok(
                    T::one_val(),
                ) by {
                    lemma_succ_at_unroll::<T>(self.cur, j);
                    assert(succ_at(self.cur, j + 1).add_ok(T::one_val()));
                }
            }
        }
        next
    }
}

/// The general recurrence: `cur`, then `f(cur)`, then `f(f(cur))`, and so
/// on.
#[derive(Clone, Copy)]
pub struct Unfolding<F: Stepper> {
    pub cur: F::St,
    pub f: F,
}

impl<F: Stepper> Node for Unfolding<F> {
    type Elem = F::St;

    open spec fn inv(self) -> bool {
        true
    }

    open spec fn at(self, i: nat) -> F::St {
        iter_at(self.f, self.cur, i)
    }

    open spec fn ok(self, k: nat) -> bool {
        forall|j: nat| j < k ==> #[trigger] self.f.can(iter_at(self.f, self.cur, j))
    }

    proof fn lemma_ok_mono(self, j: nat, k: nat) {
    }

    fn head(&self) -> (r: F::St) {
        self.cur
    }

    fn step(self) -> (r: Self) {
        proof {
            assert(iter_at(self.f, self.cur, 0) == self.cur);
            assert(self.f.can(iter_at(self.f, self.cur, 0)));
        }
        let next = Unfolding { cur: self.f.apply(self.cur), f: self.f };
        proof {
            assert forall|i: nat| #[trigger] next.at(i) == self.at(i + 1) by {
                lemma_iter_at_unroll::<F>(self.f, self.cur, i);
            }
            assert forall|k: nat| self.ok(k + 1) implies #[trigger] next.ok(k) by {
                assert forall|j: nat| j < k implies #[trigger] next.f.can(
                    iter_at(next.f, next.cur, j),
                ) by {
                    lemma_iter_at_unroll::<F>(self.f, self.cur, j);
                    assert(self.f.can(iter_at(self.f, self.cur, j + 1)));
                }
            }
        }
        next
    }
}

} // verus!
