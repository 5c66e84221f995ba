//! Ready-made element functions: parity predicates, a doubling
//! transformation, the pair projection, and the Fibonacci pair step.
//! They are the stateless capabilities the scenario sequences plug into
//! `map`, `filter` and `unfold`.

use vstd::prelude::*;

use crate::node::{Predicate, Stepper, Transform};

verus! {

/// Accepts the even integers.
#[derive(Clone, Copy)]
pub struct IsEven;

impl Predicate for IsEven {
    type Elem = i64;

    open spec fn val(self, x: i64) -> bool {
        x % 2 == 0
    }

    fn test(&self, x: i64) -> (r: bool) {
        x % 2 == 0
    }
}

/// Accepts the odd integers.
#[derive(Clone, Copy)]
pub struct IsOdd;

impl Predicate for IsOdd {
    type Elem = i64;

    open spec fn val(self, x: i64) -> bool {
        x % 2 != 0
    }

    fn test(&self, x: i64) -> (r: bool) {
        x % 2 != 0
    }
}

/// Doubles an integer.
#[derive(Clone, Copy)]
pub struct Doubler;

impl Transform for Doubler {
    type In = i64;

    type Out = i64;

    open spec fn can(self, x: i64) -> bool {
        i64::MIN <= 2 * x <= i64::MAX
    }

    open spec fn val(self, x: i64) -> i64 {
        (2 * x) as i64
    }

    fn apply(&self, x: i64) -> (r: i64) {
        2 * x
    }
}

/// A copyable pair of integers, the state of paired recurrences.
#[derive(Clone, Copy, PartialEq, Eq, Structural)]
pub struct Pair {
    pub fst: i64,
    pub snd: i64,
}

/// Projects the first component of a pair.
#[derive(Clone, Copy)]
pub struct First;

impl Transform for First {
    type In = Pair;

    type Out = i64;

    open spec fn can(self, x: Pair) -> bool {
        true
    }

    open spec fn val(self, x: Pair) -> i64 {
        x.fst
    }

    fn apply(&self, x: Pair) -> (r: i64) {
        x.fst
    }
}

/// The Fibonacci recurrence on pairs: `(x, y)` becomes `(y, x + y)`.
#[derive(Clone, Copy)]
pub struct FibStep;

impl Stepper for FibStep {
    type St = Pair;

    open spec fn can(self, x: Pair) -> bool {
        i64::MIN <= x.fst + x.snd <= i64::MAX
    }

    open spec fn val(self, x: Pair) -> Pair {
        Pair { fst: x.snd, snd: (x.fst + x.snd) as i64 }
    }

    fn apply(&self, x: Pair) -> (r: Pair) {
        Pair { fst: x.snd, snd: x.fst + x.snd }
    }
}

} // verus!
