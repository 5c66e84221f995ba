//! The core abstraction: a sequence node.
//!
//! A node is a small, freely copyable state value that denotes an infinite
//! sequence.  Its meaning is the model `at(i)`: the `i`-th element of that
//! sequence.  `head` reads element zero; `step` is the tail-generator, a
//! pure transition to the state denoting the rest of the sequence.  Because
//! nodes are plain values, holding a node twice and stepping each copy
//! independently yields equal results: the contracts below pin the whole
//! behavior of the successor state from the predecessor's model alone.
//!
//! Some sequences are only partially computable — an arithmetic progression
//! eventually leaves its element type's range, a step function may not apply
//! forever.  `ok(k)` says that the first `k` transitions (and every head
//! read along the way) are available; it is monotone, which each
//! implementation proves once in `lemma_ok_mono`.

use vstd::prelude::*;

verus! {

/// A state value denoting an infinite sequence of `Elem` values.
pub trait Node: Copy + Sized {
    type Elem: Copy;

    /// Structural well-formedness, established by constructors and kept by
    /// `step`.
    spec fn inv(self) -> bool;

    /// The model: the `i`-th element of the denoted sequence.
    spec fn at(self, i: nat) -> Self::Elem;

    /// The first `k` transitions from this state are available.
    spec fn ok(self, k: nat) -> bool;

    /// Availability of transitions is downward closed.
    proof fn lemma_ok_mono(self, j: nat, k: nat)
        requires
            self.inv(),
            self.ok(k),
            j <= k,
        ensures
            self.ok(j),
    ;

    /// The current element.
    fn head(&self) -> (r: Self::Elem)
        requires
            self.inv(),
            self.ok(0),
        ensures
            r == self.at(0),
    ;

    /// The tail-generator: the state denoting the rest of the sequence.
    /// Wherever the input's sequence is available, the result's model is
    /// the input's model shifted by one — fully determined by it, so
    /// stepping independently held copies of one node is deterministic.
    fn step(self) -> (r: Self)
        requires
            self.inv(),
            self.ok(1),
        ensures
            r.inv(),
            forall|i: nat| self.ok(i + 1) ==> #[trigger] r.at(i) == self.at(i + 1),
            forall|k: nat| self.ok(k + 1) ==> #[trigger] r.ok(k),
    ;
}

/// A pure endofunction on a state type, driving a general unfolding.
/// `can` admits the states the function may be applied to; `val` is the
/// specification of the result.
pub trait Stepper: Copy + Sized {
    type St: Copy;

    spec fn can(self, x: Self::St) -> bool;

    spec fn val(self, x: Self::St) -> Self::St;

    fn apply(&self, x: Self::St) -> (r: Self::St)
        requires
            self.can(x),
        ensures
            r == self.val(x),
    ;
}

/// A pure elementwise transformation, possibly changing the element type.
pub trait Transform: Copy + Sized {
    type In: Copy;

    type Out: Copy;

    spec fn can(self, x: Self::In) -> bool;

    spec fn val(self, x: Self::In) -> Self::Out;

    fn apply(&self, x: Self::In) -> (r: Self::Out)
        requires
            self.can(x),
        ensures
            r == self.val(x),
    ;
}

/// A total, pure predicate on elements.
pub trait Predicate: Copy + Sized {
    type Elem: Copy;

    spec fn val(self, x: Self::Elem) -> bool;

    fn test(&self, x: Self::Elem) -> (r: bool)
        ensures
            r == self.val(x),
    ;
}

} // verus!
