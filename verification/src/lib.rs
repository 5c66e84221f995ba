//! A lazy, infinite sequence library.
//!
//! A sequence is represented by a small state value (a node) together with a
//! pure transition: `head` reads the current element, `step` produces the
//! state of the rest of the sequence.  Constructors build primitive
//! sequences (a constant, an arithmetic progression, a general unfolding),
//! combinators transform them (map, filter, interleave, elementwise
//! arithmetic), and materialization turns a bounded prefix into a `Vec` or
//! drives the sequence through a pull iterator.
//!
//! Every node's meaning is its mathematical model `at(i)`, the `i`-th
//! element of the infinite sequence it denotes; every operation's contract
//! is stated against that model.

pub mod arith;
pub mod node;
pub mod sources;
pub mod matching;
pub mod combinators;
pub mod seq;
pub mod funcs;
pub mod laws;

pub use arith::Arith;
pub use node::{Node, Predicate, Stepper, Transform};
pub use sources::{Constant, Increment, Unfolding};
pub use combinators::{BinOp, Filtered, Interleaved, Mapped, Pointwise};
pub use seq::{RSeq, RSeqIter};
pub use funcs::{Doubler, FibStep, First, IsEven, IsOdd, Pair};
