//! The arithmetic capability an element type supplies.
//!
//! The sequence core itself implements no arithmetic.  Whatever the
//! arithmetic progression constructor and the elementwise combinators need
//! from the element type — a unit for the successor step, addition,
//! subtraction, multiplication, division — the type brings along by
//! implementing [`Arith`].  Each executable operation carries a
//! specification twin (`add_val`, ...) and an applicability condition
//! (`add_ok`, ...) that rules out the inputs on which the operation would
//! fault, so that verified callers never overflow or divide by zero.

use vstd::prelude::*;

verus! {

/// Truncating integer division (rounding toward zero), as machine signed
/// division performs it, expressed over unbounded integers.
pub open spec fn tdiv(x: int, d: int) -> int {
    if x == 0 {
        0
    } else if x > 0 && d > 0 {
        x / d
    } else if x < 0 && d < 0 {
        (x * -1) / (d * -1)
    } else if x < 0 {
        ((x * -1) / d) * -1
    } else {
        (x / (d * -1)) * -1
    }
}

/// The operations an element type offers to the sequence constructors and
/// combinators.  Division follows the type's native division contract:
/// `div_ok` admits exactly the divisions the type itself defines, and the
/// combinators never intercept or substitute for it.
pub trait Arith: Copy + Sized {
    /// The unit of the successor step, as a specification value.
    spec fn one_val() -> Self;

    spec fn add_ok(self, o: Self) -> bool;

    spec fn add_val(self, o: Self) -> Self;

    spec fn sub_ok(self, o: Self) -> bool;

    spec fn sub_val(self, o: Self) -> Self;

    spec fn mul_ok(self, o: Self) -> bool;

    spec fn mul_val(self, o: Self) -> Self;

    spec fn div_ok(self, o: Self) -> bool;

    spec fn div_val(self, o: Self) -> Self;

    fn one() -> (r: Self)
        ensures
            r == Self::one_val(),
    ;

    fn add(self, o: Self) -> (r: Self)
        requires
            self.add_ok(o),
        ensures
            r == self.add_val(o),
    ;

    fn sub(self, o: Self) -> (r: Self)
        requires
            self.sub_ok(o),
        ensures
            r == self.sub_val(o),
    ;

    fn mul(self, o: Self) -> (r: Self)
        requires
            self.mul_ok(o),
        ensures
            r == self.mul_val(o),
    ;

    fn div(self, o: Self) -> (r: Self)
        requires
            self.div_ok(o),
        ensures
            r == self.div_val(o),
    ;
}

impl Arith for i64 {
    open spec fn one_val() -> i64 {
        1
    }

    open spec fn add_ok(self, o: i64) -> bool {
        i64::MIN <= self + o <= i64::MAX
    }

    open spec fn add_val(self, o: i64) -> i64 {
        (self + o) as i64
    }

    open spec fn sub_ok(self, o: i64) -> bool {
        i64::MIN <= self - o <= i64::MAX
    }

    open spec fn sub_val(self, o: i64) -> i64 {
        (self - o) as i64
    }

    open spec fn mul_ok(self, o: i64) -> bool {
        i64::MIN <= self * o <= i64::MAX
    }

    open spec fn mul_val(self, o: i64) -> i64 {
        (self * o) as i64
    }

    open spec fn div_ok(self, o: i64) -> bool {
        o != 0 && !(self == i64::MIN && o == -1)
    }

    open spec fn div_val(self, o: i64) -> i64 {
        tdiv(self as int, o as int) as i64
    }

    fn one() -> (r: i64) {
        1
    }

    fn add(self, o: i64) -> (r: i64) {
        self + o
    }

    fn sub(self, o: i64) -> (r: i64) {
        self - o
    }

    fn mul(self, o: i64) -> (r: i64) {
        self * o
    }

    fn div(self, o: i64) -> (r: i64) {
        proof {
            lemma_tdiv_in_i64_range(self as int, o as int);
        }
        self.checked_div(o).unwrap()
    }
}

/// Within the bounds excluded by `div_ok`, truncating division of `i64`
/// values never leaves the `i64` range.
proof fn lemma_tdiv_in_i64_range(x: int, d: int)
    requires
        i64::MIN <= x <= i64::MAX,
        i64::MIN <= d <= i64::MAX,
        d != 0,
        !(x == i64::MIN && d == -1),
    ensures
        i64::MIN <= tdiv(x, d) <= i64::MAX,
{
    if x == 0 {
    } else if x > 0 && d > 0 {
        lemma_div_shrinks(x, d);
    } else if x < 0 && d < 0 {
        lemma_div_shrinks(x * -1, d * -1);
        if d != -1 {
            // The magnitude of the numerator can exceed i64::MAX by one, so
            // bound the quotient by half the numerator's ceiling instead.
            vstd::arithmetic::div_mod::lemma_div_is_ordered_by_denominator(x * -1, 2, d * -1);
            vstd::arithmetic::div_mod::lemma_div_is_ordered(x * -1, 0x8000_0000_0000_0000, 2);
        }
    } else if x < 0 {
        lemma_div_shrinks(x * -1, d);
    } else {
        lemma_div_shrinks(x, d * -1);
    }
}

/// For a nonnegative numerator and a positive denominator, the quotient is
/// between zero and the numerator.
proof fn lemma_div_shrinks(x: int, d: int)
    requires
        x >= 0,
        d >= 1,
    ensures
        0 <= x / d <= x,
{
    vstd::arithmetic::div_mod::lemma_div_pos_is_pos(x, d);
    vstd::arithmetic::div_mod::lemma_div_nonincreasing(x, d);
}

} // verus!
