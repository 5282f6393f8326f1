//! A complex number type over the fixed-point scalar.
//!
//! Only what the Mandelbrot engine needs is implemented: addition (complex
//! and real-scalar), multiplication (complex and scalar), scalar division,
//! magnitude, and magnitude-based equality and ordering.
//!
//! Equality and ordering deliberately compare magnitudes only, not
//! components: two values with equal magnitude and different phase compare
//! equal.  The escape condition of the engine (`magnitude < 2`) relies on
//! this ordering.  Since magnitudes are nonnegative, comparing squared
//! magnitudes, which the grid computes exactly, gives the same order.

use core::cmp::Ordering;
use crate::fixed::{fadd, fdiv, fmul, fsqrt, fsub, Fixed};
use vstd::prelude::*;

verus! {

/// A complex number; `r` is the real part and `i` the imaginary part.
#[derive(Clone, Copy, Debug)]
pub struct ComplexNumber {
    /// The real part.
    pub r: Fixed,
    /// The imaginary part.
    pub i: Fixed,
}

/// Componentwise complex addition.
pub open spec fn cadd(a: ComplexNumber, b: ComplexNumber) -> ComplexNumber {
    ComplexNumber { r: fadd(a.r, b.r), i: fadd(a.i, b.i) }
}

/// Addition of a real scalar: only the real part moves.
pub open spec fn cadd_scalar(a: ComplexNumber, s: Fixed) -> ComplexNumber {
    ComplexNumber { r: fadd(a.r, s), i: a.i }
}

/// Complex multiplication: `(ac - bd, ad + bc)`.
pub open spec fn cmul(a: ComplexNumber, b: ComplexNumber) -> ComplexNumber {
    ComplexNumber {
        r: fsub(fmul(a.r, b.r), fmul(a.i, b.i)),
        i: fadd(fmul(a.r, b.i), fmul(a.i, b.r)),
    }
}

/// Multiplication by a real scalar, componentwise.
pub open spec fn cmul_scalar(a: ComplexNumber, s: Fixed) -> ComplexNumber {
    ComplexNumber { r: fmul(a.r, s), i: fmul(a.i, s) }
}

/// Division by a real scalar, componentwise.
pub open spec fn cdiv_scalar(a: ComplexNumber, s: Fixed) -> ComplexNumber {
    ComplexNumber { r: fdiv(a.r, s), i: fdiv(a.i, s) }
}

/// The squared magnitude, `r^2 + i^2`, on the fixed-point grid.
pub open spec fn cnorm_sqr(a: ComplexNumber) -> Fixed {
    fadd(fmul(a.r, a.r), fmul(a.i, a.i))
}

/// The Euclidean magnitude, `sqrt(r^2 + i^2)`, on the fixed-point grid.
pub open spec fn cabs(a: ComplexNumber) -> Fixed {
    fsqrt(cnorm_sqr(a))
}

/// A fixed-point square is nonnegative even after rounding and saturation.
pub proof fn lemma_square_nonneg(x: Fixed)
    ensures
        fmul(x, x).raw >= 0,
{
    let n: int = x.raw * x.raw;
    assert(x.raw * x.raw >= 0) by (nonlinear_arith);
    let d: int = crate::fixed::SCALE as int;
    vstd::arithmetic::div_mod::lemma_div_pos_is_pos(2 * n + d, 2 * d);
}

impl ComplexNumber {
    /// Makes a new complex number from its real and imaginary parts.
    pub fn new(r: Fixed, i: Fixed) -> (c: ComplexNumber)
        ensures
            c == (ComplexNumber { r, i }),
    {
        ComplexNumber { r, i }
    }

    /// The squared magnitude `r^2 + i^2`; always nonnegative.
    pub fn norm_sqr(self) -> (n: Fixed)
        ensures
            n == cnorm_sqr(self),
            n.raw >= 0,
    {
        proof {
            lemma_square_nonneg(self.r);
            lemma_square_nonneg(self.i);
        }
        self.r.mul(self.r).add(self.i.mul(self.i))
    }

    /// The Euclidean magnitude of the complex number.
    pub fn abs(self) -> (m: Fixed)
        ensures
            m == cabs(self),
            m.raw >= 0,
    {
        self.norm_sqr().sqrt()
    }

    /// Adds another complex number, componentwise.
    pub fn add(self, other: ComplexNumber) -> (c: ComplexNumber)
        ensures
            c == cadd(self, other),
    {
        ComplexNumber { r: self.r.add(other.r), i: self.i.add(other.i) }
    }

    /// Adds a real scalar: the real part moves, the imaginary part stays.
    pub fn add_scalar(self, other: Fixed) -> (c: ComplexNumber)
        ensures
            c == cadd_scalar(self, other),
    {
        ComplexNumber { r: self.r.add(other), i: self.i }
    }

    /// Multiplies by another complex number: `(ac - bd, ad + bc)`.
    pub fn mul(self, other: ComplexNumber) -> (c: ComplexNumber)
        ensures
            c == cmul(self, other),
    {
        ComplexNumber {
            r: self.r.mul(other.r).sub(self.i.mul(other.i)),
            i: self.r.mul(other.i).add(self.i.mul(other.r)),
        }
    }

    /// Multiplies by a real scalar, componentwise.
    pub fn mul_scalar(self, other: Fixed) -> (c: ComplexNumber)
        ensures
            c == cmul_scalar(self, other),
    {
        ComplexNumber { r: self.r.mul(other), i: self.i.mul(other) }
    }

    /// Divides by a real scalar, componentwise.
    pub fn div(self, other: Fixed) -> (c: ComplexNumber)
        ensures
            c == cdiv_scalar(self, other),
    {
        ComplexNumber { r: self.r.div(other), i: self.i.div(other) }
    }
}

impl PartialEq for ComplexNumber {
    /// Magnitude-based equality: two complex numbers are equal exactly when
    /// their squared magnitudes agree on the grid.
    fn eq(&self, other: &ComplexNumber) -> (res: bool) {
        self.norm_sqr().raw == other.norm_sqr().raw
    }
}

impl vstd::std_specs::cmp::PartialEqSpecImpl for ComplexNumber {
    open spec fn obeys_eq_spec() -> bool {
        true
    }

    open spec fn eq_spec(&self, other: &ComplexNumber) -> bool {
        cnorm_sqr(*self) == cnorm_sqr(*other)
    }
}

impl PartialOrd for ComplexNumber {
    /// Magnitude-based ordering; the order is total, so the result is
    /// always `Some`.
    fn partial_cmp(&self, other: &ComplexNumber) -> (res: Option<Ordering>) {
        let a: i64 = self.norm_sqr().raw;
        let b: i64 = other.norm_sqr().raw;
        if a < b {
            Some(Ordering::Less)
        } else if a == b {
            Some(Ordering::Equal)
        } else {
            Some(Ordering::Greater)
        }
    }
}

impl vstd::std_specs::cmp::PartialOrdSpecImpl for ComplexNumber {
    open spec fn obeys_partial_cmp_spec() -> bool {
        true
    }

    open spec fn partial_cmp_spec(&self, other: &ComplexNumber) -> Option<Ordering> {
        if cnorm_sqr(*self).raw < cnorm_sqr(*other).raw {
            Some(Ordering::Less)
        } else if cnorm_sqr(*self).raw == cnorm_sqr(*other).raw {
            Some(Ordering::Equal)
        } else {
            Some(Ordering::Greater)
        }
    }
}

} // verus!
