//! A bounded degree-of-truth value and its algebra of fuzzy connectives.
//!
//! A [`Degree`] is a scalar confined to the unit interval, held in fixed
//! point: the stored integer counts parts of [`SCALE`], so `0` is complete
//! falsehood and `SCALE` is complete truth.  At this resolution the
//! connectives are exact integer arithmetic, and the invariant
//! `0 <= value <= SCALE` is proved for every constructed degree.

use vstd::arithmetic::div_mod::{
    lemma_div_by_multiple, lemma_div_is_ordered, lemma_div_pos_is_pos,
};
use vstd::arithmetic::mul::lemma_mul_inequality;
use vstd::prelude::*;

verus! {

/// Resolution of the fixed-point representation: the number of parts that
/// make one whole unit of truth.
pub const SCALE: u64 = 1_000_000;

/// Whether a mathematical value lies in the represented unit interval.
pub open spec fn in_unit(a: int) -> bool {
    0 <= a <= SCALE
}

/// The Goedel (lattice) conjunction: the minimum of the two operands.
pub open spec fn spec_and(a: int, b: int) -> int {
    if a <= b {
        a
    } else {
        b
    }
}

/// The Goedel (lattice) disjunction: the maximum of the two operands.
pub open spec fn spec_or(a: int, b: int) -> int {
    if a >= b {
        a
    } else {
        b
    }
}

/// The probabilistic conjunction: the product of the operands, rescaled
/// back to the unit interval.
pub open spec fn spec_p_and(a: int, b: int) -> int {
    a * b / (SCALE as int)
}

/// The probabilistic disjunction: `a + b - a*b`, in fixed point.
pub open spec fn spec_p_or(a: int, b: int) -> int {
    a + b - a * b / (SCALE as int)
}

/// The fuzzy complement: `1 - a`, in fixed point.
pub open spec fn spec_not(a: int) -> int {
    SCALE - a
}

/// A degree of truth in the unit interval.
///
/// Equality is derived field equality; at this resolution it coincides with
/// comparison up to one part in [`SCALE`].
#[derive(Clone, Copy, PartialEq, Eq, Structural, Debug)]
pub struct Degree {
    v: u64,
}

impl View for Degree {
    type V = int;

    closed spec fn view(&self) -> int {
        self.v as int
    }
}

impl Degree {
    /// The type's invariant: the value lies in the unit interval.
    /// Constructors establish it and every connective preserves it.
    pub open spec fn inv(self) -> bool {
        in_unit(self@)
    }

    /// Validating constructor: accepts exactly the values of the unit
    /// interval.  (The fixed-point representation has no analogue of the
    /// not-a-number values a floating representation must also reject.)
    pub fn new(value: u64) -> (r: Option<Degree>)
        ensures
            r is Some <==> value <= SCALE,
            r is Some ==> r.unwrap()@ == value && r.unwrap().inv(),
    {
        if value <= SCALE {
            Some(Degree { v: value })
        } else {
            None
        }
    }

    /// The boundary constant of complete truth.
    pub fn one() -> (r: Degree)
        ensures
            r@ == SCALE,
            r.inv(),
    {
        Degree { v: SCALE }
    }

    /// The boundary constant of complete falsehood.
    pub fn zero() -> (r: Degree)
        ensures
            r@ == 0,
            r.inv(),
    {
        Degree { v: 0 }
    }

    /// The underlying fixed-point value, in parts of [`SCALE`].
    pub fn value(self) -> (r: u64)
        ensures
            r == self@,
    {
        self.v
    }

    /// Goedel conjunction: the smaller of the two degrees.
    pub fn and(self, other: Degree) -> (r: Degree)
        requires
            self.inv(),
            other.inv(),
        ensures
            r@ == spec_and(self@, other@),
            r.inv(),
    {
        if self.v <= other.v {
            self
        } else {
            other
        }
    }

    /// Goedel disjunction: the larger of the two degrees.
    pub fn or(self, other: Degree) -> (r: Degree)
        requires
            self.inv(),
            other.inv(),
        ensures
            r@ == spec_or(self@, other@),
            r.inv(),
    {
        if self.v >= other.v {
            self
        } else {
            other
        }
    }

    /// Probabilistic conjunction: the rescaled product.
    pub fn p_and(self, other: Degree) -> (r: Degree)
        requires
            self.inv(),
            other.inv(),
        ensures
            r@ == spec_p_and(self@, other@),
            r.inv(),
    {
        proof {
            lemma_unit_product_bounds(self@, other@);
        }
        Degree { v: self.v * other.v / SCALE }
    }

    /// Probabilistic disjunction: `a + b - a*b`, in fixed point.
    pub fn p_or(self, other: Degree) -> (r: Degree)
        requires
            self.inv(),
            other.inv(),
        ensures
            r@ == spec_p_or(self@, other@),
            r.inv(),
    {
        proof {
            lemma_unit_product_bounds(self@, other@);
        }
        Degree { v: self.v + other.v - self.v * other.v / SCALE }
    }

    /// Fuzzy complement: `1 - a`, in fixed point.
    pub fn not(self) -> (r: Degree)
        requires
            self.inv(),
        ensures
            r@ == spec_not(self@),
            r.inv(),
    {
        Degree { v: SCALE - self.v }
    }

    /// Bounded addition: fails when the sum would leave the unit interval.
    pub fn add(self, other: Degree) -> (r: Option<Degree>)
        requires
            self.inv(),
            other.inv(),
        ensures
            r is Some <==> self@ + other@ <= SCALE,
            r is Some ==> r.unwrap()@ == self@ + other@ && r.unwrap().inv(),
    {
        if self.v + other.v > SCALE {
            None
        } else {
            Some(Degree { v: self.v + other.v })
        }
    }

    /// Bounded subtraction: fails when the difference would fall below zero.
    pub fn sub(self, other: Degree) -> (r: Option<Degree>)
        requires
            self.inv(),
            other.inv(),
        ensures
            r is Some <==> other@ <= self@,
            r is Some ==> r.unwrap()@ == self@ - other@ && r.unwrap().inv(),
    {
        if self.v < other.v {
            None
        } else {
            Some(Degree { v: self.v - other.v })
        }
    }

    /// Multiplication: the rescaled product, always back in the unit
    /// interval by closure.
    pub fn mul(self, other: Degree) -> (r: Degree)
        requires
            self.inv(),
            other.inv(),
        ensures
            r@ == spec_p_and(self@, other@),
            r.inv(),
    {
        proof {
            lemma_unit_product_bounds(self@, other@);
        }
        Degree { v: self.v * other.v / SCALE }
    }

    /// Division.  The quotient of two unit values leaves the unit interval
    /// whenever the dividend exceeds the divisor, so — unlike an unchecked
    /// quotient, which would break the type's invariant — division here is
    /// fallible in the same style as `add` and `sub`: it fails on a zero
    /// divisor and whenever the quotient would exceed one.
    pub fn div(self, other: Degree) -> (r: Option<Degree>)
        requires
            self.inv(),
            other.inv(),
        ensures
            r is Some <==> 0 < other@ && self@ <= other@,
            r is Some ==> r.unwrap()@ == self@ * SCALE / other@ && r.unwrap().inv(),
    {
        if other.v == 0 || self.v > other.v {
            None
        } else {
            proof {
                lemma_mul_inequality(self@, other@, SCALE as int);
                lemma_div_is_ordered(self@ * (SCALE as int), other@ * (SCALE as int), other@);
                lemma_div_by_multiple(SCALE as int, other@);
                lemma_div_pos_is_pos(self@ * (SCALE as int), other@);
            }
            assert(self.v * SCALE <= SCALE * SCALE) by (nonlinear_arith)
                requires
                    self.v <= SCALE,
            ;
            Some(Degree { v: self.v * SCALE / other.v })
        }
    }
}

impl PartialOrd for Degree {
    /// Degrees order exactly by the underlying scalar.
    fn partial_cmp(&self, other: &Degree) -> (r: Option<core::cmp::Ordering>) {
        if self.v < other.v {
            Some(core::cmp::Ordering::Less)
        } else if self.v == other.v {
            Some(core::cmp::Ordering::Equal)
        } else {
            Some(core::cmp::Ordering::Greater)
        }
    }
}

impl vstd::std_specs::cmp::PartialOrdSpecImpl for Degree {
    open spec fn obeys_partial_cmp_spec() -> bool {
        true
    }

    open spec fn partial_cmp_spec(&self, other: &Degree) -> Option<core::cmp::Ordering> {
        if self@ < other@ {
            Some(core::cmp::Ordering::Less)
        } else if self@ == other@ {
            Some(core::cmp::Ordering::Equal)
        } else {
            Some(core::cmp::Ordering::Greater)
        }
    }
}

/// The rescaled product of two unit values is at most either operand, and
/// the probabilistic disjunction built from it stays within the unit
/// interval and above either operand.
proof fn lemma_unit_product_bounds(a: int, b: int)
    requires
        in_unit(a),
        in_unit(b),
    ensures
        0 <= a * b / (SCALE as int),
        a * b / (SCALE as int) <= a,
        a * b / (SCALE as int) <= b,
        a + b - a * b / (SCALE as int) <= SCALE,
{
    let s = SCALE as int;
    assert(0 <= a * b) by (nonlinear_arith)
        requires
            0 <= a,
            0 <= b,
    ;
    lemma_div_pos_is_pos(a * b, s);
    lemma_mul_inequality(b, s, a);
    assert(a * b == b * a) by (nonlinear_arith);
    assert(a * s == s * a) by (nonlinear_arith);
    lemma_div_is_ordered(a * b, a * s, s);
    lemma_div_by_multiple(a, s);
    lemma_mul_inequality(a, s, b);
    assert(b * s == s * b) by (nonlinear_arith);
    lemma_div_is_ordered(a * b, b * s, s);
    lemma_div_by_multiple(b, s);
    // For the upper bound on the disjunction: when `a + b` exceeds one,
    // `a*b >= (a + b - 1)`, so the subtracted product makes up the excess.
    if a + b - s > 0 {
        let k = a + b - s;
        assert(k * s <= a * b) by (nonlinear_arith)
            requires
                k == a + b - s,
                a <= s,
                b <= s,
        ;
        lemma_div_is_ordered(k * s, a * b, s);
        lemma_div_by_multiple(k, s);
    }
}

/// The lattice connectives are bounded by their operands: a conjunction is
/// at most either argument, a disjunction at least either argument.
pub proof fn lemma_and_or_bounds(x: Degree, y: Degree)
    ensures
        spec_and(x@, y@) <= x@,
        spec_and(x@, y@) <= y@,
        spec_or(x@, y@) >= x@,
        spec_or(x@, y@) >= y@,
{
}

/// The probabilistic connectives are at least as decisive as the lattice
/// ones: `p_and` lies below `and`, and `p_or` lies above `or`.
pub proof fn lemma_probabilistic_connective_bounds(x: Degree, y: Degree)
    requires
        x.inv(),
        y.inv(),
    ensures
        spec_p_and(x@, y@) <= spec_and(x@, y@),
        spec_p_or(x@, y@) >= spec_or(x@, y@),
{
    lemma_unit_product_bounds(x@, y@);
}

/// The complement is an involution: taking it twice gives the value back.
pub proof fn lemma_not_involution(x: Degree)
    ensures
        spec_not(spec_not(x@)) == x@,
{
}

/// The lattice connectives are idempotent.
pub proof fn lemma_connectives_idempotent(x: Degree)
    ensures
        spec_and(x@, x@) == x@,
        spec_or(x@, x@) == x@,
{
}

/// Every degree satisfying the invariant lies between the two boundary
/// constants: `zero()` maps to `0` and `one()` to `SCALE`.
pub proof fn lemma_degree_in_unit(d: Degree)
    requires
        d.inv(),
    ensures
        0 <= d@,
        d@ <= SCALE,
{
}

} // verus!
