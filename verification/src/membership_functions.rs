//! The membership-function family: geometric shapes that map a crisp
//! ordered value onto a [`Degree`].
//!
//! Each shape carries strictly increasing breakpoints, checked once at
//! construction, and exposes one operation, `membership`, behind the shared
//! [`Fuzzy`] capability.  Crisp values and breakpoints are plain signed
//! integers; a caller working in fractional units scales them by a common
//! factor, which cancels out of every ramp.

use crate::degree::{spec_not, Degree, SCALE};
use vstd::arithmetic::div_mod::{
    lemma_div_by_multiple, lemma_div_is_ordered, lemma_div_pos_is_pos,
};
use vstd::arithmetic::mul::lemma_mul_inequality;
use vstd::prelude::*;

verus! {

/// A linear ramp from `0` at `lo` to `SCALE` at `hi`, evaluated at `v`.
pub open spec fn rise(v: int, lo: int, hi: int) -> int {
    (v - lo) * (SCALE as int) / (hi - lo)
}

/// A linear ramp from `SCALE` at `lo` down to `0` at `hi`, evaluated at `v`.
pub open spec fn fall(v: int, lo: int, hi: int) -> int {
    (hi - v) * (SCALE as int) / (hi - lo)
}

/// On `[lo, hi]` the rising ramp stays within the unit interval and hits
/// it exactly at the ends.
proof fn lemma_rise_bounds(v: int, lo: int, hi: int)
    requires
        lo < hi,
        lo <= v <= hi,
    ensures
        0 <= rise(v, lo, hi) <= SCALE,
        v == lo ==> rise(v, lo, hi) == 0,
        v == hi ==> rise(v, lo, hi) == SCALE,
{
    let s = SCALE as int;
    let d = hi - lo;
    let x = v - lo;
    assert(0 <= x * s) by (nonlinear_arith)
        requires
            0 <= x,
            0 <= s,
    ;
    lemma_div_pos_is_pos(x * s, d);
    lemma_mul_inequality(x, d, s);
    lemma_div_is_ordered(x * s, d * s, d);
    lemma_div_by_multiple(s, d);
    assert(d * s == s * d) by (nonlinear_arith);
}

/// The rising ramp is monotone in the evaluated value.
proof fn lemma_rise_monotone(v1: int, v2: int, lo: int, hi: int)
    requires
        lo < hi,
        v1 <= v2,
    ensures
        rise(v1, lo, hi) <= rise(v2, lo, hi),
{
    let s = SCALE as int;
    lemma_mul_inequality(v1 - lo, v2 - lo, s);
    lemma_div_is_ordered((v1 - lo) * s, (v2 - lo) * s, hi - lo);
}

/// On `[lo, hi]` the falling ramp stays within the unit interval and hits
/// it exactly at the ends.
proof fn lemma_fall_bounds(v: int, lo: int, hi: int)
    requires
        lo < hi,
        lo <= v <= hi,
    ensures
        0 <= fall(v, lo, hi) <= SCALE,
        v == lo ==> fall(v, lo, hi) == SCALE,
        v == hi ==> fall(v, lo, hi) == 0,
{
    let s = SCALE as int;
    let d = hi - lo;
    let x = hi - v;
    assert(0 <= x * s) by (nonlinear_arith)
        requires
            0 <= x,
            0 <= s,
    ;
    lemma_div_pos_is_pos(x * s, d);
    lemma_mul_inequality(x, d, s);
    lemma_div_is_ordered(x * s, d * s, d);
    lemma_div_by_multiple(s, d);
    assert(d * s == s * d) by (nonlinear_arith);
}

/// Evaluates the rising ramp in machine arithmetic.
fn rise_value(v: i64, lo: i64, hi: i64) -> (r: u64)
    requires
        lo < hi,
        lo <= v <= hi,
    ensures
        r == rise(v as int, lo as int, hi as int),
        r <= SCALE,
{
    proof {
        lemma_rise_bounds(v as int, lo as int, hi as int);
    }
    ((v as i128 - lo as i128) * (SCALE as i128) / (hi as i128 - lo as i128)) as u64
}

/// Evaluates the falling ramp in machine arithmetic.
fn fall_value(v: i64, lo: i64, hi: i64) -> (r: u64)
    requires
        lo < hi,
        lo <= v <= hi,
    ensures
        r == fall(v as int, lo as int, hi as int),
        r <= SCALE,
{
    proof {
        lemma_fall_bounds(v as int, lo as int, hi as int);
    }
    ((hi as i128 - v as i128) * (SCALE as i128) / (hi as i128 - lo as i128)) as u64
}

/// Substitutes `zero()` for a ramp value that cannot be accepted as a
/// degree, instead of propagating a construction failure.  Every shape
/// below proves its ramp values in range, so the substitution is the
/// boundary policy made explicit rather than a reachable path.
fn clamped_degree(v: u64) -> (d: Degree)
    ensures
        v <= SCALE ==> d@ == v,
        v > SCALE ==> d@ == 0,
        d.inv(),
{
    match Degree::new(v) {
        None => Degree::zero(),
        Some(d) => d,
    }
}

/// The shared capability of every membership-function shape: converting a
/// crisp value into a degree of truth.
pub trait Fuzzy {
    /// The shape's construction invariant: its breakpoints are strictly
    /// increasing.
    spec fn wf(&self) -> bool;

    /// The value of the shape's formula at `value`, in parts of `SCALE`.
    spec fn spec_membership(&self, value: int) -> int;

    /// Evaluates the shape at a crisp value.
    fn membership(&self, value: i64) -> (d: Degree)
        requires
            self.wf(),
        ensures
            d@ == self.spec_membership(value as int),
            d.inv(),
    ;
}

/// A step function: complete falsehood strictly below the threshold,
/// complete truth at and above it.
pub struct Boolean(pub i64);

impl Boolean {
    /// Builds the step shape; any threshold is admissible.
    pub fn new(x: i64) -> (r: Boolean)
        ensures
            r.0 == x,
            r.wf(),
    {
        Boolean(x)
    }
}

impl Fuzzy for Boolean {
    open spec fn wf(&self) -> bool {
        true
    }

    open spec fn spec_membership(&self, value: int) -> int {
        if value < self.0 {
            0
        } else {
            SCALE as int
        }
    }

    fn membership(&self, value: i64) -> (d: Degree) {
        if value < self.0 {
            Degree::zero()
        } else {
            Degree::one()
        }
    }
}

/// A ramp: complete falsehood at and below `x0`, complete truth at and
/// above `x1`, linear in between.
pub struct Gradual(pub i64, pub i64);

impl Gradual {
    /// Builds the ramp shape; the breakpoints must be strictly increasing.
    pub fn new(x0: i64, x1: i64) -> (r: Gradual)
        requires
            x0 < x1,
        ensures
            r.0 == x0,
            r.1 == x1,
            r.wf(),
    {
        Gradual(x0, x1)
    }
}

impl Fuzzy for Gradual {
    open spec fn wf(&self) -> bool {
        self.0 < self.1
    }

    open spec fn spec_membership(&self, value: int) -> int {
        if value <= self.0 {
            0
        } else if value >= self.1 {
            SCALE as int
        } else {
            rise(value, self.0 as int, self.1 as int)
        }
    }

    fn membership(&self, value: i64) -> (d: Degree) {
        if value <= self.0 {
            Degree::zero()
        } else if value >= self.1 {
            Degree::one()
        } else {
            clamped_degree(rise_value(value, self.0, self.1))
        }
    }
}

/// The complement of [`Gradual`]: complete truth at and below `x0`,
/// complete falsehood at and above `x1`, falling linearly in between.
pub struct ReverseGradual(pub i64, pub i64);

impl ReverseGradual {
    /// Builds the complemented ramp; the breakpoints must be strictly
    /// increasing.
    pub fn new(x0: i64, x1: i64) -> (r: ReverseGradual)
        requires
            x0 < x1,
        ensures
            r.0 == x0,
            r.1 == x1,
            r.wf(),
    {
        ReverseGradual(x0, x1)
    }
}

impl Fuzzy for ReverseGradual {
    open spec fn wf(&self) -> bool {
        self.0 < self.1
    }

    open spec fn spec_membership(&self, value: int) -> int {
        spec_not(Gradual(self.0, self.1).spec_membership(value))
    }

    fn membership(&self, value: i64) -> (d: Degree) {
        if value <= self.0 {
            Degree::one()
        } else if value >= self.1 {
            Degree::zero()
        } else {
            proof {
                lemma_rise_bounds(value as int, self.0 as int, self.1 as int);
            }
            clamped_degree(SCALE - rise_value(value, self.0, self.1))
        }
    }
}

/// A triangle: rises linearly from `0` at `x0` to exactly `1` at the peak
/// `x1`, falls linearly back to `0` at `x2`, and is `0` at and outside
/// `[x0, x2]`.
pub struct Triangular(pub i64, pub i64, pub i64);

impl Triangular {
    /// Builds the triangle shape; the breakpoints must be strictly
    /// increasing.
    pub fn new(x0: i64, x1: i64, x2: i64) -> (r: Triangular)
        requires
            x0 < x1 < x2,
        ensures
            r.0 == x0,
            r.1 == x1,
            r.2 == x2,
            r.wf(),
    {
        Triangular(x0, x1, x2)
    }
}

impl Fuzzy for Triangular {
    open spec fn wf(&self) -> bool {
        self.0 < self.1 < self.2
    }

    open spec fn spec_membership(&self, value: int) -> int {
        if value <= self.0 || value >= self.2 {
            0
        } else if value < self.1 {
            rise(value, self.0 as int, self.1 as int)
        } else {
            fall(value, self.1 as int, self.2 as int)
        }
    }

    fn membership(&self, value: i64) -> (d: Degree) {
        if value <= self.0 || value >= self.2 {
            Degree::zero()
        } else if value < self.1 {
            clamped_degree(rise_value(value, self.0, self.1))
        } else {
            clamped_degree(fall_value(value, self.1, self.2))
        }
    }
}

/// A trapezoid: rises linearly from `0` at `x0` to `1` at `x1`, holds a
/// plateau of complete truth on `[x1, x2]`, falls linearly back to `0` at
/// `x3`, and is `0` at and outside `[x0, x3]`.
pub struct Trapezoid(pub i64, pub i64, pub i64, pub i64);

impl Trapezoid {
    /// Builds the trapezoid shape; the breakpoints must be strictly
    /// increasing.
    pub fn new(x0: i64, x1: i64, x2: i64, x3: i64) -> (r: Trapezoid)
        requires
            x0 < x1 < x2 < x3,
        ensures
            r.0 == x0,
            r.1 == x1,
            r.2 == x2,
            r.3 == x3,
            r.wf(),
    {
        Trapezoid(x0, x1, x2, x3)
    }
}

impl Fuzzy for Trapezoid {
    open spec fn wf(&self) -> bool {
        self.0 < self.1 < self.2 < self.3
    }

    open spec fn spec_membership(&self, value: int) -> int {
        if value <= self.0 || value >= self.3 {
            0
        } else if value < self.1 {
            rise(value, self.0 as int, self.1 as int)
        } else if value <= self.2 {
            SCALE as int
        } else {
            fall(value, self.2 as int, self.3 as int)
        }
    }

    fn membership(&self, value: i64) -> (d: Degree) {
        if value <= self.0 || value >= self.3 {
            Degree::zero()
        } else if value < self.1 {
            clamped_degree(rise_value(value, self.0, self.1))
        } else if value <= self.2 {
            Degree::one()
        } else {
            clamped_degree(fall_value(value, self.2, self.3))
        }
    }
}

/// The bell-curve shape is a reserved variant with no defined formula.
/// Evaluating it signals that explicitly by returning no degree at all,
/// never a silent substitute value.
#[allow(unused_variables)]
pub fn gaussian(x: i64, mu: i64, sigma: i64) -> (r: Option<Degree>)
    ensures
        r is None,
{
    None
}

/// On the ramp interval `[x0, x1]` the `Gradual` membership never
/// decreases as the crisp value grows.
pub proof fn lemma_gradual_monotone(g: Gradual, v1: int, v2: int)
    requires
        g.wf(),
        g.0 <= v1 <= v2 <= g.1,
    ensures
        g.spec_membership(v1) <= g.spec_membership(v2),
{
    lemma_rise_bounds(v1, g.0 as int, g.1 as int);
    lemma_rise_bounds(v2, g.0 as int, g.1 as int);
    lemma_rise_monotone(v1, v2, g.0 as int, g.1 as int);
}

/// The `Gradual` membership is exactly `0` at and below `x0`, and exactly
/// `1` at and above `x1`.
pub proof fn lemma_gradual_boundaries(g: Gradual, v: int)
    requires
        g.wf(),
    ensures
        v <= g.0 ==> g.spec_membership(v) == 0,
        v >= g.1 ==> g.spec_membership(v) == SCALE,
{
}

/// The `ReverseGradual` membership is everywhere the fuzzy complement of
/// the `Gradual` membership with the same breakpoints.
pub proof fn lemma_reverse_gradual_complements(r: ReverseGradual, v: int)
    requires
        r.wf(),
    ensures
        r.spec_membership(v) == spec_not(Gradual(r.0, r.1).spec_membership(v)),
{
}

/// The `Triangular` membership is exactly `1` at the peak `x1`, and `0` at
/// and outside `[x0, x2]`.
pub proof fn lemma_triangular_peak(t: Triangular, v: int)
    requires
        t.wf(),
    ensures
        t.spec_membership(t.1 as int) == SCALE,
        v <= t.0 || v >= t.2 ==> t.spec_membership(v) == 0,
{
    lemma_fall_bounds(t.1 as int, t.1 as int, t.2 as int);
}

/// The `Trapezoid` membership is exactly `1` on the whole plateau
/// `[x1, x2]`.
pub proof fn lemma_trapezoid_plateau(t: Trapezoid, v: int)
    requires
        t.wf(),
        t.1 <= v <= t.2,
    ensures
        t.spec_membership(v) == SCALE,
{
}

} // verus!
