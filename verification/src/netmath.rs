//! Mathematical functions for the neural network: the activation
//! functions (identity and sigmoid) and the mean-squared-error cost.
//!
//! The sigmoid is the logistic function `1 / (1 + e^(-x))` evaluated in
//! fixed point: a piecewise-linear interpolation between samples of the
//! logistic taken every half unit on `[-8, 8]`, constant beyond. It keeps
//! the logistic's landmarks exactly: it stays strictly inside `(0, 1)`,
//! takes the value one half at zero, and never decreases.

use vstd::prelude::*;
use crate::fixed::{
    SCALE, sat, div_trunc, ints_of, fx_add_spec, fx_sub_spec, fx_mul_spec, fx_div_count_spec,
    fx_add, fx_sub, fx_mul, fx_div_count,
};
use vstd::arithmetic::div_mod::{
    lemma_fundamental_div_mod, lemma_div_pos_is_pos, lemma_div_is_ordered,
    lemma_multiply_divide_lt, lemma_mod_division_less_than_divisor, lemma_div_multiples_vanish,
};
use vstd::arithmetic::mul::{lemma_mul_inequality, lemma_mul_strict_inequality};

verus! {

/// Distance between two sigmoid table knots: half a unit.
pub const HALF_STEP: i64 = 500_000;

/// Which activation function a neuron applies to its weighted sum.
#[derive(Clone, Copy, PartialEq, Eq, Structural, Debug)]
pub enum Activation {
    Identity,
    Sigmoid,
}

/// The identity activation: passes the weighted sum through unchanged.
pub fn ident(x: i64) -> (r: i64)
    ensures
        r == x,
{
    x
}

/// Value of the logistic function at `-8 + j/2`, in millionths, for
/// `0 <= j <= 32`; clamped to the end values outside that range.
pub open spec fn knot_value(j: int) -> int {
    if j <= 0 {
        335
    } else if j == 1 {
        553
    } else if j == 2 {
        911
    } else if j == 3 {
        1501
    } else if j == 4 {
        2473
    } else if j == 5 {
        4070
    } else if j == 6 {
        6693
    } else if j == 7 {
        10987
    } else if j == 8 {
        17986
    } else if j == 9 {
        29312
    } else if j == 10 {
        47426
    } else if j == 11 {
        75858
    } else if j == 12 {
        119203
    } else if j == 13 {
        182426
    } else if j == 14 {
        268941
    } else if j == 15 {
        377541
    } else if j == 16 {
        500000
    } else if j == 17 {
        622459
    } else if j == 18 {
        731059
    } else if j == 19 {
        817574
    } else if j == 20 {
        880797
    } else if j == 21 {
        924142
    } else if j == 22 {
        952574
    } else if j == 23 {
        970688
    } else if j == 24 {
        982014
    } else if j == 25 {
        989013
    } else if j == 26 {
        993307
    } else if j == 27 {
        995930
    } else if j == 28 {
        997527
    } else if j == 29 {
        998499
    } else if j == 30 {
        999089
    } else if j == 31 {
        999447
    } else {
        999665
    }
}

/// Table lookup for the sigmoid knots.
fn knot(j: usize) -> (r: i64)
    ensures
        r == knot_value(j as int),
{
    if j == 0 {
        335
    } else if j == 1 {
        553
    } else if j == 2 {
        911
    } else if j == 3 {
        1501
    } else if j == 4 {
        2473
    } else if j == 5 {
        4070
    } else if j == 6 {
        6693
    } else if j == 7 {
        10987
    } else if j == 8 {
        17986
    } else if j == 9 {
        29312
    } else if j == 10 {
        47426
    } else if j == 11 {
        75858
    } else if j == 12 {
        119203
    } else if j == 13 {
        182426
    } else if j == 14 {
        268941
    } else if j == 15 {
        377541
    } else if j == 16 {
        500000
    } else if j == 17 {
        622459
    } else if j == 18 {
        731059
    } else if j == 19 {
        817574
    } else if j == 20 {
        880797
    } else if j == 21 {
        924142
    } else if j == 22 {
        952574
    } else if j == 23 {
        970688
    } else if j == 24 {
        982014
    } else if j == 25 {
        989013
    } else if j == 26 {
        993307
    } else if j == 27 {
        995930
    } else if j == 28 {
        997527
    } else if j == 29 {
        998499
    } else if j == 30 {
        999089
    } else if j == 31 {
        999447
    } else {
        999665
    }
}

/// The interpolated sigmoid value for a shifted input `s = x + 8`,
/// with `0 <= s < 16` (in units).
pub open spec fn sigmoid_interior(s: int) -> int {
    let j = s / (HALF_STEP as int);
    knot_value(j) + (s - j * (HALF_STEP as int)) * (knot_value(j + 1) - knot_value(j)) / (
    HALF_STEP as int)
}

/// The fixed-point sigmoid: piecewise linear between the logistic's
/// half-unit samples on `[-8, 8]`, constant in the saturated tails.
pub open spec fn sigmoid_spec(x: int) -> int {
    if x < -8 * (SCALE as int) {
        knot_value(0)
    } else if x >= 8 * (SCALE as int) {
        knot_value(32)
    } else {
        sigmoid_interior(x + 8 * (SCALE as int))
    }
}

/// Every knot lies strictly inside the open unit interval.
proof fn lemma_knot_in_unit_interval(j: int)
    ensures
        0 < knot_value(j) < SCALE,
{
}

/// Each knot is strictly below its successor.
proof fn lemma_knot_step(j: int)
    requires
        0 <= j < 32,
    ensures
        knot_value(j) < knot_value(j + 1),
{
}

/// Each knot is at most its successor, for any index (the table is
/// clamped outside `0..=32`).
proof fn lemma_knot_step_weak(j: int)
    ensures
        knot_value(j) <= knot_value(j + 1),
{
}

/// The knot table never decreases.
proof fn lemma_knot_monotone(i: int, j: int)
    requires
        i <= j,
    ensures
        knot_value(i) <= knot_value(j),
    decreases j - i,
{
    if i < j {
        lemma_knot_step_weak(j - 1);
        lemma_knot_monotone(i, j - 1);
    }
}

/// The knot table increases strictly on `0..=32`.
proof fn lemma_knot_strict(i: int, j: int)
    requires
        0 <= i < j <= 32,
    ensures
        knot_value(i) < knot_value(j),
    decreases j - i,
{
    lemma_knot_step(i);
    if i + 1 < j {
        lemma_knot_monotone(i + 1, j);
    }
}

/// An interior sigmoid value lies between its segment's two knots.
proof fn lemma_interior_bounds(s: int)
    requires
        0 <= s < 16 * (SCALE as int),
    ensures
        knot_value(s / (HALF_STEP as int)) <= sigmoid_interior(s),
        sigmoid_interior(s) <= knot_value(s / (HALF_STEP as int) + 1),
        0 <= s / (HALF_STEP as int) < 32,
{
    let h = HALF_STEP as int;
    let j = s / h;
    let off = s - j * h;
    let dv = knot_value(j + 1) - knot_value(j);
    lemma_div_pos_is_pos(s, h);
    lemma_multiply_divide_lt(s, h, 32);
    lemma_fundamental_div_mod(s, h);
    lemma_mod_division_less_than_divisor(s, h);
    assert(0 <= off < h);
    lemma_knot_step_weak(j);
    assert(dv >= 0);
    assert(off * dv >= 0) by (nonlinear_arith)
        requires
            off >= 0,
            dv >= 0,
    ;
    lemma_div_pos_is_pos(off * dv, h);
    if dv > 0 {
        lemma_mul_strict_inequality(off, h, dv);
        lemma_multiply_divide_lt(off * dv, h, dv);
    } else {
        assert(off * dv == 0) by (nonlinear_arith)
            requires
                dv == 0,
        ;
    }
    assert(off * dv / h <= dv);
}

/// The sigmoid stays strictly inside the open unit interval.
pub proof fn lemma_sigmoid_in_unit_interval(x: int)
    ensures
        0 < sigmoid_spec(x) < SCALE,
{
    if x < -8 * (SCALE as int) {
        lemma_knot_in_unit_interval(0);
    } else if x >= 8 * (SCALE as int) {
        lemma_knot_in_unit_interval(32);
    } else {
        let s = x + 8 * (SCALE as int);
        let j = s / (HALF_STEP as int);
        lemma_interior_bounds(s);
        lemma_knot_in_unit_interval(j);
        lemma_knot_in_unit_interval(j + 1);
    }
}

/// The sigmoid never decreases: its piecewise-linear segments all have
/// non-negative slope and meet the knots from below.
pub proof fn lemma_sigmoid_monotone(x: int, y: int)
    requires
        x <= y,
    ensures
        sigmoid_spec(x) <= sigmoid_spec(y),
{
    let h = HALF_STEP as int;
    let lo = -8 * (SCALE as int);
    let hi = 8 * (SCALE as int);
    if x < lo {
        if lo <= y < hi {
            let sy = y + 8 * (SCALE as int);
            lemma_interior_bounds(sy);
            lemma_knot_monotone(0, sy / h);
        } else if y >= hi {
            lemma_knot_monotone(0, 32);
        }
    } else if x >= hi {
        // then y >= hi as well and both sides are the upper tail
    } else {
        let sx = x + 8 * (SCALE as int);
        lemma_interior_bounds(sx);
        if y >= hi {
            lemma_knot_monotone(sx / h + 1, 32);
        } else {
            let sy = y + 8 * (SCALE as int);
            lemma_interior_bounds(sy);
            let jx = sx / h;
            let jy = sy / h;
            lemma_div_is_ordered(sx, sy, h);
            if jx == jy {
                let dv = knot_value(jx + 1) - knot_value(jx);
                lemma_knot_step_weak(jx);
                lemma_mul_inequality(sx - jx * h, sy - jy * h, dv);
                lemma_div_is_ordered((sx - jx * h) * dv, (sy - jy * h) * dv, h);
            } else {
                lemma_knot_monotone(jx + 1, jy);
            }
        }
    }
}

/// On the half-unit grid that carries the interpolation knots, the
/// sigmoid is strictly increasing: `p` and `q` count half units, so the
/// inputs below are `p/2` and `q/2` as reals.
pub proof fn lemma_sigmoid_strict_on_half_grid(p: int, q: int)
    requires
        -16 <= p < q <= 16,
    ensures
        sigmoid_spec(p * (HALF_STEP as int)) < sigmoid_spec(q * (HALF_STEP as int)),
{
    lemma_sigmoid_at_knot(p);
    lemma_sigmoid_at_knot(q);
    lemma_knot_strict(p + 16, q + 16);
}

/// At a knot the interpolation returns the table value exactly.
proof fn lemma_sigmoid_at_knot(p: int)
    requires
        -16 <= p <= 16,
    ensures
        sigmoid_spec(p * (HALF_STEP as int)) == knot_value(p + 16),
{
    let h = HALF_STEP as int;
    if p == 16 {
        assert(sigmoid_spec(16 * h) == knot_value(32));
    } else {
        let s = p * h + 8 * (SCALE as int);
        assert(s == (p + 16) * h) by (nonlinear_arith)
            requires
                s == p * h + 16 * h,
        ;
        lemma_div_multiples_vanish(p + 16, h);
        assert(s / h == p + 16);
        assert(s - (p + 16) * h == 0);
        assert(0 * (knot_value(p + 17) - knot_value(p + 16)) == 0) by (nonlinear_arith);
        assert(sigmoid_interior(s) == knot_value(p + 16) + 0int / h);
    }
}

/// The sigmoid activation, in fixed point. Its output is strictly
/// inside `(0, 1)` for every input, and it is exactly one half at zero.
pub fn sigmoid(x: i64) -> (r: i64)
    ensures
        r == sigmoid_spec(x as int),
        0 < r < SCALE,
        x == 0 ==> r == SCALE / 2,
{
    proof {
        lemma_sigmoid_in_unit_interval(x as int);
        if x == 0 {
            lemma_sigmoid_at_knot(0);
            assert(0 * (HALF_STEP as int) == 0);
        }
    }
    if x < -8 * SCALE {
        knot(0)
    } else if x >= 8 * SCALE {
        knot(32)
    } else {
        let s = (x + 8 * SCALE) as u64;
        let j = (s / (HALF_STEP as u64)) as usize;
        proof {
            lemma_interior_bounds(s as int);
            lemma_fundamental_div_mod(s as int, HALF_STEP as int);
            lemma_mod_division_less_than_divisor(s as int, HALF_STEP as int);
            lemma_knot_step_weak(j as int);
        }
        let lo = knot(j);
        let hi = knot(j + 1);
        let off = s - (j as u64) * (HALF_STEP as u64);
        let dv = (hi - lo) as u64;
        let q = (off * dv) / (HALF_STEP as u64);
        proof {
            assert(off * dv == (s as int - j as int * (HALF_STEP as int)) * (knot_value(
                j as int + 1) - knot_value(j as int)));
            assert(q == sigmoid_interior(s as int) - knot_value(j as int));
        }
        lo + (q as i64)
    }
}

impl Activation {
    /// What the activation returns on a given weighted sum.
    pub open spec fn apply_spec(self, x: int) -> int {
        match self {
            Activation::Identity => x,
            Activation::Sigmoid => sigmoid_spec(x),
        }
    }

    /// Apply the activation function.
    pub fn apply(&self, x: i64) -> (r: i64)
        ensures
            r == self.apply_spec(x as int),
    {
        match self {
            Activation::Identity => ident(x),
            Activation::Sigmoid => sigmoid(x),
        }
    }
}

/// The saturating sum of the squared errors over the first `n` samples:
/// each term is `(predicted - expected)^2` in fixed point.
pub open spec fn sq_err_sum(out_true: Seq<int>, out_pred: Seq<int>, n: int) -> int
    decreases n,
{
    if n <= 0 {
        0
    } else {
        fx_add_spec(
            sq_err_sum(out_true, out_pred, n - 1),
            fx_mul_spec(
                fx_sub_spec(out_pred[n - 1], out_true[n - 1]),
                fx_sub_spec(out_pred[n - 1], out_true[n - 1]),
            ),
        )
    }
}

/// The mean squared error over the first `n` samples: the sum of the
/// squared differences, divided by the sample count.
pub open spec fn mse_spec(out_true: Seq<int>, out_pred: Seq<int>, n: int) -> int
    recommends
        0 < n,
        n <= out_true.len(),
        n <= out_pred.len(),
{
    fx_div_count_spec(sq_err_sum(out_true, out_pred, n), n)
}

/// Mean squared error between expected and predicted outputs.
pub fn mse(out_true: &[i64], out_pred: &[i64], sample_size: usize) -> (r: i64)
    requires
        0 < sample_size,
        sample_size <= out_true@.len(),
        sample_size <= out_pred@.len(),
    ensures
        r == mse_spec(ints_of(out_true@), ints_of(out_pred@), sample_size as int),
{
    let mut sum_squared_errors: i64 = 0;
    let mut i: usize = 0;
    while i < sample_size
        invariant
            0 <= i <= sample_size,
            sample_size <= out_true@.len(),
            sample_size <= out_pred@.len(),
            sum_squared_errors == sq_err_sum(ints_of(out_true@), ints_of(out_pred@), i as int),
        decreases sample_size - i,
    {
        let d = fx_sub(out_pred[i], out_true[i]);
        let sq = fx_mul(d, d);
        sum_squared_errors = fx_add(sum_squared_errors, sq);
        i = i + 1;
    }
    fx_div_count(sum_squared_errors, sample_size)
}

/// When the predictions equal the expectations, the mean squared error
/// is zero: every squared difference vanishes.
pub proof fn lemma_mse_zero_when_equal(e: Seq<int>, n: int)
    requires
        0 < n,
    ensures
        mse_spec(e, e, n) == 0,
{
    lemma_sq_err_sum_self_zero(e, n);
}

proof fn lemma_sq_err_sum_self_zero(e: Seq<int>, n: int)
    ensures
        sq_err_sum(e, e, n) == 0,
    decreases n,
{
    if n > 0 {
        lemma_sq_err_sum_self_zero(e, n - 1);
        assert(fx_sub_spec(e[n - 1], e[n - 1]) == 0);
        assert(fx_mul_spec(0, 0) == sat(div_trunc(0, SCALE as int)));
        assert(div_trunc(0, SCALE as int) == 0);
    }
}

/// The mean squared error is symmetric in its two sequences: the
/// differences are squared, so their sign is irrelevant.
pub proof fn lemma_mse_symmetric(a: Seq<int>, b: Seq<int>, n: int)
    requires
        0 < n,
    ensures
        mse_spec(a, b, n) == mse_spec(b, a, n),
{
    lemma_sq_err_sum_symmetric(a, b, n);
}

proof fn lemma_sq_err_sum_symmetric(a: Seq<int>, b: Seq<int>, n: int)
    ensures
        sq_err_sum(a, b, n) == sq_err_sum(b, a, n),
    decreases n,
{
    if n > 0 {
        lemma_sq_err_sum_symmetric(a, b, n - 1);
        let d = fx_sub_spec(b[n - 1], a[n - 1]);
        let d2 = fx_sub_spec(a[n - 1], b[n - 1]);
        assert(d2 == -d);
        assert(d2 * d2 == d * d) by (nonlinear_arith)
            requires
                d2 == -d,
        ;
    }
}

} // verus!
