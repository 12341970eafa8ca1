//! Fixed-point scalar arithmetic.
//!
//! A scalar is an `i64` counting millionths: `SCALE` units stand for the
//! real value one. Addition and subtraction are exact; multiplication and
//! division truncate toward zero at the millionth. Every result is clamped
//! to the symmetric range `[-i64::MAX, i64::MAX]`, so negation is always
//! exact and the operations are total.

use vstd::prelude::*;

verus! {

/// Number of fixed-point units in the real value one.
pub const SCALE: i64 = 1_000_000;

/// Largest representable scalar.
pub const FX_MAX: i64 = i64::MAX;

/// Smallest representable scalar; the mirror image of `FX_MAX`, so that
/// negation never leaves the range.
pub const FX_MIN: i64 = -i64::MAX;

/// The views of a sequence of scalars as mathematical integers.
pub open spec fn ints_of(s: Seq<i64>) -> Seq<int> {
    s.map_values(|v: i64| v as int)
}

/// Clamp a mathematical integer into the symmetric scalar range.
pub open spec fn sat(x: int) -> int {
    if x > FX_MAX as int {
        FX_MAX as int
    } else if x < FX_MIN as int {
        FX_MIN as int
    } else {
        x
    }
}

/// Division truncating toward zero, for a positive divisor.
pub open spec fn div_trunc(a: int, d: int) -> int
    recommends
        d > 0,
{
    if a >= 0 {
        a / d
    } else {
        -((-a) / d)
    }
}

/// Division truncating toward zero, for any non-zero divisor.
pub open spec fn div_trunc_any(a: int, d: int) -> int
    recommends
        d != 0,
{
    if d > 0 {
        div_trunc(a, d)
    } else {
        -div_trunc(a, -d)
    }
}

/// The saturating fixed-point sum.
pub open spec fn fx_add_spec(a: int, b: int) -> int {
    sat(a + b)
}

/// The saturating fixed-point difference.
pub open spec fn fx_sub_spec(a: int, b: int) -> int {
    sat(a - b)
}

/// The saturating fixed-point product: the exact product of two scalars
/// holds `SCALE * SCALE` sub-units, so it is divided by `SCALE` (truncating
/// toward zero) to return to units.
pub open spec fn fx_mul_spec(a: int, b: int) -> int {
    sat(div_trunc(a * b, SCALE as int))
}

/// The saturating fixed-point quotient: the dividend is first raised to
/// sub-units so that the result is again in units.
pub open spec fn fx_div_spec(a: int, b: int) -> int
    recommends
        b != 0,
{
    sat(div_trunc_any(a * SCALE, b))
}

/// Division of a scalar by a positive sample count (an exact integer, not
/// a scalar): used to turn a sum over samples into a mean.
pub open spec fn fx_div_count_spec(a: int, n: int) -> int
    recommends
        n > 0,
{
    div_trunc(a, n)
}

/// Truncating division of an `i128` by a positive divisor.
fn div_trunc_i128(a: i128, d: i128) -> (r: i128)
    requires
        d > 0,
    ensures
        r == div_trunc(a as int, d as int),
        a >= 0 ==> 0 <= r <= a,
        a < 0 ==> a <= r <= 0,
{
    proof {
        if a >= 0 {
            vstd::arithmetic::div_mod::lemma_div_pos_is_pos(a as int, d as int);
            vstd::arithmetic::div_mod::lemma_div_nonincreasing(a as int, d as int);
        } else {
            vstd::arithmetic::div_mod::lemma_div_pos_is_pos(-(a as int), d as int);
            vstd::arithmetic::div_mod::lemma_div_nonincreasing(-(a as int), d as int);
        }
    }
    a.checked_div(d).unwrap()
}

/// Clamp an `i128` into the scalar range and return it as an `i64`.
fn clamp_i128(q: i128) -> (r: i64)
    ensures
        r == sat(q as int),
{
    if q > FX_MAX as i128 {
        FX_MAX
    } else if q < FX_MIN as i128 {
        FX_MIN
    } else {
        q as i64
    }
}

/// Saturating fixed-point addition.
pub fn fx_add(a: i64, b: i64) -> (r: i64)
    ensures
        r == fx_add_spec(a as int, b as int),
{
    clamp_i128(a as i128 + b as i128)
}

/// Saturating fixed-point subtraction.
pub fn fx_sub(a: i64, b: i64) -> (r: i64)
    ensures
        r == fx_sub_spec(a as int, b as int),
{
    clamp_i128(a as i128 - b as i128)
}

/// Saturating fixed-point multiplication, truncating toward zero at the
/// millionth.
pub fn fx_mul(a: i64, b: i64) -> (r: i64)
    ensures
        r == fx_mul_spec(a as int, b as int),
{
    proof {
        assert((a as int) * (b as int) <= i128::MAX && (a as int) * (b as int)
            >= i128::MIN) by (nonlinear_arith)
            requires
                i64::MIN <= a <= i64::MAX,
                i64::MIN <= b <= i64::MAX,
        ;
    }
    let p = a as i128 * b as i128;
    let q = div_trunc_i128(p, SCALE as i128);
    clamp_i128(q)
}

/// Saturating fixed-point division, truncating toward zero at the
/// millionth.
pub fn fx_div(a: i64, b: i64) -> (r: i64)
    requires
        b != 0,
    ensures
        r == fx_div_spec(a as int, b as int),
{
    let wide = a as i128 * SCALE as i128;
    if b > 0 {
        clamp_i128(div_trunc_i128(wide, b as i128))
    } else {
        let q = div_trunc_i128(wide, -(b as i128));
        proof {
            assert(i64::MIN * (SCALE as int) <= a * (SCALE as int) <= i64::MAX * (
            SCALE as int)) by (nonlinear_arith)
                requires
                    i64::MIN <= a <= i64::MAX,
            ;
            assert(i128::MIN < -(q as int) < i128::MAX);
            assert(sat(-(q as int)) == sat(div_trunc_any(a * SCALE, b as int)));
        }
        clamp_i128(-q)
    }
}

/// Divide a scalar by a positive sample count.
pub fn fx_div_count(a: i64, n: usize) -> (r: i64)
    requires
        n > 0,
    ensures
        r == fx_div_count_spec(a as int, n as int),
{
    proof {
        if a >= 0 {
            vstd::arithmetic::div_mod::lemma_div_nonincreasing(a as int, n as int);
        } else {
            vstd::arithmetic::div_mod::lemma_div_nonincreasing(-a as int, n as int);
        }
    }
    let q = div_trunc_i128(a as i128, n as i128);
    q as i64
}

} // verus!
