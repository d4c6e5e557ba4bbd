//! Exact values of numbers, and sums, products and quotients that do not overflow.
use vstd::prelude::*;
use crate::arithmetic::negation_is_an_involution;
use crate::arithmetic::order_is_value_order;
use crate::arithmetic::product_error_is_at_most_half_own_spacing;
use crate::arithmetic::quotient_error_is_at_most_half_own_spacing;
use crate::arithmetic::sum_error_is_at_most_half_own_spacing;
use crate::binary32::b32;
use crate::binary32::Binary32;
use crate::binary32::ZERO;
use crate::exact::lemma_rounds;
use crate::exact::lemma_scaled;
use crate::exact::lemma_size_of_product;
use crate::exact::lemma_sizes;
use crate::exact::lemma_unscaled;
use crate::exact::real_of;
use crate::exact::rounds;
use crate::exact::size_of_real;
use crate::nearest::lemma_mag_units_order;
use crate::nearest::spacing;
use vstd::arithmetic::power2::lemma_pow2_pos;
use vstd::arithmetic::power2::pow2;

verus! {

/// The product of integers as reals.
pub proof fn lemma_real_product(a: int, b: int)
    ensures
        (a * b) as real == (a as real) * (b as real),
{
    assert((a * b) as real == (a as real) * (b as real)) by (nonlinear_arith);
}

/// The exact value times the number of units in one.
pub proof fn lemma_real_scaled(x: Binary32)
    ensures
        real_of(x) * pow2(149) as real == x.value() as real,
        pow2(149) as real > 0real,
{
    let v = x.value() as real;
    let u = pow2(149) as real;
    let r = real_of(x);
    lemma_pow2_pos(149);
    assert(r * u == v) by (nonlinear_arith)
        requires
            r == v / u,
            u > 0real,
    ;
}

/// A sum that does not overflow is the rounded sum.
pub proof fn finite_sum_rounds(x: Binary32, y: Binary32)
    requires
        x.finite(),
        y.finite(),
        (x + y).finite(),
    ensures
        rounds(x + y, real_of(x) + real_of(y)),
{
    let exact = real_of(x) + real_of(y);
    let n = x.value() + y.value();
    let u = pow2(149) as real;
    lemma_real_scaled(x);
    lemma_real_scaled(y);
    assert((real_of(x) + real_of(y)) * u == real_of(x) * u + real_of(y) * u) by (nonlinear_arith);
    sum_error_is_at_most_half_own_spacing(x, y);
    lemma_sizes((x + y).value() - n);
    lemma_rounds(x + y, exact, n as real);
}

/// The exact product, scaled.
proof fn lemma_scaled_product(x: Binary32, y: Binary32)
    ensures
        ((real_of(x) * real_of(y)) * pow2(149) as real) * pow2(149) as real == (x.value()
            * y.value()) as real,
{
    let u = pow2(149) as real;
    let a = real_of(x);
    let b = real_of(y);
    lemma_real_scaled(x);
    lemma_real_scaled(y);
    lemma_real_product(x.value(), y.value());
    assert(((a * b) * u) * u == (a * u) * (b * u)) by (nonlinear_arith);
}

/// A product that does not overflow is the rounded product.
pub proof fn finite_product_rounds(x: Binary32, y: Binary32)
    requires
        x.finite(),
        y.finite(),
        (x * y).finite(),
    ensures
        rounds(x * y, real_of(x) * real_of(y)),
{
    let exact = real_of(x) * real_of(y);
    let n = x.value() * y.value();
    let r = (x * y).value();
    let u = pow2(149) as real;
    let scaled = exact * u;
    let s = spacing((x * y).mag());
    let e = r * pow2(149) - n;
    lemma_real_scaled(x);
    lemma_scaled_product(x, y);
    product_error_is_at_most_half_own_spacing(x, y);
    lemma_sizes(e);
    lemma_real_product(r, pow2(149) as int);
    lemma_real_product(s as int, pow2(149) as int);
    lemma_scaled_error(r as real, scaled, n as real, s as real, u);
    lemma_rounds(x * y, exact, scaled);
}

/// An error without a common factor.
pub proof fn lemma_scaled_error(r: real, scaled: real, n: real, s: real, u: real)
    requires
        u > 0real,
        scaled * u == n,
        2real * size_of_real(r * u - n) <= s * u,
    ensures
        2real * size_of_real(r - scaled) <= s,
{
    let d = r - scaled;
    assert((r - scaled) * u == r * u - scaled * u) by (nonlinear_arith);
    lemma_size_of_product(d, u, size_of_real(d), u);
    assert((2real * size_of_real(d)) * u == 2real * (size_of_real(d) * u)) by (nonlinear_arith);
    lemma_unscaled(2real * size_of_real(d), s, u);
}

/// The exact quotient, scaled.
proof fn lemma_scaled_quotient(x: Binary32, y: Binary32)
    requires
        y.value() > 0,
    ensures
        ((real_of(x) / real_of(y)) * pow2(149) as real) * (y.value() as real) == x.value() as real
            * pow2(149) as real,
        real_of(y) > 0real,
{
    let u = pow2(149) as real;
    let a = real_of(x);
    let b = real_of(y);
    let q = a / b;
    let d = y.value() as real;
    lemma_real_scaled(x);
    lemma_real_scaled(y);
    assert(0real * u == 0real) by (nonlinear_arith);
    if b <= 0real {
        lemma_scaled(b, 0real, u);
    }
    assert(q * b == a) by (nonlinear_arith)
        requires
            q == a / b,
            b > 0real,
    ;
    assert((q * u) * (b * u) == ((q * b) * u) * u) by (nonlinear_arith);
}

/// A quotient that does not overflow is the rounded quotient.
pub proof fn finite_quotient_rounds(x: Binary32, y: Binary32)
    requires
        x.finite(),
        y.finite(),
        y > b32(ZERO),
        (x / y).finite(),
    ensures
        rounds(x / y, real_of(x) / real_of(y)),
{
    let exact = real_of(x) / real_of(y);
    let r = (x / y).value();
    let a = x.value();
    let d = y.value();
    let u = pow2(149) as real;
    let scaled = exact * u;
    let s = spacing((x / y).mag());
    let e = r * d - a * pow2(149);
    lemma_mag_units_order(0, 0);
    order_is_value_order(b32(ZERO), y);
    lemma_real_scaled(x);
    lemma_scaled_quotient(x, y);
    quotient_error_is_at_most_half_own_spacing(x, y);
    lemma_sizes(e);
    lemma_real_product(r, d);
    lemma_real_product(a, pow2(149) as int);
    lemma_real_product(s as int, d);
    lemma_scaled_error(r as real, scaled, a as real * u, s as real, d as real);
    lemma_rounds(x / y, exact, scaled);
}

/// The negative of a number as a real.
pub proof fn lemma_real_negative(a: Binary32)
    requires
        a.finite(),
    ensures
        real_of(-a) == -real_of(a),
{
    let u = pow2(149) as real;
    let x = real_of(a);
    let y = real_of(-a);
    negation_is_an_involution(a);
    lemma_real_scaled(a);
    lemma_real_scaled(-a);
    assert((-x) * u == -(x * u)) by (nonlinear_arith);
    lemma_unscaled(-x, y, u);
    lemma_unscaled(y, -x, u);
}

/// A product of positive reals is positive.
pub proof fn lemma_positive_product(a: real, b: real)
    requires
        a > 0real,
        b > 0real,
    ensures
        a * b > 0real,
{
    assert(a * b > 0real) by (nonlinear_arith)
        requires
            a > 0real,
            b > 0real,
    ;
}

} // verus!
