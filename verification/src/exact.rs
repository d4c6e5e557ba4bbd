//! Numbers as exact reals, and how far rounding takes sums, products and quotients from
//! those of the reals.
use vstd::prelude::*;
use crate::arithmetic::lemma_power_mag;
use crate::arithmetic::order_is_value_order;
use crate::arithmetic::power_mag;
use crate::arithmetic::product_error_is_at_most_half_own_spacing;
use crate::arithmetic::product_error_is_at_most_half_spacing;
use crate::arithmetic::quotient_error_is_at_most_half_own_spacing;
use crate::arithmetic::quotient_error_is_at_most_half_spacing;
use crate::arithmetic::sum_error_is_at_most_half_own_spacing;
use crate::arithmetic::sum_error_is_at_most_half_spacing;
use crate::binary32::b32;
use crate::binary32::Binary32;
use crate::binary32::ZERO;
use crate::nearest::lemma_mag_units_order;
use crate::nearest::lemma_relative_spacing;
use crate::nearest::spacing;
use crate::rounding::mag_units;
use vstd::arithmetic::power2::lemma2_to64;
use vstd::arithmetic::power2::lemma_pow2_adds;
use vstd::arithmetic::power2::lemma_pow2_pos;
use vstd::arithmetic::power2::lemma_pow2_strictly_increases;
use vstd::arithmetic::power2::pow2;
use vstd::math::abs;

verus! {

/// The size of a real.
pub open spec fn size_of_real(x: real) -> real {
    if x < 0real {
        -x
    } else {
        x
    }
}

/// The exact value of a finite number.
pub open spec fn real_of(x: Binary32) -> real {
    x.value() as real / pow2(149) as real
}

/// One part in `2^23`.
pub open spec fn part() -> real {
    1real / 8388608real
}

/// Whether a number is the rounded value of a real: off by at most half a part in `2^23` of
/// itself and half the smallest number.
pub open spec fn rounds(r: Binary32, exact: real) -> bool {
    &&& r.finite()
    &&& 2real * size_of_real(real_of(r) - exact) <= part() * size_of_real(real_of(r)) + 1real
        / pow2(149) as real
}

proof fn lemma_spacing_share(r: Binary32)
    requires
        r.finite(),
    ensures
        0x80_0000 * (spacing(r.mag()) - 1) <= abs(r.value()),
{
    if r.mag() >= 0x80_0000 {
        lemma_relative_spacing(r.mag());
    } else {
        lemma2_to64();
    }
}

pub proof fn lemma_rounds(r: Binary32, exact: real, scaled: real)
    requires
        r.finite(),
        scaled == exact * pow2(149) as real,
        2real * size_of_real(r.value() as real - scaled) <= spacing(r.mag()) as real,
    ensures
        rounds(r, exact),
{
    let u = pow2(149) as real;
    let v = r.value() as real;
    let s = spacing(r.mag()) as real;
    let n = size_of_real(v);
    lemma_pow2_pos(149);
    lemma_spacing_share(r);
    assert(8388608real * (s - 1real) <= n);
    let d = v / u - exact;
    assert(d * u == v - scaled) by (nonlinear_arith)
        requires
            d == v / u - exact,
            u > 0real,
            scaled == exact * u,
    ;
    assert(size_of_real(d) * u == size_of_real(v - scaled)) by (nonlinear_arith)
        requires
            d * u == v - scaled,
            u > 0real,
    ;
    assert(size_of_real(v / u) * u == n) by (nonlinear_arith)
        requires
            n == size_of_real(v),
            u > 0real,
    ;
    let e = size_of_real(d);
    let m = size_of_real(v / u);
    assert(2real * e <= part() * m + 1real / u) by (nonlinear_arith)
        requires
            2real * (e * u) <= s,
            8388608real * (s - 1real) <= m * u,
            part() == 1real / 8388608real,
            u > 0real,
    ;
}

/// The sizes of integers as reals.
pub proof fn lemma_sizes(n: int)
    ensures
        abs(n) as real == size_of_real(n as real),
{
}

/// A bound that no rounding takes to infinity.
pub open spec fn bounded(x: real) -> bool {
    size_of_real(x) <= pow2(122) as real
}

/// The bound in units of `2^-149`.
proof fn lemma_bounded(x: real, n: int)
    requires
        bounded(x),
        n as real == x * pow2(149) as real,
    ensures
        abs(n) <= mag_units(power_mag(122)),
{
    let u = pow2(149) as real;
    let b = pow2(122) as real;
    lemma_power_mag(122);
    lemma_pow2_adds(122, 149);
    lemma_pow2_pos(149);
    lemma_sizes(n);
    assert(pow2(271) as real == b * u) by (nonlinear_arith)
        requires
            pow2(271) == pow2(122) * pow2(149),
            b == pow2(122) as real,
            u == pow2(149) as real,
    ;
    assert(size_of_real(n as real) <= b * u) by (nonlinear_arith)
        requires
            n as real == x * u,
            size_of_real(x) <= b,
            u > 0real,
    ;
}

/// A sum is the rounded sum.
pub proof fn sum_rounds(x: Binary32, y: Binary32)
    requires
        x.finite(),
        y.finite(),
        bounded(real_of(x) + real_of(y)),
    ensures
        rounds(x + y, real_of(x) + real_of(y)),
{
    let exact = real_of(x) + real_of(y);
    let n = x.value() + y.value();
    let u = pow2(149) as real;
    lemma_pow2_pos(149);
    assert(exact * u == n as real) by (nonlinear_arith)
        requires
            exact == x.value() as real / u + y.value() as real / u,
            n as real == x.value() as real + y.value() as real,
            u > 0real,
    ;
    lemma_bounded(exact, n);
    sum_error_is_at_most_half_spacing(x, y, power_mag(122));
    sum_error_is_at_most_half_own_spacing(x, y);
    lemma_sizes((x + y).value() - n);
    lemma_rounds(x + y, exact, n as real);
}

/// A product is the rounded product.
pub proof fn product_rounds(x: Binary32, y: Binary32)
    requires
        x.finite(),
        y.finite(),
        bounded(real_of(x) * real_of(y)),
    ensures
        rounds(x * y, real_of(x) * real_of(y)),
{
    let exact = real_of(x) * real_of(y);
    let n = x.value() * y.value();
    let r = (x * y).value();
    let u = pow2(149) as real;
    let scaled = exact * u;
    lemma_pow2_pos(149);
    assert(scaled * u == n as real) by (nonlinear_arith)
        requires
            scaled == ((x.value() as real / u) * (y.value() as real / u)) * u,
            n == x.value() * y.value(),
            u > 0real,
    ;
    lemma_power_mag(122);
    lemma_pow2_adds(122, 149);
    lemma_sizes(n);
    let b = pow2(122) as real;
    assert(abs(n) <= mag_units(power_mag(122)) * pow2(149)) by (nonlinear_arith)
        requires
            abs(n) as real == size_of_real(n as real),
            n as real == (exact * u) * u,
            size_of_real(exact) <= b,
            b == pow2(122) as real,
            u == pow2(149) as real,
            u > 0real,
            mag_units(power_mag(122)) == pow2(122) * pow2(149),
    ;
    product_error_is_at_most_half_spacing(x, y, power_mag(122));
    product_error_is_at_most_half_own_spacing(x, y);
    let e = r * pow2(149) - n;
    let s = spacing((x * y).mag());
    lemma_sizes(e);
    assert(2real * size_of_real(r as real - scaled) <= s as real) by (nonlinear_arith)
        requires
            2 * abs(e) <= s * pow2(149),
            abs(e) as real == size_of_real(e as real),
            e == r * pow2(149) - n,
            scaled * u == n as real,
            u == pow2(149) as real,
            u > 0real,
    ;
    lemma_rounds(x * y, exact, scaled);
}

/// A quotient is the rounded quotient.
pub proof fn quotient_rounds(x: Binary32, y: Binary32)
    requires
        x.finite(),
        y.finite(),
        y > b32(ZERO),
        bounded(real_of(x) / real_of(y)),
    ensures
        rounds(x / y, real_of(x) / real_of(y)),
{
    let exact = real_of(x) / real_of(y);
    let r = (x / y).value();
    let a = x.value();
    let d = y.value();
    let u = pow2(149) as real;
    let scaled = exact * u;
    lemma_pow2_pos(149);
    lemma_mag_units_order(0, 0);
    order_is_value_order(b32(ZERO), y);
    assert(scaled * (d as real) == a as real * u) by (nonlinear_arith)
        requires
            scaled == ((a as real / u) / (d as real / u)) * u,
            d > 0,
            u > 0real,
    ;
    lemma_power_mag(122);
    lemma_pow2_adds(122, 149);
    lemma_sizes(a);
    let b = pow2(122) as real;
    assert(size_of_real(a as real) <= b * (d as real)) by (nonlinear_arith)
        requires
            (exact * u) * (d as real) == a as real * u,
            size_of_real(exact) <= b,
            u > 0real,
            d > 0,
    ;
    assert(abs(a) <= pow2(122) * d) by (nonlinear_arith)
        requires
            abs(a) as real <= pow2(122) as real * (d as real),
    ;
    assert(abs(a) * pow2(149) <= mag_units(power_mag(122)) * d) by (nonlinear_arith)
        requires
            abs(a) <= pow2(122) * d,
            mag_units(power_mag(122)) == pow2(122) * pow2(149),
    ;
    quotient_error_is_at_most_half_spacing(x, y, power_mag(122));
    quotient_error_is_at_most_half_own_spacing(x, y);
    let e = r * d - a * pow2(149);
    let s = spacing((x / y).mag());
    lemma_sizes(e);
    assert(2real * size_of_real(r as real - scaled) <= s as real) by (nonlinear_arith)
        requires
            2 * abs(e) <= s * d,
            abs(e) as real == size_of_real(e as real),
            e == r * d - a * pow2(149),
            scaled * (d as real) == a as real * u,
            u == pow2(149) as real,
            d > 0,
    ;
    lemma_rounds(x / y, exact, scaled);
}

/// A product of reals that are not negative is not negative.
proof fn lemma_non_negative(a: real, b: real)
    requires
        a >= 0real,
        b >= 0real,
    ensures
        a * b >= 0real,
{
    assert(a * b >= 0real) by (nonlinear_arith)
        requires
            a >= 0real,
            b >= 0real,
    ;
}

/// Multiplying by a factor that is not negative keeps an inequality.
pub proof fn lemma_scaled(a: real, b: real, c: real)
    requires
        a <= b,
        c >= 0real,
    ensures
        a * c <= b * c,
{
    lemma_non_negative(b - a, c);
    assert((b - a) * c == b * c - a * c) by (nonlinear_arith);
}

/// A positive factor can be taken out of an inequality.
pub proof fn lemma_unscaled(a: real, b: real, c: real)
    requires
        a * c <= b * c,
        c > 0real,
    ensures
        a <= b,
{
    assert(a <= b) by (nonlinear_arith)
        requires
            a * c <= b * c,
            c > 0real,
    ;
}

/// The size of a product.
pub proof fn lemma_size_of_product(x: real, y: real, bx: real, by: real)
    requires
        size_of_real(x) <= bx,
        size_of_real(y) <= by,
    ensures
        size_of_real(x * y) == size_of_real(x) * size_of_real(y),
        size_of_real(x * y) <= bx * by,
{
    let a = size_of_real(x);
    let b = size_of_real(y);
    lemma_non_negative(a, b);
    assert((-a) * b == -(a * b)) by (nonlinear_arith);
    assert(a * (-b) == -(a * b)) by (nonlinear_arith);
    assert((-a) * (-b) == a * b) by (nonlinear_arith);
    assert(x == a || x == -a);
    assert(y == b || y == -b);
    lemma_scaled(a, bx, b);
    lemma_scaled(b, by, bx);
    assert(b * bx == bx * b && by * bx == bx * by) by (nonlinear_arith);
}

/// A unit far from the ends of the range of numbers.
pub open spec fn usable(unit: real) -> bool {
    &&& unit > 0real
    &&& 1real <= unit * pow2(120) as real
    &&& unit <= pow2(110) as real
}

/// Whether a number is a multiple of a unit, up to some parts in `2^23` of the unit.
pub open spec fn about(x: Binary32, unit: real, exact: real, parts: real) -> bool {
    &&& x.finite()
    &&& 8388608real * size_of_real(real_of(x) - exact * unit) <= parts * unit
}

/// The smallest number is far below a unit.
pub proof fn lemma_least(unit: real)
    requires
        usable(unit),
    ensures
        536870912real * (1real / pow2(149) as real) <= unit,
{
    let u = pow2(149) as real;
    let p = pow2(120) as real;
    let least = 1real / u;
    lemma2_to64();
    lemma_pow2_pos(149);
    lemma_pow2_pos(120);
    lemma_pow2_adds(120, 29);
    assert(pow2(149) == pow2(120) * 536870912);
    assert((pow2(120) * 536870912) as real == p * 536870912real);
    assert(least * u == 1real) by (nonlinear_arith)
        requires
            least == 1real / u,
            u > 0real,
    ;
    assert(least * (p * 536870912real) == (536870912real * least) * p) by (nonlinear_arith);
    lemma_unscaled(536870912real * least, unit, p);
}

/// The error of a rounding, in parts of a unit.
proof fn lemma_in_unit(r: Binary32, e: real, unit: real, n: real)
    requires
        rounds(r, e),
        usable(unit),
        1real <= n,
        size_of_real(e) <= n * unit,
    ensures
        8388608real * size_of_real(real_of(r) - e) <= n * unit,
{
    let v = size_of_real(real_of(r));
    let k = part();
    lemma_least(unit);
    lemma_scaled(1real, n, unit);
    assert(1real * unit == unit);
    assert(8388608real * (k * v) == v) by (nonlinear_arith)
        requires
            k == 1real / 8388608real,
    ;
}

/// A real of some units is bounded.
proof fn lemma_bounded_in_unit(e: real, unit: real, n: real)
    requires
        usable(unit),
        size_of_real(e) <= n * unit,
        n <= 4096real,
    ensures
        bounded(e),
{
    let top = pow2(110) as real;
    lemma2_to64();
    lemma_pow2_adds(110, 12);
    assert(pow2(122) == pow2(110) * 4096);
    assert((pow2(110) * 4096) as real == top * 4096real);
    lemma_scaled(n, 4096real, unit);
}

/// The negative of a number.
pub proof fn lemma_about_negative(x: Binary32, unit: real, p: real, ex: real)
    requires
        about(x, unit, p, ex),
    ensures
        about(-x, unit, -p, ex),
{
    let u = pow2(149) as real;
    lemma_pow2_pos(149);
    assert((-x).value() == -x.value());
    assert(-(x.value() as real) / u == -(x.value() as real / u)) by (nonlinear_arith)
        requires
            u > 0real,
    ;
    assert(-p * unit == -(p * unit)) by (nonlinear_arith);
}

/// The sum of two numbers in one unit, where `n` bounds the sum.
pub proof fn lemma_about_sum(
    x: Binary32,
    y: Binary32,
    unit: real,
    p: real,
    q: real,
    ex: real,
    ey: real,
    n: real,
)
    requires
        about(x, unit, p, ex),
        about(y, unit, q, ey),
        usable(unit),
        8388608real * size_of_real(p + q) + ex + ey <= 8388608real * n,
        1real <= n <= 4096real,
    ensures
        about(x + y, unit, p + q, ex + ey + n),
{
    let e = real_of(x) + real_of(y);
    let b = size_of_real(p + q);
    assert((p + q) * unit == p * unit + q * unit) by (nonlinear_arith);
    assert((ex + ey + n) * unit == ex * unit + ey * unit + n * unit) by (nonlinear_arith);
    lemma_size_of_product(p + q, unit, b, unit);
    lemma_scaled(8388608real * b + ex + ey, 8388608real * n, unit);
    assert((8388608real * b + ex + ey) * unit == 8388608real * (b * unit) + ex * unit + ey * unit)
        by (nonlinear_arith);
    assert((8388608real * n) * unit == 8388608real * (n * unit)) by (nonlinear_arith);
    lemma_bounded_in_unit(e, unit, n);
    sum_rounds(x, y);
    lemma_in_unit(x + y, e, unit, n);
}

/// The difference of two numbers in one unit, where `n` bounds the difference.
pub proof fn lemma_about_difference(
    x: Binary32,
    y: Binary32,
    unit: real,
    p: real,
    q: real,
    ex: real,
    ey: real,
    n: real,
)
    requires
        about(x, unit, p, ex),
        about(y, unit, q, ey),
        usable(unit),
        8388608real * size_of_real(p - q) + ex + ey <= 8388608real * n,
        1real <= n <= 4096real,
    ensures
        about(x - y, unit, p - q, ex + ey + n),
{
    lemma_about_negative(y, unit, q, ey);
    lemma_about_sum(x, -y, unit, p, -q, ex, ey, n);
}

/// The product of two reals that stand for multiples of units.
proof fn lemma_product_of_reals(
    x: real,
    y: real,
    ux: real,
    uy: real,
    p: real,
    q: real,
    ex: real,
    ey: real,
    bx: real,
    by: real,
)
    requires
        8388608real * size_of_real(x - p * ux) <= ex * ux,
        8388608real * size_of_real(y - q * uy) <= ey * uy,
        ux > 0real,
        uy > 0real,
        size_of_real(p) <= bx,
        size_of_real(q) <= by,
    ensures
        70368744177664real * size_of_real(x * y - (p * q) * (ux * uy)) <= (8388608real * (bx * ey
            + by * ex) + ex * ey) * (ux * uy),
        size_of_real((p * q) * (ux * uy)) <= (bx * by) * (ux * uy),
{
    let d = 8388608real;
    let a = p * ux;
    let b = q * uy;
    let f = x - a;
    let g = y - b;
    let unit = ux * uy;
    assert(x * y == a * b + a * g + b * f + f * g) by (nonlinear_arith)
        requires
            x == a + f,
            y == b + g,
    ;
    assert((p * ux) * (q * uy) == (p * q) * (ux * uy)) by (nonlinear_arith);
    lemma_size_of_product(p, ux, bx, ux);
    lemma_size_of_product(q, uy, by, uy);
    lemma_size_of_product(a, d * g, bx * ux, ey * uy);
    lemma_size_of_product(b, d * f, by * uy, ex * ux);
    lemma_size_of_product(d * f, d * g, ex * ux, ey * uy);
    lemma_size_of_product(a, b, bx * ux, by * uy);
    assert(a * (d * g) == d * (a * g)) by (nonlinear_arith);
    assert(b * (d * f) == d * (b * f)) by (nonlinear_arith);
    assert((8388608real * f) * (8388608real * g) == 70368744177664real * (f * g))
        by (nonlinear_arith);
    assert((bx * ux) * (ey * uy) == (bx * ey) * unit) by (nonlinear_arith)
        requires
            unit == ux * uy,
    ;
    assert((by * uy) * (ex * ux) == (by * ex) * unit) by (nonlinear_arith)
        requires
            unit == ux * uy,
    ;
    assert((ex * ux) * (ey * uy) == (ex * ey) * unit) by (nonlinear_arith)
        requires
            unit == ux * uy,
    ;
    assert((bx * ux) * (by * uy) == (bx * by) * unit) by (nonlinear_arith)
        requires
            unit == ux * uy,
    ;
    assert((8388608real * (bx * ey + by * ex) + ex * ey) * unit == 8388608real * ((bx * ey) * unit)
        + 8388608real * ((by * ex) * unit) + (ex * ey) * unit) by (nonlinear_arith);
}

/// The product of two numbers of sizes up to `bx` and `by`, where `n` bounds the product
/// and `e` the parts by which it is off.
pub proof fn lemma_about_product(
    x: Binary32,
    y: Binary32,
    ux: real,
    uy: real,
    p: real,
    q: real,
    ex: real,
    ey: real,
    bx: real,
    by: real,
    n: real,
    e: real,
)
    requires
        about(x, ux, p, ex),
        about(y, uy, q, ey),
        ux > 0real,
        uy > 0real,
        usable(ux * uy),
        size_of_real(p) <= bx,
        size_of_real(q) <= by,
        1real <= n <= 4096real,
        8388608real * (bx * by) + e <= 8388608real * n,
        8388608real * (bx * ey + by * ex) + ex * ey + 8388608real * n <= 8388608real * e,
    ensures
        about(x * y, ux * uy, p * q, e),
{
    let unit = ux * uy;
    let r = real_of(x) * real_of(y);
    let m = 8388608real * (bx * ey + by * ex) + ex * ey;
    let s = bx * by;
    lemma_product_of_reals(real_of(x), real_of(y), ux, uy, p, q, ex, ey, bx, by);
    lemma_scaled(m, 8388608real * (e - n), unit);
    assert((8388608real * (e - n)) * unit == 8388608real * (e * unit) - 8388608real * (n * unit))
        by (nonlinear_arith);
    lemma_scaled(8388608real * s + e, 8388608real * n, unit);
    assert((8388608real * s + e) * unit == 8388608real * (s * unit) + e * unit)
        by (nonlinear_arith);
    assert((8388608real * n) * unit == 8388608real * (n * unit)) by (nonlinear_arith);
    lemma_non_negative(n, unit);
    lemma_bounded_in_unit(r, unit, n);
    product_rounds(x, y);
    lemma_in_unit(x * y, r, unit, n);
}

/// The quotient of a real by one that is at least half of `low` units.
proof fn lemma_quotient_of_reals(
    x: real,
    y: real,
    r: real,
    v: real,
    uy: real,
    k: real,
    w: real,
    ex: real,
    ey: real,
    b: real,
    low: real,
    m: real,
)
    requires
        8388608real * size_of_real(x - (k * w) * (v * uy)) <= ex * (v * uy),
        8388608real * size_of_real(y - w * uy) <= ey * uy,
        v > 0real,
        uy > 0real,
        r * y == x,
        size_of_real(k) <= b,
        0real < low <= w,
        2real * ey <= 8388608real * low,
        2real * (ex + b * ey) <= low * m,
    ensures
        y > 0real,
        8388608real * size_of_real(r - k * v) <= m * v,
{
    let d = 8388608real;
    let g = y - w * uy;
    let f = x - (k * w) * (v * uy);
    let h = r - k * v;
    lemma_scaled(2real * ey, d * low, uy);
    lemma_scaled(low, w, uy);
    assert((2real * ey) * uy == 2real * (ey * uy)) by (nonlinear_arith);
    assert((8388608real * low) * uy == 8388608real * (low * uy)) by (nonlinear_arith);
    let half = low * uy;
    assert(half > 0real) by (nonlinear_arith)
        requires
            half == low * uy,
            low > 0real,
            uy > 0real,
    ;
    assert(2real * y >= half);
    assert((k * w) * (v * uy) == (k * v) * (w * uy)) by (nonlinear_arith);
    assert(h * y == r * y - (k * v) * y) by (nonlinear_arith)
        requires
            h == r - k * v,
    ;
    assert((k * v) * y == (k * v) * (w * uy) + (k * v) * g) by (nonlinear_arith)
        requires
            y == w * uy + g,
    ;
    assert(h * y == f - (k * v) * g);
    lemma_size_of_product(k, v, b, v);
    lemma_size_of_product(k * v, d * g, b * v, ey * uy);
    assert((k * v) * (8388608real * g) == 8388608real * ((k * v) * g)) by (nonlinear_arith);
    assert((b * v) * (ey * uy) == (b * ey) * (v * uy)) by (nonlinear_arith);
    let unit = v * uy;
    assert((ex + b * ey) * unit == ex * unit + (b * ey) * unit) by (nonlinear_arith);
    assert(d * size_of_real(h * y) <= (ex + b * ey) * unit);
    let n = size_of_real(h);
    lemma_size_of_product(h, y, n, y);
    assert(size_of_real(h * y) == n * y);
    lemma_scaled(half, 2real * y, n);
    assert((2real * y) * n == 2real * (n * y)) by (nonlinear_arith);
    assert(d * (half * n) <= 2real * ((ex + b * ey) * unit));
    lemma_non_negative(v, uy);
    lemma_scaled(2real * (ex + b * ey), low * m, unit);
    assert((2real * (ex + b * ey)) * unit == 2real * ((ex + b * ey) * unit)) by (nonlinear_arith);
    assert((low * m) * unit == (m * v) * half) by (nonlinear_arith)
        requires
            unit == v * uy,
            half == low * uy,
    ;
    assert((8388608real * n) * half == 8388608real * (half * n)) by (nonlinear_arith);
    lemma_unscaled(d * n, m * v, half);
}

/// The quotient `k` of `k * w` and `w`, where `w` is at least `low`, `b` bounds the quotient
/// and `e` the parts by which it is off.
pub proof fn lemma_about_quotient(
    x: Binary32,
    y: Binary32,
    v: real,
    uy: real,
    k: real,
    w: real,
    ex: real,
    ey: real,
    b: real,
    low: real,
    n: real,
    e: real,
)
    requires
        about(x, v * uy, k * w, ex),
        about(y, uy, w, ey),
        usable(v),
        uy > 0real,
        size_of_real(k) <= b,
        0real < low <= w,
        2real * ey <= 8388608real * low,
        2real * (ex + b * ey) <= low * (e - n),
        1real <= n <= 4096real,
        8388608real * b + e <= 8388608real * n,
    ensures
        y > b32(ZERO),
        about(x / y, v, k, e),
{
    let r = real_of(x) / real_of(y);
    let yv = real_of(y);
    let xv = real_of(x);
    let m = e - n;
    lemma_pow2_pos(149);
    lemma_positive(y, uy, w, ey, low);
    assert(r * yv == xv) by (nonlinear_arith)
        requires
            r == xv / yv,
            yv > 0real,
    ;
    lemma_quotient_of_reals(xv, yv, r, v, uy, k, w, ex, ey, b, low, m);
    lemma_size_of_product(k, v, b, v);
    lemma_scaled(8388608real * b + e, 8388608real * n, v);
    assert((8388608real * b + e) * v == 8388608real * (b * v) + e * v) by (nonlinear_arith);
    assert((8388608real * n) * v == 8388608real * (n * v)) by (nonlinear_arith);
    assert(m * v == e * v - n * v) by (nonlinear_arith)
        requires
            m == e - n,
    ;
    lemma_non_negative(n, v);
    lemma_bounded_in_unit(r, v, n);
    quotient_rounds(x, y);
    lemma_in_unit(x / y, r, v, n);
}

/// A number about a real that is at least `low` is positive.
pub proof fn lemma_positive(y: Binary32, uy: real, w: real, ey: real, low: real)
    requires
        about(y, uy, w, ey),
        uy > 0real,
        0real < low <= w,
        2real * ey <= 8388608real * low,
    ensures
        real_of(y) > 0real,
        y > b32(ZERO),
{
    let u = pow2(149) as real;
    let n = y.value() as real;
    lemma_pow2_pos(149);
    lemma_scaled(2real * ey, 8388608real * low, uy);
    lemma_scaled(low, w, uy);
    assert((2real * ey) * uy == 2real * (ey * uy)) by (nonlinear_arith);
    assert((8388608real * low) * uy == 8388608real * (low * uy)) by (nonlinear_arith);
    assert(low * uy > 0real) by (nonlinear_arith)
        requires
            low > 0real,
            uy > 0real,
    ;
    assert(n > 0real) by (nonlinear_arith)
        requires
            n / u > 0real,
            u > 0real,
    ;
    lemma_mag_units_order(0, 0);
    order_is_value_order(b32(ZERO), y);
}

/// A product that is a multiple of a unit, of size up to one.
pub proof fn lemma_about_plain_product(x: Binary32, y: Binary32, unit: real, t: real)
    requires
        x.finite(),
        y.finite(),
        usable(unit),
        real_of(x) * real_of(y) == t * unit,
        size_of_real(t) <= 1real,
    ensures
        about(x * y, unit, t, 1real),
{
    lemma_size_of_product(t, unit, 1real, unit);
    lemma_bounded_in_unit(real_of(x) * real_of(y), unit, 1real);
    product_rounds(x, y);
    lemma_in_unit(x * y, real_of(x) * real_of(y), unit, 1real);
}

/// A finite number is exactly its multiple of a unit.
pub proof fn lemma_about_itself(x: Binary32, unit: real) -> (t: real)
    requires
        x.finite(),
        unit > 0real,
    ensures
        t * unit == real_of(x),
        about(x, unit, t, 0real),
{
    let t = real_of(x) / unit;
    let v = real_of(x);
    assert(t * unit == v) by (nonlinear_arith)
        requires
            t == v / unit,
            unit > 0real,
    ;
    assert(0real * unit == 0real) by (nonlinear_arith);
    t
}

/// The multiple of a number up to a unit is at most one.
pub proof fn lemma_at_most_one(t: real, unit: real)
    requires
        unit > 0real,
        size_of_real(t * unit) <= unit,
    ensures
        size_of_real(t) <= 1real,
{
    lemma_size_of_product(t, unit, size_of_real(t), unit);
    assert(1real * unit == unit);
    lemma_unscaled(size_of_real(t), 1real, unit);
}

/// Zero in every unit.
pub proof fn lemma_about_zero(x: Binary32, unit: real)
    requires
        x.zero(),
        unit > 0real,
    ensures
        about(x, unit, 0real, 0real),
{
    lemma_mag_units_order(0, 0);
    lemma_pow2_pos(149);
    let u = pow2(149) as real;
    assert(0real / u == 0real) by (nonlinear_arith)
        requires
            u > 0real,
    ;
    assert(0real * unit == 0real) by (nonlinear_arith);
}

/// Whether a unit lies between a power of two and its inverse.
pub open spec fn moderate(unit: real, power: nat) -> bool {
    &&& unit > 0real
    &&& 1real <= unit * pow2(power) as real
    &&& unit <= pow2(power) as real
}

/// The product of moderate units.
pub proof fn lemma_moderate_product(a: real, b: real, m: nat, n: nat)
    requires
        moderate(a, m),
        moderate(b, n),
    ensures
        moderate(a * b, m + n),
{
    let p = pow2(m) as real;
    let q = pow2(n) as real;
    lemma_pow2_adds(m, n);
    lemma_pow2_pos(m);
    lemma_pow2_pos(n);
    assert((pow2(m) * pow2(n)) as real == p * q) by (nonlinear_arith)
        requires
            p == pow2(m) as real,
            q == pow2(n) as real,
    ;
    assert(a * b > 0real) by (nonlinear_arith)
        requires
            a > 0real,
            b > 0real,
    ;
    lemma_scaled(1real, a * p, b * q);
    lemma_scaled(a, p, b);
    lemma_scaled(b, q, p);
    assert((a * p) * (b * q) == (a * b) * (p * q)) by (nonlinear_arith);
    assert(p * b == b * p && q * p == p * q && 1real * (b * q) == b * q) by (nonlinear_arith);
}

/// Moderate units are usable.
pub proof fn lemma_moderate_is_usable(unit: real, power: nat)
    requires
        moderate(unit, power),
        power <= 110,
    ensures
        usable(unit),
{
    let p = pow2(power) as real;
    lemma_pow2_pos(power);
    lemma_pow2_order(power, 110);
    lemma_pow2_order(power, 120);
    lemma_scaled(p, pow2(120) as real, unit);
    assert(p * unit == unit * p && pow2(120) as real * unit == unit * pow2(120) as real)
        by (nonlinear_arith);
}

proof fn lemma_pow2_order(m: nat, n: nat)
    requires
        m <= n,
    ensures
        pow2(m) <= pow2(n),
{
    if m < n {
        lemma_pow2_strictly_increases(m, n);
    }
}

} // verus!
