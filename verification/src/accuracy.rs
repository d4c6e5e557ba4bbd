//! How far rounding takes a vector from itself on the way into another frame and back.
//!
//! Values are integers in units of `2^-149`, so one is `2^149` and a product of two values
//! is in units of `2^-298`.
use vstd::prelude::*;
use crate::arithmetic::multiplication_is_commutative;
use crate::arithmetic::order_is_value_order;
use crate::arithmetic::power_mag;
use crate::arithmetic::product_error_is_at_most_half_spacing;
use crate::arithmetic::sum_error_is_at_most_half_spacing;
use crate::binary32::b32;
use crate::binary32::Binary32;
use crate::binary32::HALF;
use crate::binary32::MINUS_HALF;
use crate::binary32::MINUS_ONE;
use crate::binary32::ONE;
use crate::binary32::ZERO;
use crate::math::INV_SQRT_3;
use crate::math::SQRT_3;
use crate::nearest::lemma_mag_units_at;
use crate::nearest::lemma_mag_units_order;
use crate::nearest::lemma_relative_spacing;
use crate::nearest::rounding_is_exact;
use crate::nearest::spacing;
use crate::rounding::INF_MAG;
use crate::rounding::mag_units;
use crate::transform::Abc;
use crate::transform::AlphaBeta;
use crate::transform::clarke_of;
use crate::transform::Dq;
use crate::transform::inverse_clarke_of;
use crate::transform::inverse_park_of;
use crate::transform::park_of;
use vstd::arithmetic::power2::lemma2_to64;
use vstd::arithmetic::power2::lemma_pow2_adds;
use vstd::arithmetic::power2::lemma_pow2_pos;
use vstd::arithmetic::power2::lemma_pow2_unfold;
use vstd::arithmetic::power2::pow2;
use vstd::math::abs;

verus! {

/// Distances of the numbers around one.
pub proof fn lemma_around_one()
    ensures
        b32(ONE).value() == pow2(149),
        2 * b32(HALF).value() == pow2(149),
        mag_units(ONE as nat) == pow2(149),
        mag_units(0x3fff_ffff) == 0xff_ffff * pow2(126),
        spacing(ONE as nat) == pow2(126),
        spacing(0x3fff_ffff) == pow2(126),
        pow2(149) == 0x80_0000 * pow2(126),
        pow2(126) == 2 * pow2(125),
        pow2(125) > 0,
{
    lemma2_to64();
    lemma_mag_units_at(126, 0x80_0000);
    lemma_mag_units_at(125, 0x80_0000);
    lemma_mag_units_at(126, 0xff_ffff);
    lemma_pow2_adds(23, 126);
    lemma_pow2_unfold(126);
    lemma_pow2_pos(125);
    assert(ONE as nat == 0x80_0000 * 126 + 0x80_0000);
    assert(HALF as nat == 0x80_0000 * 125 + 0x80_0000);
    assert(ONE as nat / 0x80_0000 == 127);
    assert(0x3fff_ffffnat / 0x80_0000 == 127);
}

/// A factor can be taken out of a difference.
pub proof fn lemma_product_of_difference(a: int, b: int, factor: int)
    ensures
        (a - b) * factor == a * factor - b * factor,
{
    assert((a - b) * factor == a * factor - b * factor) by (nonlinear_arith);
}

/// A factor can be taken out of a sum.
pub proof fn lemma_product_of_sum(a: int, b: int, factor: int)
    ensures
        (a + b) * factor == a * factor + b * factor,
{
    assert((a + b) * factor == a * factor + b * factor) by (nonlinear_arith);
}

/// Factors can be swapped and grouped.
proof fn lemma_swapped_factors(a: int, b: int, c: int)
    ensures
        (a * b) * c == (a * c) * b,
        (a * b) * c == a * (b * c),
{
    assert((a * b) * c == (a * c) * b) by (nonlinear_arith);
    assert((a * b) * c == a * (b * c)) by (nonlinear_arith);
}

/// A factor times two squares.
proof fn lemma_square_sum(a: int, s: int, c: int)
    ensures
        a * (s * s + c * c) == (a * s) * s + (a * c) * c,
{
    assert(a * (s * s + c * c) == (a * s) * s + (a * c) * c) by (nonlinear_arith);
}

/// Twice a number.
pub open spec fn doubled(x: Binary32) -> Binary32 {
    Binary32 { bits: (x.bits + 0x80_0000) as u32 }
}

/// One binade up, the size and the spacing double.
pub proof fn lemma_doubled_mag(mag: nat)
    requires
        mag >= 0x80_0000,
    ensures
        mag_units(mag + 0x80_0000) == 2 * mag_units(mag),
        spacing(mag + 0x80_0000) == 2 * spacing(mag),
{
    let k = (mag / 0x80_0000 - 1) as nat;
    let s = 0x80_0000 + mag % 0x80_0000;
    lemma_mag_units_at(k, s);
    lemma_mag_units_at(k + 1, s);
    lemma_pow2_unfold(k + 1);
    assert(s * pow2(k + 1) == 2 * (s * pow2(k))) by (nonlinear_arith)
        requires
            pow2(k + 1) == 2 * pow2(k),
    ;
    assert((mag + 0x80_0000) / 0x80_0000 == k + 2);
}

/// Doubling a normal number doubles its value and the spacing.
pub proof fn lemma_doubled(x: Binary32)
    requires
        x.normal(),
        !x.negative(),
        x.mag() + 0x80_0000 < INF_MAG,
    ensures
        doubled(x).normal(),
        !doubled(x).negative(),
        doubled(x).mag() == x.mag() + 0x80_0000,
        doubled(x).value() == 2 * x.value(),
        spacing(doubled(x).mag()) == 2 * spacing(x.mag()),
{
    lemma_doubled_mag(x.mag());
}

/// A product with a factor up to one is off by at most half the spacing at a limit of the
/// other factor.
pub proof fn lemma_share_error(a: Binary32, s: Binary32, limit: Binary32)
    requires
        a.finite(),
        s.finite(),
        limit.finite(),
        abs(a.value()) <= limit.value(),
        abs(s.value()) <= pow2(149),
    ensures
        (a * s).mag() <= limit.mag(),
        2 * abs((a * s).value() * pow2(149) - a.value() * s.value()) <= spacing(limit.mag()) * pow2(
            149,
        ),
{
    assert(abs(a.value() * s.value()) <= limit.value() * pow2(149)) by (nonlinear_arith)
        requires
            abs(a.value()) <= limit.value(),
            abs(s.value()) <= pow2(149),
    ;
    lemma_mag_units_order(limit.mag(), 0);
    product_error_is_at_most_half_spacing(a, s, limit.mag());
}

/// The sum of two numbers that stand for products `p` and `q`.
proof fn lemma_sum_of_products(x: Binary32, y: Binary32, p: int, q: int, limit: Binary32)
    requires
        limit.normal(),
        !limit.negative(),
        limit.mag() + 0x80_0000 < INF_MAG,
        x.mag() <= limit.mag(),
        y.mag() <= limit.mag(),
        2 * abs(x.value() * pow2(149) - p) <= spacing(limit.mag()) * pow2(149),
        2 * abs(y.value() * pow2(149) - q) <= spacing(limit.mag()) * pow2(149),
    ensures
        (x + y).mag() <= doubled(limit).mag(),
        2 * abs((x + y).value() * pow2(149) - (p + q)) <= 4 * (spacing(limit.mag()) * pow2(149)),
{
    let u = pow2(149);
    let gap = spacing(limit.mag());
    lemma_doubled(limit);
    lemma_mag_units_order(x.mag(), limit.mag());
    lemma_mag_units_order(y.mag(), limit.mag());
    sum_error_is_at_most_half_spacing(x, y, doubled(limit).mag());
    lemma_scaled_rest((x + y).value(), x.value() + y.value(), gap as int, u);
    lemma_product_of_sum(x.value(), y.value(), u as int);
}

/// The difference of two such numbers.
proof fn lemma_difference_of_products(
    x: Binary32,
    y: Binary32,
    p: int,
    q: int,
    limit: Binary32,
)
    requires
        limit.normal(),
        !limit.negative(),
        limit.mag() + 0x80_0000 < INF_MAG,
        x.mag() <= limit.mag(),
        y.mag() <= limit.mag(),
        2 * abs(x.value() * pow2(149) - p) <= spacing(limit.mag()) * pow2(149),
        2 * abs(y.value() * pow2(149) - q) <= spacing(limit.mag()) * pow2(149),
    ensures
        (x - y).mag() <= doubled(limit).mag(),
        2 * abs((x - y).value() * pow2(149) - (p - q)) <= 4 * (spacing(limit.mag()) * pow2(149)),
{
    let z = -y;
    lemma_mag_units_order(y.mag(), 0);
    assert(z.mag() == y.mag() && z.value() == -y.value());
    assert(z.value() * pow2(149) == -(y.value() * pow2(149))) by (nonlinear_arith)
        requires
            z.value() == -y.value(),
    ;
    lemma_sum_of_products(x, z, p, -q, limit);
}

/// The sum and the difference of two products with factors up to one.
proof fn lemma_two_products(
    a: Binary32,
    s: Binary32,
    b: Binary32,
    t: Binary32,
    limit: Binary32,
)
    requires
        a.finite(),
        s.finite(),
        b.finite(),
        t.finite(),
        limit.normal(),
        !limit.negative(),
        limit.mag() + 0x80_0000 < INF_MAG,
        abs(a.value()) <= limit.value(),
        abs(b.value()) <= limit.value(),
        abs(s.value()) <= pow2(149),
        abs(t.value()) <= pow2(149),
    ensures
        (a * s + b * t).mag() <= doubled(limit).mag(),
        (a * s - b * t).mag() <= doubled(limit).mag(),
        2 * abs(
            (a * s + b * t).value() * pow2(149) - (a.value() * s.value() + b.value() * t.value()),
        ) <= 4 * (spacing(limit.mag()) * pow2(149)),
        2 * abs(
            (a * s - b * t).value() * pow2(149) - (a.value() * s.value() - b.value() * t.value()),
        ) <= 4 * (spacing(limit.mag()) * pow2(149)),
{
    let p = a.value() * s.value();
    let q = b.value() * t.value();
    lemma_share_error(a, s, limit);
    lemma_share_error(b, t, limit);
    lemma_sum_of_products(a * s, b * t, p, q, limit);
    lemma_difference_of_products(a * s, b * t, p, q, limit);
}

/// A distance up to a bound, scaled.
proof fn lemma_scaled_rest(z: int, w: int, gap: int, u: nat)
    requires
        2 * abs(z - w) <= 2 * gap,
    ensures
        2 * abs(z * u - w * u) <= 2 * (gap * u),
{
    assert(2 * abs(z * u - w * u) <= 2 * (gap * u)) by (nonlinear_arith)
        requires
            2 * abs(z - w) <= 2 * gap,
            u >= 0,
    ;
}

/// How the errors of turning a vector into a frame, `e1` and `e2`, and back, `e3`, add up.
proof fn lemma_turning_error(e1: int, e2: int, e3: int, f1: int, f2: int, gap: int, u: nat)
    requires
        2 * abs(e1) <= 4 * (gap * u),
        2 * abs(e2) <= 4 * (gap * u),
        2 * abs(e3) <= 8 * (gap * u),
        abs(f1) <= u,
        abs(f2) <= u,
    ensures
        abs(e3 * u + e1 * f1 + e2 * f2) <= 8 * (gap * (u * u)),
{
    let g = gap * u;
    assert(g * u == gap * (u * u)) by (nonlinear_arith)
        requires
            g == gap * u,
    ;
    assert(abs(e3 * u) <= 4 * (g * u)) by (nonlinear_arith)
        requires
            abs(e3) <= 4 * g,
            u >= 0,
    ;
    assert(abs(e1 * f1) <= 2 * (g * u)) by (nonlinear_arith)
        requires
            abs(e1) <= 2 * g,
            abs(f1) <= u,
    ;
    assert(abs(e2 * f2) <= 2 * (g * u)) by (nonlinear_arith)
        requires
            abs(e2) <= 2 * g,
            abs(f2) <= u,
    ;
}

/// The first coordinate of a vector `(a, b)` that was turned by an angle and back again.
proof fn lemma_first_turned_back(
    a: int,
    b: int,
    d: int,
    q: int,
    r: int,
    s: int,
    c: int,
    gap: int,
    u: nat,
)
    requires
        2 * abs(d * u - (a * c + b * s)) <= 4 * (gap * u),
        2 * abs(q * u - (b * c - a * s)) <= 4 * (gap * u),
        2 * abs(r * u - (d * c - q * s)) <= 8 * (gap * u),
        abs(s) <= u,
        abs(c) <= u,
    ensures
        abs(r * (u * u) - a * (s * s + c * c)) <= 8 * (gap * (u * u)),
{
    let e1 = d * u - (a * c + b * s);
    let e2 = q * u - (b * c - a * s);
    let e3 = r * u - (d * c - q * s);
    lemma_turning_error(e1, e2, e3, c, -s, gap, u);
    lemma_product_of_difference(r * u, d * c - q * s, u as int);
    lemma_product_of_difference(d * c, q * s, u as int);
    lemma_product_of_difference(d * u, a * c + b * s, c);
    lemma_product_of_sum(a * c, b * s, c);
    lemma_product_of_difference(q * u, b * c - a * s, s);
    lemma_product_of_difference(b * c, a * s, s);
    assert(e2 * (-s) == -(e2 * s)) by (nonlinear_arith);
    lemma_swapped_factors(r, u as int, u as int);
    lemma_swapped_factors(d, c, u as int);
    lemma_swapped_factors(q, s, u as int);
    lemma_swapped_factors(b, s, c);
    lemma_square_sum(a, s, c);
}

/// The second coordinate of such a vector.
proof fn lemma_second_turned_back(
    a: int,
    b: int,
    d: int,
    q: int,
    r: int,
    s: int,
    c: int,
    gap: int,
    u: nat,
)
    requires
        2 * abs(d * u - (a * c + b * s)) <= 4 * (gap * u),
        2 * abs(q * u - (b * c - a * s)) <= 4 * (gap * u),
        2 * abs(r * u - (d * s + q * c)) <= 8 * (gap * u),
        abs(s) <= u,
        abs(c) <= u,
    ensures
        abs(r * (u * u) - b * (s * s + c * c)) <= 8 * (gap * (u * u)),
{
    let e1 = d * u - (a * c + b * s);
    let e2 = q * u - (b * c - a * s);
    let e3 = r * u - (d * s + q * c);
    lemma_turning_error(e1, e2, e3, s, c, gap, u);
    lemma_product_of_difference(r * u, d * s + q * c, u as int);
    lemma_product_of_sum(d * s, q * c, u as int);
    lemma_product_of_difference(d * u, a * c + b * s, s);
    lemma_product_of_sum(a * c, b * s, s);
    lemma_product_of_difference(q * u, b * c - a * s, c);
    lemma_product_of_difference(b * c, a * s, c);
    lemma_swapped_factors(r, u as int, u as int);
    lemma_swapped_factors(d, s, u as int);
    lemma_swapped_factors(q, c, u as int);
    lemma_swapped_factors(a, s, c);
    lemma_square_sum(b, s, c);
}

/// Whether a number equals another one times the sum of the squares of a sine and a
/// cosine, up to one part in `2^20` of a limit.
pub open spec fn scaled_back(
    r: Binary32,
    x: Binary32,
    sin: Binary32,
    cos: Binary32,
    limit: Binary32,
) -> bool {
    0x10_0000 * abs(
        r.value() * (pow2(149) * pow2(149)) - x.value() * (sin.value() * sin.value() + cos.value()
            * cos.value()),
    ) <= limit.value() * (pow2(149) * pow2(149))
}

/// Turning a vector of size up to a limit into the rotor frame and back multiplies it by
/// the sum of the squares of sine and cosine, which is one for those of an angle, up to
/// one part in `2^20` of the limit.
pub proof fn park_and_back_scales_vector(
    v: AlphaBeta,
    sin: Binary32,
    cos: Binary32,
    limit: Binary32,
)
    requires
        limit.normal(),
        limit > b32(ZERO),
        limit.mag() < power_mag(126),
        v.alpha.within(-limit, limit),
        v.beta.within(-limit, limit),
        sin.within(b32(MINUS_ONE), b32(ONE)),
        cos.within(b32(MINUS_ONE), b32(ONE)),
    ensures
        scaled_back(
            inverse_park_of(park_of(v, sin, cos), sin, cos).alpha,
            v.alpha,
            sin,
            cos,
            limit,
        ),
        scaled_back(
            inverse_park_of(park_of(v, sin, cos), sin, cos).beta,
            v.beta,
            sin,
            cos,
            limit,
        ),
{
    let u = pow2(149);
    let w = park_of(v, sin, cos);
    let r = inverse_park_of(w, sin, cos);
    let gap = spacing(limit.mag());
    let wide = doubled(limit);
    lemma_bound(v.alpha, limit);
    lemma_bound(v.beta, limit);
    lemma_unit_bound(sin);
    lemma_unit_bound(cos);
    lemma_relative_spacing(limit.mag());
    lemma_doubled(limit);
    lemma_two_products(v.alpha, cos, v.beta, sin, limit);
    lemma_two_products(v.beta, cos, v.alpha, sin, limit);
    lemma_mag_units_order(w.d.mag(), wide.mag());
    lemma_mag_units_order(w.q.mag(), wide.mag());
    lemma_two_products(w.d, cos, w.q, sin, wide);
    lemma_two_products(w.d, sin, w.q, cos, wide);
    assert((2 * gap) * u == 2 * (gap * u)) by (nonlinear_arith);
    let a = v.alpha.value();
    let b = v.beta.value();
    let d = w.d.value();
    let q = w.q.value();
    let s = sin.value();
    let c = cos.value();
    lemma_first_turned_back(a, b, d, q, r.alpha.value(), s, c, gap as int, u);
    lemma_second_turned_back(a, b, d, q, r.beta.value(), s, c, gap as int, u);
    lemma_gap_share(gap, limit.value(), u * u);
}

/// Eight spacings are at most one part in `2^20` of a number.
proof fn lemma_gap_share(gap: nat, limit: int, u: nat)
    requires
        0x80_0000 * gap <= limit,
    ensures
        0x10_0000 * (8 * (gap * u)) <= limit * u,
{
    assert(0x10_0000 * (8 * (gap * u)) <= limit * u) by (nonlinear_arith)
        requires
            0x80_0000 * gap <= limit,
            u >= 0,
    ;
}

/// The value of a number between a limit and its negative.
pub proof fn lemma_bound(x: Binary32, limit: Binary32)
    requires
        limit.finite(),
        x.within(-limit, limit),
    ensures
        x.finite(),
        abs(x.value()) <= limit.value(),
{
    order_is_value_order(-limit, x);
    order_is_value_order(x, limit);
    lemma_mag_units_order(limit.mag(), 0);
}

/// The value of a number between minus one and one.
proof fn lemma_unit_bound(x: Binary32)
    requires
        x.within(b32(MINUS_ONE), b32(ONE)),
    ensures
        x.finite(),
        abs(x.value()) <= pow2(149),
{
    lemma_around_one();
    assert(-b32(ONE) == b32(MINUS_ONE));
    lemma_bound(x, b32(ONE));
}

/// Turning a rotor-frame vector of size up to a limit into the stationary frame and back
/// multiplies it by the sum of the squares of sine and cosine, up to one part in `2^20` of
/// the limit.
pub proof fn inverse_park_and_back_scales_vector(
    w: Dq,
    sin: Binary32,
    cos: Binary32,
    limit: Binary32,
)
    requires
        limit.normal(),
        limit > b32(ZERO),
        limit.mag() < power_mag(126),
        w.d.within(-limit, limit),
        w.q.within(-limit, limit),
        sin.within(b32(MINUS_ONE), b32(ONE)),
        cos.within(b32(MINUS_ONE), b32(ONE)),
    ensures
        scaled_back(
            park_of(inverse_park_of(w, sin, cos), sin, cos).d,
            w.d,
            sin,
            cos,
            limit,
        ),
        scaled_back(
            park_of(inverse_park_of(w, sin, cos), sin, cos).q,
            w.q,
            sin,
            cos,
            limit,
        ),
{
    let u = pow2(149);
    let v = inverse_park_of(w, sin, cos);
    let r = park_of(v, sin, cos);
    let gap = spacing(limit.mag());
    let wide = doubled(limit);
    lemma_bound(w.d, limit);
    lemma_bound(w.q, limit);
    lemma_unit_bound(sin);
    lemma_unit_bound(cos);
    lemma_relative_spacing(limit.mag());
    lemma_doubled(limit);
    lemma_two_products(w.d, cos, w.q, sin, limit);
    lemma_two_products(w.d, sin, w.q, cos, limit);
    lemma_mag_units_order(v.alpha.mag(), wide.mag());
    lemma_mag_units_order(v.beta.mag(), wide.mag());
    lemma_two_products(v.alpha, cos, v.beta, sin, wide);
    lemma_two_products(v.beta, cos, v.alpha, sin, wide);
    assert((2 * gap) * u == 2 * (gap * u)) by (nonlinear_arith);
    let d = w.d.value();
    let q = w.q.value();
    let a = v.alpha.value();
    let b = v.beta.value();
    let s = sin.value();
    let c = cos.value();
    lemma_opposite_factor(d, s);
    lemma_opposite_factor(q, s);
    lemma_opposite_factor(a, s);
    lemma_opposite_factor(b, s);
    lemma_first_turned_back(d, q, a, b, r.d.value(), -s, c, gap as int, u);
    lemma_second_turned_back(d, q, a, b, r.q.value(), -s, c, gap as int, u);
    assert(-s * -s == s * s) by (nonlinear_arith);
    lemma_gap_share(gap, limit.value(), u * u);
}

/// A factor of the opposite sign.
proof fn lemma_opposite_factor(x: int, s: int)
    ensures
        x * (-s) == -(x * s),
{
    assert(x * (-s) == -(x * s)) by (nonlinear_arith);
}

/// Encoding of half the square root of three.
pub const HALF_SQRT_3: u32 = 0x3f5d_b3d7;

/// The factors of the Clarke transform, in units of `2^-24`.
pub proof fn lemma_clarke_factors()
    ensures
        b32(HALF) * b32(SQRT_3) == b32(HALF_SQRT_3),
        b32(HALF_SQRT_3).value() == 0xdd_b3d7 * pow2(125),
        b32(INV_SQRT_3).value() == 0x93_cd3a * pow2(125),
        pow2(149) == 0x100_0000 * pow2(125),
{
    reveal(Binary32::spec_mul);
    lemma_around_one();
    lemma_mag_units_at(125, 0xdd_b3d7);
    lemma_mag_units_at(126, 0xdd_b3d7);
    lemma_mag_units_at(125, 0x93_cd3a);
    lemma_mag_units_at(125, 0x80_0000);
    assert(HALF_SQRT_3 as nat == 0x80_0000 * 125 + 0xdd_b3d7);
    assert(SQRT_3 as nat == 0x80_0000 * 126 + 0xdd_b3d7);
    assert(INV_SQRT_3 as nat == 0x80_0000 * 125 + 0x93_cd3a);
    let half = b32(HALF).units();
    let root = b32(SQRT_3).units();
    let e = pow2(125);
    assert(half * root == (0xdd_b3d7 * e) * pow2(149)) by (nonlinear_arith)
        requires
            half == 0x80_0000 * e,
            root == 0xdd_b3d7 * (2 * e),
            pow2(149) == 0x80_0000 * (2 * e),
    ;
    rounding_is_exact(HALF_SQRT_3 as nat, pow2(149));
}

/// The error of a product with a constant factor, without the common scale.
pub proof fn lemma_constant_factor(r: int, x: int, factor: int, gap: int)
    requires
        2 * abs(r * pow2(149) - x * (factor * pow2(125))) <= gap * pow2(149),
        pow2(149) == 0x100_0000 * pow2(125),
        pow2(125) > 0,
    ensures
        2 * abs(0x100_0000 * r - x * factor) <= 0x100_0000 * gap,
{
    let e = pow2(125);
    assert(2 * abs(0x100_0000 * r - x * factor) <= 0x100_0000 * gap) by (nonlinear_arith)
        requires
            2 * abs(r * (0x100_0000 * e) - x * (factor * e)) <= gap * (0x100_0000 * e),
            e > 0,
    ;
}

/// The scaled difference of two phases, scaled back, is about half the difference.
proof fn lemma_half_difference(d: int, beta: int, x: int, limit: int, gap: int)
    requires
        abs(d) <= 2 * limit,
        abs(0x100_0000 * beta - d * 0x93_cd3a) <= 0x100_0000 * gap,
        abs(0x100_0000 * x - beta * 0xdd_b3d7) <= 0x100_0000 * gap,
    ensures
        0x80_0000 * abs(2 * x - d) <= limit + 0x80_0000 * (4 * gap),
{
}

/// The whole way of one phase, given half the difference of the other two or its negative.
proof fn lemma_phase_back(
    a: int,
    d: int,
    difference: int,
    x: int,
    p: int,
    r: int,
    limit: int,
    gap: int,
)
    requires
        0x80_0000 * gap <= limit,
        abs(d - difference) <= gap,
        0x80_0000 * abs(2 * x - d) <= limit + 0x80_0000 * (4 * gap),
        abs(2 * p + a) <= gap,
        abs(r - (p + x)) <= gap,
    ensures
        0x10_0000 * abs(2 * r + a - difference) <= 2 * limit,
{
}

/// The way of the difference `d` of two phases into the stationary frame and back.
proof fn lemma_difference_path(d: Binary32, limit: Binary32)
    requires
        limit.normal(),
        !limit.negative(),
        limit.mag() + 0x80_0000 < INF_MAG,
        d.mag() <= doubled(limit).mag(),
    ensures
        ({
            let x = b32(HALF_SQRT_3) * (d * b32(INV_SQRT_3));
            &&& x.finite()
            &&& abs(d.value()) <= 2 * limit.value()
            &&& 0x80_0000 * abs(2 * x.value() - d.value()) <= limit.value() + 0x80_0000 * (4
                * spacing(limit.mag()))
        }),
{
    let wide = doubled(limit);
    let gap = spacing(limit.mag()) as int;
    let beta = d * b32(INV_SQRT_3);
    let x = b32(HALF_SQRT_3) * beta;
    lemma_around_one();
    lemma_clarke_factors();
    lemma_doubled(limit);
    lemma_mag_units_order(d.mag(), wide.mag());
    lemma_share_error(d, b32(INV_SQRT_3), wide);
    lemma_constant_factor(beta.value(), d.value(), 0x93_cd3a, 2 * gap);
    lemma_mag_units_order(beta.mag(), wide.mag());
    multiplication_is_commutative(b32(HALF_SQRT_3), beta);
    lemma_share_error(beta, b32(HALF_SQRT_3), wide);
    lemma_constant_factor(x.value(), beta.value(), 0xdd_b3d7, 2 * gap);
    lemma_half_difference(d.value(), beta.value(), x.value(), limit.value(), gap);
}

/// The part of phase a in the others.
pub proof fn lemma_minus_half(a: Binary32, limit: Binary32)
    requires
        limit.normal(),
        !limit.negative(),
        a.finite(),
        abs(a.value()) <= limit.value(),
    ensures
        (b32(MINUS_HALF) * a).finite(),
        abs(2 * (b32(MINUS_HALF) * a).value() + a.value()) <= spacing(limit.mag()),
{
    let p = b32(MINUS_HALF) * a;
    let gap = spacing(limit.mag()) as int;
    lemma_around_one();
    lemma_clarke_factors();
    multiplication_is_commutative(b32(MINUS_HALF), a);
    assert(b32(MINUS_HALF).value() == -0x80_0000 * pow2(125));
    lemma_share_error(a, b32(MINUS_HALF), limit);
    lemma_constant_factor(p.value(), a.value(), -0x80_0000, gap);
}

/// The last sum on the way back.
proof fn lemma_last_sum(
    a: int,
    d: int,
    difference: int,
    x: Binary32,
    p: Binary32,
    limit: Binary32,
)
    requires
        limit.normal(),
        !limit.negative(),
        limit.mag() + 0x80_0000 < INF_MAG,
        x.finite(),
        p.finite(),
        abs(a) <= limit.value(),
        abs(d) <= 2 * limit.value(),
        abs(d - difference) <= spacing(limit.mag()),
        0x80_0000 * abs(2 * x.value() - d) <= limit.value() + 0x80_0000 * (4 * spacing(
            limit.mag(),
        )),
        abs(2 * p.value() + a) <= spacing(limit.mag()),
    ensures
        0x10_0000 * abs(2 * (p + x).value() + a - difference) <= 2 * limit.value(),
{
    let wide = doubled(limit);
    let gap = spacing(limit.mag()) as int;
    let m = limit.value();
    lemma_relative_spacing(limit.mag());
    lemma_doubled(limit);
    assert(abs(p.value() + x.value()) <= 2 * m);
    sum_error_is_at_most_half_spacing(p, x, wide.mag());
    lemma_phase_back(a, d, difference, x.value(), p.value(), (p + x).value(), m, gap);
}

/// Phases of size up to a limit come back from the stationary frame: phase a bit for bit,
/// the others less half of the sum of all three, which is zero for balanced phases, up to
/// one part in `2^20` of the limit.
pub proof fn clarke_and_back_keeps_balanced_phases(v: Abc, limit: Binary32)
    requires
        limit.normal(),
        limit > b32(ZERO),
        limit.mag() < power_mag(127),
        v.a.within(-limit, limit),
        v.b.within(-limit, limit),
        v.c.within(-limit, limit),
    ensures
        ({
            let back = inverse_clarke_of(clarke_of(v));
            let sum = v.a.value() + v.b.value() + v.c.value();
            &&& back.a == v.a
            &&& 0x10_0000 * abs(2 * (back.b.value() - v.b.value()) + sum) <= 2 * limit.value()
            &&& 0x10_0000 * abs(2 * (back.c.value() - v.c.value()) + sum) <= 2 * limit.value()
        }),
{
    let wide = doubled(limit);
    let d = v.b - v.c;
    let x = b32(HALF_SQRT_3) * (d * b32(INV_SQRT_3));
    let p = b32(MINUS_HALF) * v.a;
    let difference = v.b.value() - v.c.value();
    lemma_clarke_factors();
    lemma_doubled(limit);
    lemma_bound(v.a, limit);
    lemma_bound(v.b, limit);
    lemma_bound(v.c, limit);
    lemma_negated_value(v.c);
    sum_error_is_at_most_half_spacing(v.b, -v.c, wide.mag());
    lemma_difference_path(d, limit);
    lemma_minus_half(v.a, limit);
    lemma_negated_value(x);
    lemma_last_sum(v.a.value(), d.value(), difference, x, p, limit);
    lemma_last_sum(v.a.value(), -d.value(), -difference, -x, p, limit);
}

/// The value of a negated number.
proof fn lemma_negated_value(x: Binary32)
    requires
        x.finite(),
    ensures
        (-x).finite(),
        (-x).value() == -x.value(),
{
    lemma_mag_units_order(x.mag(), 0);
}

} // verus!
