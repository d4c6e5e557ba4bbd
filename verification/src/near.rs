//! Numbers near exact reals: how far single roundings take sums and products.
use vstd::prelude::*;
use crate::arithmetic::power_mag;
use crate::arithmetic::product_error_is_at_most_half_spacing;
use crate::arithmetic::sum_error_is_at_most_half_spacing;
use crate::binary32::Binary32;
use crate::cordic_accuracy::inverse_power;
use crate::exact::lemma_size_of_product;
use crate::exact::lemma_sizes;
use crate::exact::lemma_unscaled;
use crate::exact::real_of;
use crate::exact::size_of_real;
use crate::nearest::lemma_mag_units_at;
use crate::nearest::spacing;
use crate::real_rounding::lemma_real_negative;
use crate::real_rounding::lemma_real_product;
use crate::real_rounding::lemma_real_scaled;
use crate::real_rounding::lemma_scaled_error;
use crate::rounding::INF_MAG;
use crate::rounding::mag_units;
use vstd::arithmetic::power2::lemma2_to64;
use vstd::arithmetic::power2::lemma2_to64_rest;
use vstd::arithmetic::power2::lemma_pow2_adds;
use vstd::arithmetic::power2::lemma_pow2_pos;
use vstd::arithmetic::power2::pow2;

verus! {

/// Whether a number is a real up to an error.
pub open spec fn near(x: Binary32, exact: real, error: real) -> bool {
    x.finite() && size_of_real(real_of(x) - exact) <= error
}

/// A share in parts of a billion.
pub open spec fn billionths(n: real) -> real {
    n / 1000000000real
}

/// The largest number below `2^(24 - n)` and the spacing there.
proof fn lemma_top(n: nat)
    requires
        1 <= n <= 64,
    ensures
        ({
            let limit = (power_mag(24 - n) - 1) as nat;
            let low = pow2((149 - n) as nat);
            &&& limit < INF_MAG
            &&& mag_units(limit) == 0xff_ffff * low
            &&& spacing(limit) == low
            &&& inverse_power(n) * pow2(149) as real == low as real
            &&& inverse_power(n) > 0real
        }),
{
    let limit = (power_mag(24 - n) - 1) as nat;
    let k = (149 - n) as nat;
    let low = pow2(k);
    let high = pow2(n) as real;
    let h = inverse_power(n);
    lemma_mag_units_at(k, 0xff_ffff);
    lemma_pow2_adds(k, n);
    lemma_pow2_pos(n);
    lemma_real_product(low as int, pow2(n) as int);
    assert(limit == 0x80_0000 * k + 0xff_ffff);
    assert(limit / 0x80_0000 == k + 1);
    assert(h * high == 1real) by (nonlinear_arith)
        requires
            h == 1real / high,
            high > 0real,
    ;
    assert(h * (low as real * high) == (h * high) * (low as real)) by (nonlinear_arith);
    assert(1real * (low as real) == low as real);
    assert(h > 0real) by (nonlinear_arith)
        requires
            h * high == 1real,
            high > 0real,
    ;
}

/// The rounded sum of two numbers whose exact sum is below `2^(24 - n)`.
pub proof fn lemma_near_sum(
    x: Binary32,
    y: Binary32,
    p: real,
    q: real,
    ex: real,
    ey: real,
    n: nat,
)
    requires
        near(x, p, ex),
        near(y, q, ey),
        1 <= n <= 64,
        size_of_real(p + q) + ex + ey <= 16777215real * inverse_power(n),
    ensures
        near(x + y, p + q, ex + ey + inverse_power(n) / 2real),
{
    let limit = (power_mag(24 - n) - 1) as nat;
    let u = pow2(149) as real;
    let h = inverse_power(n);
    let e = real_of(x) + real_of(y);
    let v = x.value() + y.value();
    let r = x + y;
    let low = pow2((149 - n) as nat) as real;
    lemma_top(n);
    lemma_real_scaled(x);
    lemma_real_scaled(y);
    assert((real_of(x) + real_of(y)) * u == real_of(x) * u + real_of(y) * u) by (nonlinear_arith);
    lemma_size_of_product(e, u, 16777215real * h, u);
    assert((16777215real * h) * u == 16777215real * (h * u)) by (nonlinear_arith);
    lemma_sizes(v);
    sum_error_is_at_most_half_spacing(x, y, limit);
    lemma_real_scaled(r);
    lemma_sizes(r.value() - v);
    let d = real_of(r) - e;
    assert((real_of(r) - e) * u == real_of(r) * u - e * u) by (nonlinear_arith);
    lemma_size_of_product(d, u, size_of_real(d), u);
    assert((2real * size_of_real(d)) * u == 2real * (size_of_real(d) * u)) by (nonlinear_arith);
    lemma_unscaled(2real * size_of_real(d), h, u);
}

/// The rounded difference of two numbers whose exact difference is below `2^(24 - n)`.
pub proof fn lemma_near_difference(
    x: Binary32,
    y: Binary32,
    p: real,
    q: real,
    ex: real,
    ey: real,
    n: nat,
)
    requires
        near(x, p, ex),
        near(y, q, ey),
        1 <= n <= 64,
        size_of_real(p - q) + ex + ey <= 16777215real * inverse_power(n),
    ensures
        near(x - y, p - q, ex + ey + inverse_power(n) / 2real),
{
    lemma_real_negative(y);
    lemma_near_sum(x, -y, p, -q, ex, ey, n);
}

/// The rounded product of two numbers of sizes up to `bx` and `by` whose exact product is
/// below `2^(24 - n)`.
pub proof fn lemma_near_product(
    x: Binary32,
    y: Binary32,
    p: real,
    q: real,
    ex: real,
    ey: real,
    bx: real,
    by: real,
    n: nat,
)
    requires
        near(x, p, ex),
        near(y, q, ey),
        1 <= n <= 64,
        size_of_real(p) <= bx,
        size_of_real(q) <= by,
        bx * by + bx * ey + by * ex + ex * ey <= 16777215real * inverse_power(n),
    ensures
        near(x * y, p * q, bx * ey + by * ex + ex * ey + inverse_power(n) / 2real),
        size_of_real(p * q) <= bx * by,
{
    let limit = (power_mag(24 - n) - 1) as nat;
    let u = pow2(149) as real;
    let h = inverse_power(n);
    let a = real_of(x);
    let b = real_of(y);
    let e = a * b;
    let v = x.value() * y.value();
    let r = x * y;
    lemma_top(n);
    lemma_real_scaled(x);
    lemma_real_scaled(y);
    lemma_real_product(x.value(), y.value());
    // The exact product of the numbers, against that of the reals.
    let f = a - p;
    let g = b - q;
    assert(a == p + f && b == q + g);
    assert((p + f) * (q + g) == p * q + p * g + q * f + f * g) by (nonlinear_arith);
    lemma_size_of_product(p, g, bx, ey);
    lemma_size_of_product(q, f, by, ex);
    lemma_size_of_product(f, g, ex, ey);
    lemma_size_of_product(p, q, bx, by);
    assert(((a * b) * u) * u == (a * u) * (b * u)) by (nonlinear_arith);
    lemma_size_of_product(e, u, 16777215real * h, u);
    lemma_size_of_product(e * u, u, (16777215real * h) * u, u);
    assert((16777215real * h) * u == 16777215real * (h * u)) by (nonlinear_arith);
    lemma_sizes(v);
    lemma_real_product(mag_units(limit) as int, pow2(149) as int);
    product_error_is_at_most_half_spacing(x, y, limit);
    lemma_real_scaled(r);
    lemma_real_product(r.value(), pow2(149) as int);
    lemma_real_product(spacing(limit) as int, pow2(149) as int);
    lemma_sizes(r.value() * pow2(149) - v);
    lemma_scaled_error(r.value() as real, e * u, v as real, spacing(limit) as real, u);
    let d = real_of(r) - e;
    assert((real_of(r) - e) * u == real_of(r) * u - e * u) by (nonlinear_arith);
    lemma_size_of_product(d, u, size_of_real(d), u);
    assert((2real * size_of_real(d)) * u == 2real * (size_of_real(d) * u)) by (nonlinear_arith);
    lemma_unscaled(2real * size_of_real(d), h, u);
}

/// A larger error.
pub proof fn lemma_near_wider(x: Binary32, p: real, e: real, wide: real)
    requires
        near(x, p, e),
        e <= wide,
    ensures
        near(x, p, wide),
{
}

/// One step of an evaluation from the innermost term: `c + q * u`, where the product is below
/// `2^(24 - m)` and the sum below `2^(24 - n)`.
pub proof fn lemma_near_step(
    cv: Binary32,
    qv: Binary32,
    uv: Binary32,
    c: real,
    q: real,
    u: real,
    ec: real,
    eq: real,
    eu: real,
    bq: real,
    bu: real,
    m: nat,
    n: nat,
    e: real,
)
    requires
        near(cv, c, ec),
        near(qv, q, eq),
        near(uv, u, eu),
        size_of_real(q) <= bq,
        size_of_real(u) <= bu,
        1 <= m <= 64,
        1 <= n <= 64,
        bq * bu + bq * eu + bu * eq + eq * eu <= 16777215real * inverse_power(m),
        size_of_real(c + q * u) + ec + bq * eu + bu * eq + eq * eu + inverse_power(m)
            <= 16777215real * inverse_power(n),
        ec + bq * eu + bu * eq + eq * eu + inverse_power(m) / 2real + inverse_power(n) / 2real
            <= e,
    ensures
        near(cv + qv * uv, c + q * u, e),
        size_of_real(q * u) <= bq * bu,
{
    let ep = bq * eu + bu * eq + eq * eu + inverse_power(m) / 2real;
    lemma_near_product(qv, uv, q, u, eq, eu, bq, bu, m);
    lemma_top(m);
    lemma_near_sum(cv, qv * uv, c, q * u, ec, ep, n);
}

/// The exact value of a constant with 24 bits.
pub proof fn lemma_real_constant(c: Binary32, m: nat, j: nat)
    requires
        j <= 64,
        0x80_0000 <= m < 0x100_0000,
        c.mag() == 0x80_0000 * (149 - j) + m,
    ensures
        c.finite(),
        c.negative() ==> real_of(c) == -(m as real * inverse_power(j)),
        !c.negative() ==> real_of(c) == m as real * inverse_power(j),
{
    let k = (149 - j) as nat;
    let u = pow2(149) as real;
    let low = pow2(k) as real;
    let high = pow2(j) as real;
    let h = inverse_power(j);
    let x = real_of(c);
    lemma_mag_units_at(k, m);
    lemma_pow2_adds(k, j);
    lemma_pow2_pos(j);
    lemma_pow2_pos(149);
    lemma_real_scaled(c);
    lemma_real_product(pow2(k) as int, pow2(j) as int);
    lemma_real_product(m as int, pow2(k) as int);
    let mr = m as real;
    assert(h * high == 1real) by (nonlinear_arith)
        requires
            h == 1real / high,
            high > 0real,
    ;
    assert((mr * h) * (low * high) == (h * high) * (mr * low)) by (nonlinear_arith);
    assert(1real * (mr * low) == mr * low);
    let y = mr * h;
    assert((-y) * u == -(y * u)) by (nonlinear_arith);
    if c.negative() {
        lemma_unscaled(x, -y, u);
        lemma_unscaled(-y, x, u);
    } else {
        lemma_unscaled(x, y, u);
        lemma_unscaled(y, x, u);
    }
}

/// The powers of two that occur as bounds.
pub proof fn lemma_inverse_powers()
    ensures
        inverse_power(20) == 1real / 1048576real,
        inverse_power(21) == 1real / 2097152real,
        inverse_power(22) == 1real / 4194304real,
        inverse_power(23) == 1real / 8388608real,
        inverse_power(24) == 1real / 16777216real,
        inverse_power(25) == 1real / 33554432real,
        inverse_power(26) == 1real / 67108864real,
        inverse_power(27) == 1real / 134217728real,
        inverse_power(28) == 1real / 268435456real,
        inverse_power(29) == 1real / 536870912real,
        inverse_power(30) == 1real / 1073741824real,
        inverse_power(32) == 1real / 4294967296real,
        inverse_power(33) == 1real / 8589934592real,
        inverse_power(34) == 1real / 17179869184real,
        inverse_power(36) == 1real / 68719476736real,
        inverse_power(37) == 1real / 137438953472real,
        inverse_power(39) == 1real / 549755813888real,
        inverse_power(41) == 1real / 2199023255552real,
        inverse_power(42) == 1real / 4398046511104real,
{
    lemma2_to64();
    lemma2_to64_rest();
}

} // verus!
