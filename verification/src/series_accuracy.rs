//! How close the fast sine and cosine come to the series of sine and cosine.
//!
//! The terms of both series alternate and fall, up to a quarter of a revolution, so the
//! sine and the cosine lie between two neighbouring partial sums.
use vstd::prelude::*;
use crate::arithmetic::multiplication_is_commutative;
use crate::arithmetic::negation_of_factor_negates_product;
use crate::arithmetic::one_is_neutral;
use crate::binary32::b32;
use crate::binary32::Binary32;
use crate::binary32::MINUS_HALF;
use crate::binary32::MINUS_ONE;
use crate::binary32::ONE;
use crate::cordic_accuracy::inverse_power;
use crate::cordic_accuracy::lemma_real_order;
use crate::exact::lemma_scaled;
use crate::exact::lemma_size_of_product;
use crate::exact::lemma_unscaled;
use crate::exact::real_of;
use crate::exact::size_of_real;
use crate::math::centred_angle;
use crate::math::centred_angle_lies_between_minus_pi_and_pi;
use crate::math::COS_4;
use crate::math::COS_6;
use crate::math::COS_8;
use crate::math::cosine_series;
use crate::math::fast_sin_cos_of;
use crate::math::folded;
use crate::math::folded_angle_lies_in_half_revolution;
use crate::math::FRAC_PI_2;
use crate::math::MINUS_FRAC_PI_2;
use crate::math::MINUS_PI;
use crate::math::PI;
use crate::math::SIN_3;
use crate::math::SIN_5;
use crate::math::SIN_7;
use crate::math::SIN_9;
use crate::math::sine_series;
use crate::math::wrappable;
use crate::near::billionths;
use crate::near::lemma_inverse_powers;
use crate::near::lemma_near_difference;
use crate::near::lemma_near_product;
use crate::near::lemma_near_step;
use crate::near::lemma_real_constant;
use crate::near::near;
use crate::real_rounding::lemma_real_negative;

verus! {

/// The product of a real and `n` squares of another.
pub open spec fn times_squares(a: real, x: real, n: nat) -> real
    decreases n,
{
    if n == 0 {
        a
    } else {
        times_squares(a, x, (n - 1) as nat) * (x * x)
    }
}

/// The series of the sine up to the ninth power: `x - x^3 / 3! + x^5 / 5! - ...`.
pub open spec fn sine_sum_9(x: real) -> real {
    x - times_squares(x, x, 1) / 6real + times_squares(x, x, 2) / 120real - times_squares(x, x, 3)
        / 5040real + times_squares(x, x, 4) / 362880real
}

/// The series of the sine up to the eleventh power.
pub open spec fn sine_sum_11(x: real) -> real {
    sine_sum_9(x) - times_squares(x, x, 5) / 39916800real
}

/// The series of the cosine up to the eighth power: `1 - x^2 / 2! + x^4 / 4! - ...`.
pub open spec fn cosine_sum_8(x: real) -> real {
    1real - times_squares(1real, x, 1) / 2real + times_squares(1real, x, 2) / 24real
        - times_squares(1real, x, 3) / 720real + times_squares(1real, x, 4) / 40320real
}

/// The series of the cosine up to the tenth power.
pub open spec fn cosine_sum_10(x: real) -> real {
    cosine_sum_8(x) - times_squares(1real, x, 5) / 3628800real
}

/// Half of pi as the constant has it.
pub open spec fn quarter_turn() -> real {
    13176795real / 8388608real
}

/// The first products with squares.
proof fn lemma_times_squares(a: real, x: real)
    ensures
        ({
            let q = x * x;
            let p1 = a * q;
            let p2 = p1 * q;
            let p3 = p2 * q;
            let p4 = p3 * q;
            &&& times_squares(a, x, 1) == p1
            &&& times_squares(a, x, 2) == p2
            &&& times_squares(a, x, 3) == p3
            &&& times_squares(a, x, 4) == p4
            &&& times_squares(a, x, 5) == p4 * q
        }),
{
    reveal_with_fuel(times_squares, 6);
}

/// The sine series, from the innermost term.
proof fn lemma_sine_nested(x: real)
    ensures
        ({
            let q = x * x;
            let u7 = -1real / 5040real + q * (1real / 362880real);
            let u5 = 1real / 120real + q * u7;
            let u3 = -1real / 6real + q * u5;
            x * (1real + q * u3) == sine_sum_9(x)
        }),
{
    let q = x * x;
    let p1 = x * q;
    let p2 = p1 * q;
    let p3 = p2 * q;
    let p4 = p3 * q;
    let u9 = 1real / 362880real;
    let u7 = -1real / 5040real + q * u9;
    let u5 = 1real / 120real + q * u7;
    let u3 = -1real / 6real + q * u5;
    lemma_times_squares(x, x);
    lemma_nested(x, q, 1real, u3);
    lemma_nested(p1, q, -1real / 6real, u5);
    lemma_nested(p2, q, 1real / 120real, u7);
    lemma_nested(p3, q, -1real / 5040real, u9);
    lemma_share(x, 1real);
    lemma_share(p1, 6real);
    lemma_share(p2, 120real);
    lemma_share(p3, 5040real);
    lemma_share(p4, 362880real);
    assert(x * 1real == x);
}

/// A share of a real, as a product and as a quotient.
proof fn lemma_share(p: real, n: real)
    requires
        n > 0real,
    ensures
        p * (1real / n) == p / n,
        p * (-1real / n) == -(p / n),
{
    let i = 1real / n;
    let j = -1real / n;
    let k = p / n;
    assert(i * n == 1real) by (nonlinear_arith)
        requires
            i == 1real / n,
            n > 0real,
    ;
    assert(j * n == -1real) by (nonlinear_arith)
        requires
            j == -1real / n,
            n > 0real,
    ;
    assert(k * n == p) by (nonlinear_arith)
        requires
            k == p / n,
            n > 0real,
    ;
    assert((p * i) * n == p * (i * n) && (p * j) * n == p * (j * n) && (-k) * n == -(k * n)
        && p * 1real == p && p * (-1real) == -p) by (nonlinear_arith);
    lemma_unscaled(p * i, k, n);
    lemma_unscaled(k, p * i, n);
    lemma_unscaled(p * j, -k, n);
    lemma_unscaled(-k, p * j, n);
}

/// One step of a nested evaluation.
pub proof fn lemma_nested(p: real, q: real, c: real, u: real)
    ensures
        p * (c + q * u) == p * c + (p * q) * u,
{
    assert(p * (c + q * u) == p * c + (p * q) * u) by (nonlinear_arith);
}

/// The cosine series, from the innermost term.
proof fn lemma_cosine_nested(x: real)
    ensures
        ({
            let q = x * x;
            let u6 = -1real / 720real + q * (1real / 40320real);
            let u4 = 1real / 24real + q * u6;
            let u2 = -1real / 2real + q * u4;
            1real + q * u2 == cosine_sum_8(x)
        }),
{
    let q = x * x;
    let p2 = q * q;
    let p3 = p2 * q;
    let u8 = 1real / 40320real;
    let u6 = -1real / 720real + q * u8;
    let u4 = 1real / 24real + q * u6;
    let u2 = -1real / 2real + q * u4;
    assert(1real * q == q);
    lemma_times_squares(1real, x);
    lemma_nested(q, q, -1real / 2real, u4);
    lemma_nested(p2, q, 1real / 24real, u6);
    lemma_nested(p3, q, -1real / 720real, u8);
    lemma_share(q, 2real);
    lemma_share(p2, 24real);
    lemma_share(p3, 720real);
    lemma_share(p3 * q, 40320real);
}

/// A bound of the square of a folded angle.
proof fn lemma_square_of_angle(x: real)
    requires
        size_of_real(x) <= quarter_turn(),
    ensures
        0real <= x * x <= 246741real / 100000real,
{
    lemma_size_of_product(x, x, quarter_turn(), quarter_turn());
    assert(x * x >= 0real) by (nonlinear_arith);
}

/// What the eleventh and tenth powers add.
proof fn lemma_last_terms(x: real)
    requires
        size_of_real(x) <= quarter_turn(),
    ensures
        size_of_real(sine_sum_11(x) - sine_sum_9(x)) <= billionths(3600real),
        size_of_real(cosine_sum_10(x) - cosine_sum_8(x)) <= billionths(25210real),
{
    let q = x * x;
    let b = 246741real / 100000real;
    lemma_square_of_angle(x);
    lemma_times_squares(x, x);
    lemma_times_squares(1real, x);
    lemma_powers_bound(x, q, quarter_turn());
    lemma_powers_bound(1real, q, 1real);
}

/// The product of a real and five squares of a folded angle.
proof fn lemma_powers_bound(a: real, q: real, bound: real)
    requires
        size_of_real(a) <= bound,
        0real <= q <= 246741real / 100000real,
        0real <= bound <= 2real,
    ensures
        size_of_real(((((a * q) * q) * q) * q) * q) <= bound * (91455real / 1000real),
{
    let b = 246741real / 100000real;
    lemma_size_of_product(a, q, bound, b);
    lemma_size_of_product(a * q, q, bound * b, b);
    lemma_size_of_product((a * q) * q, q, (bound * b) * b, b);
    lemma_size_of_product(((a * q) * q) * q, q, ((bound * b) * b) * b, b);
    lemma_size_of_product((((a * q) * q) * q) * q, q, (((bound * b) * b) * b) * b, b);
    let five = ((((bound * b) * b) * b) * b) * b;
    assert(five <= bound * (91455real / 1000real));
}

/// The square of a folded angle, rounded.
proof fn lemma_near_square(x: Binary32)
    requires
        x.finite(),
        size_of_real(real_of(x)) <= quarter_turn(),
    ensures
        near(x * x, real_of(x) * real_of(x), billionths(120real)),
{
    lemma_inverse_powers();
    lemma_near_product(
        x,
        x,
        real_of(x),
        real_of(x),
        0real,
        0real,
        quarter_turn(),
        quarter_turn(),
        22,
    );
}

/// The coefficients of the sine series.
proof fn lemma_sine_coefficients()
    ensures
        near(b32(SIN_9), 1real / 362880real, billionths(1real) / 10000real),
        near(b32(SIN_7), -1real / 5040real, billionths(3real) / 1000real),
        near(b32(SIN_5), 1real / 120real, billionths(44real) / 100real),
        near(b32(SIN_3), -1real / 6real, billionths(5real)),
        near(b32(ONE), 1real, 0real),
{
    lemma_inverse_powers();
    lemma_real_constant(b32(SIN_9), 0xb8_ef1d, 42);
    lemma_real_constant(b32(SIN_7), 0xd0_0d01, 36);
    lemma_real_constant(b32(SIN_5), 0x88_8889, 30);
    lemma_real_constant(b32(SIN_3), 0xaa_aaab, 26);
    lemma_real_constant(b32(ONE), 0x80_0000, 23);
}

/// The coefficients of the cosine series.
proof fn lemma_cosine_coefficients()
    ensures
        near(b32(COS_8), 1real / 40320real, billionths(1real) / 1000real),
        near(b32(COS_6), -1real / 720real, billionths(34real) / 1000real),
        near(b32(COS_4), 1real / 24real, billionths(125real) / 100real),
        near(b32(MINUS_HALF), -1real / 2real, 0real),
        near(b32(ONE), 1real, 0real),
{
    lemma_inverse_powers();
    lemma_real_constant(b32(COS_8), 0xd0_0d01, 39);
    lemma_real_constant(b32(COS_6), 0xb6_0b61, 33);
    lemma_real_constant(b32(COS_4), 0xaa_aaab, 28);
    lemma_real_constant(b32(MINUS_HALF), 0x80_0000, 24);
    lemma_real_constant(b32(ONE), 0x80_0000, 23);
}

/// The inner terms of the sine series.
proof fn lemma_sine_inner(qv: Binary32, q: real)
    requires
        near(qv, q, billionths(120real)),
        0real <= q <= 246741real / 100000real,
    ensures
        ({
            let u7 = -1real / 5040real + q * (1real / 362880real);
            let u5 = 1real / 120real + q * u7;
            let v5 = b32(SIN_5) + qv * (b32(SIN_7) + qv * b32(SIN_9));
            &&& near(v5, u5, billionths(1real))
            &&& size_of_real(u5) <= 9real / 1000real
        }),
{
    let bq = 246741real / 100000real;
    let u9 = 1real / 362880real;
    let u7 = -1real / 5040real + q * u9;
    lemma_inverse_powers();
    lemma_sine_coefficients();
    lemma_size_of_product(q, u9, bq, 3real / 1000000real);
    assert(size_of_real(u7) <= 2real / 10000real) by {
        lemma_scaled(0real, q, u9);
        lemma_scaled(q, bq, u9);
    }
    lemma_near_step(
        b32(SIN_7),
        qv,
        b32(SIN_9),
        -1real / 5040real,
        q,
        u9,
        billionths(3real) / 1000real,
        billionths(120real),
        billionths(1real) / 10000real,
        bq,
        3real / 1000000real,
        41,
        36,
        billionths(12real) / 1000real,
    );
    let v7 = b32(SIN_7) + qv * b32(SIN_9);
    lemma_size_of_product(q, u7, bq, 2real / 10000real);
    lemma_near_step(
        b32(SIN_5),
        qv,
        v7,
        1real / 120real,
        q,
        u7,
        billionths(44real) / 100real,
        billionths(120real),
        billionths(12real) / 1000real,
        bq,
        2real / 10000real,
        34,
        30,
        billionths(1real),
    );
}

/// The fast sine of a folded angle lies within four millionths of two neighbouring partial
/// sums of the series.
pub proof fn sine_series_is_accurate(x: Binary32)
    requires
        x.finite(),
        size_of_real(real_of(x)) <= quarter_turn(),
    ensures
        near(sine_series(x), sine_sum_9(real_of(x)), billionths(300real)),
        near(sine_series(x), sine_sum_11(real_of(x)), billionths(4000real)),
{
    let xr = real_of(x);
    let qv = x * x;
    let q = xr * xr;
    let bq = 246741real / 100000real;
    let u7 = -1real / 5040real + q * (1real / 362880real);
    let u5 = 1real / 120real + q * u7;
    let u3 = -1real / 6real + q * u5;
    let u1 = 1real + q * u3;
    let v5 = b32(SIN_5) + qv * (b32(SIN_7) + qv * b32(SIN_9));
    let v3 = b32(SIN_3) + qv * v5;
    let v1 = b32(ONE) + qv * v3;
    lemma_inverse_powers();
    lemma_sine_coefficients();
    lemma_near_square(x);
    lemma_square_of_angle(xr);
    lemma_sine_inner(qv, q);
    lemma_size_of_product(q, u5, bq, 9real / 1000real);
    lemma_near_step(
        b32(SIN_3),
        qv,
        v5,
        -1real / 6real,
        q,
        u5,
        billionths(5real),
        billionths(120real),
        billionths(1real),
        bq,
        9real / 1000real,
        29,
        26,
        billionths(18real),
    );
    assert(-2real / 10real <= u3 <= 0real);
    lemma_size_of_product(q, u3, bq, 2real / 10real);
    assert(q * u3 <= 0real) by {
        lemma_scaled(0real, -u3, q);
        assert((-u3) * q == -(q * u3) && 0real * q == 0real) by (nonlinear_arith);
    }
    lemma_near_step(
        b32(ONE),
        qv,
        v3,
        1real,
        q,
        u3,
        0real,
        billionths(120real),
        billionths(18real),
        bq,
        2real / 10real,
        25,
        23,
        billionths(145real),
    );
    lemma_near_product(
        x,
        v1,
        xr,
        u1,
        0real,
        billionths(145real),
        quarter_turn(),
        1real,
        23,
    );
    lemma_sine_nested(xr);
    lemma_last_terms(xr);
    assert(quarter_turn() * billionths(145real) + 1real * 0real + 0real * billionths(145real)
        + inverse_power(23) / 2real <= billionths(300real));
}

/// The fast cosine of a folded angle lies within 26 millionths of two neighbouring partial
/// sums of the series.
pub proof fn cosine_series_is_accurate(x: Binary32)
    requires
        x.finite(),
        size_of_real(real_of(x)) <= quarter_turn(),
    ensures
        near(cosine_series(x), cosine_sum_8(real_of(x)), billionths(350real)),
        near(cosine_series(x), cosine_sum_10(real_of(x)), billionths(26000real)),
{
    let xr = real_of(x);
    let qv = x * x;
    let q = xr * xr;
    let bq = 246741real / 100000real;
    let u8 = 1real / 40320real;
    let u6 = -1real / 720real + q * u8;
    let u4 = 1real / 24real + q * u6;
    let u2 = -1real / 2real + q * u4;
    let v6 = b32(COS_6) + qv * b32(COS_8);
    let v4 = b32(COS_4) + qv * v6;
    let v2 = b32(MINUS_HALF) + qv * v4;
    lemma_inverse_powers();
    lemma_cosine_coefficients();
    lemma_near_square(x);
    lemma_square_of_angle(xr);
    lemma_size_of_product(q, u8, bq, 25real / 1000000real);
    lemma_near_step(
        b32(COS_6),
        qv,
        b32(COS_8),
        -1real / 720real,
        q,
        u8,
        billionths(34real) / 1000real,
        billionths(120real),
        billionths(1real) / 1000real,
        bq,
        25real / 1000000real,
        37,
        33,
        billionths(110real) / 1000real,
    );
    lemma_scaled(0real, q, u8);
    assert(0real * u8 == 0real);
    lemma_size_of_product(q, u6, bq, 15real / 10000real);
    lemma_near_step(
        b32(COS_4),
        qv,
        v6,
        1real / 24real,
        q,
        u6,
        billionths(125real) / 100real,
        billionths(120real),
        billionths(110real) / 1000real,
        bq,
        15real / 10000real,
        32,
        28,
        billionths(4real),
    );
    lemma_size_of_product(q, u4, bq, 46real / 1000real);
    lemma_near_step(
        b32(MINUS_HALF),
        qv,
        v4,
        -1real / 2real,
        q,
        u4,
        0real,
        billionths(120real),
        billionths(4real),
        bq,
        46real / 1000real,
        27,
        24,
        billionths(50real),
    );
    assert(-62real / 100real <= u2 <= 0real);
    lemma_size_of_product(q, u2, bq, 62real / 100real);
    assert(q * u2 <= 0real) by {
        lemma_scaled(0real, -u2, q);
        assert((-u2) * q == -(q * u2) && 0real * q == 0real) by (nonlinear_arith);
    }
    lemma_near_step(
        b32(ONE),
        qv,
        v2,
        1real,
        q,
        u2,
        0real,
        billionths(120real),
        billionths(50real),
        bq,
        62real / 100real,
        23,
        23,
        billionths(350real),
    );
    lemma_cosine_nested(xr);
    lemma_last_terms(xr);
}

/// Pi as the constant has it, and its half.
proof fn lemma_real_turns()
    ensures
        b32(PI).finite(),
        real_of(b32(PI)) == 2real * quarter_turn(),
        real_of(b32(MINUS_PI)) == -(2real * quarter_turn()),
        real_of(b32(FRAC_PI_2)) == quarter_turn(),
        real_of(b32(MINUS_FRAC_PI_2)) == -quarter_turn(),
{
    lemma_inverse_powers();
    lemma_real_constant(b32(PI), 0xc9_0fdb, 22);
    lemma_real_constant(b32(MINUS_PI), 0xc9_0fdb, 22);
    lemma_real_constant(b32(FRAC_PI_2), 0xc9_0fdb, 23);
    lemma_real_constant(b32(MINUS_FRAC_PI_2), 0xc9_0fdb, 23);
}

/// The angle that stands for a centred one between minus and plus a quarter of a revolution:
/// itself, or what is missing to half a revolution.
pub proof fn folding_mirrors_angle(c: Binary32)
    requires
        c.within(b32(MINUS_PI), b32(PI)),
    ensures
        ({
            let (x, sign) = folded(c);
            &&& x.finite()
            &&& size_of_real(real_of(x)) <= quarter_turn()
            &&& sign == b32(ONE) ==> x == c
            &&& sign != b32(ONE) ==> sign == b32(MINUS_ONE) && (near(
                x,
                2real * quarter_turn() - real_of(c),
                billionths(60real),
            ) || near(x, -2real * quarter_turn() - real_of(c), billionths(60real)))
        }),
{
    let (x, sign) = folded(c);
    let half = b32(FRAC_PI_2);
    lemma_inverse_powers();
    lemma_real_turns();
    folded_angle_lies_in_half_revolution(c);
    lemma_real_order(b32(MINUS_FRAC_PI_2), x);
    lemma_real_order(x, half);
    lemma_real_order(b32(MINUS_PI), c);
    lemma_real_order(c, b32(PI));
    if c > half {
        lemma_real_order(half, c);
        lemma_near_difference(
            b32(PI),
            c,
            2real * quarter_turn(),
            real_of(c),
            0real,
            0real,
            23,
        );
    } else if c < b32(MINUS_FRAC_PI_2) {
        lemma_real_order(c, b32(MINUS_FRAC_PI_2));
        lemma_near_difference(
            b32(MINUS_PI),
            c,
            -2real * quarter_turn(),
            real_of(c),
            0real,
            0real,
            23,
        );
    }
}

/// The fast sine and cosine of an angle lie within four and 26 millionths of two
/// neighbouring partial sums of the series at the folded angle, the cosine with the sign of
/// the fold.
pub proof fn fast_sin_cos_is_accurate(angle_rad: Binary32)
    requires
        angle_rad.finite(),
        (angle_rad + b32(PI)).finite(),
        wrappable(angle_rad + b32(PI)),
    ensures
        ({
            let (x, sign) = folded(centred_angle(angle_rad));
            let (sine, cosine) = fast_sin_cos_of(angle_rad);
            let s = if sign == b32(ONE) {
                1real
            } else {
                -1real
            };
            &&& x.finite()
            &&& size_of_real(real_of(x)) <= quarter_turn()
            &&& near(sine, sine_sum_9(real_of(x)), billionths(4000real))
            &&& near(sine, sine_sum_11(real_of(x)), billionths(4000real))
            &&& near(cosine, s * cosine_sum_8(real_of(x)), billionths(26000real))
            &&& near(cosine, s * cosine_sum_10(real_of(x)), billionths(26000real))
        }),
{
    let c = centred_angle(angle_rad);
    let (x, sign) = folded(c);
    let y = cosine_series(x);
    centred_angle_lies_between_minus_pi_and_pi(angle_rad);
    folding_mirrors_angle(c);
    sine_series_is_accurate(x);
    cosine_series_is_accurate(x);
    multiplication_is_commutative(sign, y);
    one_is_neutral(y);
    negation_of_factor_negates_product(y, b32(ONE));
    assert(-b32(ONE) == b32(MINUS_ONE));
    lemma_real_negative(y);
    let a = cosine_sum_8(real_of(x));
    let b = cosine_sum_10(real_of(x));
    assert(1real * a == a && 1real * b == b && -1real * a == -a && -1real * b == -b)
        by (nonlinear_arith);
}

} // verus!
