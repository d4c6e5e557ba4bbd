//! How close the polynomial of the fast arctangent comes to the arctangent.
//!
//! The arctangent is described by its addition theorem and by partial sums of its series,
//! which determine it.
use vstd::prelude::*;
use crate::exact::lemma_scaled;
use crate::exact::lemma_size_of_product;
use crate::exact::lemma_unscaled;
use crate::exact::size_of_real;
use crate::near::billionths;
use crate::series_accuracy::lemma_nested;

verus! {

/// The addition theorem at two arguments.
pub open spec fn adds(f: spec_fn(real) -> real, a: real, b: real) -> bool {
    f(b) - f(a) == f((b - a) / (1real + a * b))
}

/// The series of the arctangent up to the eleventh power, from the innermost term.
pub open spec fn arctangent_sum_11(x: real) -> real {
    let q = x * x;
    x * (1real - q * (1real / 3real - q * (1real / 5real - q * (1real / 7real - q * (1real / 9real
        - q * (1real / 11real))))))
}

/// The series of the arctangent up to the 13th power, from the innermost term.
pub open spec fn arctangent_sum_13(x: real) -> real {
    let q = x * x;
    x * (1real - q * (1real / 3real - q * (1real / 5real - q * (1real / 7real - q * (1real / 9real
        - q * (1real / 11real - q * (1real / 13real)))))))
}

/// Whether a value lies between neighbouring partial sums of the series.
pub open spec fn between_sums(f: spec_fn(real) -> real, x: real) -> bool {
    &&& x - x * (x * x) / 3real <= f(x) <= x
    &&& arctangent_sum_11(x) <= f(x) <= arctangent_sum_13(x)
}

/// Whether a function is the arctangent between zero and one.
pub open spec fn is_arctangent(f: spec_fn(real) -> real) -> bool {
    &&& forall|a: real, b: real| 0real <= a <= b <= 1real ==> #[trigger] adds(f, a, b)
    &&& forall|x: real| 0real <= x <= 1real / 2real ==> #[trigger] between_sums(f, x)
}

/// A share in parts of 10 to the 12th.
pub open spec fn trillionths(n: real) -> real {
    n / 1000000000000real
}

/// The arctangent of a quotient that stands for a difference.
proof fn lemma_difference(f: spec_fn(real) -> real, a: real, b: real, w: real)
    requires
        is_arctangent(f),
        0real <= a <= b <= 1real,
        w * (1real + a * b) == b - a,
        w <= 1real / 2real,
    ensures
        f(b) - f(a) == f(w),
        0real <= w,
        between_sums(f, w),
{
    let n = 1real + a * b;
    let q = (b - a) / n;
    lemma_scaled(0real, a, b);
    assert(0real * b == 0real) by (nonlinear_arith);
    assert(q * n == b - a) by (nonlinear_arith)
        requires
            q == (b - a) / n,
            n > 0real,
    ;
    lemma_unscaled(q, w, n);
    lemma_unscaled(w, q, n);
    assert(0real * n == 0real) by (nonlinear_arith);
    lemma_unscaled(0real, w, n);
    assert(adds(f, a, b));
    assert(between_sums(f, w));
}

/// The arctangents at the arguments that the checks use.
proof fn lemma_known_values(f: spec_fn(real) -> real)
    requires
        is_arctangent(f),
    ensures
        f(0real) == 0real,
        trillionths(244978662000real) <= f(1real / 4real) <= trillionths(244978663200real),
        trillionths(218668945600real) <= f(2real / 9real) <= trillionths(218668945900real),
        trillionths(76771891200real) <= f(1real / 13real) <= trillionths(76771891300real),
{
    assert(between_sums(f, 0real));
    assert(between_sums(f, 1real / 4real));
    assert(between_sums(f, 2real / 9real));
    assert(between_sums(f, 1real / 13real));
}

/// The arctangents of one half and of one.
proof fn lemma_half_and_one(f: spec_fn(real) -> real)
    requires
        is_arctangent(f),
    ensures
        trillionths(463647607600real) <= f(1real / 2real) <= trillionths(463647609100real),
        trillionths(785398160800real) <= f(1real) <= trillionths(785398163600real),
{
    lemma_known_values(f);
    lemma_difference(f, 1real / 4real, 1real / 2real, 2real / 9real);
    lemma_difference(f, 1real / 4real, 1real / 3real, 1real / 13real);
    lemma_difference(f, 1real / 2real, 1real, 1real / 3real);
}

/// The coefficients of the fast arctangent, as they are encoded.
pub open spec fn c1() -> real {
    16774968real / 16777216real
}

pub open spec fn c3() -> real {
    -11083012real / 33554432real
}

pub open spec fn c5() -> real {
    12089058real / 67108864real
}

pub open spec fn c7() -> real {
    -11426358real / 134217728real
}

pub open spec fn c9() -> real {
    11185759real / 536870912real
}

/// The polynomial of the fast arctangent.
pub open spec fn atan_polynomial(z: real) -> real {
    let t = z * z;
    z * (c1() + t * (c3() + t * (c5() + t * (c7() + t * c9()))))
}

/// The slope of the polynomial, in the square of the argument.
pub open spec fn atan_slope(t: real) -> real {
    c1() + t * (3real * c3() + t * (5real * c5() + t * (7real * c7() + t * (9real * c9()))))
}

/// A power of a real.
pub open spec fn power(z: real, n: nat) -> real
    decreases n,
{
    if n == 0 {
        1real
    } else {
        power(z, (n - 1) as nat) * z
    }
}

/// Powers of reals between zero and one.
proof fn lemma_power_range(z: real, n: nat)
    requires
        0real <= z <= 1real,
    ensures
        0real <= power(z, n) <= 1real,
    decreases n,
{
    if n > 0 {
        lemma_power_range(z, (n - 1) as nat);
        lemma_size_of_product(power(z, (n - 1) as nat), z, 1real, 1real);
        lemma_scaled(0real, power(z, (n - 1) as nat), z);
        assert(0real * z == 0real) by (nonlinear_arith);
    }
}

/// How far a power moves past its tangent.
pub open spec fn past_tangent(a: real, b: real, n: nat) -> real {
    power(b, n) - power(a, n) - (n as real) * ((b - a) * power(a, (n - 1) as nat))
}

/// A power moves past its tangent by at most the square of the step, times
/// `n * (n - 1) / 2`.
proof fn lemma_past_tangent(a: real, b: real, n: nat, bound: real)
    requires
        0real <= a <= 1real,
        0real <= b <= 1real,
        1 <= n <= 9,
        2real * bound == (n as real) * (n as real - 1real),
    ensures
        0real <= past_tangent(a, b, n) <= bound * ((b - a) * (b - a)),
    decreases n,
{
    let d = b - a;
    let s = d * d;
    assert(s >= 0real) by (nonlinear_arith)
        requires
            s == d * d,
    ;
    if n == 1 {
        reveal_with_fuel(power, 2);
        assert(1real * b == b && 1real * a == a && 1real * ((b - a) * 1real) == b - a)
            by (nonlinear_arith);
        assert(1real * (1real - 1real) == 0real);
        assert(bound == 0real);
        assert(0real * s == 0real) by (nonlinear_arith);
    } else {
        let m = (n - 1) as nat;
        let mr = m as real;
        let less = bound - mr;
        let pm = power(a, m);
        let pl = power(a, (m - 1) as nat);
        let e = past_tangent(a, b, m);
        assert(2real * less == mr * (mr - 1real)) by {
            assert((mr + 1real) * mr == mr * mr + mr && mr * (mr - 1real) == mr * mr - mr)
                by (nonlinear_arith);
        }
        lemma_past_tangent(a, b, m, less);
        lemma_power_range(a, (m - 1) as nat);
        assert(pm == pl * a);
        // The part past the tangent, one power on.
        let x = power(b, m);
        assert(e == x - pm - mr * (d * pl));
        assert((x - pm - mr * (d * pl)) * b == x * b - pm * b - mr * ((d * pl) * b))
            by (nonlinear_arith);
        assert((d * pl) * b == (d * pl) * a + (d * pl) * d) by {
            assert(b == a + d);
            assert((d * pl) * (a + d) == (d * pl) * a + (d * pl) * d) by (nonlinear_arith);
        }
        assert((d * pl) * a == d * (pl * a) && (d * pl) * d == pl * s) by (nonlinear_arith)
            requires
                s == d * d,
        ;
        assert(pm * b == pm * a + d * pm) by {
            assert(pm * (a + d) == pm * a + d * pm) by (nonlinear_arith);
        }
        assert(mr * (d * pm + pl * s) == mr * (d * pm) + mr * (pl * s)) by (nonlinear_arith);
        assert((mr + 1real) * (d * pm) == mr * (d * pm) + d * pm) by (nonlinear_arith);
        assert(past_tangent(a, b, n) == e * b + mr * (pl * s));
        lemma_scaled(0real, e, b);
        lemma_scaled(b, 1real, e);
        assert(0real * b == 0real && b * e == e * b && 1real * e == e) by (nonlinear_arith);
        lemma_scaled(0real, pl, s);
        lemma_scaled(pl, 1real, s);
        assert(0real * s == 0real && 1real * s == s) by (nonlinear_arith);
        lemma_scaled(0real, pl * s, mr);
        lemma_scaled(pl * s, s, mr);
        assert(0real * mr == 0real && (pl * s) * mr == mr * (pl * s) && s * mr == mr * s)
            by (nonlinear_arith);
        assert((less + mr) * s == less * s + mr * s) by (nonlinear_arith);
    }
}

/// The polynomial as a sum of powers.
proof fn lemma_polynomial_powers(z: real)
    ensures
        atan_polynomial(z) == z * c1() + power(z, 3) * c3() + power(z, 5) * c5()
            + power(z, 7) * c7()
            + power(z, 9) * c9(),
        atan_slope(z * z) == c1() + power(z, 2) * (3real * c3()) + power(z, 4) * (5real * c5())
            + power(z, 6) * (7real * c7()) + power(z, 8) * (9real * c9()),
        power(z, 1) == z,
{
    let t = z * z;
    reveal_with_fuel(power, 10);
    assert(1real * z == z);
    let p2 = z * z;
    let p3 = p2 * z;
    let p4 = p3 * z;
    let p5 = p4 * z;
    let p6 = p5 * z;
    let p7 = p6 * z;
    let p8 = p7 * z;
    let p9 = p8 * z;
    assert(power(z, 0) == 1real && power(z, 1) == z && power(z, 2) == p2 && power(z, 3) == p3);
    assert(power(z, 4) == p4 && power(z, 5) == p5 && power(z, 6) == p6 && power(z, 7) == p7);
    assert(power(z, 8) == p8 && power(z, 9) == p9);
    assert(z * t == p3 && p3 * t == p5 && p5 * t == p7 && p7 * t == p9) by {
        assert(z * (z * z) == (z * z) * z) by (nonlinear_arith);
        assert(p3 * (z * z) == (p3 * z) * z) by (nonlinear_arith);
        assert(p5 * (z * z) == (p5 * z) * z) by (nonlinear_arith);
        assert(p7 * (z * z) == (p7 * z) * z) by (nonlinear_arith);
    }
    assert(t * t == p4 && p4 * t == p6 && p6 * t == p8) by {
        assert((z * z) * (z * z) == ((z * z) * z) * z) by (nonlinear_arith);
        assert(p4 * (z * z) == (p4 * z) * z) by (nonlinear_arith);
        assert(p6 * (z * z) == (p6 * z) * z) by (nonlinear_arith);
    }
    let u7 = c7() + t * c9();
    let u5 = c5() + t * u7;
    let u3 = c3() + t * u5;
    lemma_nested(z, t, c1(), u3);
    lemma_nested(p3, t, c3(), u5);
    lemma_nested(p5, t, c5(), u7);
    lemma_nested(p7, t, c7(), c9());
    let w6 = 7real * c7() + t * (9real * c9());
    let w4 = 5real * c5() + t * w6;
    lemma_nested(t, t, 3real * c3(), w4);
    lemma_nested(p4, t, 5real * c5(), w6);
    lemma_nested(p6, t, 7real * c7(), 9real * c9());
}

/// The polynomial moves past its tangent by at most six squares of the step.
proof fn lemma_polynomial_tangent(a: real, b: real)
    requires
        0real <= a <= 1real,
        0real <= b <= 1real,
    ensures
        size_of_real(
            atan_polynomial(b) - atan_polynomial(a) - (b - a) * atan_slope(a * a),
        ) <= 6real * ((b - a) * (b - a)),
{
    let d = b - a;
    let s = d * d;
    let e3 = past_tangent(a, b, 3);
    let e5 = past_tangent(a, b, 5);
    let e7 = past_tangent(a, b, 7);
    let e9 = past_tangent(a, b, 9);
    assert(s >= 0real) by (nonlinear_arith)
        requires
            s == d * d,
    ;
    lemma_polynomial_powers(a);
    lemma_polynomial_powers(b);
    lemma_past_tangent(a, b, 3, 3real);
    lemma_past_tangent(a, b, 5, 10real);
    lemma_past_tangent(a, b, 7, 21real);
    lemma_past_tangent(a, b, 9, 36real);
    lemma_tangent_term(power(b, 3), power(a, 3), d, power(a, 2), 3real, c3());
    lemma_tangent_term(power(b, 5), power(a, 5), d, power(a, 4), 5real, c5());
    lemma_tangent_term(power(b, 7), power(a, 7), d, power(a, 6), 7real, c7());
    lemma_tangent_term(power(b, 9), power(a, 9), d, power(a, 8), 9real, c9());
    let k2 = power(a, 2) * (3real * c3());
    let k4 = power(a, 4) * (5real * c5());
    let k6 = power(a, 6) * (7real * c7());
    let k8 = power(a, 8) * (9real * c9());
    assert(d * (c1() + k2 + k4 + k6 + k8) == d * c1() + d * k2 + d * k4 + d * k6 + d * k8)
        by (nonlinear_arith);
    assert((b - a) * c1() == b * c1() - a * c1()) by (nonlinear_arith);
    lemma_size_of_product(e3, c3(), 3real * s, 34real / 100real);
    lemma_size_of_product(e5, c5(), 10real * s, 19real / 100real);
    lemma_size_of_product(e7, c7(), 21real * s, 9real / 100real);
    lemma_size_of_product(e9, c9(), 36real * s, 3real / 100real);
    assert((3real * s) * (34real / 100real) + (10real * s) * (19real / 100real) + (21real * s)
        * (9real / 100real) + (36real * s) * (3real / 100real) <= 6real * s) by (nonlinear_arith)
        requires
            s >= 0real,
    ;
}

/// One term of the polynomial and of its slope.
proof fn lemma_tangent_term(pb: real, pa: real, d: real, lower: real, n: real, c: real)
    ensures
        (pb - pa - n * (d * lower)) * c == pb * c - pa * c - d * (lower * (n * c)),
{
    assert((pb - pa - n * (d * lower)) * c == pb * c - pa * c - d * (lower * (n * c)))
        by (nonlinear_arith);
}

/// How far the polynomial is from the arctangent.
pub open spec fn atan_error(f: spec_fn(real) -> real, z: real) -> real {
    atan_polynomial(z) - f(z)
}

/// The slope of the error, times a positive number.
pub open spec fn error_slope(t: real) -> real {
    atan_slope(t) * (1real + t) - 1real
}

/// The quotient that stands for a small difference.
proof fn lemma_small_quotient(a: real, b: real) -> (w: real)
    requires
        0real <= a <= b <= 1real,
        b - a <= 1real / 2real,
    ensures
        w * (1real + a * b) == b - a,
        0real <= w <= b - a,
{
    let n = 1real + a * b;
    let w = (b - a) / n;
    lemma_scaled(0real, a, b);
    assert(0real * b == 0real) by (nonlinear_arith);
    assert(w * n == b - a) by (nonlinear_arith)
        requires
            w == (b - a) / n,
            n > 0real,
    ;
    assert(0real * n == 0real) by (nonlinear_arith);
    lemma_unscaled(0real, w, n);
    lemma_scaled(1real, n, w);
    assert(n * w == w * n && 1real * w == w) by (nonlinear_arith);
    w
}

/// A real times a factor of at least one is not above the negative bound of the product.
proof fn lemma_at_least(x: real, n: real, m: real)
    requires
        x * n >= -m,
        n >= 1real,
        m >= 0real,
    ensures
        x >= -m,
{
    if x < -m {
        lemma_scaled(1real, n, -x);
        assert(1real * (-x) == -x && n * (-x) == -(x * n)) by (nonlinear_arith);
    }
}

/// One small step where the error does not fall.
proof fn lemma_rising_step(f: spec_fn(real) -> real, a: real, b: real, delta: real)
    requires
        is_arctangent(f),
        0real <= a <= b <= 1real,
        b - a <= 1real / 2real,
        delta >= 0real,
        error_slope(a * a) >= -delta,
    ensures
        atan_error(f, b) - atan_error(f, a) >= -(delta * (b - a) + 14real * ((b - a) * (b - a))),
{
    let d = b - a;
    let s = d * d;
    let n = 1real + a * a;
    let w = lemma_small_quotient(a, b);
    let g = atan_slope(a * a);
    let x = atan_error(f, b) - atan_error(f, a);
    lemma_difference(f, a, b, w);
    lemma_polynomial_tangent(a, b);
    lemma_square_in_range(a);
    lemma_step_squares(d);
    // The quotient is at most the step over 1 + a * a.
    lemma_scaled(a, b, a);
    assert(b * a == a * b) by (nonlinear_arith);
    lemma_scaled(n, 1real + a * b, w);
    assert((1real + a * b) * w == w * (1real + a * b) && n * w == w * n) by (nonlinear_arith);
    assert(x >= d * g - 6real * s - w);
    lemma_scaled(d * g - 6real * s - w, x, n);
    assert((d * g - 6real * s - w) * n == d * (g * n - 1real) + d - 6real * (s * n) - w * n)
        by (nonlinear_arith);
    lemma_scaled(-delta, g * n - 1real, d);
    assert((g * n - 1real) * d == d * (g * n - 1real) && (-delta) * d == -(delta * d))
        by (nonlinear_arith);
    lemma_scaled(n, 2real, s);
    assert(n * s == s * n) by (nonlinear_arith);
    lemma_scaled(0real, delta, d);
    assert(0real * d == 0real) by (nonlinear_arith);
    lemma_at_least(x, n, delta * d + 14real * s);
}

/// The square of a number between zero and one.
proof fn lemma_square_in_range(a: real)
    requires
        0real <= a <= 1real,
    ensures
        0real <= a * a <= 1real,
{
    lemma_size_of_product(a, a, 1real, 1real);
    assert(a * a >= 0real) by (nonlinear_arith);
}

/// The powers of a step.
proof fn lemma_step_squares(d: real)
    requires
        0real <= d <= 1real,
    ensures
        0real <= d * d <= d,
        0real <= d * (d * d) <= d * d,
{
    lemma_scaled(d, 1real, d);
    assert(d * d >= 0real) by (nonlinear_arith);
    lemma_scaled(d, 1real, d * d);
    lemma_scaled(0real, d, d * d);
    assert(1real * d == d && 1real * (d * d) == d * d && 0real * (d * d) == 0real)
        by (nonlinear_arith);
}

/// One small step where the error does not rise.
proof fn lemma_falling_step(f: spec_fn(real) -> real, a: real, b: real, delta: real)
    requires
        is_arctangent(f),
        0real <= a <= b <= 1real,
        b - a <= 1real / 2real,
        delta >= 0real,
        error_slope(b * b) <= delta,
    ensures
        atan_error(f, b) - atan_error(f, a) <= delta * (b - a) + 14real * ((b - a) * (b - a)),
{
    let d = b - a;
    let s = d * d;
    let n = 1real + b * b;
    let w = lemma_small_quotient(a, b);
    let g = atan_slope(b * b);
    let x = atan_error(f, b) - atan_error(f, a);
    let cube = w * (w * w) / 3real;
    lemma_difference(f, a, b, w);
    lemma_polynomial_tangent(b, a);
    assert((a - b) * (a - b) == (b - a) * (b - a) && (a - b) * g == -((b - a) * g))
        by (nonlinear_arith);
    lemma_square_in_range(b);
    lemma_step_squares(d);
    // The quotient is at least the step over 1 + b * b.
    lemma_scaled(a, b, b);
    lemma_scaled(1real + a * b, n, w);
    assert((1real + a * b) * w == w * (1real + a * b) && n * w == w * n) by (nonlinear_arith);
    lemma_size_of_product(w, w, d, d);
    lemma_size_of_product(w, w * w, d, s);
    assert(cube <= s);
    assert(-x >= -(d * g) - 6real * s + w - s);
    lemma_scaled(-(d * g) - 7real * s + w, -x, n);
    assert((-(d * g) - 7real * s + w) * n == -(d * (g * n - 1real)) - d - 7real * (s * n) + w * n)
        by (nonlinear_arith);
    lemma_scaled(g * n - 1real, delta, d);
    assert((g * n - 1real) * d == d * (g * n - 1real)) by (nonlinear_arith);
    lemma_scaled(n, 2real, s);
    assert(n * s == s * n) by (nonlinear_arith);
    lemma_scaled(0real, delta, d);
    assert(0real * d == 0real) by (nonlinear_arith);
    lemma_at_least(-x, n, delta * d + 14real * s);
}

/// One step of the division of a polynomial by `t - r`, from the innermost term.
proof fn lemma_divided(
    t: real,
    r: real,
    c: real,
    inner: real,
    v: real,
    q: real,
    b: real,
    e: real,
    tolerance: real,
)
    requires
        0real <= t <= 1real,
        size_of_real(inner - (v + (t - r) * q)) <= e,
        size_of_real(c + r * v - b) <= tolerance,
    ensures
        size_of_real(c + t * inner - (b + (t - r) * (v + t * q))) <= e + tolerance,
{
    let d = t - r;
    let m = v + d * q;
    let g = inner - m;
    assert(t * inner == t * m + t * g) by {
        assert(inner == m + g);
        assert(t * (m + g) == t * m + t * g) by (nonlinear_arith);
    }
    let dq = d * q;
    let tq = t * q;
    assert(t * (v + dq) == t * v + t * dq) by (nonlinear_arith);
    assert(d * (v + tq) == d * v + d * tq) by (nonlinear_arith);
    assert((t - r) * v == t * v - r * v) by (nonlinear_arith);
    assert(t * (d * q) == d * (t * q)) by (nonlinear_arith);
    lemma_size_of_product(t, g, 1real, e);
    assert(1real * e == e) by (nonlinear_arith);
}

/// The quotients of the slope of the error by the squares of its turns, one after another.
pub open spec fn first_quotient(t: real) -> real {
    trillionths(7439576369real) + t * (trillionths(-84835702679real) + t * (trillionths(
        297479024263real,
    ) + t * (trillionths(-405037835783real) + t * (9real * c9()))))
}

pub open spec fn second_quotient(t: real) -> real {
    trillionths(-47395496594real) + t * (trillionths(238521233164real) + t * (trillionths(
        -375603836301real,
    ) + t * (9real * c9())))
}

pub open spec fn third_quotient(t: real) -> real {
    trillionths(117608669850real) + t * (trillionths(-300036193712real) + t * (9real * c9()))
}

pub open spec fn fourth_quotient(t: real) -> real {
    trillionths(-171276808260real) + t * (9real * c9())
}

/// A polynomial times `1 + t`, from the innermost term.
proof fn lemma_shifted(t: real, s: real, y: real)
    ensures
        s + t * y + t * (s + t * y) == s + t * (s + (y + t * y)),
{
    let w = t * y;
    assert(t * (s + w) == t * s + t * w) by (nonlinear_arith);
    assert(t * (s + (y + w)) == t * s + t * y + t * w) by (nonlinear_arith);
}

/// The slope of the error from the innermost term.
proof fn lemma_error_slope(t: real)
    ensures
        error_slope(t) == (c1() - 1real) + t * ((c1() + 3real * c3()) + t * ((3real * c3() + 5real
            * c5()) + t * ((5real * c5() + 7real * c7()) + t * ((7real * c7() + 9real * c9()) + t
            * (9real * c9()))))),
{
    let s0 = c1();
    let s1 = 3real * c3();
    let s2 = 5real * c5();
    let s3 = 7real * c7();
    let s4 = 9real * c9();
    let y3 = s3 + t * s4;
    let y2 = s2 + t * y3;
    let y1 = s1 + t * y2;
    let y0 = s0 + t * y1;
    assert(y0 * (1real + t) == y0 + t * y0) by (nonlinear_arith);
    lemma_shifted(t, s3, s4);
    lemma_shifted(t, s2, y3);
    lemma_shifted(t, s1, y2);
    lemma_shifted(t, s0, y1);
    let g4 = (s3 + s4) + t * s4;
    assert(s3 + (s4 + t * s4) == g4);
    let g3 = (s2 + s3) + t * g4;
    assert(s2 + (y3 + t * y3) == g3);
    let g2 = (s1 + s2) + t * g3;
    assert(s1 + (y2 + t * y2) == g2);
    let g1 = (s0 + s1) + t * g2;
    assert(s0 + (y1 + t * y1) == g1);
}

/// The slope of the error by the square of the first turn.
proof fn lemma_first_quotient(t: real)
    requires
        0real <= t <= 1real,
    ensures
        size_of_real(error_slope(t) - (t - turn_square(1))
            * first_quotient(t)) <= billionths(2real),
{
    let a4 = 7real * c7() + 9real * c9();
    let a3 = 5real * c5() + 7real * c7();
    let a2 = 3real * c3() + 5real * c5();
    let a1 = c1() + 3real * c3();
    let s4 = 9real * c9();
    let b3 = trillionths(-405037835783real);
    let b2 = trillionths(297479024263real);
    let b1 = trillionths(-84835702679real);
    let b0 = trillionths(7439576369real);
    let one = trillionths(1real);
    lemma_error_slope(t);
    lemma_no_part(t, 1801060625296real / 100000000000000real);
    lemma_divided(t, 1801060625296real / 100000000000000real, a4, s4, s4, 0real, b3, 0real, one);
    let i3 = a4 + t * s4;
    lemma_divided(t, 1801060625296real / 100000000000000real, a3, i3, b3, s4, b2, one, one);
    let q2 = b3 + t * s4;
    let i2 = a3 + t * i3;
    lemma_divided(t, 1801060625296real / 100000000000000real, a2, i2, b2, q2, b1, 2real * one, one);
    let q1 = b2 + t * q2;
    let i1 = a2 + t * i2;
    lemma_divided(t, 1801060625296real / 100000000000000real, a1, i1, b1, q1, b0, 3real * one, one);
    let q0 = b1 + t * q1;
    let i0 = a1 + t * i1;
    lemma_divided(t, 1801060625296real / 100000000000000real, c1()
        - 1real, i0, b0, q0, 0real, 4real * one, billionths(1real));
}

/// Products with zero.
proof fn lemma_no_part(t: real, r: real)
    ensures
        (t - r) * 0real == 0real,
        t * 0real == 0real,
{
}

/// The first quotient by the square of the second turn.
proof fn lemma_second_quotient(t: real)
    requires
        0real <= t <= 1real,
    ensures
        size_of_real(first_quotient(t) - (t - turn_square(2)) * second_quotient(t)) <= billionths(
            3real,
        ),
{
    let s4 = 9real * c9();
    let a3 = trillionths(-405037835783real);
    let a2 = trillionths(297479024263real);
    let a1 = trillionths(-84835702679real);
    let a0 = trillionths(7439576369real);
    let b2 = trillionths(-375603836301real);
    let b1 = trillionths(238521233164real);
    let b0 = trillionths(-47395496594real);
    let one = trillionths(1real);
    lemma_no_part(t, 15696802162561real / 100000000000000real);
    lemma_divided(t, 15696802162561real / 100000000000000real, a3, s4, s4, 0real, b2, 0real, one);
    let i2 = a3 + t * s4;
    lemma_divided(t, 15696802162561real / 100000000000000real, a2, i2, b2, s4, b1, one, one);
    let q1 = b2 + t * s4;
    let i1 = a2 + t * i2;
    lemma_divided(t, 15696802162561real / 100000000000000real, a1, i1, b1, q1, b0, 2real
        * one, one);
    let q0 = b1 + t * q1;
    let i0 = a1 + t * i1;
    lemma_divided(t, 15696802162561real / 100000000000000real, a0, i0, b0, q0, 0real, 3real
        * one, billionths(2real));
}

/// The second quotient by the square of the third turn.
proof fn lemma_third_quotient(t: real)
    requires
        0real <= t <= 1real,
    ensures
        size_of_real(second_quotient(t) - (t - turn_square(3)) * third_quotient(t)) <= billionths(
            5real,
        ),
{
    let s4 = 9real * c9();
    let a2 = trillionths(-375603836301real);
    let a1 = trillionths(238521233164real);
    let a0 = trillionths(-47395496594real);
    let b1 = trillionths(-300036193712real);
    let b0 = trillionths(117608669850real);
    let one = trillionths(1real);
    lemma_no_part(t, 40299325830625real / 100000000000000real);
    lemma_divided(t, 40299325830625real / 100000000000000real, a2, s4, s4, 0real, b1, 0real, one);
    let i1 = a2 + t * s4;
    lemma_divided(t, 40299325830625real / 100000000000000real, a1, i1, b1, s4, b0, one, one);
    let q0 = b1 + t * s4;
    let i0 = a1 + t * i1;
    lemma_divided(t, 40299325830625real / 100000000000000real, a0, i0, b0, q0, 0real, 2real
        * one, trillionths(4500real));
}

/// The third quotient by the square of the fourth turn, and the fourth by that of the fifth.
proof fn lemma_last_quotients(t: real)
    requires
        0real <= t <= 1real,
    ensures
        size_of_real(third_quotient(t) - (t - turn_square(4)) * fourth_quotient(t)) <= billionths(
            7real,
        ),
        size_of_real(fourth_quotient(t) - (t - turn_square(5)) * (9real * c9())) <= billionths(
            12real,
        ),
{
    let s4 = 9real * c9();
    let a1 = trillionths(-300036193712real);
    let a0 = trillionths(117608669850real);
    let b0 = trillionths(-171276808260real);
    let one = trillionths(1real);
    lemma_no_part(t, 68665850228196real / 100000000000000real);
    lemma_no_part(t, 91339880696100real / 100000000000000real);
    lemma_divided(t, 68665850228196real / 100000000000000real, a1, s4, s4, 0real, b0, 0real, one);
    let i0 = a1 + t * s4;
    lemma_divided(t, 68665850228196real / 100000000000000real, a0, i0, b0, s4, 0real, one,
        trillionths(6800real));
    lemma_divided(t, 91339880696100real / 100000000000000real, b0, s4, s4, 0real, 0real,
        0real, billionths(12real));
}

/// The arguments at which the error turns, between zero and one.
pub open spec fn turn(i: int) -> real {
    if i <= 0 {
        0real
    } else if i == 1 {
        1342036real / 10000000real
    } else if i == 2 {
        3961919real / 10000000real
    } else if i == 3 {
        6348175real / 10000000real
    } else if i == 4 {
        8286486real / 10000000real
    } else if i == 5 {
        9557190real / 10000000real
    } else {
        1real
    }
}

/// The square of a turn.
pub open spec fn turn_square(i: int) -> real {
    if i <= 0 {
        0real
    } else if i == 1 {
        1801060625296real / 100000000000000real
    } else if i == 2 {
        15696802162561real / 100000000000000real
    } else if i == 3 {
        40299325830625real / 100000000000000real
    } else if i == 4 {
        68665850228196real / 100000000000000real
    } else if i == 5 {
        91339880696100real / 100000000000000real
    } else {
        1real
    }
}

/// The squares of the turns are their products.
proof fn lemma_turn_squares(i: int)
    ensures
        turn(i) * turn(i) == turn_square(i),
        0real <= turn_square(i) <= 1real,
{
    let x = turn(i);
    let y = turn_square(i);
    assert(x * x == y) by (nonlinear_arith)
        requires
            x == 0real && y == 0real || x == 1real && y == 1real || x == 1342036real / 10000000real
                && y == 1801060625296real / 100000000000000real || x == 3961919real
                / 10000000real && y == 15696802162561real / 100000000000000real || x
                == 6348175real / 10000000real && y == 40299325830625real / 100000000000000real
                || x == 8286486real / 10000000real && y == 68665850228196real / 100000000000000real
                || x == 9557190real / 10000000real && y == 91339880696100real / 100000000000000real,
    ;
}

/// A factor of size at most one in front of two reals.
proof fn lemma_replaced(d: real, k: real, a: real, b: real, e: real, more: real)
    requires
        size_of_real(d) <= 1real,
        size_of_real(k - d * a) <= e,
        size_of_real(a - b) <= more,
    ensures
        size_of_real(k - d * b) <= e + more,
{
    assert(d * (a - b) == d * a - d * b) by (nonlinear_arith);
    lemma_size_of_product(d, a - b, 1real, more);
    assert(1real * more == more) by (nonlinear_arith);
}

/// The sign of a product.
proof fn lemma_sign(d: real, x: real)
    ensures
        d >= 0real && x >= 0real ==> d * x >= 0real,
        d <= 0real && x >= 0real ==> d * x <= 0real,
        d >= 0real && x <= 0real ==> d * x <= 0real,
        d <= 0real && x <= 0real ==> d * x >= 0real,
{
    assert((-d) * x == -(d * x) && d * (-x) == -(d * x) && (-d) * (-x) == d * x)
        by (nonlinear_arith);
    assert(0real * x == 0real && 0real * (-x) == 0real) by (nonlinear_arith);
    if x >= 0real {
        if d >= 0real {
            lemma_scaled(0real, d, x);
        } else {
            lemma_scaled(0real, -d, x);
        }
    } else {
        if d >= 0real {
            lemma_scaled(0real, d, -x);
        } else {
            lemma_scaled(0real, -d, -x);
        }
    }
}

/// The side of a turn on which a square lies.
proof fn lemma_side(x: real, i: int)
    requires
        0real <= x <= 1real,
    ensures
        x <= turn(i) ==> x * x <= turn_square(i),
        x >= turn(i) ==> x * x >= turn_square(i),
        size_of_real(x * x - turn_square(i)) <= 1real,
{
    let y = turn(i);
    lemma_turn_squares(i);
    lemma_square_in_range(x);
    assert(x * y == y * x) by (nonlinear_arith);
    if x <= y {
        lemma_scaled(x, y, x);
        lemma_scaled(x, y, y);
    }
    if y <= x {
        lemma_scaled(y, x, x);
        lemma_scaled(y, x, y);
    }
}

/// Between two turns the error falls or rises, up to the rounding of the turns.
proof fn lemma_piece_slope(i: int, x: real)
    requires
        0 <= i < 6,
        turn(i) <= x <= turn(i + 1),
    ensures
        i % 2 == 0 ==> error_slope(x * x) <= billionths(30real),
        i % 2 == 1 ==> error_slope(x * x) >= -billionths(30real),
{
    let t = x * x;
    let c = 9real * c9();
    lemma_square_in_range(x);
    lemma_side(x, 1);
    lemma_side(x, 2);
    lemma_side(x, 3);
    lemma_side(x, 4);
    lemma_side(x, 5);
    let d1 = t - turn_square(1);
    let d2 = t - turn_square(2);
    let d3 = t - turn_square(3);
    let d4 = t - turn_square(4);
    let d5 = t - turn_square(5);
    let m4 = d5 * c;
    let m3 = d4 * m4;
    let m2 = d3 * m3;
    let m1 = d2 * m2;
    lemma_first_quotient(t);
    lemma_second_quotient(t);
    lemma_third_quotient(t);
    lemma_last_quotients(t);
    lemma_replaced(d4, third_quotient(t), fourth_quotient(t), m4, billionths(7real),
        billionths(12real));
    lemma_replaced(d3, second_quotient(t), third_quotient(t), m3, billionths(5real),
        billionths(19real));
    lemma_replaced(d2, first_quotient(t), second_quotient(t), m2, billionths(3real),
        billionths(24real));
    lemma_replaced(d1, error_slope(t), first_quotient(t), m1, billionths(2real),
        billionths(27real));
    lemma_sign(d5, c);
    lemma_sign(d4, m4);
    lemma_sign(d3, m3);
    lemma_sign(d2, m2);
    lemma_sign(d1, m1);
}

/// Equal steps between two turns.
proof fn lemma_walk(f: spec_fn(real) -> real, i: int, a: real, s: real, n: nat)
    requires
        is_arctangent(f),
        0 <= i < 6,
        turn(i) <= a,
        0real <= s <= 1real / 2real,
        a + (n as real) * s <= turn(i + 1),
    ensures
        ({
            let b = a + (n as real) * s;
            let slip = (n as real) * (billionths(30real) * s + 14real * (s * s));
            &&& a <= b
            &&& i % 2 == 0 ==> atan_error(f, b) - atan_error(f, a) <= slip
            &&& i % 2 == 1 ==> atan_error(f, b) - atan_error(f, a) >= -slip
        }),
    decreases n,
{
    let one = billionths(30real) * s + 14real * (s * s);
    let nr = n as real;
    if n == 0 {
        assert(0real * s == 0real && 0real * one == 0real) by (nonlinear_arith);
    } else {
        let m = (n - 1) as nat;
        let mr = m as real;
        assert(nr == mr + 1real);
        assert((mr + 1real) * s == mr * s + s && (mr + 1real) * one == mr * one + one)
            by (nonlinear_arith);
        lemma_walk(f, i, a, s, m);
        let x = a + mr * s;
        let y = a + nr * s;
        assert(y - x == s);
        lemma_piece_slope(i, x);
        lemma_piece_slope(i, y);
        if i % 2 == 0 {
            lemma_falling_step(f, x, y, billionths(30real));
        } else {
            lemma_rising_step(f, x, y, billionths(30real));
        }
    }
}

/// Between two turns the error falls or rises, up to 44 billionths.
proof fn lemma_piece(f: spec_fn(real) -> real, i: int, a: real, b: real)
    requires
        is_arctangent(f),
        0 <= i < 6,
        turn(i) <= a <= b <= turn(i + 1),
    ensures
        i % 2 == 0 ==> atan_error(f, b) - atan_error(f, a) <= billionths(44real),
        i % 2 == 1 ==> atan_error(f, b) - atan_error(f, a) >= -billionths(44real),
{
    let n: nat = 1000000000;
    let nr = n as real;
    assert(nr == 1000000000real);
    let length = b - a;
    let s = length / 1000000000real;
    assert(nr * s == length) by {
        assert(1000000000real * s == length);
    }
    lemma_walk(f, i, a, s, n);
    let q = s * s;
    let one = billionths(30real) * s + 14real * q;
    assert(one == (30real / 1000000000real) * s + 14real * q);
    assert(nr * one == 1000000000real * one) by (nonlinear_arith)
        requires
            nr == 1000000000real,
    ;
    assert(1000000000real * q == length * s) by {
        assert(1000000000real * (s * s) == (1000000000real * s) * s) by (nonlinear_arith);
    }
    lemma_scaled(length, 1real, s);
    assert(1real * s == s) by (nonlinear_arith);
    assert(nr * one == 30real * s + 14real * (length * s));
    assert(nr * one <= billionths(44real));
}

/// How far the polynomial is from the arctangent at the turns.
proof fn lemma_turn_error(f: spec_fn(real) -> real, i: int)
    requires
        is_arctangent(f),
        0 <= i <= 6,
    ensures
        size_of_real(atan_error(f, turn(i))) <= billionths(11499real),
{
    lemma_known_values(f);
    lemma_half_and_one(f);
    if i == 0 {
        let u = c1() + 0real * (c3() + 0real * (c5() + 0real * (c7() + 0real * c9())));
        assert(0real * u == 0real);
        assert(atan_polynomial(0real) == 0real);
    } else if i == 1 {
        assert(between_sums(f, 1342036real / 10000000real));
        assert(size_of_real(atan_error(f, 1342036real / 10000000real)) <= billionths(11499real));
    } else if i == 2 {
        lemma_difference(
            f,
            1real / 4real,
            3961919real / 10000000real,
            5847676real / 43961919real,
        );
        assert(size_of_real(atan_error(f, 3961919real / 10000000real)) <= billionths(11499real));
    } else if i == 3 {
        lemma_difference(f, 1real / 2real, 6348175real / 10000000real, 107854real / 1053927real);
        assert(size_of_real(atan_error(f, 6348175real / 10000000real)) <= billionths(11499real));
    } else if i == 4 {
        lemma_difference(
            f,
            1real / 2real,
            8286486real / 10000000real,
            3286486real / 14143243real,
        );
        assert(size_of_real(atan_error(f, 8286486real / 10000000real)) <= billionths(11499real));
    } else if i == 5 {
        lemma_difference(f, 1real / 2real, 9557190real / 10000000real, 911438real / 2955719real);
        assert(size_of_real(atan_error(f, 9557190real / 10000000real)) <= billionths(11499real));
    } else {
        assert(size_of_real(atan_error(f, 1real)) <= billionths(11499real));
    }
}

/// The polynomial of the fast arctangent lies within 11.545 millionths of the arctangent.
pub proof fn arctangent_polynomial_is_accurate(f: spec_fn(real) -> real, z: real)
    requires
        is_arctangent(f),
        0real <= z <= 1real,
    ensures
        size_of_real(atan_polynomial(z) - f(z)) <= billionths(11545real),
{
    let i: int = if z <= turn(1) {
        0
    } else if z <= turn(2) {
        1
    } else if z <= turn(3) {
        2
    } else if z <= turn(4) {
        3
    } else if z <= turn(5) {
        4
    } else {
        5
    };
    lemma_turn_error(f, i);
    lemma_turn_error(f, i + 1);
    lemma_piece(f, i, turn(i), z);
    lemma_piece(f, i, z, turn(i + 1));
}

} // verus!
