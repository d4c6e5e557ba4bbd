//! Running error analysis: how far a computed number is from the exact result, in parts of
//! the sizes of the terms that went into it.
use vstd::prelude::*;
use crate::arithmetic::negation_is_an_involution;
use crate::arithmetic::order_is_value_order;
use crate::arithmetic::sum_error_is_at_most_half_own_spacing;
use crate::binary32::b32;
use crate::binary32::Binary32;
use crate::binary32::INFINITY;
use crate::binary32::ZERO;
use crate::exact::bounded;
use crate::exact::lemma_scaled;
use crate::exact::lemma_size_of_product;
use crate::exact::lemma_sizes;
use crate::exact::lemma_unscaled;
use crate::exact::part;
use crate::exact::product_rounds;
use crate::exact::quotient_rounds;
use crate::exact::real_of;
use crate::exact::rounds;
use crate::exact::size_of_real;
use crate::exact::sum_rounds;
use crate::math::clamped;
use crate::nearest::lemma_mag_units_order;
use crate::nearest::lemma_relative_spacing;
use crate::real_rounding::finite_product_rounds;
use crate::real_rounding::finite_quotient_rounds;
use crate::real_rounding::lemma_real_negative;
use crate::real_rounding::lemma_real_product;
use crate::real_rounding::lemma_real_scaled;
use vstd::arithmetic::power2::lemma2_to64;
use vstd::arithmetic::power2::lemma_pow2_adds;
use vstd::arithmetic::power2::lemma_pow2_pos;
use vstd::arithmetic::power2::lemma_pow2_strictly_increases;
use vstd::arithmetic::power2::lemma_pow2_unfold;
use vstd::arithmetic::power2::pow2;
use vstd::math::abs;

verus! {

/// The smallest number with full precision, `2^-126`: what a product or quotient may lose
/// below it.
pub open spec fn tiny() -> real {
    8388608real * (1real / pow2(149) as real)
}

/// A power of two as a real.
pub open spec fn power_of_two(n: nat) -> real {
    pow2(n) as real
}

/// Whether a number is finite and at most `2^20` in size.
pub open spec fn ordinary(x: Binary32) -> bool {
    x.finite() && size_of_real(real_of(x)) <= power_of_two(20)
}

/// Whether a number is ordinary and at least `2^-20` in size.
pub open spec fn ordinary_divisor(x: Binary32) -> bool {
    ordinary(x) && 1real <= size_of_real(real_of(x)) * power_of_two(20)
}

/// The larger of two exponents.
pub open spec fn larger_nat(a: nat, b: nat) -> nat {
    if a >= b {
        a
    } else {
        b
    }
}

/// Whether a number is an exact value up to some parts in `2^23` of a weight.
pub open spec fn off_by(x: Binary32, exact: real, weight: real, steps: real) -> bool {
    8388608real * size_of_real(real_of(x) - exact) <= steps * weight
}

/// The larger of two reals.
pub open spec fn larger_real(a: real, b: real) -> real {
    if a >= b {
        a
    } else {
        b
    }
}

/// A real limited to the range between two others.
pub open spec fn limited_real(x: real, low: real, high: real) -> real {
    if x < low {
        low
    } else if x > high {
        high
    } else {
        x
    }
}

/// A computed number, the exact value that it stands for, the sum of the sizes of the terms
/// of that value, and how many parts in `2^23` of that sum the number may be off.
pub struct Traced {
    pub number: Binary32,
    pub exact: real,
    pub weight: real,
    pub steps: real,
    /// Whether all numbers that went into it are ordinary.
    pub fits: bool,
    /// The power of two that then bounds the weight; up to `2^120` nothing overflows.
    pub exponent: nat,
}

impl Traced {
    /// What a trace claims: a number that is finite is close to the exact value.
    pub open spec fn holds(self) -> bool {
        &&& size_of_real(self.exact) <= self.weight
        &&& 0real <= self.steps
        &&& self.fits ==> self.weight <= power_of_two(self.exponent)
        &&& self.fits && self.exponent <= 120 ==> self.number.finite()
        &&& self.number.finite() ==> off_by(self.number, self.exact, self.weight, self.steps)
    }

    /// The trace of a number that is given.
    pub open spec fn given(x: Binary32) -> Traced {
        Traced {
            number: x,
            exact: real_of(x),
            weight: size_of_real(real_of(x)),
            steps: 0real,
            fits: ordinary(x),
            exponent: 20,
        }
    }

    /// The trace of a sum.
    pub open spec fn plus(self, rhs: Traced) -> Traced {
        Traced {
            number: self.number + rhs.number,
            exact: self.exact + rhs.exact,
            weight: self.weight + rhs.weight,
            steps: larger_real(self.steps, rhs.steps) + 1real,
            fits: self.fits && rhs.fits,
            exponent: larger_nat(self.exponent, rhs.exponent) + 1,
        }
    }

    /// The trace of a difference.
    pub open spec fn minus(self, rhs: Traced) -> Traced {
        Traced {
            number: self.number - rhs.number,
            exact: self.exact - rhs.exact,
            weight: self.weight + rhs.weight,
            steps: larger_real(self.steps, rhs.steps) + 1real,
            fits: self.fits && rhs.fits,
            exponent: larger_nat(self.exponent, rhs.exponent) + 1,
        }
    }

    /// The trace of a product.
    pub open spec fn times(self, rhs: Traced) -> Traced {
        Traced {
            number: self.number * rhs.number,
            exact: self.exact * rhs.exact,
            weight: self.weight * rhs.weight + tiny(),
            steps: self.steps + rhs.steps + 1real,
            fits: self.fits && rhs.fits,
            exponent: self.exponent + rhs.exponent + 1,
        }
    }

    /// The trace of a quotient by a number that is given.
    pub open spec fn over(self, divisor: Binary32) -> Traced {
        let size = size_of_real(real_of(divisor));
        Traced {
            number: self.number / divisor,
            exact: self.exact / real_of(divisor),
            weight: self.weight / size + tiny(),
            steps: self.steps + 1real,
            fits: self.fits && ordinary_divisor(divisor),
            exponent: self.exponent + 21,
        }
    }
}

/// A given number is exact.
pub proof fn given(x: Binary32) -> (r: Traced)
    ensures
        r == Traced::given(x),
        r.holds(),
{
    let w = size_of_real(real_of(x));
    assert(0real * w == 0real) by (nonlinear_arith);
    Traced::given(x)
}

/// A given number of size up to two.
pub proof fn given_small(x: Binary32) -> (r: Traced)
    requires
        x.finite(),
        size_of_real(real_of(x)) <= 2real,
    ensures
        r == (Traced { fits: true, exponent: 1, ..Traced::given(x) }),
        r.holds(),
{
    lemma2_to64();
    let t = given(x);
    Traced { fits: true, exponent: 1, ..t }
}

/// The negative of a traced number.
pub proof fn negative(a: Traced) -> (r: Traced)
    requires
        a.holds(),
    ensures
        r == (Traced { number: -a.number, exact: -a.exact, ..a }),
        r.holds(),
{
    negation_is_an_involution(a.number);
    if a.number.finite() {
        lemma_real_negative(a.number);
    }
    Traced { number: -a.number, exact: -a.exact, ..a }
}

/// The error of a rounding from the error before it.
proof fn lemma_rounded(r: real, s: real, e: real, w: real, before: real, extra: real)
    requires
        8388608real * size_of_real(s - e) <= before,
        16777216real * size_of_real(r - s) <= size_of_real(r) + extra,
        size_of_real(e) <= w,
        0real <= extra,
        8real * before <= 8388608real * w,
    ensures
        8388608real * size_of_real(r - e) <= before + (5real / 8real) * (w + extra),
{
    assert(size_of_real(r) <= size_of_real(r - s) + size_of_real(s - e) + size_of_real(e));
}

/// A finite sum has finite terms, and is precise whatever its size.
proof fn lemma_precise_sum(x: Binary32, y: Binary32)
    requires
        (x + y).finite(),
    ensures
        x.finite(),
        y.finite(),
        16777216real * size_of_real(real_of(x + y) - (real_of(x) + real_of(y))) <= size_of_real(
            real_of(x + y),
        ),
{
    assert(x.finite() && y.finite()) by {
        reveal(Binary32::spec_add);
    }
    let r = x + y;
    let n = x.value() + y.value();
    let d = r.value() - n;
    sum_error_is_at_most_half_own_spacing(x, y);
    assert(0x100_0000 * abs(d) <= abs(r.value())) by {
        if r.mag() >= 0x80_0000 {
            lemma_relative_spacing(r.mag());
        } else {
            lemma2_to64();
        }
    }
    let u = pow2(149) as real;
    lemma_real_scaled(x);
    lemma_real_scaled(y);
    lemma_real_scaled(r);
    lemma_sizes(d);
    lemma_sizes(r.value());
    let h = real_of(r) - (real_of(x) + real_of(y));
    assert((real_of(r) - (real_of(x) + real_of(y))) * u == real_of(r) * u - (real_of(x) * u
        + real_of(y) * u)) by (nonlinear_arith);
    let a = size_of_real(h);
    let b = size_of_real(real_of(r));
    lemma_size_of_product(h, u, a, u);
    lemma_size_of_product(real_of(r), u, b, u);
    assert((16777216real * a) * u == 16777216real * (a * u)) by (nonlinear_arith);
    lemma_unscaled(16777216real * a, b, u);
}

/// What is lost below the smallest number with full precision.
proof fn lemma_tiny()
    ensures
        tiny() > 0real,
        tiny() == 8388608real * (1real / pow2(149) as real),
{
    let u = pow2(149) as real;
    lemma_pow2_pos(149);
    assert(1real / u > 0real) by (nonlinear_arith)
        requires
            u > 0real,
    ;
}

/// A rounded value, with its error in parts of itself.
proof fn lemma_rounds_parts(r: Binary32, s: real)
    requires
        rounds(r, s),
    ensures
        16777216real * size_of_real(real_of(r) - s) <= size_of_real(real_of(r)) + tiny(),
{
    let k = part();
    let v = size_of_real(real_of(r));
    assert(8388608real * (k * v) == v) by (nonlinear_arith)
        requires
            k == 1real / 8388608real,
    ;
}

/// Powers of two grow.
proof fn lemma_powers(m: nat, n: nat)
    requires
        m <= n,
    ensures
        1real <= power_of_two(m) <= power_of_two(n),
        power_of_two(n + 1) == 2real * power_of_two(n),
{
    lemma_pow2_pos(m);
    lemma_pow2_pos(n);
    if m < n {
        lemma_pow2_strictly_increases(m, n);
    }
    lemma_pow2_unfold(n + 1);
}

/// Twice a size up to `2^120` is still bounded.
proof fn lemma_ample(s: real)
    requires
        size_of_real(s) <= 2real * power_of_two(120),
    ensures
        bounded(s),
{
    lemma2_to64();
    lemma_pow2_adds(120, 2);
    lemma_pow2_pos(120);
    assert(pow2(122) == pow2(120) * 4);
    assert((pow2(120) * 4) as real == pow2(120) as real * 4real);
}

/// The sum of two traced numbers.
pub proof fn plus(a: Traced, b: Traced) -> (r: Traced)
    requires
        a.holds(),
        b.holds(),
        a.steps <= 1024real,
        b.steps <= 1024real,
    ensures
        r == a.plus(b),
        r.holds(),
{
    let x = a.number;
    let y = b.number;
    let n = larger_real(a.steps, b.steps);
    let w = a.weight + b.weight;
    let e = a.exact + b.exact;
    let s = real_of(x) + real_of(y);
    lemma_scaled(a.steps, n, a.weight);
    lemma_scaled(b.steps, n, b.weight);
    assert(n * (a.weight + b.weight) == n * a.weight + n * b.weight) by (nonlinear_arith);
    assert((n + 1real) * w == n * w + w) by (nonlinear_arith);
    lemma_scaled(n, 1048576real, w);
    if a.fits && b.fits {
        let m = larger_nat(a.exponent, b.exponent);
        lemma_powers(a.exponent, m);
        lemma_powers(b.exponent, m);
        if m + 1 <= 120 {
            lemma_powers(m + 1, 120);
            lemma_ample(s);
            sum_rounds(x, y);
        }
    }
    if (x + y).finite() {
        lemma_precise_sum(x, y);
        lemma_rounded(real_of(x + y), s, e, w, n * w, 0real);
    }
    a.plus(b)
}

/// The difference of two traced numbers.
pub proof fn minus(a: Traced, b: Traced) -> (r: Traced)
    requires
        a.holds(),
        b.holds(),
        a.steps <= 1024real,
        b.steps <= 1024real,
    ensures
        r == a.minus(b),
        r.holds(),
{
    let c = negative(b);
    plus(a, c);
    a.minus(b)
}

/// The product of two numbers against that of the exact values.
proof fn lemma_exact_product(x: real, y: real, a: Traced, b: Traced)
    requires
        a.holds(),
        b.holds(),
        a.steps <= 1024real,
        b.steps <= 1024real,
        8388608real * size_of_real(x - a.exact) <= a.steps * a.weight,
        8388608real * size_of_real(y - b.exact) <= b.steps * b.weight,
    ensures
        ({
            let w = a.weight * b.weight;
            &&& size_of_real(a.exact * b.exact) <= w
            &&& 8388608real * size_of_real(x * y - a.exact * b.exact) <= (a.steps + b.steps) * w
                + w / 8real
        }),
{
    let p = a.exact;
    let q = b.exact;
    let f = x - p;
    let g = y - q;
    let k = 8388608real;
    let w = a.weight * b.weight;
    let wa = a.weight;
    let wb = b.weight;
    let m = a.steps;
    let n = b.steps;
    assert((p + f) * (q + g) == p * q + p * g + f * q + f * g) by (nonlinear_arith);
    lemma_size_of_product(p, q, wa, wb);
    lemma_size_of_product(p, k * g, wa, n * wb);
    lemma_size_of_product(k * f, q, m * wa, wb);
    lemma_size_of_product(k * f, k * g, m * wa, n * wb);
    assert(p * (k * g) == k * (p * g)) by (nonlinear_arith);
    assert((k * f) * q == k * (f * q)) by (nonlinear_arith);
    assert((k * f) * (k * g) == (k * k) * (f * g)) by (nonlinear_arith);
    assert(k * k == 70368744177664real);
    assert(wa * (n * wb) == n * (wa * wb)) by (nonlinear_arith);
    assert((m * wa) * wb == m * (wa * wb)) by (nonlinear_arith);
    assert((m * wa) * (n * wb) == (m * n) * (wa * wb)) by (nonlinear_arith);
    assert((m + n) * w == m * w + n * w) by (nonlinear_arith);
    lemma_size_of_product(m, n, 1024real, 1024real);
    lemma_scaled(m * n, 1048576real, w);
    assert(size_of_real(x * y - p * q) <= size_of_real(p * g) + size_of_real(f * q) + size_of_real(
        f * g,
    ));
}

/// Products of powers of two.
proof fn lemma_power_product(m: nat, n: nat)
    ensures
        power_of_two(m + n) == power_of_two(m) * power_of_two(n),
{
    lemma_pow2_adds(m, n);
    lemma_real_product(pow2(m) as int, pow2(n) as int);
}

/// The smallest number with full precision is below one.
pub proof fn lemma_tiny_bound()
    ensures
        tiny() <= 1real,
{
    let u = pow2(149) as real;
    let h = 1real / u;
    lemma2_to64();
    lemma_powers(64, 149);
    assert(h * u == 1real) by (nonlinear_arith)
        requires
            h == 1real / u,
            u > 0real,
    ;
    lemma_tiny();
    lemma_scaled(8388608real, u, h);
    assert(u * h == h * u) by (nonlinear_arith);
}

/// The product of two traced numbers.
pub proof fn times(a: Traced, b: Traced) -> (r: Traced)
    requires
        a.holds(),
        b.holds(),
        a.steps <= 1024real,
        b.steps <= 1024real,
    ensures
        r == a.times(b),
        r.holds(),
{
    let x = a.number;
    let y = b.number;
    let w = a.weight * b.weight;
    let e = a.exact * b.exact;
    let s = real_of(x) * real_of(y);
    let m = a.steps + b.steps;
    lemma_tiny();
    lemma_size_of_product(a.exact, b.exact, a.weight, b.weight);
    let m2 = a.exponent + b.exponent;
    let safe = a.fits && b.fits && m2 + 1 <= 120;
    if a.fits && b.fits {
        lemma_power_product(a.exponent, b.exponent);
        lemma_size_of_product(a.weight, b.weight, power_of_two(a.exponent),
            power_of_two(b.exponent));
        lemma_powers(0, m2);
        lemma_tiny_bound();
    }
    if (x * y).finite() || safe {
        assert(x.finite() && y.finite()) by {
            reveal(Binary32::spec_mul);
        }
        lemma_exact_product(real_of(x), real_of(y), a, b);
        lemma_scaled(m, 1048000real, w);
        let before = m * w + w / 8real;
        if safe {
            lemma_powers(m2, 120);
            lemma_ample(s);
            product_rounds(x, y);
        }
        finite_product_rounds(x, y);
        lemma_rounds_parts(x * y, s);
        lemma_rounded(real_of(x * y), s, e, w, before, tiny());
        assert((m + 1real) * (w + tiny()) == m * w + m * tiny() + (w + tiny()))
            by (nonlinear_arith);
        lemma_scaled(0real, m, tiny());
        assert(0real * tiny() == 0real) by (nonlinear_arith);
    }
    a.times(b)
}

/// A finite quotient by a number other than zero has a finite dividend, and is the rounded
/// quotient.
proof fn lemma_any_quotient_rounds(x: Binary32, y: Binary32)
    requires
        y.finite(),
        !y.zero(),
        (x / y).finite() || x.finite() && bounded(real_of(x) / real_of(y)),
    ensures
        x.finite(),
        rounds(x / y, real_of(x) / real_of(y)),
        real_of(y) != 0real,
{
    assert(x.finite()) by {
        reveal(Binary32::spec_euclidean_or_real_div);
    }
    lemma_mag_units_order(0, 0);
    lemma_mag_units_order(y.mag(), 0);
    lemma_real_scaled(y);
    order_is_value_order(b32(ZERO), y);
    assert(real_of(y) != 0real) by {
        let u = pow2(149) as real;
        assert(0real * u == 0real) by (nonlinear_arith);
    }
    if y.negative() {
        let z = -y;
        negation_is_an_involution(y);
        negation_is_an_involution(x / z);
        order_is_value_order(b32(ZERO), z);
        assert(x / y == -(x / z)) by {
            reveal(Binary32::spec_euclidean_or_real_div);
        }
        lemma_real_negative(y);
        let p = real_of(x);
        let q = real_of(y);
        assert(p / (-q) == -(p / q)) by (nonlinear_arith)
            requires
                q != 0real,
        ;
        if !(x / y).finite() {
            quotient_rounds(x, z);
        }
        finite_quotient_rounds(x, z);
        lemma_real_negative(x / z);
    } else {
        if !(x / y).finite() {
            quotient_rounds(x, y);
        }
        finite_quotient_rounds(x, y);
    }
}

/// Dividing by a size that is not zero.
pub proof fn lemma_shares(x: real, y: real)
    requires
        y != 0real,
    ensures
        size_of_real(x / y) == size_of_real(x) / size_of_real(y),
        (x / y) * y == x,
{
    let q = x / y;
    let m = size_of_real(y);
    assert(q * y == x) by (nonlinear_arith)
        requires
            q == x / y,
            y != 0real,
    ;
    lemma_size_of_product(q, y, size_of_real(q), m);
    let n = size_of_real(x) / m;
    assert(n * m == size_of_real(x)) by (nonlinear_arith)
        requires
            n == size_of_real(x) / m,
            m > 0real,
    ;
    lemma_unscaled(n, size_of_real(q), m);
    lemma_unscaled(size_of_real(q), n, m);
}

/// A bound of a dividend bounds the quotient.
proof fn lemma_divided_bound(a: real, b: real, m: real)
    requires
        a <= b,
        m > 0real,
    ensures
        a / m <= b / m,
{
    lemma_shares(a, m);
    lemma_shares(b, m);
    lemma_unscaled(a / m, b / m, m);
}

/// The quotient of a traced number by a given one other than zero.
pub proof fn over(a: Traced, divisor: Binary32) -> (r: Traced)
    requires
        a.holds(),
        a.steps <= 1024real,
        divisor.finite(),
        !divisor.zero(),
    ensures
        r == a.over(divisor),
        r.holds(),
{
    let x = a.number;
    let y = real_of(divisor);
    let m = size_of_real(y);
    let w = a.weight / m;
    let e = a.exact / y;
    let s = real_of(x) / y;
    let n = a.steps;
    lemma_tiny();
    assert(y != 0real && m > 0real) by {
        let u = pow2(149) as real;
        lemma_real_scaled(divisor);
        lemma_mag_units_order(divisor.mag(), 0);
        assert(0real * u == 0real) by (nonlinear_arith);
    }
    lemma_shares(a.exact, y);
    lemma_divided_bound(size_of_real(a.exact), a.weight, m);
    let safe = a.fits && ordinary_divisor(divisor) && a.exponent + 21 <= 120;
    if a.fits && ordinary_divisor(divisor) {
        let top = power_of_two(a.exponent);
        let inverse = power_of_two(20);
        lemma_power_product(a.exponent, 20);
        lemma_shares(a.weight, m);
        lemma_powers(0, a.exponent + 20);
        lemma_tiny_bound();
        // The weight over the divisor is at most the weight times 2^20.
        lemma_scaled(1real, m * inverse, w);
        lemma_powers(0, 20);
        lemma_scaled(a.weight, top, inverse);
        assert((m * inverse) * w == (w * m) * inverse && 1real * w == w) by (nonlinear_arith);
    }
    if (x / divisor).finite() || safe {
        assert(x.finite()) by {
            reveal(Binary32::spec_euclidean_or_real_div);
        }
        let f = real_of(x) - a.exact;
        let k = 8388608real;
        lemma_shares(real_of(x), y);
        lemma_shares(f, y);
        lemma_shares(a.weight, m);
        assert(s - e == f / y) by {
            assert((s - e) * y == s * y - e * y) by (nonlinear_arith);
            let d = s - e;
            let g = f / y;
            lemma_real_equal(d, g, y);
        }
        assert((n * w) * m == n * (w * m)) by (nonlinear_arith);
        let h = size_of_real(s - e);
        lemma_size_of_product(s - e, y, h, m);
        assert((k * h) * m == k * (h * m)) by (nonlinear_arith);
        lemma_unscaled(k * h, n * w, m);
        lemma_scaled(n, 1048576real, w);
        if safe {
            lemma_powers(a.exponent + 20, 120);
            lemma_ample(s);
        }
        lemma_any_quotient_rounds(x, divisor);
        lemma_rounds_parts(x / divisor, s);
        lemma_rounded(real_of(x / divisor), s, e, w, n * w, tiny());
        assert((n + 1real) * (w + tiny()) == n * w + n * tiny() + (w + tiny()))
            by (nonlinear_arith);
        lemma_scaled(0real, n, tiny());
        assert(0real * tiny() == 0real) by (nonlinear_arith);
    }
    a.over(divisor)
}

/// Reals with equal products by a number other than zero.
proof fn lemma_real_equal(a: real, b: real, y: real)
    requires
        a * y == b * y,
        y != 0real,
    ensures
        a == b,
{
    let d = a - b;
    assert((a - b) * y == a * y - b * y) by (nonlinear_arith);
    lemma_size_of_product(d, y, size_of_real(d), size_of_real(y));
    let n = size_of_real(d);
    let m = size_of_real(y);
    assert(0real * m == 0real) by (nonlinear_arith);
    lemma_unscaled(n, 0real, m);
}

/// A real limited to the range between two others, given in either order.
pub open spec fn clamped_real(x: real, a: real, b: real) -> real {
    if a > b {
        limited_real(x, b, a)
    } else {
        limited_real(x, a, b)
    }
}

/// Whether a number lies strictly between two limits, given in either order.
pub open spec fn strictly_inside(x: Binary32, a: Binary32, b: Binary32) -> bool {
    a < x && x < b || b < x && x < a
}

/// A limited number that is not at a limit is the number before limiting.
pub proof fn not_limited(x: Binary32, a: Binary32, b: Binary32)
    requires
        strictly_inside(clamped(x, a, b), a, b),
    ensures
        clamped(x, a, b) == x,
        x.finite(),
{
}

/// A traced number after limiting.
pub proof fn limit(t: Traced, a: Binary32, b: Binary32) -> (r: Traced)
    requires
        t.holds(),
        t.fits,
        t.exponent <= 120,
        ordinary(a),
        ordinary(b),
    ensures
        r == (Traced {
            number: clamped(t.number, a, b),
            exact: clamped_real(t.exact, real_of(a), real_of(b)),
            weight: t.weight + size_of_real(real_of(a)) + size_of_real(real_of(b)),
            exponent: larger_nat(t.exponent, 20) + 2,
            ..t
        }),
        r.holds(),
{
    let x = t.number;
    let y = clamped(x, a, b);
    let p = real_of(a);
    let q = real_of(b);
    let w = t.weight + size_of_real(p) + size_of_real(q);
    lemma_order_of_reals(a, b);
    lemma_order_of_reals(x, a);
    lemma_order_of_reals(x, b);
    lemma_scaled(t.weight, w, t.steps);
    assert(t.weight * t.steps == t.steps * t.weight && w * t.steps == t.steps * w)
        by (nonlinear_arith);
    let m = larger_nat(t.exponent, 20);
    lemma_powers(t.exponent, m);
    lemma_powers(20, m);
    lemma_powers(m, m + 1);
    Traced { number: y, exact: clamped_real(t.exact, p, q), weight: w, exponent: m + 2, ..t }
}

/// The order of finite numbers is that of the reals.
pub proof fn lemma_order_of_reals(a: Binary32, b: Binary32)
    requires
        a.finite(),
        b.finite(),
    ensures
        a <= b <==> real_of(a) <= real_of(b),
        a < b <==> real_of(a) < real_of(b),
{
    let u = pow2(149) as real;
    let p = real_of(a);
    let q = real_of(b);
    order_is_value_order(a, b);
    lemma_real_scaled(a);
    lemma_real_scaled(b);
    if p <= q {
        lemma_scaled(p, q, u);
    }
    if q <= p {
        lemma_scaled(q, p, u);
    }
    if a.value() <= b.value() {
        lemma_unscaled(p, q, u);
    }
    if b.value() <= a.value() {
        lemma_unscaled(q, p, u);
    }
}

/// Zero as a real.
pub proof fn lemma_zero_real(x: Binary32)
    requires
        x.finite(),
    ensures
        x.zero() <==> real_of(x) == 0real,
{
    let u = pow2(149) as real;
    lemma_mag_units_order(x.mag(), 0);
    lemma_mag_units_order(0, 0);
    lemma_real_scaled(x);
    assert(0real * u == 0real) by (nonlinear_arith);
    if x.zero() {
        lemma_real_equal(real_of(x), 0real, u);
    }
}

/// Whether two limits are ordinary, or none at all.
pub open spec fn usual_limits(a: Binary32, b: Binary32) -> bool {
    ordinary(a) && ordinary(b) || a == -b32(INFINITY) && b == b32(INFINITY)
}

/// A traced number after limiting, if at all.
pub proof fn limit_if_any(t: Traced, a: Binary32, b: Binary32) -> (r: Traced)
    requires
        t.holds(),
        t.fits,
        t.exponent <= 118,
        usual_limits(a, b),
    ensures
        r.holds(),
        r.fits,
        r.number == clamped(t.number, a, b),
        r.steps == t.steps,
        r.exponent == larger_nat(t.exponent, 20) + 2,
{
    if ordinary(a) && ordinary(b) {
        let r = limit(t, a, b);
        r
    } else {
        let m = larger_nat(t.exponent, 20) + 2;
        lemma_powers(t.exponent, m);
        Traced { exponent: m, ..t }
    }
}

/// A larger weight.
pub proof fn lemma_off_by_more(x: Binary32, exact: real, weight: real, more: real, steps: real)
    requires
        off_by(x, exact, weight, steps),
        weight <= more,
        0real <= steps,
    ensures
        off_by(x, exact, more, steps),
{
    lemma_scaled(weight, more, steps);
    assert(weight * steps == steps * weight && more * steps == steps * more) by (nonlinear_arith);
}

} // verus!
