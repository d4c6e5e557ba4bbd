//! Correctly rounded binary32 square root.
use vstd::prelude::*;
use crate::arithmetic::lemma_power_mag;
use crate::arithmetic::power_mag;
use crate::binary32::b32;
use crate::binary32::Binary32;
use crate::binary32::QUIET_NAN;
use crate::binary32::signed;
use crate::binary32::ZERO;
use crate::nearest::lemma_mag_units_at;
use crate::nearest::lemma_mag_units_order;
use crate::nearest::lemma_relative_spacing;
use crate::nearest::lemma_spacing;
use crate::nearest::rounding_error_is_at_most_half_own_spacing;
use crate::nearest::rounding_is_exact;
use crate::nearest::rounding_is_monotone;
use crate::nearest::rounding_is_nearest;
use crate::nearest::spacing;
use crate::rounding::INF_MAG;
use crate::rounding::lemma_even_multiple;
use crate::rounding::lemma_quotient_between;
use crate::rounding::mag_units;
use crate::rounding::power_of_two;
use crate::rounding::round_scaled;
use crate::rounding::unbounded_mag;
use vstd::arithmetic::div_mod::lemma_div_is_ordered;
use vstd::arithmetic::div_mod::lemma_fundamental_div_mod;
use vstd::arithmetic::power2::lemma2_to64;
use vstd::arithmetic::power2::lemma2_to64_rest;
use vstd::arithmetic::power2::lemma_pow2_adds;
use vstd::arithmetic::power2::lemma_pow2_pos;
use vstd::arithmetic::power2::lemma_pow2_unfold;
use vstd::arithmetic::power2::pow2;
use vstd::math::abs;

verus! {

/// `t` is the integer part of the square root of `n`.
pub open spec fn is_floor_root(n: nat, t: nat) -> bool {
    t * t <= n < (t + 1) * (t + 1)
}

/// The integer part of the square root of `n`.
pub open spec fn floor_root(n: nat) -> nat {
    choose|t: nat| is_floor_root(n, t)
}

/// `sqrt(n) / d` rounded to the nearest integer, a tie going to the even neighbour.
pub open spec fn nearest_root(n: nat, d: nat) -> nat
    recommends
        d > 0,
{
    let t = floor_root(n / (d * d));
    let midpoint = (2 * t + 1) * d;
    if 4 * n < midpoint * midpoint || (4 * n == midpoint * midpoint && t % 2 == 0) {
        t
    } else {
        t + 1
    }
}

/// The magnitude of `sqrt(n) / d` without the overflow cut; compare `unbounded_mag`.
pub open spec fn unbounded_root_mag(n: nat, d: nat) -> nat
    recommends
        d > 0,
    decreases
        (if n < (0x100_0000 * d) * (0x100_0000 * d) {
            0
        } else {
            n - (0x100_0000 * d) * (0x100_0000 * d) + 1
        }),
{
    if d == 0 || n < (0x100_0000 * d) * (0x100_0000 * d) {
        nearest_root(n, d)
    } else {
        proof {
            assert((0x100_0000 * (2 * d)) * (0x100_0000 * (2 * d)) == 4 * ((0x100_0000 * d) * (
            0x100_0000 * d))) by (nonlinear_arith);
            assert((0x100_0000 * d) * (0x100_0000 * d) > 0) by (nonlinear_arith)
                requires
                    d > 0,
            ;
        }
        0x80_0000 + unbounded_root_mag(n, 2 * d)
    }
}

/// The binary32 magnitude nearest to `sqrt(n)`, ties to even.
pub open spec fn rounded_root_mag(n: nat) -> nat {
    if unbounded_root_mag(n, 1) < INF_MAG {
        unbounded_root_mag(n, 1)
    } else {
        INF_MAG as nat
    }
}

/// The square root of `x`: exact, then rounded once.
#[verifier::opaque]
pub open spec fn sqrt_of(x: Binary32) -> Binary32 {
    if x.nan() {
        b32(QUIET_NAN)
    } else if x.zero() {
        x
    } else if x.negative() {
        b32(QUIET_NAN)
    } else if x.infinite() {
        x
    } else {
        signed(false, rounded_root_mag(x.units() * pow2(149)))
    }
}

proof fn lemma_floor_root_unique(n: nat, t: nat)
    requires
        is_floor_root(n, t),
    ensures
        floor_root(n) == t,
{
    let c = floor_root(n);
    if c < t {
        assert((c + 1) * (c + 1) <= t * t) by (nonlinear_arith)
            requires
                c + 1 <= t,
        ;
    }
    if c > t {
        assert((t + 1) * (t + 1) <= c * c) by (nonlinear_arith)
            requires
                t + 1 <= c,
        ;
    }
}

/// When `q * d <= sqrt(n) < (q + 1) * d`, the integer part of `sqrt(n) / d` is `q`.
proof fn lemma_floor_root_quotient(n: nat, d: nat, q: nat)
    requires
        d > 0,
        (q * d) * (q * d) <= n < ((q + 1) * d) * ((q + 1) * d),
    ensures
        floor_root(n / (d * d)) == q,
{
    let s = d * d;
    let f = n / s;
    assert(s > 0) by (nonlinear_arith)
        requires
            s == d * d,
            d > 0,
    ;
    lemma_fundamental_div_mod(n as int, s as int);
    assert(q * q <= f) by (nonlinear_arith)
        requires
            (q * d) * (q * d) <= n,
            s == d * d,
            n == s * f + n % s,
            n % s < s,
            s > 0,
    ;
    assert(f < (q + 1) * (q + 1)) by (nonlinear_arith)
        requires
            n < ((q + 1) * d) * ((q + 1) * d),
            s == d * d,
            n == s * f + n % s,
            n % s >= 0,
            s > 0,
    ;
    lemma_floor_root_unique(f, q);
}

proof fn lemma_square_order(a: nat, b: nat)
    ensures
        a < b <==> a * a < b * b,
        a == b <==> a * a == b * b,
{
    assert(a < b ==> a * a < b * b) by (nonlinear_arith);
    assert(b < a ==> b * b < a * a) by (nonlinear_arith);
}

/// The root of an exact square rounds like the number that was squared.
proof fn lemma_root_of_square(x: nat, d: nat)
    requires
        d > 0,
    ensures
        unbounded_root_mag(x * x, d) == unbounded_mag(x, d),
    decreases
        (if x < 0x100_0000 * d {
            0
        } else {
            x - 0x100_0000 * d + 1
        }),
{
    lemma_square_order(x, 0x100_0000 * d);
    if x < 0x100_0000 * d {
        let q = x / d;
        let r = x % d;
        lemma_fundamental_div_mod(x as int, d as int);
        assert(q * d <= x < (q + 1) * d) by (nonlinear_arith)
            requires
                x == d * q + r,
                0 <= r < d,
        ;
        lemma_square_order(q * d, x);
        lemma_square_order(x, (q + 1) * d);
        lemma_floor_root_quotient(x * x, d, q);
        let midpoint = (2 * q + 1) * d;
        lemma_square_order(2 * x, midpoint);
        assert((2 * x) * (2 * x) == 4 * (x * x)) by (nonlinear_arith);
        assert(midpoint == 2 * (d * q) + d) by (nonlinear_arith)
            requires
                midpoint == (2 * q + 1) * d,
        ;
    } else {
        lemma_root_of_square(x, 2 * d);
    }
}

/// A root strictly between `m * u` and `(m + 1) * u` rounds like any number there.
proof fn lemma_root_between(n: nat, n2: nat, d: nat, u: nat, m: nat, i: nat, j: nat)
    requires
        d > 0,
        u > 0,
        m >= 0x200_0000,
        (m * u) * (m * u) < n < ((m + 1) * u) * ((m + 1) * u),
        m * u < n2 < (m + 1) * u,
        d * pow2(i) == u * pow2(j),
    ensures
        unbounded_root_mag(n, d) == unbounded_mag(n2, d),
    decreases
        (if n2 < 0x100_0000 * d {
            0
        } else {
            n2 - 0x100_0000 * d + 1
        }),
{
    let cap = 0x100_0000 * d;
    lemma_pow2_unfold(j + 1);
    assert((2 * d) * pow2(i) == u * pow2(j + 1)) by (nonlinear_arith)
        requires
            d * pow2(i) == u * pow2(j),
            pow2(j + 1) == 2 * pow2(j),
    ;
    if d <= 2 * u {
        assert(m * u >= cap) by (nonlinear_arith)
            requires
                m >= 0x200_0000,
                d <= 2 * u,
                cap == 0x100_0000 * d,
        ;
        lemma_square_order(m * u, cap);
        lemma_root_between(n, n2, 2 * d, u, m, i, j + 1);
    } else {
        let v = lemma_even_multiple(d, u, i, j);
        let w = 2 * v;
        lemma_quotient_between(n2, u, m, v);
        if m < 0x100_0000 * w {
            assert((m + 1) * u <= cap) by (nonlinear_arith)
                requires
                    m + 1 <= 0x100_0000 * w,
                    cap == 0x100_0000 * d,
                    d == u * w,
            ;
            lemma_square_order(cap, (m + 1) * u);
            let q = m / w;
            let r = m % w;
            lemma_fundamental_div_mod(m as int, w as int);
            assert(q * d <= m * u) by (nonlinear_arith)
                requires
                    d == u * w,
                    m == w * q + r,
                    r >= 0,
            ;
            assert((m + 1) * u <= (q + 1) * d) by (nonlinear_arith)
                requires
                    d == u * w,
                    m == w * q + r,
                    r + 1 <= w,
            ;
            lemma_square_order(m * u, q * d);
            lemma_square_order((q + 1) * d, (m + 1) * u);
            lemma_floor_root_quotient(n, d, q);
            let midpoint = (2 * q + 1) * d;
            let h = (2 * q + 1) * v;
            assert(midpoint == 2 * (h * u)) by (nonlinear_arith)
                requires
                    midpoint == (2 * q + 1) * d,
                    h == (2 * q + 1) * v,
                    d == u * (2 * v),
            ;
            assert(midpoint * midpoint == 4 * ((h * u) * (h * u))) by (nonlinear_arith)
                requires
                    midpoint == 2 * (h * u),
            ;
            assert(h == w * q + v) by (nonlinear_arith)
                requires
                    h == (2 * q + 1) * v,
                    w == 2 * v,
            ;
            if r < v {
                assert((m + 1) * u <= h * u) by (nonlinear_arith)
                    requires
                        m + 1 <= h,
                ;
                lemma_square_order(h * u, (m + 1) * u);
            } else {
                assert(h * u <= m * u) by (nonlinear_arith)
                    requires
                        h <= m,
                ;
                lemma_square_order(m * u, h * u);
            }
        } else {
            assert(m * u >= cap) by (nonlinear_arith)
                requires
                    m >= 0x100_0000 * w,
                    cap == 0x100_0000 * d,
                    d == u * w,
            ;
            lemma_square_order(m * u, cap);
            lemma_root_between(n, n2, 2 * d, u, m, i, j + 1);
        }
    }
}

/// The integer part of the square root of `n`.
fn integer_root(n: u64) -> (t: u64)
    requires
        n < 0x8000_0000_0000_0000,
    ensures
        is_floor_root(n as nat, t as nat),
        t < 0x1_0000_0000,
{
    let mut low: u64 = 0;
    let mut high: u64 = 0xffff_ffff;
    while low + 1 < high
        invariant
            low < high <= 0xffff_ffff,
            low * low <= n,
            n < high * high,
            n < 0x8000_0000_0000_0000,
        decreases high - low,
    {
        let middle: u64 = low + (high - low) / 2;
        assert(middle * middle <= 0xffff_ffff * 0xffff_ffff) by (nonlinear_arith)
            requires
                middle <= 0xffff_ffff,
        ;
        if middle * middle <= n {
            low = middle;
        } else {
            high = middle;
        }
    }
    low
}

impl Binary32 {
    /// The square root, rounded to nearest.
    pub fn sqrt(self) -> (r: Binary32)
        ensures
            r == sqrt_of(self),
    {
        proof {
            reveal(sqrt_of);
        }
        if self.is_nan() {
            return Binary32 { bits: QUIET_NAN };
        }
        if self.magnitude() == 0 {
            return self;
        }
        if self.is_negative() {
            return Binary32 { bits: QUIET_NAN };
        }
        if self.is_infinite() {
            return self;
        }
        let (m, k) = self.parts();
        let (n24, z) = Self::normalized(m);
        let total: u32 = k + 149 - z;
        let t: u32 = if total % 2 == 0 {
            38
        } else {
            39
        };
        let p: u64 = power_of_two(t);
        proof {
            lemma2_to64();
            lemma2_to64_rest();
            assert(n24 * p < 0x8000_0000_0000_0000) by (nonlinear_arith)
                requires
                    n24 < 0x100_0000,
                    p <= 0x80_0000_0000,
            ;
            assert(n24 * p >= 0x2000_0000_0000_0000) by (nonlinear_arith)
                requires
                    n24 >= 0x80_0000,
                    p >= 0x40_0000_0000,
            ;
        }
        let radicand: u64 = n24 as u64 * p;
        let root: u64 = integer_root(radicand);
        let half: u32 = (total - t) / 2;
        let ghost e = half as nat;
        let ghost u = pow2(e);
        let ghost n = self.units() * pow2(149);
        proof {
            lemma_pow2_pos(e);
            assert(root >= 0x4000_0000) by (nonlinear_arith)
                requires
                    radicand < (root + 1) * (root + 1),
                    radicand >= 0x2000_0000_0000_0000,
                    root < 0x1_0000_0000,
            ;
            lemma_pow2_adds(e, e);
            lemma_pow2_adds(t as nat, e + e);
            lemma_pow2_adds(total as nat, z as nat);
            lemma_pow2_adds(k as nat, 149);
            lemma_pow2_pos(z as nat);
            assert(n * pow2(z as nat) == (n24 * pow2(total as nat)) * pow2(z as nat))
                by (nonlinear_arith)
                requires
                    n == (m * pow2(k as nat)) * pow2(149),
                    n24 == m * pow2(z as nat),
                    pow2(k as nat) * pow2(149) == pow2(total as nat) * pow2(z as nat),
            ;
            assert(n == n24 * pow2(total as nat)) by (nonlinear_arith)
                requires
                    n * pow2(z as nat) == (n24 * pow2(total as nat)) * pow2(z as nat),
                    pow2(z as nat) > 0,
            ;
            assert(n == radicand * (u * u)) by (nonlinear_arith)
                requires
                    n == n24 * pow2(total as nat),
                    pow2(total as nat) == p * (u * u),
                    radicand == n24 * p,
            ;
            assert((root * u) * (root * u) == (root * root) * (u * u)) by (nonlinear_arith);
        }
        let mag: u32 = if root * root == radicand {
            proof {
                lemma_root_of_square(root as nat * u, 1);
            }
            round_scaled(root, half as i32)
        } else {
            proof {
                let g = (e - 1) as nat;
                let n2 = (2 * root + 1) as nat * pow2(g);
                lemma_pow2_unfold(e);
                lemma_pow2_pos(g);
                assert(root * u < n2 < (root + 1) * u) by (nonlinear_arith)
                    requires
                        n2 == (2 * root + 1) * pow2(g),
                        u == 2 * pow2(g),
                        pow2(g) > 0,
                ;
                assert(u * u > 0) by (nonlinear_arith)
                    requires
                        u > 0,
                ;
                assert((root * root) * (u * u) < n) by (nonlinear_arith)
                    requires
                        n == radicand * (u * u),
                        root * root < radicand,
                        u * u > 0,
                ;
                assert(n < ((root + 1) * u) * ((root + 1) * u)) by (nonlinear_arith)
                    requires
                        n == radicand * (u * u),
                        radicand < (root + 1) * (root + 1),
                        u * u > 0,
                ;
                assert(1 * u == u * pow2(0));
                lemma_root_between(n, n2, 1, u, root as nat, e, 0);
            }
            round_scaled(2 * root + 1, half as i32 - 1)
        };
        Self::with_sign(false, mag)
    }
}

/// Every number has an integer root.
proof fn lemma_floor_root_exists(n: nat)
    ensures
        is_floor_root(n, floor_root(n)),
    decreases n,
{
    if n == 0 {
        assert(n * n <= n < (n + 1) * (n + 1)) by (nonlinear_arith)
            requires
                n == 0,
        ;
        assert(is_floor_root(n, n));
    } else {
        let m = (n - 1) as nat;
        lemma_floor_root_exists(m);
        let t = floor_root(m);
        if (t + 1) * (t + 1) <= n {
            assert((t + 2) * (t + 2) > n) by (nonlinear_arith)
                requires
                    n <= (t + 1) * (t + 1),
            ;
            assert(is_floor_root(n, t + 1));
        } else {
            assert(is_floor_root(n, t));
        }
    }
}

/// A root below `2^24` steps rounds to at most `2^24`, one of at least `2^23` steps to at
/// least `2^23`.
proof fn lemma_nearest_root_range(n: nat, d: nat)
    requires
        d > 0,
    ensures
        n < (0x100_0000 * d) * (0x100_0000 * d) ==> nearest_root(n, d) <= 0x100_0000,
        n >= (0x80_0000 * d) * (0x80_0000 * d) ==> nearest_root(n, d) >= 0x80_0000,
{
    let s = d * d;
    let f = n / s;
    let t = floor_root(f);
    assert(s > 0) by (nonlinear_arith)
        requires
            s == d * d,
            d > 0,
    ;
    lemma_fundamental_div_mod(n as int, s as int);
    lemma_floor_root_exists(f);
    assert(s * (t * t) <= n) by (nonlinear_arith)
        requires
            t * t <= f,
            n == s * f + n % s,
            n % s >= 0,
            s > 0,
    ;
    assert(n < s * ((t + 1) * (t + 1))) by (nonlinear_arith)
        requires
            f + 1 <= (t + 1) * (t + 1),
            n == s * f + n % s,
            n % s < s,
            s > 0,
    ;
    assert((t * d) * (t * d) == s * (t * t)) by (nonlinear_arith)
        requires
            s == d * d,
    ;
    assert(((t + 1) * d) * ((t + 1) * d) == s * ((t + 1) * (t + 1))) by (nonlinear_arith)
        requires
            s == d * d,
    ;
    if n < (0x100_0000 * d) * (0x100_0000 * d) && t >= 0x100_0000 {
        assert(t * d >= 0x100_0000 * d) by (nonlinear_arith)
            requires
                t >= 0x100_0000,
        ;
        lemma_square_order(t * d, 0x100_0000 * d);
    }
    if n >= (0x80_0000 * d) * (0x80_0000 * d) && t < 0x80_0000 {
        assert((t + 1) * d <= 0x80_0000 * d) by (nonlinear_arith)
            requires
                t + 1 <= 0x80_0000,
        ;
        lemma_square_order(0x80_0000 * d, (t + 1) * d);
    }
}

/// Larger numbers have larger rounded roots.
proof fn lemma_root_mag_order(n1: nat, n2: nat, d: nat)
    requires
        d > 0,
        n1 <= n2,
    ensures
        unbounded_root_mag(n1, d) <= unbounded_root_mag(n2, d),
    decreases
        (if n2 < (0x100_0000 * d) * (0x100_0000 * d) {
            0
        } else {
            n2 - (0x100_0000 * d) * (0x100_0000 * d) + 1
        }),
{
    let cap = (0x100_0000 * d) * (0x100_0000 * d);
    assert((0x100_0000 * (2 * d)) * (0x100_0000 * (2 * d)) == 4 * cap) by (nonlinear_arith)
        requires
            cap == (0x100_0000 * d) * (0x100_0000 * d),
    ;
    assert(cap > 0) by (nonlinear_arith)
        requires
            cap == (0x100_0000 * d) * (0x100_0000 * d),
            d > 0,
    ;
    if n2 < cap {
        let s = d * d;
        assert(s > 0) by (nonlinear_arith)
            requires
                s == d * d,
                d > 0,
        ;
        let f1 = n1 / s;
        let f2 = n2 / s;
        let t1 = floor_root(f1);
        let t2 = floor_root(f2);
        lemma_div_is_ordered(n1 as int, n2 as int, s as int);
        lemma_floor_root_exists(f1);
        lemma_floor_root_exists(f2);
        lemma_square_order(t1, t2 + 1);
    } else if n1 < cap {
        lemma_nearest_root_range(n1, d);
        lemma_root_of_large(n2, 2 * d);
        assert((0x80_0000 * (2 * d)) * (0x80_0000 * (2 * d)) == cap) by (nonlinear_arith)
            requires
                cap == (0x100_0000 * d) * (0x100_0000 * d),
        ;
    } else {
        lemma_root_mag_order(n1, n2, 2 * d);
    }
}

proof fn lemma_root_of_large(n: nat, d: nat)
    requires
        d > 0,
    ensures
        n >= (0x80_0000 * d) * (0x80_0000 * d) ==> unbounded_root_mag(n, d) >= 0x80_0000,
{
    lemma_nearest_root_range(n, d);
}

/// Larger numbers have larger square roots.
pub proof fn square_root_keeps_order(a: Binary32, b: Binary32)
    requires
        b32(ZERO) <= a,
        a <= b,
    ensures
        sqrt_of(a) <= sqrt_of(b),
{
    reveal(sqrt_of);
    if a.finite() && b.finite() {
        lemma_mag_units_order(a.mag(), b.mag());
        assert(a.units() * pow2(149) <= b.units() * pow2(149)) by (nonlinear_arith)
            requires
                a.units() <= b.units(),
        ;
        lemma_root_mag_order(a.units() * pow2(149), b.units() * pow2(149), 1);
    }
}

/// The square root of an exact square is the number that was squared, without its sign.
pub proof fn square_root_of_exact_square(x: Binary32, square: Binary32)
    requires
        x.finite(),
        square.finite(),
        !square.negative(),
        square.units() * pow2(149) == x.units() * x.units(),
    ensures
        sqrt_of(square) == x.size(),
{
    reveal(sqrt_of);
    lemma_pow2_pos(149);
    lemma_mag_units_order(x.mag(), 0);
    lemma_mag_units_order(square.mag(), 0);
    assert(square.units() == 0 <==> x.units() == 0) by (nonlinear_arith)
        requires
            square.units() * pow2(149) == x.units() * x.units(),
            pow2(149) > 0,
    ;
    lemma_root_of_square(x.units(), 1);
    rounding_is_exact(x.mag(), 1);
    assert(mag_units(x.mag()) * 1 == mag_units(x.mag()));
}

/// The square root of a finite number that is not negative is finite, at most `2^64`, and
/// not negative.
pub proof fn square_root_is_finite(x: Binary32)
    requires
        x.finite(),
        x >= b32(ZERO),
    ensures
        sqrt_of(x).finite(),
        sqrt_of(x).mag() <= power_mag(64),
        sqrt_of(x) >= b32(ZERO),
{
    reveal(sqrt_of);
    let n = x.units() * pow2(149);
    let top = pow2(213);
    lemma_power_mag(64);
    lemma_power_mag(127);
    lemma_pow2_unfold(277);
    lemma_pow2_adds(277, 149);
    lemma_pow2_adds(213, 213);
    lemma_mag_units_at(253, 0x100_0000);
    lemma_mag_units_order(x.mag(), INF_MAG as nat);
    lemma2_to64();
    lemma_pow2_adds(24, 253);
    assert(n <= top * top) by (nonlinear_arith)
        requires
            n == x.units() * pow2(149),
            x.units() <= pow2(277),
            pow2(277) * pow2(149) == top * top,
    ;
    lemma_root_mag_order(n, top * top, 1);
    lemma_root_of_square(top, 1);
    rounding_is_exact(power_mag(64), 1);
    assert(mag_units(power_mag(64)) * 1 == top);
}

/// A square root lies between the roundings of its integer part and of the next integer,
/// in units of `2^-149`.
proof fn lemma_root_bracket(x: Binary32) -> (t: nat)
    requires
        x.finite(),
        x > b32(ZERO),
    ensures
        t * t <= x.value() * pow2(149),
        x.value() * pow2(149) < (t + 1) * (t + 1),
        unbounded_mag(t, 1) <= sqrt_of(x).mag() <= unbounded_mag(t + 1, 1),
        !sqrt_of(x).negative(),
        sqrt_of(x).finite(),
{
    reveal(sqrt_of);
    let n = x.units() * pow2(149);
    let t = floor_root(n);
    lemma_floor_root_exists(n);
    square_root_is_finite(x);
    lemma_root_mag_order(t * t, n, 1);
    lemma_root_mag_order(n, (t + 1) * (t + 1), 1);
    lemma_root_of_square(t, 1);
    lemma_root_of_square(t + 1, 1);
    t
}

/// The integer part of a root and the rounded root differ by at most half a spacing, and
/// one unit.
proof fn lemma_root_distance(t: nat, mag: nat)
    requires
        unbounded_mag(t, 1) <= mag <= unbounded_mag(t + 1, 1),
        mag >= 0x80_0000,
    ensures
        2 * t <= 2 * mag_units(mag) + spacing(mag),
        2 * mag_units(mag) <= 2 * (t + 1) + spacing(mag),
{
    let low = unbounded_mag(t, 1);
    let high = unbounded_mag(t + 1, 1);
    let below = (mag - 1) as nat;
    rounding_error_is_at_most_half_own_spacing(t, 1);
    assert(mag_units(low) * 1 == mag_units(low) && spacing(low) * 1 == spacing(low));
    lemma_spacing(low, mag);
    lemma_mag_units_order(low, mag);
    lemma_spacing(below, mag);
    let h = mag_units(high);
    let b = mag_units(below);
    let m = mag_units(mag);
    assert(abs(h - (t + 1)) <= abs(b - (t + 1))) by {
        rounding_is_nearest(t + 1, 1, below);
        assert(h * 1 == h && b * 1 == b);
    }
    assert(h >= m) by {
        lemma_mag_units_order(mag, high);
    }
    assert(below + 1 == mag);
    assert(m - b == spacing(below));
    lemma_mag_units_order(below, mag);
}

/// The square of a rounded root of a normal number is the number, up to one part in `2^21`.
pub proof fn square_root_error_is_small(x: Binary32)
    requires
        x.normal(),
        x > b32(ZERO),
    ensures
        sqrt_of(x).normal(),
        sqrt_of(x) > b32(ZERO),
        0x20_0000 * abs(
            sqrt_of(x).value() * sqrt_of(x).value() - x.value() * pow2(149),
        ) <= sqrt_of(x).value() * sqrt_of(x).value(),
{
    let t = lemma_root_bracket(x);
    let root = sqrt_of(x);
    let n = x.value() * pow2(149);
    lemma2_to64();
    lemma_mag_units_at(0, 0x80_0000);
    lemma_mag_units_at(1, 0x80_0000);
    lemma_mag_units_order(0x80_0000, x.mag());
    lemma_pow2_adds(24, 24);
    lemma_pow2_adds(48, 101);
    lemma_pow2_pos(101);
    assert(pow2(48) == 0x1_0000_0000_0000);
    assert(n >= 0x1_0000_0000_0000) by (nonlinear_arith)
        requires
            n == x.value() * (0x1_0000_0000_0000 * pow2(101)),
            x.value() >= 1,
            pow2(101) >= 1,
    ;
    if t < 0x100_0000 {
        assert((t + 1) * (t + 1) <= 0x1_0000_0000_0000) by (nonlinear_arith)
            requires
                t < 0x100_0000,
        ;
    }
    rounding_is_exact(0x100_0000, 1);
    assert(mag_units(0x100_0000) == 0x100_0000);
    rounding_is_monotone(0x100_0000, 1, t, 1);
    lemma_root_distance(t, root.mag());
    lemma_relative_spacing(root.mag());
    lemma_mag_units_order(0x100_0000, root.mag());
    let r = root.value();
    assert(0x100_0000 * (t + 1) <= 0x100_0002 * r);
    assert(0xff_fffe * r <= 0x100_0000 * t);
    assert(0x1_0000_0000_0000 * ((t + 1) * (t + 1)) <= 0x1_0000_0400_0004 * (r * r))
        by (nonlinear_arith)
        requires
            0x100_0000 * (t + 1) <= 0x100_0002 * r,
            t >= 0,
    ;
    assert(0xffff_fc00_0004 * (r * r) <= 0x1_0000_0000_0000 * (t * t)) by (nonlinear_arith)
        requires
            0xff_fffe * r <= 0x100_0000 * t,
            r >= 0,
    ;
    assert(r * r >= 0) by (nonlinear_arith);
    lemma_square_distance(r * r, n, t * t, (t + 1) * (t + 1));
}

/// A number between two squares, both near a third one.
proof fn lemma_square_distance(square: int, n: int, low: nat, high: nat)
    requires
        square >= 0,
        low <= n < high,
        0x1_0000_0000_0000 * high <= 0x1_0000_0400_0004 * square,
        0xffff_fc00_0004 * square <= 0x1_0000_0000_0000 * low,
    ensures
        0x20_0000 * abs(square - n) <= square,
{
}

} // verus!
