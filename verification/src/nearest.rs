//! What rounding guarantees: the nearest magnitude, in order, and exactly where possible.
use vstd::prelude::*;
use crate::rounding::lemma_unbounded_mag_at;
use crate::rounding::lemma_unbounded_mag_scale;
use crate::rounding::mag_units;
use crate::rounding::round_half_even;
use crate::rounding::unbounded_mag;
use vstd::arithmetic::div_mod::lemma_fundamental_div_mod;
use vstd::arithmetic::power2::lemma2_to64;
use vstd::arithmetic::power2::lemma_pow2_pos;
use vstd::arithmetic::power2::lemma_pow2_strictly_increases;
use vstd::arithmetic::power2::lemma_pow2_unfold;
use vstd::arithmetic::power2::pow2;
use vstd::math::abs;

verus! {

/// The size of significand `s` in binade `k`; the full significand `2^24` is the first
/// magnitude of the next binade.
pub proof fn lemma_mag_units_at(k: nat, s: nat)
    requires
        s <= 0x100_0000,
        k > 0 ==> s >= 0x80_0000,
    ensures
        mag_units(0x80_0000 * k + s) == s * pow2(k),
{
    let mag = 0x80_0000 * k + s;
    lemma2_to64();
    if s < 0x80_0000 {
        assert(k == 0);
        assert(s * pow2(0) == s);
    } else if s < 0x100_0000 {
        assert(mag / 0x80_0000 == k + 1);
        assert(mag % 0x80_0000 == s - 0x80_0000);
    } else {
        assert(mag / 0x80_0000 == k + 2);
        assert(mag % 0x80_0000 == 0);
        lemma_pow2_unfold(k + 1);
        assert(s * pow2(k) == 0x80_0000 * pow2(k + 1)) by (nonlinear_arith)
            requires
                s == 0x100_0000,
                pow2(k + 1) == 2 * pow2(k),
        ;
    }
}

/// The next magnitude is strictly larger.
pub proof fn lemma_mag_units_step(mag: nat)
    ensures
        mag_units(mag) < mag_units(mag + 1),
{
    let e = mag / 0x80_0000;
    let f = mag % 0x80_0000;
    if e == 0 {
        lemma2_to64();
        lemma_mag_units_at(0, mag);
        lemma_mag_units_at(0, mag + 1);
        assert(mag * pow2(0) == mag);
        assert((mag + 1) * pow2(0) == mag + 1);
    } else {
        let k = (e - 1) as nat;
        let s = 0x80_0000 + f;
        lemma_pow2_pos(k);
        lemma_mag_units_at(k, s);
        lemma_mag_units_at(k, s + 1);
        assert(s * pow2(k) < (s + 1) * pow2(k)) by (nonlinear_arith)
            requires
                pow2(k) > 0,
        ;
    }
}

/// The encoding order of magnitudes is the order of their sizes.
pub proof fn lemma_mag_units_order(a: nat, b: nat)
    ensures
        a < b <==> mag_units(a) < mag_units(b),
        a == b <==> mag_units(a) == mag_units(b),
{
    if a < b {
        lemma_mag_units_increasing(a, b);
    } else if b < a {
        lemma_mag_units_increasing(b, a);
    }
}

proof fn lemma_mag_units_increasing(a: nat, b: nat)
    requires
        a < b,
    ensures
        mag_units(a) < mag_units(b),
    decreases b - a,
{
    lemma_mag_units_step((b - 1) as nat);
    if a < b - 1 {
        lemma_mag_units_increasing(a, (b - 1) as nat);
    }
}

/// The binade in which `num / den` is rounded.
proof fn lemma_binade(num: nat, den: nat) -> (k: nat)
    requires
        den > 0,
    ensures
        k > 0 ==> num >= 0x80_0000 * (den * pow2(k)),
        num < 0x100_0000 * (den * pow2(k)),
    decreases
        (if num < 0x100_0000 * den {
            0
        } else {
            num - 0x100_0000 * den + 1
        }),
{
    lemma2_to64();
    if num < 0x100_0000 * den {
        assert(den * pow2(0) == den);
        0
    } else {
        let j = lemma_binade(num, 2 * den);
        lemma_pow2_unfold(j + 1);
        lemma_pow2_pos(j);
        assert((2 * den) * pow2(j) == den * pow2(j + 1)) by (nonlinear_arith)
            requires
                pow2(j + 1) == 2 * pow2(j),
        ;
        if j == 0 {
            assert(den * pow2(1) == 2 * den);
        }
        j + 1
    }
}

/// Where `num / den` rounds to, in full: significand `s` of binade `k` with spacing `d`,
/// and the neighbours of the rounded magnitude on the side of `num / den`.
proof fn lemma_rounding_cell(num: nat, den: nat)
    requires
        den > 0,
    ensures
        ({
            let mag = unbounded_mag(num, den);
            &&& mag_units(mag) * den <= num ==> 2 * (num - mag_units(mag) * den) <= (mag_units(
                mag + 1,
            ) - mag_units(mag)) * den
            &&& mag_units(mag) * den > num ==> mag > 0 && 2 * (mag_units(mag) * den - num) <= (
            mag_units(mag) - mag_units((mag - 1) as nat)) * den
        }),
{
    let mag = unbounded_mag(num, den);
    let k = lemma_binade(num, den);
    let d = den * pow2(k);
    lemma_pow2_pos(k);
    assert(d > 0) by (nonlinear_arith)
        requires
            d == den * pow2(k),
            den > 0,
            pow2(k) > 0,
    ;
    lemma_unbounded_mag_at(num, den, k);
    let f = num / d;
    let r = num % d;
    let s = round_half_even(num, d);
    lemma_fundamental_div_mod(num as int, d as int);
    assert(f < 0x100_0000) by (nonlinear_arith)
        requires
            num < 0x100_0000 * d,
            num == d * f + r,
            r >= 0,
            d > 0,
    ;
    if k > 0 {
        assert(f >= 0x80_0000) by (nonlinear_arith)
            requires
                num >= 0x80_0000 * d,
                num == d * f + r,
                r < d,
                d > 0,
        ;
    }
    lemma_mag_units_at(k, f);
    lemma_mag_units_at(k, f + 1);
    assert((f * pow2(k)) * den == d * f) by (nonlinear_arith)
        requires
            d == den * pow2(k),
    ;
    assert(((f + 1) * pow2(k)) * den == d * f + d) by (nonlinear_arith)
        requires
            d == den * pow2(k),
    ;
    assert(((f + 1) * pow2(k) - f * pow2(k)) * den == ((f + 1) * pow2(k)) * den - (f * pow2(k))
        * den) by (nonlinear_arith);
    if s == f {
        assert(mag_units(mag) == f * pow2(k));
    } else {
        assert(mag_units(mag) == (f + 1) * pow2(k));
        assert(mag - 1 == 0x80_0000 * k + f);
    }
}

/// Rounding to nearest: no magnitude is closer to `num / den` than the rounded one.
pub proof fn rounding_is_nearest(num: nat, den: nat, other: nat)
    requires
        den > 0,
    ensures
        abs(mag_units(unbounded_mag(num, den)) * den - num) <= abs(mag_units(other) * den - num),
{
    let mag = unbounded_mag(num, den);
    let u = mag_units(mag);
    lemma_rounding_cell(num, den);
    if u * den <= num {
        if other <= mag {
            lemma_mag_units_order(other, mag);
            assert(mag_units(other) * den <= u * den) by (nonlinear_arith)
                requires
                    mag_units(other) <= u,
            ;
        } else {
            let v = mag_units(mag + 1);
            lemma_mag_units_order(mag + 1, other);
            assert(mag_units(other) * den >= v * den) by (nonlinear_arith)
                requires
                    mag_units(other) >= v,
            ;
            assert((v - u) * den == v * den - u * den) by (nonlinear_arith);
        }
    } else {
        if other >= mag {
            lemma_mag_units_order(mag, other);
            assert(mag_units(other) * den >= u * den) by (nonlinear_arith)
                requires
                    mag_units(other) >= u,
            ;
        } else {
            let v = mag_units((mag - 1) as nat);
            lemma_mag_units_order(other, (mag - 1) as nat);
            assert(mag_units(other) * den <= v * den) by (nonlinear_arith)
                requires
                    mag_units(other) <= v,
            ;
            assert((u - v) * den == u * den - v * den) by (nonlinear_arith);
        }
    }
}

/// Rounding keeps order: a larger quotient never rounds to a smaller magnitude.
pub proof fn rounding_is_monotone(n1: nat, d1: nat, n2: nat, d2: nat)
    requires
        d1 > 0,
        d2 > 0,
        n1 * d2 <= n2 * d1,
    ensures
        unbounded_mag(n1, d1) <= unbounded_mag(n2, d2),
{
    let d = d1 * d2;
    let a = d2 * n1;
    let b = d1 * n2;
    assert(d > 0) by (nonlinear_arith)
        requires
            d == d1 * d2,
            d1 > 0,
            d2 > 0,
    ;
    assert(a == n1 * d2 && b == n2 * d1 && d2 * d1 == d) by (nonlinear_arith)
        requires
            a == d2 * n1,
            b == d1 * n2,
            d == d1 * d2,
    ;
    lemma_unbounded_mag_scale(n1, d1, d2);
    lemma_unbounded_mag_scale(n2, d2, d1);
    let r1 = unbounded_mag(a, d);
    let r2 = unbounded_mag(b, d);
    if r1 > r2 {
        lemma_mag_units_order(r2, r1);
        let u1 = mag_units(r1) * d;
        let u2 = mag_units(r2) * d;
        assert(u2 < u1) by (nonlinear_arith)
            requires
                u1 == mag_units(r1) * d,
                u2 == mag_units(r2) * d,
                mag_units(r2) < mag_units(r1),
                d > 0,
        ;
        rounding_is_nearest(a, d, r2);
        rounding_is_nearest(b, d, r1);
        assert(a == b);
    }
}

/// A representable quotient is not changed by rounding.
pub proof fn rounding_is_exact(mag: nat, den: nat)
    requires
        den > 0,
    ensures
        unbounded_mag(mag_units(mag) * den, den) == mag,
{
    let num = mag_units(mag) * den;
    let r = unbounded_mag(num, den);
    rounding_is_nearest(num, den, mag);
    assert(mag_units(r) == mag_units(mag)) by (nonlinear_arith)
        requires
            mag_units(r) * den == mag_units(mag) * den,
            den > 0,
    ;
    lemma_mag_units_order(r, mag);
}

/// The distance from a magnitude to the next.
pub open spec fn spacing(mag: nat) -> nat {
    pow2(
        if mag < 0x80_0000 {
            0
        } else {
            (mag / 0x80_0000 - 1) as nat
        },
    )
}

/// The spacing is what its name says, and never shrinks.
pub proof fn lemma_spacing(a: nat, b: nat)
    requires
        a <= b,
    ensures
        mag_units(a + 1) - mag_units(a) == spacing(a),
        spacing(a) <= spacing(b),
{
    let e = a / 0x80_0000;
    if e == 0 {
        lemma_mag_units_at(0, a);
        lemma_mag_units_at(0, a + 1);
        assert((a + 1) * pow2(0) - a * pow2(0) == pow2(0)) by (nonlinear_arith);
    } else {
        let k = (e - 1) as nat;
        let s = 0x80_0000 + a % 0x80_0000;
        lemma_mag_units_at(k, s);
        lemma_mag_units_at(k, s + 1);
        assert((s + 1) * pow2(k) - s * pow2(k) == pow2(k)) by (nonlinear_arith);
    }
    let ka = if a < 0x80_0000 {
        0
    } else {
        (a / 0x80_0000 - 1) as nat
    };
    let kb = if b < 0x80_0000 {
        0
    } else {
        (b / 0x80_0000 - 1) as nat
    };
    if ka < kb {
        lemma_pow2_strictly_increases(ka, kb);
    }
}

/// From the first normal magnitude on, the spacing is a small part of the magnitude.
pub proof fn lemma_relative_spacing(mag: nat)
    requires
        mag >= 0x80_0000,
    ensures
        0x80_0000 * spacing(mag) <= mag_units(mag),
        spacing(mag) > 0,
{
    let k = (mag / 0x80_0000 - 1) as nat;
    let s = 0x80_0000 + mag % 0x80_0000;
    lemma_mag_units_at(k, s);
    lemma_pow2_pos(k);
    assert(0x80_0000 * pow2(k) <= s * pow2(k)) by (nonlinear_arith)
        requires
            s >= 0x80_0000,
    ;
}

/// Rounding a quotient of size up to some magnitude is off by at most half the spacing
/// there.
pub proof fn rounding_error_is_at_most_half_spacing(num: nat, den: nat, mag: nat)
    requires
        den > 0,
        num <= mag_units(mag) * den,
    ensures
        2 * abs(mag_units(unbounded_mag(num, den)) * den - num) <= spacing(mag) * den,
        unbounded_mag(num, den) <= mag,
{
    let m = unbounded_mag(num, den);
    let u = mag_units(m);
    lemma_rounding_cell(num, den);
    rounding_is_exact(mag, den);
    assert(num * den <= (mag_units(mag) * den) * den) by (nonlinear_arith)
        requires
            num <= mag_units(mag) * den,
    ;
    rounding_is_monotone(num, den, mag_units(mag) * den, den);
    lemma_spacing(mag, mag);
    lemma_pow2_pos(
        if mag < 0x80_0000 {
            0
        } else {
            (mag / 0x80_0000 - 1) as nat
        },
    );
    if u * den <= num {
        if m < mag {
            lemma_spacing(m, mag);
            assert(spacing(m) * den <= spacing(mag) * den) by (nonlinear_arith)
                requires
                    spacing(m) <= spacing(mag),
            ;
        } else {
            assert(spacing(mag) * den >= 0) by (nonlinear_arith);
        }
    } else {
        let below = (m - 1) as nat;
        lemma_spacing(below, mag);
        assert(spacing(below) * den <= spacing(mag) * den) by (nonlinear_arith)
            requires
                spacing(below) <= spacing(mag),
        ;
    }
}

/// Rounding a quotient is off by at most half the spacing at the result.
pub proof fn rounding_error_is_at_most_half_own_spacing(num: nat, den: nat)
    requires
        den > 0,
    ensures
        ({
            let mag = unbounded_mag(num, den);
            2 * abs(mag_units(mag) * den - num) <= spacing(mag) * den
        }),
{
    let m = unbounded_mag(num, den);
    lemma_rounding_cell(num, den);
    lemma_spacing(m, m);
    if mag_units(m) * den > num {
        let below = (m - 1) as nat;
        lemma_spacing(below, m);
        assert(spacing(below) * den <= spacing(m) * den) by (nonlinear_arith)
            requires
                spacing(below) <= spacing(m),
        ;
    }
}

} // verus!
