//! Rounding of exact rationals to binary32 magnitudes.
//!
//! Every finite binary32 number is a whole multiple of `2^-149`. The exact result of an
//! operation, measured in that unit, is a non-negative rational `num / den`; this module
//! says which magnitude (the low 31 bits of an encoding) represents it best, and computes
//! that magnitude.
use vstd::prelude::*;
use vstd::arithmetic::div_mod::lemma_fundamental_div_mod;
use vstd::arithmetic::div_mod::lemma_fundamental_div_mod_converse;
use vstd::arithmetic::power2::lemma2_to64;
use vstd::arithmetic::power2::lemma2_to64_rest;
use vstd::arithmetic::power2::lemma_pow2_adds;
use vstd::arithmetic::power2::lemma_pow2_pos;
use vstd::arithmetic::power2::lemma_pow2_strictly_increases;
use vstd::arithmetic::power2::lemma_pow2_unfold;
use vstd::arithmetic::power2::pow2;

verus! {

/// Encoding of infinity: the largest magnitude that is not a NaN.
pub const INF_MAG: u32 = 0x7f80_0000;

/// The value of a finite magnitude in units of `2^-149`.
pub open spec fn mag_units(mag: nat) -> nat {
    if mag / 0x80_0000 == 0 {
        mag
    } else {
        (0x80_0000 + mag % 0x80_0000) * pow2((mag / 0x80_0000 - 1) as nat)
    }
}

/// `num / den` rounded to the nearest integer, a tie going to the even neighbour.
pub open spec fn round_half_even(num: nat, den: nat) -> nat
    recommends
        den > 0,
{
    let floor = num / den;
    let twice_rest = 2 * (num % den);
    if twice_rest < den || (twice_rest == den && floor % 2 == 0) {
        floor
    } else {
        floor + 1
    }
}

/// The magnitude of `num / den` without the overflow cut: below `2^24` the quotient is
/// rounded to an integer; above it, each doubling of the spacing moves the encoding up by
/// one binade of `2^23` magnitudes.
pub open spec fn unbounded_mag(num: nat, den: nat) -> nat
    recommends
        den > 0,
    decreases
        (if num < 0x100_0000 * den {
            0
        } else {
            num - 0x100_0000 * den + 1
        }),
{
    if den == 0 || num < 0x100_0000 * den {
        round_half_even(num, den)
    } else {
        0x80_0000 + unbounded_mag(num, 2 * den)
    }
}

/// The binary32 magnitude nearest to `num / den`, ties to even, overflowing to infinity.
pub open spec fn rounded_mag(num: nat, den: nat) -> nat {
    if unbounded_mag(num, den) < INF_MAG {
        unbounded_mag(num, den)
    } else {
        INF_MAG as nat
    }
}

/// Numerator of `m * 2^e`.
pub open spec fn scaled_num(m: nat, e: int) -> nat {
    if e >= 0 {
        m * pow2(e as nat)
    } else {
        m
    }
}

/// Denominator of `m * 2^e`.
pub open spec fn scaled_den(e: int) -> nat {
    if e >= 0 {
        1
    } else {
        pow2((-e) as nat)
    }
}

pub proof fn lemma_div_mod_unique(num: nat, den: nat, q: nat, r: nat)
    requires
        num == q * den + r,
        r < den,
    ensures
        num / den == q,
        num % den == r,
{
    lemma_fundamental_div_mod_converse(num as int, den as int, q as int, r as int);
}

/// Reducing a fraction does not change where it rounds.
pub proof fn lemma_round_half_even_scale(num: nat, den: nat, c: nat)
    requires
        den > 0,
        c > 0,
    ensures
        round_half_even(c * num, c * den) == round_half_even(num, den),
{
    let q = num / den;
    let r = num % den;
    lemma_fundamental_div_mod(num as int, den as int);
    assert(c * num == q * (c * den) + c * r) by (nonlinear_arith)
        requires
            num == den * q + r,
    ;
    assert(c * r < c * den) by (nonlinear_arith)
        requires
            r < den,
            c > 0,
    ;
    lemma_div_mod_unique(c * num, c * den, q, c * r);
    assert(2 * (c * r) < c * den <==> 2 * r < den) by (nonlinear_arith)
        requires
            c > 0,
    ;
    assert(2 * (c * r) == c * den <==> 2 * r == den) by (nonlinear_arith)
        requires
            c > 0,
    ;
}

pub proof fn lemma_unbounded_mag_scale(num: nat, den: nat, c: nat)
    requires
        den > 0,
        c > 0,
    ensures
        unbounded_mag(c * num, c * den) == unbounded_mag(num, den),
    decreases
        (if num < 0x100_0000 * den {
            0
        } else {
            num - 0x100_0000 * den + 1
        }),
{
    assert(c * den > 0) by (nonlinear_arith)
        requires
            c > 0,
            den > 0,
    ;
    assert(c * num < 0x100_0000 * (c * den) <==> num < 0x100_0000 * den) by (nonlinear_arith)
        requires
            c > 0,
    ;
    if num < 0x100_0000 * den {
        lemma_round_half_even_scale(num, den, c);
    } else {
        lemma_unbounded_mag_scale(num, 2 * den, c);
        assert(c * (2 * den) == 2 * (c * den)) by (nonlinear_arith);
    }
}

/// Closed form of `unbounded_mag` once the binade `k` is known.
pub proof fn lemma_unbounded_mag_at(num: nat, den: nat, k: nat)
    requires
        den > 0,
        k > 0 ==> num >= 0x80_0000 * (den * pow2(k)),
        num < 0x100_0000 * (den * pow2(k)),
    ensures
        unbounded_mag(num, den) == 0x80_0000 * k + round_half_even(num, den * pow2(k)),
    decreases k,
{
    if k == 0 {
        lemma2_to64();
        assert(den * pow2(0) == den);
    } else {
        let j = (k - 1) as nat;
        lemma_pow2_unfold(k);
        lemma_pow2_pos(j);
        assert(den * pow2(k) == (2 * den) * pow2(j)) by (nonlinear_arith)
            requires
                pow2(k) == 2 * pow2(j),
        ;
        assert(den * pow2(k) == 2 * (den * pow2(j))) by (nonlinear_arith)
            requires
                pow2(k) == 2 * pow2(j),
        ;
        assert(den * pow2(j) >= den) by (nonlinear_arith)
            requires
                pow2(j) > 0,
                den > 0,
        ;
        lemma_unbounded_mag_at(num, 2 * den, j);
    }
}

/// The number of binary digits of a positive integer.
pub fn bit_length(m: u64) -> (len: u32)
    requires
        m > 0,
    ensures
        1 <= len <= 64,
        pow2((len - 1) as nat) <= m < pow2(len as nat),
{
    proof {
        lemma2_to64();
    }
    let mut len: u32 = 1;
    let mut rest: u64 = m / 2;
    while rest > 0
        invariant
            1 <= len <= 64,
            rest * pow2(len as nat) <= m < (rest + 1) * pow2(len as nat),
            pow2((len - 1) as nat) <= m,
        decreases rest,
    {
        proof {
            lemma2_to64_rest();
            lemma_pow2_pos(len as nat);
            assert(pow2(len as nat) <= m) by (nonlinear_arith)
                requires
                    rest * pow2(len as nat) <= m,
                    rest >= 1,
                    pow2(len as nat) > 0,
            ;
            if len == 64 {
                assert(false);
            }
            let half = rest / 2;
            lemma_pow2_unfold((len + 1) as nat);
            assert(half * (2 * pow2(len as nat)) <= rest * pow2(len as nat)) by (nonlinear_arith)
                requires
                    2 * half <= rest,
                    pow2(len as nat) > 0,
            ;
            assert((rest + 1) * pow2(len as nat) <= (half + 1) * (2 * pow2(len as nat)))
                by (nonlinear_arith)
                requires
                    rest + 1 <= 2 * (half + 1),
                    pow2(len as nat) > 0,
            ;
        }
        rest = rest / 2;
        len = len + 1;
    }
    assert((rest + 1) * pow2(len as nat) == pow2(len as nat)) by (nonlinear_arith)
        requires
            rest == 0,
    ;
    len
}

/// `2^s` as a machine word.
pub fn power_of_two(s: u32) -> (p: u64)
    requires
        s < 64,
    ensures
        p == pow2(s as nat),
{
    let mut p: u64 = 1;
    let mut i: u32 = 0;
    proof {
        lemma2_to64();
    }
    while i < s
        invariant
            i <= s < 64,
            p == pow2(i as nat),
        decreases s - i,
    {
        proof {
            lemma_pow2_unfold((i + 1) as nat);
            lemma2_to64_rest();
            if i + 1 < 63 {
                lemma_pow2_strictly_increases((i + 1) as nat, 63);
            }
        }
        p = 2 * p;
        i = i + 1;
    }
    p
}

/// The fraction `m * 2^e`, divided by the spacing `2^k`, rounds like `m / 2^(k - e)`.
proof fn lemma_scaled_round(m: nat, e: int, k: nat)
    requires
        k >= e,
    ensures
        round_half_even(scaled_num(m, e), scaled_den(e) * pow2(k)) == round_half_even(
            m,
            pow2((k - e) as nat),
        ),
{
    let s = (k - e) as nat;
    lemma_pow2_pos(s);
    if e >= 0 {
        lemma_pow2_pos(e as nat);
        lemma_pow2_adds(e as nat, s);
        lemma_round_half_even_scale(m, pow2(s), pow2(e as nat));
        assert(pow2(e as nat) * m == m * pow2(e as nat)) by (nonlinear_arith);
        assert(1 * pow2(k) == pow2(k));
    } else {
        lemma_pow2_adds((-e) as nat, k);
    }
}

/// The quotient of `m * 2^e` by the spacing `2^k` is that of `m` by `2^(k - e)`.
proof fn lemma_scaled_floor(m: nat, e: int, k: nat)
    requires
        k >= e,
    ensures
        scaled_num(m, e) / (scaled_den(e) * pow2(k)) == m / pow2((k - e) as nat),
{
    let s = (k - e) as nat;
    lemma_pow2_pos(s);
    lemma_pow2_pos(k);
    if e >= 0 {
        let c = pow2(e as nat);
        lemma_pow2_pos(e as nat);
        lemma_pow2_adds(e as nat, s);
        assert(1 * pow2(k) == pow2(k));
        let q = m / pow2(s);
        let r = m % pow2(s);
        lemma_fundamental_div_mod(m as int, pow2(s) as int);
        assert(m * c == q * (c * pow2(s)) + c * r) by (nonlinear_arith)
            requires
                m == pow2(s) * q + r,
        ;
        assert(c * r < c * pow2(s)) by (nonlinear_arith)
            requires
                r < pow2(s),
                c > 0,
        ;
        lemma_div_mod_unique(m * c, c * pow2(s), q, c * r);
    } else {
        lemma_pow2_adds((-e) as nat, k);
    }
}

/// A number of `len` digits scaled by `2^e` lies in the binade `[2^(len-1+e), 2^(len+e))`.
proof fn lemma_scaled_binade(m: nat, e: int, len: nat, k: nat)
    requires
        len >= 1,
        pow2((len - 1) as nat) <= m < pow2(len),
        k == 0 || k == len + e - 24,
        k >= len + e - 24,
    ensures
        k > 0 ==> scaled_num(m, e) >= 0x80_0000 * (scaled_den(e) * pow2(k)),
        scaled_num(m, e) < 0x100_0000 * (scaled_den(e) * pow2(k)),
        scaled_den(e) > 0,
{
    lemma2_to64();
    lemma2_to64_rest();
    if e >= 0 {
        lemma_pow2_pos(e as nat);
        assert(1 * pow2(k) == pow2(k));
        lemma_pow2_adds(24, k);
        lemma_pow2_adds(len, e as nat);
        assert(m * pow2(e as nat) < pow2(len) * pow2(e as nat)) by (nonlinear_arith)
            requires
                m < pow2(len),
                pow2(e as nat) > 0,
        ;
        if len + e < 24 + k {
            lemma_pow2_strictly_increases((len + e) as nat, 24 + k);
        }
        if k > 0 {
            lemma_pow2_adds((len - 1) as nat, e as nat);
            lemma_pow2_adds(23, k);
            assert(m * pow2(e as nat) >= pow2((len - 1) as nat) * pow2(e as nat))
                by (nonlinear_arith)
                requires
                    m >= pow2((len - 1) as nat),
                    pow2(e as nat) > 0,
            ;
        }
    } else {
        let d = (-e) as nat;
        lemma_pow2_pos(d);
        lemma_pow2_adds(d, k);
        lemma_pow2_adds(24, d + k);
        if len < 24 + d + k {
            lemma_pow2_strictly_increases(len, 24 + d + k);
        }
        if k > 0 {
            lemma_pow2_adds(23, d + k);
        }
    }
}

/// The magnitude nearest to `m * 2^e`.
pub fn round_scaled(m: u64, e: i32) -> (mag: u32)
    requires
        -1000 <= e <= 1000,
    ensures
        mag == rounded_mag(scaled_num(m as nat, e as int), scaled_den(e as int)),
        mag <= INF_MAG,
{
    proof {
        lemma2_to64();
        lemma2_to64_rest();
    }
    if m == 0 {
        proof {
            let den = scaled_den(e as int);
            if e < 0 {
                lemma_pow2_pos((-e) as nat);
            }
            assert(0 * pow2(e as nat) == 0);
            lemma_div_mod_unique(0, den, 0, 0);
        }
        return 0;
    }
    let len: u32 = bit_length(m);
    let top: i32 = len as i32 + e - 24;
    let k: i32 = if top > 0 {
        top
    } else {
        0
    };
    let s: i32 = k - e;
    let ghost num = scaled_num(m as nat, e as int);
    let ghost den = scaled_den(e as int);
    proof {
        lemma_scaled_binade(m as nat, e as int, len as nat, k as nat);
        lemma_unbounded_mag_at(num, den, k as nat);
    }
    if k > 253 {
        proof {
            let d = den * pow2(k as nat);
            lemma_pow2_pos(k as nat);
            assert(d > 0) by (nonlinear_arith)
                requires
                    d == den * pow2(k as nat),
                    den > 0,
                    pow2(k as nat) > 0,
            ;
            lemma_fundamental_div_mod(num as int, d as int);
            assert(num / d >= 0x80_0000) by (nonlinear_arith)
                requires
                    num >= 0x80_0000 * d,
                    num == d * (num / d) + num % d,
                    num % d < d,
                    d > 0,
            ;
        }
        return INF_MAG;
    }
    let ghost unit = pow2(s as nat);
    let significand: u32 = if s <= 0 {
        proof {
            let z = (e - k) as nat;
            lemma_pow2_adds(k as nat, z);
            lemma_pow2_pos(k as nat);
            lemma_pow2_pos(z);
            assert(1 * pow2(k as nat) == pow2(k as nat));
            assert(m * pow2(e as nat) == (m * pow2(z)) * pow2(k as nat) + 0) by (nonlinear_arith)
                requires
                    pow2(e as nat) == pow2(k as nat) * pow2(z),
            ;
            lemma_div_mod_unique(num, pow2(k as nat), (m * pow2(z)) as nat, 0);
            assert(m * pow2(z) < 0x100_0000) by (nonlinear_arith)
                requires
                    (m * pow2(z)) * pow2(k as nat) < 0x100_0000 * pow2(k as nat),
                    pow2(k as nat) > 0,
            ;
            assert(pow2(z) < 0x100_0000) by (nonlinear_arith)
                requires
                    m * pow2(z) < 0x100_0000,
                    m >= 1,
            ;
            if z >= 24 {
                if z > 24 {
                    lemma_pow2_strictly_increases(24, z);
                }
                assert(false);
            }
        }
        (m * power_of_two((e - k) as u32)) as u32
    } else {
        proof {
            lemma_scaled_round(m as nat, e as int, k as nat);
            lemma_pow2_pos(s as nat);
        }
        if s > len as i32 {
            proof {
                lemma_pow2_unfold(s as nat);
                if s - 1 > len {
                    lemma_pow2_strictly_increases(len as nat, (s - 1) as nat);
                }
                lemma_div_mod_unique(m as nat, unit, 0, m as nat);
            }
            0
        } else if s == 64 {
            proof {
                lemma_div_mod_unique(m as nat, unit, 0, m as nat);
                assert(pow2(64) == 0x1_0000_0000_0000_0000);
            }
            if m <= 0x8000_0000_0000_0000 {
                0
            } else {
                1
            }
        } else {
            let p: u64 = power_of_two(s as u32);
            let floor: u64 = m / p;
            let rest: u64 = m % p;
            proof {
                lemma_fundamental_div_mod(m as int, p as int);
                let d = den * pow2(k as nat);
                lemma_pow2_pos(k as nat);
                assert(d > 0) by (nonlinear_arith)
                    requires
                        d == den * pow2(k as nat),
                        den > 0,
                        pow2(k as nat) > 0,
                ;
                lemma_scaled_floor(m as nat, e as int, k as nat);
                lemma_fundamental_div_mod(num as int, d as int);
                assert(num / d < 0x100_0000) by (nonlinear_arith)
                    requires
                        num < 0x100_0000 * d,
                        num == d * (num / d) + num % d,
                        num % d >= 0,
                        d > 0,
                ;
            }
            let up: bool = rest > p - rest || (rest == p - rest && floor % 2 == 1);
            if up {
                (floor + 1) as u32
            } else {
                floor as u32
            }
        }
    };
    assert(significand == round_half_even(num, den * pow2(k as nat)));
    k as u32 * 0x80_0000 + significand
}

/// Doubling `a` from `b * 2^j` down to `2 * b < a` leaves `a` an even multiple of `b`.
pub proof fn lemma_even_multiple(d: nat, u: nat, i: nat, j: nat) -> (v: nat)
    requires
        u > 0,
        d > 2 * u,
        d * pow2(i) == u * pow2(j),
    ensures
        d == u * (2 * v),
        v > 0,
{
    lemma_pow2_pos(i);
    lemma_pow2_pos(j);
    lemma2_to64();
    if j <= i + 1 {
        if j < i + 1 {
            lemma_pow2_strictly_increases(j, i + 1);
        }
        lemma_pow2_unfold(i + 1);
        assert(d * pow2(i) > u * pow2(j)) by (nonlinear_arith)
            requires
                d > 2 * u,
                pow2(j) <= 2 * pow2(i),
                pow2(i) > 0,
                u > 0,
        ;
        assert(false);
    }
    let v = pow2((j - i - 1) as nat);
    lemma_pow2_pos((j - i - 1) as nat);
    lemma_pow2_unfold((j - i) as nat);
    lemma_pow2_adds(i, (j - i) as nat);
    assert(d == u * (2 * v)) by (nonlinear_arith)
        requires
            d * pow2(i) == u * pow2(j),
            pow2(j) == pow2(i) * (2 * v),
            pow2(i) > 0,
    ;
    v
}

/// A number strictly between `m * u` and `(m + 1) * u`, divided by an even multiple of
/// `u`: quotient and remainder, up to its fractional part.
pub proof fn lemma_quotient_between(n: nat, u: nat, m: nat, v: nat)
    requires
        u > 0,
        v > 0,
        m * u < n < (m + 1) * u,
    ensures
        n / (u * (2 * v)) == m / (2 * v),
        2 * (n % (u * (2 * v))) < u * (2 * v) <==> m % (2 * v) < v,
        2 * (n % (u * (2 * v))) != u * (2 * v),
        n < 0x100_0000 * (u * (2 * v)) <==> m < 0x100_0000 * (2 * v),
{
    let w = 2 * v;
    let q = m / w;
    let r = m % w;
    let f = (n - m * u) as nat;
    lemma_fundamental_div_mod(m as int, w as int);
    assert(0 < f < u) by (nonlinear_arith)
        requires
            m * u < n < (m + 1) * u,
            f == n - m * u,
    ;
    assert(n == q * (u * w) + (r * u + f)) by (nonlinear_arith)
        requires
            n == m * u + f,
            m == w * q + r,
    ;
    assert(r * u + f < u * w) by (nonlinear_arith)
        requires
            r + 1 <= w,
            f < u,
            u > 0,
    ;
    lemma_div_mod_unique(n, u * w, q, r * u + f);
    if r < v {
        assert(2 * (r * u + f) < u * w) by (nonlinear_arith)
            requires
                r + 1 <= v,
                f < u,
                w == 2 * v,
                u > 0,
        ;
    } else {
        assert(2 * (r * u + f) > u * w) by (nonlinear_arith)
            requires
                r >= v,
                f > 0,
                w == 2 * v,
                u > 0,
        ;
    }
    if m < 0x100_0000 * w {
        assert(n < 0x100_0000 * (u * w)) by (nonlinear_arith)
            requires
                n < (m + 1) * u,
                m + 1 <= 0x100_0000 * w,
                u > 0,
        ;
    } else {
        assert(n >= 0x100_0000 * (u * w)) by (nonlinear_arith)
            requires
                n > m * u,
                m >= 0x100_0000 * w,
                u > 0,
        ;
    }
}

/// Two numbers strictly between the same neighbouring multiples `m * u` and
/// `(m + 1) * u`, with at least 26 digits in front, round to the same magnitude.
pub proof fn lemma_unbounded_mag_between(
    n1: nat,
    n2: nat,
    d: nat,
    u: nat,
    m: nat,
    i: nat,
    j: nat,
)
    requires
        d > 0,
        u > 0,
        m >= 0x200_0000,
        m * u < n1 < (m + 1) * u,
        m * u < n2 < (m + 1) * u,
        d * pow2(i) == u * pow2(j),
    ensures
        unbounded_mag(n1, d) == unbounded_mag(n2, d),
    decreases
        (if n1 < 0x100_0000 * d {
            0
        } else {
            n1 - 0x100_0000 * d + 1
        }),
{
    lemma_pow2_unfold(j + 1);
    assert((2 * d) * pow2(i) == u * pow2(j + 1)) by (nonlinear_arith)
        requires
            d * pow2(i) == u * pow2(j),
            pow2(j + 1) == 2 * pow2(j),
    ;
    if d <= 2 * u {
        assert(m * u >= 0x100_0000 * d) by (nonlinear_arith)
            requires
                m >= 0x200_0000,
                d <= 2 * u,
        ;
        lemma_unbounded_mag_between(n1, n2, 2 * d, u, m, i, j + 1);
    } else {
        let v = lemma_even_multiple(d, u, i, j);
        lemma_quotient_between(n1, u, m, v);
        lemma_quotient_between(n2, u, m, v);
        if n1 >= 0x100_0000 * d {
            lemma_unbounded_mag_between(n1, n2, 2 * d, u, m, i, j + 1);
        }
    }
}

/// `m * 2^p / 2^q` rounds like `m * 2^(p - q)`.
pub proof fn lemma_scaled_pair(m: nat, p: nat, q: nat)
    ensures
        unbounded_mag(m * pow2(p), pow2(q)) == unbounded_mag(
            scaled_num(m, p - q),
            scaled_den(p - q),
        ),
{
    let e = p - q;
    lemma_pow2_pos(p);
    lemma_pow2_pos(q);
    if e >= 0 {
        lemma_pow2_adds(e as nat, q);
        assert(m * pow2(p) == pow2(q) * (m * pow2(e as nat))) by (nonlinear_arith)
            requires
                pow2(p) == pow2(e as nat) * pow2(q),
        ;
        assert(pow2(q) == pow2(q) * 1);
        lemma_unbounded_mag_scale(m * pow2(e as nat), 1, pow2(q));
    } else {
        let d = (-e) as nat;
        lemma_pow2_pos(d);
        lemma_pow2_adds(p, d);
        assert(m * pow2(p) == pow2(p) * m) by (nonlinear_arith);
        lemma_unbounded_mag_scale(m, pow2(d), pow2(p));
    }
}

} // verus!
