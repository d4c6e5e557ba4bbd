//! IEEE 754 binary32 numbers held as their 32-bit encodings.
//!
//! Arithmetic is done on integers, so it gives the same bits on every target, with or
//! without a floating-point unit. Each operation returns the exact result rounded to
//! nearest, ties to even; an invalid operation returns the quiet NaN `0x7fc0_0000`.
use core::cmp::Ordering;
use core::ops::Add;
use core::ops::Div;
use core::ops::Mul;
use core::ops::Neg;
use core::ops::Sub;
use vstd::prelude::*;
use crate::rounding::INF_MAG;
use crate::rounding::lemma_div_mod_unique;
use crate::rounding::lemma_scaled_pair;
use crate::rounding::lemma_unbounded_mag_between;
use crate::rounding::lemma_unbounded_mag_scale;
use crate::rounding::mag_units;
use crate::rounding::power_of_two;
use crate::rounding::round_scaled;
use crate::rounding::rounded_mag;
use vstd::arithmetic::div_mod::lemma_fundamental_div_mod;
use vstd::arithmetic::power2::lemma2_to64;
use vstd::arithmetic::power2::lemma2_to64_rest;
use vstd::arithmetic::power2::lemma_pow2_adds;
use vstd::arithmetic::power2::lemma_pow2_pos;
use vstd::arithmetic::power2::lemma_pow2_strictly_increases;
use vstd::arithmetic::power2::lemma_pow2_unfold;
use vstd::arithmetic::power2::pow2;
use vstd::math::abs;
use vstd::std_specs::cmp::PartialEqSpecImpl;
use vstd::std_specs::cmp::PartialOrdSpecImpl;
use vstd::std_specs::ops::AddSpecImpl;
use vstd::std_specs::ops::DivSpecImpl;
use vstd::std_specs::ops::MulSpecImpl;
use vstd::std_specs::ops::NegSpecImpl;
use vstd::std_specs::ops::SubSpecImpl;

verus! {

/// A binary32 number: sign in the top bit, then eight exponent and 23 fraction bits.
#[derive(Clone, Copy, Debug)]
pub struct Binary32 {
    pub bits: u32,
}

/// Encoding of the NaN that invalid operations return.
pub const QUIET_NAN: u32 = 0x7fc0_0000;

/// Encoding of `0.0`.
pub const ZERO: u32 = 0;

/// Encoding of `0.5`.
pub const HALF: u32 = 0x3f00_0000;

/// Encoding of `-0.5`.
pub const MINUS_HALF: u32 = 0xbf00_0000;

/// Encoding of `1.0`.
pub const ONE: u32 = 0x3f80_0000;

/// Encoding of `-1.0`.
pub const MINUS_ONE: u32 = 0xbf80_0000;

/// Encoding of `2.0`.
pub const TWO: u32 = 0x4000_0000;

/// Encoding of `3.0`.
pub const THREE: u32 = 0x4040_0000;

/// Encoding of the largest finite number.
pub const MAX_FINITE: u32 = 0x7f7f_ffff;

/// Encoding of infinity.
pub const INFINITY: u32 = 0x7f80_0000;

/// The number with the given encoding.
#[verifier::allow_in_spec]
pub fn b32(bits: u32) -> Binary32
    returns
        (Binary32 { bits }),
{
    Binary32 { bits }
}

/// The number of magnitude `mag` with the given sign.
pub open spec fn signed(negative: bool, mag: nat) -> Binary32 {
    if negative {
        Binary32 { bits: (0x8000_0000 + mag) as u32 }
    } else {
        Binary32 { bits: mag as u32 }
    }
}

/// A size in units of `2^-149` with a sign.
pub open spec fn signed_units(negative: bool, units: nat) -> int {
    if negative {
        -(units as int)
    } else {
        units as int
    }
}

/// The number nearest to the integer `i`.
pub open spec fn nearest_to_int(i: int) -> Binary32 {
    if i < 0 {
        signed(true, rounded_mag((-i) as nat * pow2(149), 1))
    } else {
        signed(false, rounded_mag(i as nat * pow2(149), 1))
    }
}

/// A sum of two finite numbers whose exact value is `s` units: an exact zero is negative
/// only when both terms are.
pub open spec fn rounded_sum(s: int, both_negative: bool) -> Binary32 {
    if s == 0 {
        signed(both_negative, 0)
    } else if s < 0 {
        signed(true, rounded_mag((-s) as nat, 1))
    } else {
        signed(false, rounded_mag(s as nat, 1))
    }
}

impl Binary32 {
    pub open spec fn negative(self) -> bool {
        self.bits >= 0x8000_0000
    }

    /// The encoding without its sign.
    pub open spec fn mag(self) -> nat {
        (self.bits % 0x8000_0000) as nat
    }

    pub open spec fn nan(self) -> bool {
        self.mag() > INF_MAG
    }

    pub open spec fn infinite(self) -> bool {
        self.mag() == INF_MAG
    }

    pub open spec fn finite(self) -> bool {
        self.mag() < INF_MAG
    }

    pub open spec fn zero(self) -> bool {
        self.mag() == 0
    }

    /// The size of a finite number in units of `2^-149`.
    pub open spec fn units(self) -> nat {
        mag_units(self.mag())
    }

    /// The exact value of a finite number in units of `2^-149`.
    pub open spec fn value(self) -> int {
        signed_units(self.negative(), self.units())
    }

    /// Whether a number is finite and has its full precision.
    pub open spec fn normal(self) -> bool {
        0x80_0000 <= self.mag() < INF_MAG
    }

    /// Position in the numeric order, in which both zeros coincide.
    pub open spec fn rank(self) -> int {
        if self.negative() {
            -(self.mag() as int)
        } else {
            self.mag() as int
        }
    }

    /// The number without its sign.
    pub open spec fn size(self) -> Binary32 {
        signed(false, self.mag())
    }

    /// The larger of two numbers; a NaN gives way to the other number.
    pub open spec fn larger(self, rhs: Binary32) -> Binary32 {
        if self.nan() || self < rhs {
            rhs
        } else {
            self
        }
    }

    /// The smaller of two numbers; a NaN gives way to the other number.
    pub open spec fn smaller(self, rhs: Binary32) -> Binary32 {
        if self.nan() || rhs < self {
            rhs
        } else {
            self
        }
    }

    /// The integer part of a number, cut off at the ends of the `i32` range; 0 for NaN.
    pub open spec fn saturated_int(self) -> int {
        if self.nan() {
            0
        } else if self.infinite() {
            if self.negative() {
                i32::MIN as int
            } else {
                i32::MAX as int
            }
        } else {
            let whole = (self.units() / pow2(149)) as int;
            if self.negative() {
                if whole > 0x8000_0000 {
                    i32::MIN as int
                } else {
                    -whole
                }
            } else {
                if whole > 0x7fff_ffff {
                    i32::MAX as int
                } else {
                    whole
                }
            }
        }
    }

    pub open spec fn spec_neg(self) -> Binary32 {
        signed(!self.negative(), self.mag())
    }

    #[verifier::opaque]
    pub open spec fn spec_add(self, rhs: Binary32) -> Binary32 {
        if self.nan() || rhs.nan() {
            b32(QUIET_NAN)
        } else if self.infinite() {
            if rhs.infinite() && self.negative() != rhs.negative() {
                b32(QUIET_NAN)
            } else {
                self
            }
        } else if rhs.infinite() {
            rhs
        } else {
            rounded_sum(self.value() + rhs.value(), self.negative() && rhs.negative())
        }
    }

    pub open spec fn spec_sub(self, rhs: Binary32) -> Binary32 {
        self + (-rhs)
    }

    #[verifier::opaque]
    pub open spec fn spec_mul(self, rhs: Binary32) -> Binary32 {
        let negative = self.negative() != rhs.negative();
        if self.nan() || rhs.nan() {
            b32(QUIET_NAN)
        } else if self.infinite() || rhs.infinite() {
            if self.zero() || rhs.zero() {
                b32(QUIET_NAN)
            } else {
                signed(negative, INF_MAG as nat)
            }
        } else {
            signed(negative, rounded_mag(self.units() * rhs.units(), pow2(149)))
        }
    }

    #[verifier::opaque]
    pub open spec fn spec_euclidean_or_real_div(self, rhs: Binary32) -> Binary32 {
        let negative = self.negative() != rhs.negative();
        if self.nan() || rhs.nan() {
            b32(QUIET_NAN)
        } else if self.infinite() {
            if rhs.infinite() {
                b32(QUIET_NAN)
            } else {
                signed(negative, INF_MAG as nat)
            }
        } else if rhs.infinite() {
            signed(negative, 0)
        } else if rhs.zero() {
            if self.zero() {
                b32(QUIET_NAN)
            } else {
                signed(negative, INF_MAG as nat)
            }
        } else {
            signed(negative, rounded_mag(self.units() * pow2(149), rhs.units()))
        }
    }

    pub open spec fn spec_lt(self, rhs: Binary32) -> bool {
        !self.nan() && !rhs.nan() && self.rank() < rhs.rank()
    }

    pub open spec fn spec_le(self, rhs: Binary32) -> bool {
        !self.nan() && !rhs.nan() && self.rank() <= rhs.rank()
    }

    pub open spec fn spec_gt(self, rhs: Binary32) -> bool {
        rhs < self
    }

    pub open spec fn spec_ge(self, rhs: Binary32) -> bool {
        rhs <= self
    }

    /// Numeric equality: NaN differs from everything, and the two zeros are equal.
    pub open spec fn same(self, rhs: Binary32) -> bool {
        !self.nan() && !rhs.nan() && self.rank() == rhs.rank()
    }

    /// Whether the number lies between `low` and `high`.
    pub open spec fn within(self, low: Binary32, high: Binary32) -> bool {
        low <= self && self <= high
    }

    /// The number with the given encoding.
    pub fn from_bits(bits: u32) -> (r: Binary32)
        ensures
            r.bits == bits,
    {
        Binary32 { bits }
    }

    pub fn to_bits(self) -> (bits: u32)
        ensures
            bits == self.bits,
    {
        self.bits
    }

    pub fn is_negative(self) -> (r: bool)
        ensures
            r == self.negative(),
    {
        self.bits >= 0x8000_0000
    }

    pub fn magnitude(self) -> (r: u32)
        ensures
            r == self.mag(),
    {
        self.bits % 0x8000_0000
    }

    pub fn is_nan(self) -> (r: bool)
        ensures
            r == self.nan(),
    {
        self.magnitude() > INF_MAG
    }

    pub fn is_infinite(self) -> (r: bool)
        ensures
            r == self.infinite(),
    {
        self.magnitude() == INF_MAG
    }

    pub fn is_finite(self) -> (r: bool)
        ensures
            r == self.finite(),
    {
        self.magnitude() < INF_MAG
    }

    /// Position in the numeric order.
    pub fn order(self) -> (r: i64)
        ensures
            r == self.rank(),
    {
        if self.is_negative() {
            -(self.magnitude() as i64)
        } else {
            self.magnitude() as i64
        }
    }

    /// The number of magnitude `mag` with the given sign.
    pub fn with_sign(negative: bool, mag: u32) -> (r: Binary32)
        requires
            mag < 0x8000_0000,
        ensures
            r == signed(negative, mag as nat),
    {
        if negative {
            Binary32 { bits: 0x8000_0000 + mag }
        } else {
            Binary32 { bits: mag }
        }
    }

    /// Significand and exponent of a finite number: its size is `m * 2^k` units.
    pub fn parts(self) -> (r: (u32, u32))
        requires
            self.finite(),
        ensures
            self.units() == r.0 * pow2(r.1 as nat),
            r.0 < 0x100_0000,
            r.1 <= 253,
            r.1 > 0 ==> r.0 >= 0x80_0000,
            r.0 == 0 <==> self.zero(),
    {
        let mag: u32 = self.magnitude();
        let exponent: u32 = mag / 0x80_0000;
        proof {
            lemma2_to64();
        }
        if exponent == 0 {
            assert(mag * pow2(0) == mag);
            (mag, 0)
        } else {
            (0x80_0000 + mag % 0x80_0000, exponent - 1)
        }
    }

    pub fn abs(self) -> (r: Binary32)
        ensures
            r == self.size(),
    {
        Binary32 { bits: self.bits % 0x8000_0000 }
    }

    pub fn max(self, rhs: Binary32) -> (r: Binary32)
        ensures
            r == self.larger(rhs),
    {
        if self.is_nan() || self < rhs {
            rhs
        } else {
            self
        }
    }

    pub fn min(self, rhs: Binary32) -> (r: Binary32)
        ensures
            r == self.smaller(rhs),
    {
        if self.is_nan() || rhs < self {
            rhs
        } else {
            self
        }
    }

    /// The number nearest to an integer.
    pub fn from_i32(i: i32) -> (r: Binary32)
        ensures
            r == nearest_to_int(i as int),
    {
        if i < 0 {
            Self::with_sign(true, round_scaled((-(i as i64)) as u64, 149))
        } else {
            Self::with_sign(false, round_scaled(i as u64, 149))
        }
    }

    /// The integer part, saturating; 0 for NaN.
    pub fn to_i32(self) -> (r: i32)
        ensures
            r == self.saturated_int(),
    {
        if self.is_nan() {
            return 0;
        }
        if self.is_infinite() {
            return if self.is_negative() {
                i32::MIN
            } else {
                i32::MAX
            };
        }
        let (m, k) = self.parts();
        let ghost whole = self.units() / pow2(149);
        proof {
            lemma_pow2_pos(149);
            lemma2_to64();
        }
        let w: u64 = if k >= 149 {
            let s: u32 = if k - 149 > 16 {
                16
            } else {
                k - 149
            };
            let p: u64 = power_of_two(s);
            proof {
                let t = (k - 149) as nat;
                lemma_pow2_adds(t, 149);
                assert(self.units() == (m * pow2(t)) * pow2(149) + 0) by (nonlinear_arith)
                    requires
                        self.units() == m * pow2(k as nat),
                        pow2(k as nat) == pow2(t) * pow2(149),
                ;
                lemma_div_mod_unique(self.units(), pow2(149), m as nat * pow2(t), 0);
                if s < 16 {
                    lemma_pow2_strictly_increases(s as nat, 16);
                }
                assert(m * p <= 0x100_0000 * 0x1_0000) by (nonlinear_arith)
                    requires
                        m < 0x100_0000,
                        p <= 0x1_0000,
                ;
                if s < t {
                    lemma_pow2_strictly_increases(16, t);
                    assert(m * pow2(t) >= m * 0x1_0000) by (nonlinear_arith)
                        requires
                            pow2(t) >= 0x1_0000,
                    ;
                    assert(m * p > 0x8000_0000) by (nonlinear_arith)
                        requires
                            m >= 0x80_0000,
                            p == 0x1_0000,
                    ;
                }
            }
            m as u64 * p
        } else {
            let s: u32 = 149 - k;
            proof {
                lemma_pow2_adds(k as nat, s as nat);
                lemma_pow2_pos(k as nat);
                lemma_pow2_pos(s as nat);
                let c = pow2(k as nat);
                let q = m as nat / pow2(s as nat);
                let r = m as nat % pow2(s as nat);
                lemma_fundamental_div_mod(m as int, pow2(s as nat) as int);
                assert(self.units() == q * pow2(149) + c * r) by (nonlinear_arith)
                    requires
                        self.units() == m * c,
                        pow2(149) == c * pow2(s as nat),
                        m == pow2(s as nat) * q + r,
                ;
                assert(c * r < pow2(149)) by (nonlinear_arith)
                    requires
                        pow2(149) == c * pow2(s as nat),
                        r < pow2(s as nat),
                        c > 0,
                ;
                lemma_div_mod_unique(self.units(), pow2(149), q, c * r);
            }
            if s >= 24 {
                proof {
                    if s > 24 {
                        lemma_pow2_strictly_increases(24, s as nat);
                    }
                    lemma_div_mod_unique(m as nat, pow2(s as nat), 0, m as nat);
                }
                0
            } else {
                m as u64 / power_of_two(s)
            }
        };
        if self.is_negative() {
            if w > 0x8000_0000 {
                i32::MIN
            } else {
                (-(w as i64)) as i32
            }
        } else {
            if w > 0x7fff_ffff {
                i32::MAX
            } else {
                w as i32
            }
        }
    }

    /// The power `2^-i`.
    pub fn inverse_power_of_two(i: u32) -> (r: Binary32)
        requires
            i <= 126,
        ensures
            r.bits == 0x3f80_0000 - 0x80_0000 * i,
            r.finite(),
            r.value() == pow2((149 - i) as nat),
    {
        let r: Binary32 = Binary32 { bits: 0x3f80_0000 - 0x80_0000 * i };
        proof {
            let k = (126 - i) as nat;
            assert(r.bits / 0x80_0000 == k + 1);
            lemma2_to64();
            lemma_pow2_adds(23, k);
        }
        r
    }

    /// The rounded sum of two finite numbers.
    fn add_finite(self, rhs: Binary32) -> (r: Binary32)
        requires
            self.finite(),
            rhs.finite(),
        ensures
            r == rounded_sum(self.value() + rhs.value(), self.negative() && rhs.negative()),
    {
        let (ma, ka) = self.parts();
        let (mb, kb) = rhs.parts();
        if ka >= kb {
            Self::add_aligned(self.is_negative(), ma, ka, rhs.is_negative(), mb, kb)
        } else {
            Self::add_aligned(rhs.is_negative(), mb, kb, self.is_negative(), ma, ka)
        }
    }

    /// The rounded sum of two finite numbers given by their parts, the larger exponent
    /// first.
    fn add_aligned(na: bool, ma: u32, ka: u32, nb: bool, mb: u32, kb: u32) -> (r: Binary32)
        requires
            kb <= ka <= 253,
            ma < 0x100_0000,
            mb < 0x100_0000,
            ka > 0 ==> ma >= 0x80_0000,
        ensures
            r == rounded_sum(
                signed_units(na, ma as nat * pow2(ka as nat)) + signed_units(
                    nb,
                    mb as nat * pow2(kb as nat),
                ),
                na && nb,
            ),
    {
        let ghost va = signed_units(na, ma as nat * pow2(ka as nat));
        let ghost vb = signed_units(nb, mb as nat * pow2(kb as nat));
        let d: u32 = ka - kb;
        proof {
            lemma_pow2_pos(ka as nat);
            lemma_pow2_pos(kb as nat);
            lemma_pow2_adds(kb as nat, d as nat);
            lemma2_to64();
            lemma2_to64_rest();
        }
        if d <= 38 {
            let p: u64 = power_of_two(d);
            proof {
                if d < 38 {
                    lemma_pow2_strictly_increases(d as nat, 38);
                }
                assert(ma * p < 0x4000_0000_0000_0000) by (nonlinear_arith)
                    requires
                        ma < 0x100_0000,
                        p <= 0x40_0000_0000,
                ;
            }
            let a: i64 = (ma as u64 * p) as i64;
            let b: i64 = mb as i64;
            let sum: i64 = (if na {
                -a
            } else {
                a
            }) + (if nb {
                -b
            } else {
                b
            });
            proof {
                assert(va + vb == sum * pow2(kb as nat)) by (nonlinear_arith)
                    requires
                        pow2(ka as nat) == pow2(kb as nat) * p,
                        a == ma * p,
                        b == mb,
                        va == (if na { -(ma * pow2(ka as nat)) } else { ma * pow2(ka as nat) }),
                        vb == (if nb { -(mb * pow2(kb as nat)) } else { mb * pow2(kb as nat) }),
                        sum == (if na { -a } else { a as int }) + (if nb { -b } else { b as int }),
                ;
            }
            if sum == 0 {
                assert(sum * pow2(kb as nat) == 0) by (nonlinear_arith)
                    requires
                        sum == 0,
                ;
                assert(na && nb ==> a == 0 && b == 0);
                Self::with_sign(na && nb, 0)
            } else if sum < 0 {
                assert(sum * pow2(kb as nat) < 0) by (nonlinear_arith)
                    requires
                        sum < 0,
                        pow2(kb as nat) > 0,
                ;
                assert((-sum) * pow2(kb as nat) == -(sum * pow2(kb as nat))) by (nonlinear_arith);
                Self::with_sign(true, round_scaled((-sum) as u64, kb as i32))
            } else {
                assert(sum * pow2(kb as nat) > 0) by (nonlinear_arith)
                    requires
                        sum > 0,
                        pow2(kb as nat) > 0,
                ;
                Self::with_sign(false, round_scaled(sum as u64, kb as i32))
            }
        } else {
            let jammed: u64 = if mb == 0 {
                16 * ma as u64
            } else if na == nb {
                16 * ma as u64 + 1
            } else {
                16 * ma as u64 - 1
            };
            proof {
                let g = (ka - 4) as nat;
                let u = pow2((ka - 3) as nat);
                let part = if na == nb {
                    mb as int
                } else {
                    -(mb as int)
                };
                let size = ma * pow2(ka as nat) + part * pow2(kb as nat);
                lemma_pow2_pos(g);
                lemma_pow2_adds(g, 4);
                lemma_pow2_adds(g, 1);
                lemma_pow2_adds((ka - 3) as nat, 3);
                lemma_pow2_adds(24, kb as nat);
                if 24 + kb < ka - 3 {
                    lemma_pow2_strictly_increases((24 + kb) as nat, (ka - 3) as nat);
                }
                let small = mb * pow2(kb as nat);
                assert(small < u) by (nonlinear_arith)
                    requires
                        small == mb * pow2(kb as nat),
                        mb < 0x100_0000,
                        0x100_0000 * pow2(kb as nat) <= u,
                        pow2(kb as nat) > 0,
                ;
                assert(mb > 0 ==> small > 0) by (nonlinear_arith)
                    requires
                        small == mb * pow2(kb as nat),
                        pow2(kb as nat) > 0,
                ;
                assert(mb == 0 ==> small == 0) by (nonlinear_arith)
                    requires
                        small == mb * pow2(kb as nat),
                ;
                let big = ma * pow2(ka as nat);
                assert(big == (8 * ma) * u) by (nonlinear_arith)
                    requires
                        big == ma * pow2(ka as nat),
                        pow2(ka as nat) == u * 8,
                ;
                assert(big >= u) by (nonlinear_arith)
                    requires
                        big == (8 * ma) * u,
                        ma >= 1,
                        u > 0,
                ;
                let n1 = (if na == nb { big + small } else { big - small }) as nat;
                let n2 = (jammed * pow2(g)) as nat;
                assert(n1 > 0);
                assert(va + vb == (if na { -n1 } else { n1 as int }));
                if mb == 0 {
                    assert(n2 == n1) by (nonlinear_arith)
                        requires
                            n2 == (16 * ma) * pow2(g),
                            n1 == (8 * ma) * u,
                            u == pow2(g) * 2,
                    ;
                } else if na == nb {
                    let m = (8 * ma) as nat;
                    assert(m * u < n2 < (m + 1) * u) by (nonlinear_arith)
                        requires
                            n2 == (2 * m + 1) * pow2(g),
                            u == pow2(g) * 2,
                            pow2(g) > 0,
                    ;
                    assert(m * u < n1 < (m + 1) * u) by (nonlinear_arith)
                        requires
                            n1 == m * u + small,
                            0 < small < u,
                    ;
                    assert(1 * u == u * pow2(0));
                    lemma_unbounded_mag_between(n1, n2, 1, u, m, (ka - 3) as nat, 0);
                } else {
                    let m = (8 * ma - 1) as nat;
                    assert(m * u < n2 < (m + 1) * u) by (nonlinear_arith)
                        requires
                            n2 == (2 * m + 1) * pow2(g),
                            u == pow2(g) * 2,
                            pow2(g) > 0,
                    ;
                    assert(m * u < n1 < (m + 1) * u) by (nonlinear_arith)
                        requires
                            n1 == (m + 1) * u - small,
                            0 < small < u,
                    ;
                    assert(1 * u == u * pow2(0));
                    lemma_unbounded_mag_between(n1, n2, 1, u, m, (ka - 3) as nat, 0);
                }
            }
            Self::with_sign(na, round_scaled(jammed, ka as i32 - 4))
        }
    }

    /// The rounded product of two finite numbers, without its sign.
    fn mul_finite(self, rhs: Binary32) -> (mag: u32)
        requires
            self.finite(),
            rhs.finite(),
        ensures
            mag == rounded_mag(self.units() * rhs.units(), pow2(149)),
            mag <= INF_MAG,
    {
        let (ma, ka) = self.parts();
        let (mb, kb) = rhs.parts();
        assert(ma * mb < 0x1_0000_0000_0000) by (nonlinear_arith)
            requires
                ma < 0x100_0000,
                mb < 0x100_0000,
        ;
        let product: u64 = ma as u64 * mb as u64;
        let e: i32 = ka as i32 + kb as i32 - 149;
        proof {
            let p = (ka + kb) as nat;
            lemma_pow2_adds(ka as nat, kb as nat);
            assert(self.units() * rhs.units() == product * pow2(p)) by (nonlinear_arith)
                requires
                    self.units() == ma * pow2(ka as nat),
                    rhs.units() == mb * pow2(kb as nat),
                    product == ma * mb,
                    pow2(p) == pow2(ka as nat) * pow2(kb as nat),
            ;
            lemma_scaled_pair(product as nat, p, 149);
        }
        round_scaled(product, e)
    }

    /// A positive significand shifted up to 24 digits, with the shift.
    pub fn normalized(m: u32) -> (r: (u32, u32))
        requires
            0 < m < 0x100_0000,
        ensures
            0x80_0000 <= r.0 < 0x100_0000,
            r.1 <= 23,
            r.0 == m * pow2(r.1 as nat),
    {
        let mut n: u32 = m;
        let mut z: u32 = 0;
        proof {
            lemma2_to64();
            assert(m * pow2(0) == m);
        }
        while n < 0x80_0000
            invariant
                0 < m,
                0 < n < 0x100_0000,
                z <= 23,
                n == m * pow2(z as nat),
            decreases 0x100_0000 - n,
        {
            proof {
                lemma2_to64();
                lemma_pow2_unfold((z + 1) as nat);
                assert(m * pow2((z + 1) as nat) == 2 * (m * pow2(z as nat))) by (nonlinear_arith)
                    requires
                        pow2((z + 1) as nat) == 2 * pow2(z as nat),
                ;
                assert(n >= pow2(z as nat)) by (nonlinear_arith)
                    requires
                        n == m * pow2(z as nat),
                        m >= 1,
                ;
                if z >= 23 {
                    assert(pow2(23) == 0x80_0000);
                    assert(false);
                }
            }
            n = 2 * n;
            z = z + 1;
        }
        (n, z)
    }

    /// The rounded quotient of two finite numbers, without its sign.
    fn div_finite(self, rhs: Binary32) -> (mag: u32)
        requires
            self.finite(),
            rhs.finite(),
            !rhs.zero(),
        ensures
            mag == rounded_mag(self.units() * pow2(149), rhs.units()),
            mag <= INF_MAG,
    {
        let (ma, ka) = self.parts();
        let (mb, kb) = rhs.parts();
        proof {
            lemma_pow2_pos(kb as nat);
            assert(rhs.units() > 0) by (nonlinear_arith)
                requires
                    rhs.units() == mb * pow2(kb as nat),
                    mb > 0,
                    pow2(kb as nat) > 0,
            ;
        }
        if ma == 0 {
            proof {
                assert(self.units() * pow2(149) == 0) by (nonlinear_arith)
                    requires
                        self.units() == ma * pow2(ka as nat),
                        ma == 0,
                ;
                lemma_div_mod_unique(0, rhs.units(), 0, 0);
            }
            return 0;
        }
        let (na, za) = Self::normalized(ma);
        let (nb, zb) = Self::normalized(mb);
        let x: u64 = na as u64 * 0x1_0000_0000;
        let q: u64 = x / nb as u64;
        let rest: u64 = x % nb as u64;
        let e: i32 = ka as i32 - za as i32 - (kb as i32 - zb as i32) + 117;
        let ghost p = (ka + zb + 117) as nat;
        let ghost w = (kb + za) as nat;
        proof {
            lemma_fundamental_div_mod(x as int, nb as int);
            assert(q >= 0x200_0000) by (nonlinear_arith)
                requires
                    x == nb * q + rest,
                    rest < nb,
                    nb < 0x100_0000,
                    x >= 0x80_0000 * 0x1_0000_0000,
            ;
            assert(q < 0x100_0000_0000_0000) by (nonlinear_arith)
                requires
                    x == nb * q + rest,
                    nb >= 1,
                    x < 0x100_0000_0000_0000,
                    rest >= 0,
            ;
            lemma_pow2_pos(za as nat);
            lemma_pow2_pos(zb as nat);
            lemma_pow2_pos(p);
            lemma_pow2_pos(w);
            let c = pow2(za as nat) * pow2(zb as nat);
            assert(c > 0) by (nonlinear_arith)
                requires
                    c == pow2(za as nat) * pow2(zb as nat),
                    pow2(za as nat) > 0,
                    pow2(zb as nat) > 0,
            ;
            lemma2_to64();
            lemma2_to64_rest();
            lemma_pow2_adds(32, 117);
            lemma_pow2_adds((ka + zb) as nat, 117);
            lemma_pow2_adds(ka as nat, zb as nat);
            lemma_pow2_adds(kb as nat, za as nat);
            let num = self.units() * pow2(149);
            assert(c * num == x * pow2(p)) by (nonlinear_arith)
                requires
                    c == pow2(za as nat) * pow2(zb as nat),
                    num == (ma * pow2(ka as nat)) * (0x1_0000_0000 * pow2(117)),
                    x == na * 0x1_0000_0000,
                    na == ma * pow2(za as nat),
                    pow2(p) == (pow2(ka as nat) * pow2(zb as nat)) * pow2(117),
            ;
            let den = rhs.units();
            assert(c * den == nb * pow2(w)) by (nonlinear_arith)
                requires
                    c == pow2(za as nat) * pow2(zb as nat),
                    den == mb * pow2(kb as nat),
                    nb == mb * pow2(zb as nat),
                    pow2(w) == pow2(kb as nat) * pow2(za as nat),
            ;
            lemma_unbounded_mag_scale(num, den, c);
        }
        if rest == 0 {
            proof {
                assert(x * pow2(p) == nb * (q * pow2(p))) by (nonlinear_arith)
                    requires
                        x == nb * q,
                ;
                lemma_unbounded_mag_scale(q as nat * pow2(p), pow2(w), nb as nat);
                lemma_scaled_pair(q as nat, p, w);
            }
            round_scaled(q, e)
        } else {
            proof {
                let g = (p - 1) as nat;
                lemma_pow2_unfold(p);
                lemma_pow2_pos(g);
                let u = nb as nat * pow2(p);
                let d = nb as nat * pow2(w);
                let n1 = x as nat * pow2(p);
                let n2 = nb as nat * ((2 * q + 1) as nat * pow2(g));
                assert(u > 0 && d > 0) by (nonlinear_arith)
                    requires
                        u == nb * pow2(p),
                        d == nb * pow2(w),
                        nb > 0,
                        pow2(p) > 0,
                        pow2(w) > 0,
                ;
                assert(q * u < n1 < (q + 1) * u) by (nonlinear_arith)
                    requires
                        n1 == x * pow2(p),
                        u == nb * pow2(p),
                        x == nb * q + rest,
                        0 < rest < nb,
                        pow2(p) > 0,
                ;
                assert(q * u < n2 < (q + 1) * u) by (nonlinear_arith)
                    requires
                        n2 == nb * ((2 * q + 1) * pow2(g)),
                        u == nb * (2 * pow2(g)),
                        nb > 0,
                        pow2(g) > 0,
                ;
                assert(d * pow2(p) == u * pow2(w)) by (nonlinear_arith)
                    requires
                        u == nb * pow2(p),
                        d == nb * pow2(w),
                ;
                lemma_unbounded_mag_between(n1, n2, d, u, q as nat, p, w);
                lemma_unbounded_mag_scale((2 * q + 1) as nat * pow2(g), pow2(w), nb as nat);
                lemma_scaled_pair((2 * q + 1) as nat, g, w);
            }
            round_scaled(2 * q + 1, e - 1)
        }
    }
}

impl NegSpecImpl for Binary32 {
    open spec fn obeys_neg_spec() -> bool {
        true
    }

    open spec fn neg_req(self) -> bool {
        true
    }

    open spec fn neg_spec(self) -> Binary32 {
        -self
    }
}

impl Neg for Binary32 {
    type Output = Binary32;

    fn neg(self) -> (r: Binary32) {
        Self::with_sign(!self.is_negative(), self.magnitude())
    }
}

impl AddSpecImpl for Binary32 {
    open spec fn obeys_add_spec() -> bool {
        true
    }

    open spec fn add_req(self, rhs: Binary32) -> bool {
        true
    }

    open spec fn add_spec(self, rhs: Binary32) -> Binary32 {
        self + rhs
    }
}

impl Add for Binary32 {
    type Output = Binary32;

    fn add(self, rhs: Binary32) -> (r: Binary32) {
        proof {
            reveal(Binary32::spec_add);
        }
        if self.is_nan() || rhs.is_nan() {
            Binary32 { bits: QUIET_NAN }
        } else if self.is_infinite() {
            if rhs.is_infinite() && self.is_negative() != rhs.is_negative() {
                Binary32 { bits: QUIET_NAN }
            } else {
                self
            }
        } else if rhs.is_infinite() {
            rhs
        } else {
            self.add_finite(rhs)
        }
    }
}

impl SubSpecImpl for Binary32 {
    open spec fn obeys_sub_spec() -> bool {
        true
    }

    open spec fn sub_req(self, rhs: Binary32) -> bool {
        true
    }

    open spec fn sub_spec(self, rhs: Binary32) -> Binary32 {
        self - rhs
    }
}

impl Sub for Binary32 {
    type Output = Binary32;

    fn sub(self, rhs: Binary32) -> (r: Binary32) {
        self + rhs.neg()
    }
}

impl MulSpecImpl for Binary32 {
    open spec fn obeys_mul_spec() -> bool {
        true
    }

    open spec fn mul_req(self, rhs: Binary32) -> bool {
        true
    }

    open spec fn mul_spec(self, rhs: Binary32) -> Binary32 {
        self * rhs
    }
}

impl Mul for Binary32 {
    type Output = Binary32;

    fn mul(self, rhs: Binary32) -> (r: Binary32) {
        proof {
            reveal(Binary32::spec_mul);
        }
        let negative: bool = self.is_negative() != rhs.is_negative();
        if self.is_nan() || rhs.is_nan() {
            Binary32 { bits: QUIET_NAN }
        } else if self.is_infinite() || rhs.is_infinite() {
            if self.magnitude() == 0 || rhs.magnitude() == 0 {
                Binary32 { bits: QUIET_NAN }
            } else {
                Self::with_sign(negative, INF_MAG)
            }
        } else {
            Self::with_sign(negative, self.mul_finite(rhs))
        }
    }
}

impl DivSpecImpl for Binary32 {
    open spec fn obeys_div_spec() -> bool {
        true
    }

    open spec fn div_req(self, rhs: Binary32) -> bool {
        true
    }

    open spec fn div_spec(self, rhs: Binary32) -> Binary32 {
        self / rhs
    }
}

impl Div for Binary32 {
    type Output = Binary32;

    fn div(self, rhs: Binary32) -> (r: Binary32) {
        proof {
            reveal(Binary32::spec_euclidean_or_real_div);
        }
        let negative: bool = self.is_negative() != rhs.is_negative();
        if self.is_nan() || rhs.is_nan() {
            Binary32 { bits: QUIET_NAN }
        } else if self.is_infinite() {
            if rhs.is_infinite() {
                Binary32 { bits: QUIET_NAN }
            } else {
                Self::with_sign(negative, INF_MAG)
            }
        } else if rhs.is_infinite() {
            Self::with_sign(negative, 0)
        } else if rhs.magnitude() == 0 {
            if self.magnitude() == 0 {
                Binary32 { bits: QUIET_NAN }
            } else {
                Self::with_sign(negative, INF_MAG)
            }
        } else {
            Self::with_sign(negative, self.div_finite(rhs))
        }
    }
}

impl PartialEqSpecImpl for Binary32 {
    open spec fn obeys_eq_spec() -> bool {
        true
    }

    open spec fn eq_spec(&self, other: &Binary32) -> bool {
        self.same(*other)
    }
}

impl PartialEq for Binary32 {
    fn eq(&self, other: &Binary32) -> (r: bool) {
        !self.is_nan() && !other.is_nan() && self.order() == other.order()
    }
}

impl PartialOrdSpecImpl for Binary32 {
    open spec fn obeys_partial_cmp_spec() -> bool {
        true
    }

    open spec fn partial_cmp_spec(&self, other: &Binary32) -> Option<Ordering> {
        if self.nan() || other.nan() {
            None
        } else if self.rank() < other.rank() {
            Some(Ordering::Less)
        } else if self.rank() == other.rank() {
            Some(Ordering::Equal)
        } else {
            Some(Ordering::Greater)
        }
    }
}

impl PartialOrd for Binary32 {
    fn partial_cmp(&self, other: &Binary32) -> (r: Option<Ordering>) {
        if self.is_nan() || other.is_nan() {
            None
        } else if self.order() < other.order() {
            Some(Ordering::Less)
        } else if self.order() == other.order() {
            Some(Ordering::Equal)
        } else {
            Some(Ordering::Greater)
        }
    }
}

impl Default for Binary32 {
    /// Positive zero.
    fn default() -> (r: Binary32)
        ensures
            r.bits == 0,
    {
        Binary32 { bits: 0 }
    }
}

} // verus!
