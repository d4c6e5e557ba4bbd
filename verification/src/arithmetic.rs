//! Laws of binary32 arithmetic: what the rounded operations keep of the exact ones.
use vstd::prelude::*;
use crate::binary32::b32;
use crate::binary32::Binary32;
use crate::binary32::HALF;
use crate::binary32::ONE;
use crate::binary32::rounded_sum;
use crate::binary32::signed;
use crate::binary32::TWO;
use crate::binary32::ZERO;
use crate::nearest::lemma_mag_units_at;
use crate::nearest::lemma_mag_units_order;
use crate::nearest::rounding_error_is_at_most_half_own_spacing;
use crate::nearest::rounding_error_is_at_most_half_spacing;
use crate::nearest::rounding_is_exact;
use crate::nearest::rounding_is_monotone;
use crate::nearest::rounding_is_nearest;
use crate::nearest::spacing;
use crate::rounding::INF_MAG;
use crate::rounding::lemma_div_mod_unique;
use crate::rounding::lemma_unbounded_mag_at;
use crate::rounding::mag_units;
use crate::rounding::round_half_even;
use crate::rounding::rounded_mag;
use crate::rounding::unbounded_mag;
use vstd::arithmetic::div_mod::lemma_fundamental_div_mod;
use vstd::arithmetic::power2::lemma2_to64;
use vstd::arithmetic::power2::lemma_pow2_adds;
use vstd::arithmetic::power2::lemma_pow2_pos;
use vstd::arithmetic::power2::lemma_pow2_unfold;
use vstd::arithmetic::power2::pow2;
use vstd::math::abs;

verus! {

/// Finite numbers are ordered by their exact values.
pub proof fn order_is_value_order(a: Binary32, b: Binary32)
    requires
        a.finite(),
        b.finite(),
    ensures
        a < b <==> a.value() < b.value(),
        a <= b <==> a.value() <= b.value(),
        a.same(b) <==> a.value() == b.value(),
{
    lemma_mag_units_order(a.mag(), b.mag());
    lemma_mag_units_order(a.mag(), 0);
    lemma_mag_units_order(b.mag(), 0);
}

/// Changing the sign twice changes nothing.
pub proof fn negation_is_an_involution(a: Binary32)
    ensures
        -(-a) == a,
        (-a).mag() == a.mag(),
        (-a).negative() == !a.negative(),
        (-a).rank() == -a.rank(),
        (-a).value() == -a.value(),
        (-a).nan() == a.nan(),
        (-a).finite() == a.finite(),
{
}

/// The order of the terms of a sum does not matter.
pub proof fn addition_is_commutative(a: Binary32, b: Binary32)
    ensures
        a + b == b + a,
{
    reveal(Binary32::spec_add);
    if a.infinite() && b.infinite() && a.negative() == b.negative() {
        assert(a.bits == b.bits);
    }
}

/// The order of the factors of a product does not matter.
pub proof fn multiplication_is_commutative(a: Binary32, b: Binary32)
    ensures
        a * b == b * a,
{
    reveal(Binary32::spec_mul);
    assert(a.units() * b.units() == b.units() * a.units()) by (nonlinear_arith);
}

/// A finite magnitude stays as it is when rounded.
pub proof fn lemma_rounded_mag_exact(mag: nat)
    requires
        mag < INF_MAG,
    ensures
        rounded_mag(mag_units(mag), 1) == mag,
{
    rounding_is_exact(mag, 1);
    assert(mag_units(mag) * 1 == mag_units(mag));
}

pub proof fn lemma_rounded_mag_order(n1: nat, n2: nat)
    requires
        n1 <= n2,
    ensures
        rounded_mag(n1, 1) <= rounded_mag(n2, 1),
{
    assert(n1 * 1 <= n2 * 1);
    rounding_is_monotone(n1, 1, n2, 1);
}

/// A sum is a NaN only if a term is, or if opposite infinities meet.
pub proof fn lemma_sum_kind(a: Binary32, b: Binary32)
    ensures
        (a + b).nan() <==> a.nan() || b.nan() || (a.infinite() && b.infinite() && a.negative()
            != b.negative()),
        a.finite() && b.finite() ==> a + b == rounded_sum(
            a.value() + b.value(),
            a.negative() && b.negative(),
        ),
        a.infinite() && !(a + b).nan() ==> a + b == a,
        b.infinite() && !(a + b).nan() ==> a + b == b,
{
    reveal(Binary32::spec_add);
}

/// Larger exact sums give larger rounded sums.
pub proof fn lemma_rounded_sum_order(s1: int, n1: bool, s2: int, n2: bool)
    requires
        s1 <= s2,
    ensures
        rounded_sum(s1, n1) <= rounded_sum(s2, n2),
        rounded_sum(s1, n1).rank() <= rounded_sum(s2, n2).rank(),
{
    if s1 < 0 && s2 < 0 {
        lemma_rounded_mag_order((-s2) as nat, (-s1) as nat);
    } else if s1 > 0 {
        lemma_rounded_mag_order(s1 as nat, s2 as nat);
    }
}

/// A sum whose exact value is that of a finite number is that number.
pub proof fn lemma_rounded_sum_exact(x: Binary32, negative: bool)
    requires
        x.finite(),
    ensures
        rounded_sum(x.value(), negative).same(x),
        !x.zero() ==> rounded_sum(x.value(), negative) == x,
{
    lemma_rounded_mag_exact(x.mag());
    lemma_mag_units_order(x.mag(), 0);
}

/// A sum of size up to some finite magnitude is off by at most half the spacing there.
pub proof fn sum_error_is_at_most_half_spacing(a: Binary32, b: Binary32, limit: nat)
    requires
        a.finite(),
        b.finite(),
        limit < INF_MAG,
        abs(a.value() + b.value()) <= mag_units(limit),
    ensures
        (a + b).mag() <= limit,
        2 * abs((a + b).value() - (a.value() + b.value())) <= spacing(limit),
{
    let exact = a.value() + b.value();
    let n = abs(exact);
    let m = unbounded_mag(n, 1);
    assert(mag_units(limit) * 1 == mag_units(limit));
    rounding_error_is_at_most_half_spacing(n, 1, limit);
    assert(spacing(limit) * 1 == spacing(limit));
    assert(mag_units(m) * 1 == mag_units(m));
    let sum = a + b;
    assert(sum == rounded_sum(exact, a.negative() && b.negative())) by {
        lemma_sum_kind(a, b);
    }
    if exact == 0 {
        lemma_mag_units_order(0, 0);
        assert(sum.mag() == 0);
    } else {
        assert(sum.mag() == m);
        assert(sum.negative() == (exact < 0));
    }
}

/// A product of size up to some finite magnitude is off by at most half the spacing there.
pub proof fn product_error_is_at_most_half_spacing(a: Binary32, b: Binary32, limit: nat)
    requires
        a.finite(),
        b.finite(),
        limit < INF_MAG,
        abs(a.value() * b.value()) <= mag_units(limit) * pow2(149),
    ensures
        (a * b).mag() <= limit,
        2 * abs((a * b).value() * pow2(149) - a.value() * b.value()) <= spacing(limit) * pow2(149),
{
    reveal(Binary32::spec_mul);
    let n = a.units() * b.units();
    lemma_pow2_pos(149);
    assert(abs(a.value() * b.value()) == n && (a.negative() == b.negative() ==> a.value()
        * b.value() == n) && (a.negative() != b.negative() ==> a.value() * b.value() == -n))
        by (nonlinear_arith)
        requires
            n == a.units() * b.units(),
            a.value() == if a.negative() {
                -(a.units() as int)
            } else {
                a.units() as int
            },
            b.value() == if b.negative() {
                -(b.units() as int)
            } else {
                b.units() as int
            },
    ;
    rounding_error_is_at_most_half_spacing(n, pow2(149), limit);
    let u = (a * b).units();
    assert(-u * pow2(149) == -(u * pow2(149))) by (nonlinear_arith);
}

/// A quotient of size up to some finite magnitude is off by at most half the spacing there.
pub proof fn quotient_error_is_at_most_half_spacing(a: Binary32, b: Binary32, limit: nat)
    requires
        a.finite(),
        b.finite(),
        b > b32(ZERO),
        limit < INF_MAG,
        abs(a.value()) * pow2(149) <= mag_units(limit) * b.value(),
    ensures
        (a / b).mag() <= limit,
        2 * abs((a / b).value() * b.value() - a.value() * pow2(149)) <= spacing(limit) * b.value(),
{
    reveal(Binary32::spec_euclidean_or_real_div);
    lemma_mag_units_order(b.mag(), 0);
    lemma_mag_units_order(0, 0);
    let n = a.units() * pow2(149);
    rounding_error_is_at_most_half_spacing(n, b.units(), limit);
    let u = (a / b).units();
    assert(-u * b.value() == -(u * b.value())) by (nonlinear_arith);
    assert(-a.units() * pow2(149) == -(a.units() * pow2(149))) by (nonlinear_arith);
}

/// A finite sum is off by at most half the spacing at itself.
pub proof fn sum_error_is_at_most_half_own_spacing(a: Binary32, b: Binary32)
    requires
        a.finite(),
        b.finite(),
        (a + b).finite(),
    ensures
        2 * abs((a + b).value() - (a.value() + b.value())) <= spacing((a + b).mag()),
{
    let exact = a.value() + b.value();
    let n = abs(exact);
    let m = unbounded_mag(n, 1);
    let sum = a + b;
    assert(sum == rounded_sum(exact, a.negative() && b.negative())) by {
        lemma_sum_kind(a, b);
    }
    rounding_error_is_at_most_half_own_spacing(n, 1);
    assert(spacing(m) * 1 == spacing(m));
    assert(mag_units(m) * 1 == mag_units(m));
    if exact == 0 {
        lemma_mag_units_order(0, 0);
        assert(sum.mag() == 0);
    } else {
        assert(sum.mag() == m);
        assert(sum.negative() == (exact < 0));
    }
}

/// A finite product is off by at most half the spacing at itself.
pub proof fn product_error_is_at_most_half_own_spacing(a: Binary32, b: Binary32)
    requires
        a.finite(),
        b.finite(),
        (a * b).finite(),
    ensures
        2 * abs((a * b).value() * pow2(149) - a.value() * b.value()) <= spacing((a * b).mag())
            * pow2(149),
{
    reveal(Binary32::spec_mul);
    let n = a.units() * b.units();
    lemma_pow2_pos(149);
    lemma_signed_product(a, b);
    rounding_error_is_at_most_half_own_spacing(n, pow2(149));
    let u = (a * b).units();
    assert((a * b).mag() == unbounded_mag(n, pow2(149)));
    assert(-u * pow2(149) == -(u * pow2(149))) by (nonlinear_arith);
}

/// The exact product of two numbers has the product of their sizes and signs.
proof fn lemma_signed_product(a: Binary32, b: Binary32)
    ensures
        a.negative() == b.negative() ==> a.value() * b.value() == a.units() * b.units(),
        a.negative() != b.negative() ==> a.value() * b.value() == -(a.units() * b.units()),
{
    let x = a.units() as int;
    let y = b.units() as int;
    assert(-x * -y == x * y && -x * y == -(x * y) && x * -y == -(x * y)) by (nonlinear_arith);
}

/// A finite quotient by a positive number is off by at most half the spacing at itself.
pub proof fn quotient_error_is_at_most_half_own_spacing(a: Binary32, b: Binary32)
    requires
        a.finite(),
        b.finite(),
        b > b32(ZERO),
        (a / b).finite(),
    ensures
        2 * abs((a / b).value() * b.value() - a.value() * pow2(149)) <= spacing((a / b).mag())
            * b.value(),
{
    reveal(Binary32::spec_euclidean_or_real_div);
    lemma_mag_units_order(b.mag(), 0);
    lemma_mag_units_order(0, 0);
    let n = a.units() * pow2(149);
    rounding_error_is_at_most_half_own_spacing(n, b.units());
    let u = (a / b).units();
    assert(b.value() == b.units());
    assert((a / b).mag() == unbounded_mag(n, b.units()));
    assert((a / b).negative() == a.negative());
    assert(2 * abs(u * b.units() - n) <= spacing((a / b).mag()) * b.units());
    assert(-u * b.value() == -(u * b.value())) by (nonlinear_arith);
    assert(-a.units() * pow2(149) == -(a.units() * pow2(149))) by (nonlinear_arith);
}

/// Adding the same number to both sides keeps an inequality.
pub proof fn addition_keeps_order(a: Binary32, b: Binary32, c: Binary32)
    requires
        a <= b,
        !(a + c).nan(),
        !(b + c).nan(),
    ensures
        a + c <= b + c,
{
    lemma_sum_kind(a, c);
    lemma_sum_kind(b, c);
    if a.finite() && b.finite() && c.finite() {
        order_is_value_order(a, b);
        lemma_rounded_sum_order(
            a.value() + c.value(),
            a.negative() && c.negative(),
            b.value() + c.value(),
            b.negative() && c.negative(),
        );
    }
}

/// A number less itself is positive zero.
pub proof fn difference_with_itself_is_zero(a: Binary32)
    requires
        a.finite(),
    ensures
        a - a == b32(ZERO),
{
    lemma_sum_kind(a, -a);
}

/// Adding zero changes at most the sign of a zero.
pub proof fn zero_is_neutral(a: Binary32, zero: Binary32)
    requires
        !a.nan(),
        zero.zero(),
    ensures
        (a + zero).same(a),
        !a.zero() ==> a + zero == a,
{
    lemma_sum_kind(a, zero);
    if a.finite() {
        lemma_rounded_sum_exact(a, a.negative() && zero.negative());
    }
}

/// Multiplying by one changes nothing.
pub proof fn one_is_neutral(a: Binary32)
    requires
        !a.nan(),
    ensures
        a * b32(ONE) == a,
{
    reveal(Binary32::spec_mul);
    let one = b32(ONE);
    lemma2_to64();
    lemma_pow2_adds(23, 126);
    assert(one.units() == pow2(149));
    if a.finite() {
        lemma_pow2_pos(149);
        rounding_is_exact(a.mag(), pow2(149));
    }
}

/// The sign of a product is negative exactly if the signs of the factors differ.
pub proof fn product_keeps_sign(a: Binary32, b: Binary32)
    requires
        !(a * b).nan(),
    ensures
        (a * b).negative() == (a.negative() != b.negative()),
{
    reveal(Binary32::spec_mul);
    lemma_mul_kind(a, b);
}

/// A product is a NaN only if a factor is, or if zero meets infinity.
pub proof fn lemma_mul_kind(a: Binary32, b: Binary32)
    ensures
        (a * b).nan() <==> a.nan() || b.nan() || (a.infinite() && b.zero()) || (a.zero()
            && b.infinite()),
{
    reveal(Binary32::spec_mul);
}

/// The size of one in units of `2^-149`.
pub proof fn lemma_one()
    ensures
        b32(ONE).finite(),
        b32(ONE).value() == pow2(149),
        b32(ONE).units() == pow2(149),
        pow2(149) > 0,
{
    lemma2_to64();
    lemma_pow2_adds(23, 126);
    lemma_pow2_pos(149);
}

proof fn lemma_zero_times(a: nat, b: nat)
    ensures
        a == 0 ==> a * b == 0 && b * a == 0,
{
    assert(a == 0 ==> a * b == 0 && b * a == 0) by (nonlinear_arith);
}

proof fn lemma_rounded_zero(den: nat)
    requires
        den > 0,
    ensures
        rounded_mag(0, den) == 0,
{
    rounding_is_exact(0, den);
    lemma_zero_times(0, den);
}

/// A fraction between 0 and 1 of a number lies between 0 and the number.
pub proof fn fraction_lies_between_zero_and_whole(fraction: Binary32, whole: Binary32)
    requires
        fraction.within(b32(ZERO), b32(ONE)),
        whole.finite(),
    ensures
        (fraction * whole).finite(),
        whole >= b32(ZERO) ==> (fraction * whole).within(b32(ZERO), whole),
        whole <= b32(ZERO) ==> (fraction * whole).within(whole, b32(ZERO)),
{
    reveal(Binary32::spec_mul);
    lemma_one();
    let one = pow2(149);
    let a = fraction.units();
    let b = whole.units();
    order_is_value_order(fraction, b32(ONE));
    assert((a * b) * 1 <= b * one) by (nonlinear_arith)
        requires
            a <= one,
    ;
    rounding_is_monotone(a * b, one, b, 1);
    rounding_is_exact(whole.mag(), 1);
    if a == 0 || b == 0 {
        lemma_zero_times(a, b);
        lemma_zero_times(b, a);
        lemma_rounded_zero(one);
    }
    assert(mag_units(whole.mag()) * 1 == mag_units(whole.mag()));
}

/// A quotient by a larger number lies between 0 and 1.
pub proof fn quotient_by_larger_is_fraction(a: Binary32, b: Binary32)
    requires
        b32(ZERO) <= a,
        a <= b,
        b > b32(ZERO),
        b.finite(),
        !a.negative(),
    ensures
        (a / b).within(b32(ZERO), b32(ONE)),
{
    reveal(Binary32::spec_euclidean_or_real_div);
    lemma_one();
    let one = pow2(149);
    order_is_value_order(a, b);
    lemma_mag_units_order(b.mag(), 0);
    assert((a.units() * one) * 1 <= one * b.units()) by (nonlinear_arith)
        requires
            a.units() <= b.units(),
    ;
    rounding_is_monotone(a.units() * one, b.units(), one, 1);
    rounding_is_exact(b32(ONE).mag(), 1);
    assert(mag_units(b32(ONE).mag()) * 1 == one);
}

/// The magnitude of `2^k`.
pub open spec fn power_mag(k: int) -> nat {
    (0x3f80_0000 + 0x80_0000 * k) as nat
}

/// The size of `2^k` in units of `2^-149`.
pub proof fn lemma_power_mag(k: int)
    requires
        -126 <= k <= 127,
    ensures
        power_mag(k) < INF_MAG,
        mag_units(power_mag(k)) == pow2((149 + k) as nat),
{
    let e = (k + 126) as nat;
    lemma2_to64();
    lemma_pow2_adds(23, e);
    assert(power_mag(k) / 0x80_0000 == e + 1);
    assert(power_mag(k) % 0x80_0000 == 0);
}

/// The product of a number up to `2^j` and one up to `2^k` is at most `2^(j+k)`.
pub proof fn product_of_bounded_numbers(a: Binary32, b: Binary32, j: int, k: int)
    requires
        -126 <= j <= 127,
        -126 <= k <= 127,
        -126 <= j + k <= 127,
        a.mag() <= power_mag(j),
        b.mag() <= power_mag(k),
    ensures
        (a * b).mag() <= power_mag(j + k),
{
    reveal(Binary32::spec_mul);
    lemma_power_mag(j);
    lemma_power_mag(k);
    lemma_power_mag(j + k);
    lemma_one();
    let one = pow2(149);
    let p = pow2((149 + j) as nat);
    let q = pow2((149 + k) as nat);
    let r = pow2((149 + j + k) as nat);
    lemma_pow2_adds((149 + j) as nat, (149 + k) as nat);
    lemma_pow2_adds((149 + j + k) as nat, 149);
    lemma_mag_units_order(power_mag(j), a.mag());
    lemma_mag_units_order(power_mag(k), b.mag());
    assert((a.units() * b.units()) * 1 <= r * one) by (nonlinear_arith)
        requires
            a.units() <= p,
            b.units() <= q,
            p * q == r * one,
    ;
    rounding_is_monotone(a.units() * b.units(), one, r, 1);
    lemma_rounded_mag_exact(power_mag(j + k));
}

/// The sum of two numbers up to `2^k` is at most `2^(k+1)`.
pub proof fn sum_of_bounded_numbers(a: Binary32, b: Binary32, k: int)
    requires
        0 <= k < 127,
        a.mag() <= power_mag(k),
        b.mag() <= power_mag(k),
    ensures
        (a + b).mag() <= power_mag(k + 1),
{
    lemma_sum_kind(a, b);
    lemma_power_mag(k);
    lemma_power_mag(k + 1);
    lemma_pow2_unfold((149 + k + 1) as nat);
    let p = pow2((149 + k) as nat);
    lemma_mag_units_order(power_mag(k), a.mag());
    lemma_mag_units_order(power_mag(k), b.mag());
    let s = a.value() + b.value();
    lemma_rounded_mag_exact(power_mag(k + 1));
    if s < 0 {
        lemma_rounded_mag_order((-s) as nat, 2 * p);
    } else {
        lemma_rounded_mag_order(s as nat, 2 * p);
    }
}

/// A quotient by a number of at least one is not larger than the dividend.
pub proof fn quotient_by_at_least_one(a: Binary32, b: Binary32)
    requires
        a >= b32(ZERO),
        a.finite(),
        b >= b32(ONE),
        b.finite(),
    ensures
        (a / b).within(b32(ZERO), a),
{
    reveal(Binary32::spec_euclidean_or_real_div);
    lemma_one();
    let one = pow2(149);
    order_is_value_order(b32(ONE), b);
    assert((a.units() * one) * 1 <= a.units() * b.units()) by (nonlinear_arith)
        requires
            one <= b.units(),
    ;
    if a.zero() {
        lemma_zero_times(a.units(), one);
        lemma_rounded_zero(b.units());
    }
    rounding_is_monotone(a.units() * one, b.units(), a.units(), 1);
    rounding_is_exact(a.mag(), 1);
    assert(mag_units(a.mag()) * 1 == a.units());
}

/// A quotient by a smaller number is at least one.
pub proof fn quotient_by_smaller_is_at_least_one(a: Binary32, b: Binary32)
    requires
        b > b32(ZERO),
        b <= a,
        a.finite(),
    ensures
        a / b >= b32(ONE),
{
    reveal(Binary32::spec_euclidean_or_real_div);
    lemma_one();
    let one = pow2(149);
    order_is_value_order(b, a);
    lemma_mag_units_order(b.mag(), 0);
    assert(one * b.units() <= (a.units() * one) * 1) by (nonlinear_arith)
        requires
            b.units() <= a.units(),
    ;
    rounding_is_monotone(one, 1, a.units() * one, b.units());
    rounding_is_exact(b32(ONE).mag(), 1);
    assert(mag_units(b32(ONE).mag()) * 1 == one);
}

/// A sum of numbers that are not negative is at least as large as each of them.
pub proof fn sum_of_non_negatives(a: Binary32, b: Binary32)
    requires
        a >= b32(ZERO),
        b >= b32(ZERO),
    ensures
        a + b >= a,
        a + b >= b,
        a + b >= b32(ZERO),
{
    lemma_sum_kind(a, b);
    lemma_mag_units_order(0, 0);
    if a.finite() && b.finite() {
        lemma_rounded_sum_exact(a, false);
        lemma_rounded_sum_exact(b, false);
        let n = a.negative() && b.negative();
        order_is_value_order(b32(ZERO), a);
        order_is_value_order(b32(ZERO), b);
        lemma_rounded_sum_order(a.value(), false, a.value() + b.value(), n);
        lemma_rounded_sum_order(b.value(), false, a.value() + b.value(), n);
    }
}

/// Signs of a product: not negative for factors on the same side of zero, not positive for
/// factors on opposite sides.
pub proof fn product_follows_signs(a: Binary32, b: Binary32)
    requires
        !(a * b).nan(),
    ensures
        a >= b32(ZERO) && b >= b32(ZERO) ==> a * b >= b32(ZERO),
        a <= b32(ZERO) && b <= b32(ZERO) ==> a * b >= b32(ZERO),
        a <= b32(ZERO) && b >= b32(ZERO) ==> a * b <= b32(ZERO),
        a >= b32(ZERO) && b <= b32(ZERO) ==> a * b <= b32(ZERO),
{
    reveal(Binary32::spec_mul);
    lemma_one();
    if a.zero() || b.zero() {
        lemma_zero_times(a.units(), b.units());
        lemma_zero_times(b.units(), a.units());
        lemma_rounded_zero(pow2(149));
    }
}

/// Signs of a quotient: not negative for numbers on the same side of zero, not positive
/// for numbers on opposite sides.
pub proof fn quotient_follows_signs(a: Binary32, b: Binary32)
    requires
        !(a / b).nan(),
        !b.zero(),
    ensures
        a >= b32(ZERO) && b >= b32(ZERO) ==> a / b >= b32(ZERO),
        a <= b32(ZERO) && b <= b32(ZERO) ==> a / b >= b32(ZERO),
        a <= b32(ZERO) && b >= b32(ZERO) ==> a / b <= b32(ZERO),
        a >= b32(ZERO) && b <= b32(ZERO) ==> a / b <= b32(ZERO),
{
    reveal(Binary32::spec_euclidean_or_real_div);
    if a.zero() && b.finite() {
        lemma_zero_times(a.units(), pow2(149));
        lemma_mag_units_order(b.mag(), 0);
        lemma_rounded_zero(b.units());
    }
}

/// A finite multiple of zero is zero.
pub proof fn product_with_zero_is_zero(a: Binary32, zero: Binary32)
    requires
        a.finite(),
        zero.zero(),
    ensures
        (a * zero).zero(),
{
    reveal(Binary32::spec_mul);
    lemma_one();
    lemma_zero_times(zero.units(), a.units());
    lemma_rounded_zero(pow2(149));
}

/// Zero divided by a number other than zero is zero.
pub proof fn quotient_of_zero_is_zero(zero: Binary32, b: Binary32)
    requires
        zero.zero(),
        !b.nan(),
        !b.zero(),
    ensures
        (zero / b).zero(),
{
    reveal(Binary32::spec_euclidean_or_real_div);
    if b.finite() {
        lemma_zero_times(zero.units(), pow2(149));
        lemma_mag_units_order(b.mag(), 0);
        lemma_rounded_zero(b.units());
    }
}

/// A sum of zeros is zero.
pub proof fn sum_of_zeros_is_zero(a: Binary32, b: Binary32)
    requires
        a.zero(),
        b.zero(),
    ensures
        (a + b).zero(),
{
    zero_is_neutral(a, b);
}

/// A quotient is a NaN only if a number is, or if both are infinite or both zero.
pub proof fn lemma_div_kind(a: Binary32, b: Binary32)
    ensures
        (a / b).nan() <==> a.nan() || b.nan() || (a.infinite() && b.infinite()) || (a.zero()
            && b.zero()),
{
    reveal(Binary32::spec_euclidean_or_real_div);
}

/// Every multiple `m * 2^k` units with at most 24 significant bits is a magnitude.
pub proof fn lemma_representable(m: nat, k: nat) -> (mag: nat)
    requires
        m <= 0x100_0000,
    ensures
        mag_units(mag) == m * pow2(k),
    decreases k,
{
    if m >= 0x80_0000 || k == 0 {
        lemma_mag_units_at(k, m);
        0x80_0000 * k + m
    } else {
        lemma_pow2_unfold(k);
        assert((2 * m) * pow2((k - 1) as nat) == m * pow2(k)) by (nonlinear_arith)
            requires
                pow2(k) == 2 * pow2((k - 1) as nat),
        ;
        lemma_representable(2 * m, (k - 1) as nat)
    }
}

/// From one half to two, the complement to one is exact, so that adding it gives one.
pub proof fn complement_to_one_is_exact(d: Binary32)
    requires
        d.within(b32(HALF), b32(TWO)),
    ensures
        (b32(ONE) - d).finite(),
        (b32(ONE) - d).value() == b32(ONE).value() - d.value(),
        d + (b32(ONE) - d) == b32(ONE),
{
    let one = b32(ONE);
    let rest = one - d;
    let e = d.mag() / 0x80_0000;
    let k = (e - 1) as nat;
    let s = 0x80_0000 + d.mag() % 0x80_0000;
    lemma_one();
    lemma2_to64();
    lemma_sum_kind(one, -d);
    lemma_power_mag(-1);
    lemma_power_mag(1);
    assert(power_mag(1) == b32(TWO).mag() && power_mag(-1) == b32(HALF).mag());
    lemma_mag_units_order(d.mag(), power_mag(1));
    lemma_pow2_unfold(150);
    assert(d.value() == s * pow2(k));
    let diff = one.value() - d.value();
    let size: nat = if diff < 0 {
        (-diff) as nat
    } else {
        diff as nat
    };
    let mag = if d.value() == 2 * one.value() {
        lemma_mag_units_order(power_mag(1), d.mag());
        b32(ONE).mag()
    } else {
        assert(125 <= k <= 126);
        lemma_pow2_adds(24, 125);
        lemma_pow2_adds(23, 126);
        if k == 125 {
            let m = (0x100_0000 - s) as nat;
            assert(s * pow2(125) <= 0x100_0000 * pow2(125)) by (nonlinear_arith)
                requires
                    s <= 0x100_0000,
            ;
            assert(size == m * pow2(125)) by (nonlinear_arith)
                requires
                    size == 0x100_0000 * pow2(125) - s * pow2(125),
                    m == 0x100_0000 - s,
            ;
            lemma_representable(m, 125)
        } else {
            let m = (s - 0x80_0000) as nat;
            assert(0x80_0000 * pow2(126) <= s * pow2(126)) by (nonlinear_arith)
                requires
                    0x80_0000 <= s,
            ;
            assert(size == m * pow2(126)) by (nonlinear_arith)
                requires
                    size == s * pow2(126) - 0x80_0000 * pow2(126),
                    m == s - 0x80_0000,
            ;
            lemma_representable(m, 126)
        }
    };
    assert(mag_units(mag) == size);
    assert(size <= pow2(149));
    lemma_mag_units_order(b32(ONE).mag(), mag);
    let exact = signed(diff < 0, mag);
    assert(exact.mag() == mag);
    assert(exact.value() == diff);
    lemma_rounded_sum_exact(exact, false);
    order_is_value_order(rest, exact);
    assert(rest.value() == diff);
    lemma_sum_kind(d, rest);
    lemma_rounded_sum_exact(one, d.negative() && rest.negative());
}

/// Larger exact quotients by the same number give larger rounded quotients.
proof fn lemma_quotient_order(a: nat, b: nat, den: nat)
    requires
        a <= b,
        den > 0,
    ensures
        rounded_mag(a * pow2(149), den) <= rounded_mag(b * pow2(149), den),
{
    let one = pow2(149);
    assert((a * one) * den <= (b * one) * den) by (nonlinear_arith)
        requires
            a <= b,
    ;
    rounding_is_monotone(a * one, den, b * one, den);
}

/// Dividing by the same positive number keeps an inequality.
pub proof fn division_keeps_order(a: Binary32, b: Binary32, c: Binary32)
    requires
        a <= b,
        c > b32(ZERO),
        !(a / c).nan(),
        !(b / c).nan(),
    ensures
        a / c <= b / c,
{
    reveal(Binary32::spec_euclidean_or_real_div);
    if a.finite() && b.finite() && c.finite() {
        lemma_mag_units_order(c.mag(), 0);
        lemma_mag_units_order(a.mag(), b.mag());
        if a.zero() {
            lemma_zero_times(a.units(), pow2(149));
            lemma_rounded_zero(c.units());
        }
        if b.zero() {
            lemma_zero_times(b.units(), pow2(149));
            lemma_rounded_zero(c.units());
        }
        if a.units() <= b.units() {
            lemma_quotient_order(a.units(), b.units(), c.units());
        } else {
            lemma_quotient_order(b.units(), a.units(), c.units());
        }
    }
}

/// Changing the sign of a factor changes the sign of the product.
pub proof fn negation_of_factor_negates_product(a: Binary32, b: Binary32)
    requires
        !(a * b).nan(),
    ensures
        a * (-b) == -(a * b),
        (-a) * b == -(a * b),
{
    reveal(Binary32::spec_mul);
}

/// Changing the sign of the dividend changes the sign of the quotient.
pub proof fn negation_of_dividend_negates_quotient(a: Binary32, b: Binary32)
    requires
        !(a / b).nan(),
    ensures
        (-a) / b == -(a / b),
{
    reveal(Binary32::spec_euclidean_or_real_div);
}

/// Sums at most half a step away from one round to one.
proof fn lemma_near_one(s: nat)
    requires
        pow2(149) - pow2(124) <= s <= pow2(149) + pow2(124),
    ensures
        rounded_mag(s, 1) == b32(ONE).mag(),
{
    let one = b32(ONE).mag();
    let r = unbounded_mag(s, 1);
    lemma_one();
    lemma2_to64();
    lemma_pow2_unfold(125);
    lemma_pow2_unfold(126);
    lemma_pow2_pos(124);
    rounding_is_exact(one, 1);
    assert(mag_units(one) * 1 == pow2(149));
    if s <= pow2(149) {
        let low = (pow2(149) - pow2(124)) as nat;
        lemma_pow2_adds(24, 125);
        lemma_unbounded_mag_at(low, 1, 125);
        assert(1 * pow2(125) == pow2(125));
        lemma_div_mod_unique(low, pow2(125), 0xff_ffff, pow2(124));
        assert(unbounded_mag(low, 1) == one);
        rounding_is_monotone(low, 1, s, 1);
        rounding_is_monotone(s, 1, pow2(149), 1);
    } else {
        rounding_is_monotone(pow2(149), 1, s, 1);
        if r > one {
            lemma_mag_units_at(126, 0x80_0001);
            lemma_pow2_adds(23, 126);
            assert(0x80_0001 * pow2(126) == pow2(149) + pow2(126)) by (nonlinear_arith)
                requires
                    pow2(149) == 0x80_0000 * pow2(126),
            ;
            lemma_mag_units_order(r, one + 1);
            rounding_is_nearest(s, 1, one);
            assert(mag_units(r) * 1 == mag_units(r));
        }
    }
}

/// From zero to one, a number and its rounded complement sum to one again.
pub proof fn complement_sums_to_one(d: Binary32)
    requires
        d.within(b32(ZERO), b32(ONE)),
        !d.negative(),
    ensures
        (b32(ONE) - d).within(b32(ZERO), b32(ONE)),
        d + (b32(ONE) - d) == b32(ONE),
{
    let one = b32(ONE);
    let rest = one - d;
    lemma_one();
    lemma_sum_kind(one, -d);
    order_is_value_order(d, one);
    lemma_mag_units_order(0, 0);
    let e = (one.value() - d.value()) as nat;
    lemma_rounded_sum_exact(one, false);
    lemma_rounded_sum_order(e as int, false, one.value(), false);
    lemma_rounded_sum_order(0, false, e as int, false);
    if d >= b32(HALF) {
        complement_to_one_is_exact(d);
    } else {
        lemma2_to64();
        lemma_power_mag(-1);
        assert(power_mag(-1) == b32(HALF).mag());
        lemma_mag_units_order(d.mag(), power_mag(-1));
        lemma_pow2_unfold(149);
        lemma_pow2_unfold(125);
        lemma_pow2_pos(125);
        lemma_pow2_adds(24, 125);
        let m = round_half_even(e, pow2(125));
        lemma_fundamental_div_mod(e as int, pow2(125) as int);
        let f = e / pow2(125);
        assert(f <= 0x100_0000) by (nonlinear_arith)
            requires
                e <= 0x100_0000 * pow2(125),
                e >= pow2(125) * f,
                pow2(125) > 0,
        ;
        let left = e % pow2(125);
        assert(f == 0x100_0000 ==> left == 0) by (nonlinear_arith)
            requires
                e <= 0x100_0000 * pow2(125),
                e == pow2(125) * f + left,
                left >= 0,
        ;
        assert(m == f ==> m * pow2(125) == pow2(125) * f) by (nonlinear_arith);
        assert(m == f + 1 ==> m * pow2(125) == pow2(125) * f + pow2(125)) by (nonlinear_arith);
        let other = lemma_representable(m, 125);
        rounding_is_nearest(e, 1, other);
        assert(mag_units(other) * 1 == mag_units(other));
        let r = unbounded_mag(e, 1);
        assert(mag_units(r) * 1 == mag_units(r));
        lemma_rounded_mag_order(e, pow2(149));
        assert(rest.mag() == r && !rest.negative());
        lemma_sum_kind(d, rest);
        lemma_near_one((d.value() + rest.value()) as nat);
    }
}

/// A number that is not zero, over itself, is one.
pub proof fn quotient_with_itself_is_one(x: Binary32)
    requires
        x.finite(),
        !x.zero(),
    ensures
        x / x == b32(ONE),
{
    reveal(Binary32::spec_euclidean_or_real_div);
    lemma_one();
    lemma_mag_units_order(x.mag(), 0);
    rounding_is_exact(ONE as nat, x.units());
    assert(x.units() * pow2(149) == pow2(149) * x.units()) by (nonlinear_arith);
}

/// Dividing by one changes nothing.
pub proof fn quotient_by_one_is_dividend(a: Binary32)
    requires
        !a.nan(),
    ensures
        a / b32(ONE) == a,
{
    reveal(Binary32::spec_euclidean_or_real_div);
    lemma_one();
    if a.finite() {
        rounding_is_exact(a.mag(), pow2(149));
    }
}

} // verus!
