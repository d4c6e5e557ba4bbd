//! Scalar helpers shared by the control algorithms: limits, angles and fast trigonometry.
use vstd::prelude::*;
use crate::arithmetic::addition_is_commutative;
use crate::arithmetic::addition_keeps_order;
use crate::arithmetic::fraction_lies_between_zero_and_whole;
use crate::arithmetic::lemma_div_kind;
use crate::arithmetic::lemma_rounded_sum_exact;
use crate::arithmetic::lemma_rounded_sum_order;
use crate::arithmetic::lemma_sum_kind;
use crate::arithmetic::order_is_value_order;
use crate::arithmetic::quotient_by_larger_is_fraction;
use crate::arithmetic::quotient_follows_signs;
use crate::arithmetic::quotient_of_zero_is_zero;
use crate::arithmetic::sum_error_is_at_most_half_spacing;
use crate::arithmetic::zero_is_neutral;
use crate::binary32::b32;
use crate::binary32::Binary32;
use crate::binary32::MINUS_HALF;
use crate::binary32::MINUS_ONE;
use crate::binary32::ONE;
use crate::binary32::QUIET_NAN;
use crate::binary32::ZERO;
use crate::nearest::lemma_mag_units_at;
use crate::nearest::lemma_mag_units_order;
use crate::nearest::lemma_spacing;
use crate::nearest::rounding_is_exact;
use crate::nearest::rounding_is_monotone;
use crate::nearest::rounding_is_nearest;
use crate::nearest::spacing;
use crate::rounding::lemma_div_mod_unique;
use crate::rounding::lemma_unbounded_mag_at;
use crate::rounding::mag_units;
use crate::rounding::unbounded_mag;
use vstd::arithmetic::power2::lemma2_to64;
use vstd::arithmetic::power2::lemma_pow2_adds;
use vstd::arithmetic::power2::lemma_pow2_pos;
use vstd::arithmetic::power2::lemma_pow2_strictly_increases;
use vstd::arithmetic::power2::lemma_pow2_unfold;
use vstd::arithmetic::power2::pow2;
use vstd::math::abs;

verus! {

/// Encoding of pi.
pub const PI: u32 = 0x4049_0fdb;

/// Encoding of two pi, one electrical revolution in radians.
pub const TWO_PI: u32 = 0x40c9_0fdb;

/// Encoding of the square root of three.
pub const SQRT_3: u32 = 0x3fdd_b3d7;

/// Encoding of the reciprocal of the square root of three.
pub const INV_SQRT_3: u32 = 0x3f13_cd3a;

/// Encoding of half pi.
pub const FRAC_PI_2: u32 = 0x3fc9_0fdb;

/// Encoding of minus half pi.
pub const MINUS_FRAC_PI_2: u32 = 0xbfc9_0fdb;

/// Encoding of minus pi.
pub const MINUS_PI: u32 = 0xc049_0fdb;

/// Encoding of `2^27`, the largest angle from which a revolution can still be subtracted:
/// above it, neighbouring numbers lie more than two revolutions apart.
pub const WRAP_LIMIT: u32 = 0x4d00_0000;

/// Encoding of `-2^-22`, half the distance from two pi to the number below it.
pub const MINUS_HALF_STEP: u32 = 0xb480_0000;

/// `value` limited to the range between two limits, given in either order.
pub open spec fn clamped(value: Binary32, min_value: Binary32, max_value: Binary32) -> Binary32 {
    let (low, high) = if min_value > max_value {
        (max_value, min_value)
    } else {
        (min_value, max_value)
    };
    if value < low {
        low
    } else if value > high {
        high
    } else {
        value
    }
}

/// Limits `value` to the range between the two limits, which may come in either order.
pub fn clamp(value: Binary32, min_value: Binary32, max_value: Binary32) -> (r: Binary32)
    ensures
        r == clamped(value, min_value, max_value),
{
    let (low, high) = if min_value > max_value {
        (max_value, min_value)
    } else {
        (min_value, max_value)
    };
    if value < low {
        low
    } else if value > high {
        high
    } else {
        value
    }
}

/// A limited number lies between the limits.
pub proof fn clamp_stays_in_range(value: Binary32, min_value: Binary32, max_value: Binary32)
    requires
        !value.nan(),
        !min_value.nan(),
        !max_value.nan(),
    ensures
        min_value <= max_value ==> clamped(value, min_value, max_value).within(
            min_value,
            max_value,
        ),
        max_value <= min_value ==> clamped(value, min_value, max_value).within(
            max_value,
            min_value,
        ),
{
}

/// A NaN passes through unchanged.
pub proof fn clamp_passes_nan(value: Binary32, min_value: Binary32, max_value: Binary32)
    requires
        value.nan(),
    ensures
        clamped(value, min_value, max_value) == value,
{
}

/// A number that already lies between the limits is kept.
pub proof fn clamp_keeps_inner_values(value: Binary32, min_value: Binary32, max_value: Binary32)
    requires
        value.within(min_value, max_value),
    ensures
        clamped(value, min_value, max_value) == value,
{
}

/// The two limits may be exchanged.
pub proof fn clamp_ignores_limit_order(value: Binary32, a: Binary32, b: Binary32)
    requires
        !value.nan(),
        !a.nan(),
        !b.nan(),
    ensures
        clamped(value, a, b).same(clamped(value, b, a)),
        !a.same(b) ==> clamped(value, a, b) == clamped(value, b, a),
{
}

/// Limiting twice is limiting once.
pub proof fn clamp_is_idempotent(value: Binary32, min_value: Binary32, max_value: Binary32)
    ensures
        clamped(clamped(value, min_value, max_value), min_value, max_value) == clamped(
            value,
            min_value,
            max_value,
        ),
{
}

/// Limiting keeps order.
pub proof fn clamp_keeps_order(a: Binary32, b: Binary32, min_value: Binary32, max_value: Binary32)
    requires
        a <= b,
        !min_value.nan(),
        !max_value.nan(),
    ensures
        clamped(a, min_value, max_value) <= clamped(b, min_value, max_value),
{
}

/// Whether a number is a NaN or lies between two limits, given in either order.
pub open spec fn limited(x: Binary32, low: Binary32, high: Binary32) -> bool {
    x.nan() || x.within(low, high) || x.within(high, low)
}

/// One, minus one, or zero for zero and NaN.
pub open spec fn sign_of(value: Binary32) -> Binary32 {
    if value > b32(ZERO) {
        b32(ONE)
    } else if value < b32(ZERO) {
        b32(MINUS_ONE)
    } else {
        b32(ZERO)
    }
}

/// One, minus one, or zero for zero and NaN.
pub fn sign(value: Binary32) -> (r: Binary32)
    ensures
        r == sign_of(value),
{
    if value > b32(ZERO) {
        b32(ONE)
    } else if value < b32(ZERO) {
        b32(MINUS_ONE)
    } else {
        b32(ZERO)
    }
}

/// The sign of a value, softened within the boundary layer if there is one.
pub open spec fn saturated(value: Binary32, boundary: Binary32) -> Binary32 {
    if boundary <= b32(ZERO) {
        sign_of(value)
    } else {
        clamped(value / boundary, b32(MINUS_ONE), b32(ONE))
    }
}

/// The sign of a value, softened within the boundary layer if there is one.
pub fn saturate(value: Binary32, boundary: Binary32) -> (r: Binary32)
    ensures
        r == saturated(value, boundary),
{
    if boundary <= b32(ZERO) {
        sign(value)
    } else {
        clamp(value / boundary, b32(MINUS_ONE), b32(ONE))
    }
}

/// The softened sign is a NaN or lies between -1 and 1, is zero on the surface, and has the
/// sign of the value.
pub proof fn saturated_sign_is_limited(value: Binary32, boundary: Binary32)
    requires
        !value.nan(),
        !boundary.nan(),
    ensures
        limited(saturated(value, boundary), b32(MINUS_ONE), b32(ONE)),
        value.zero() ==> saturated(value, boundary).zero(),
        value.finite() && value >= b32(ZERO) ==> saturated(value, boundary) >= b32(ZERO),
        value.finite() && value <= b32(ZERO) ==> saturated(value, boundary) <= b32(ZERO),
{
    if boundary > b32(ZERO) {
        lemma_div_kind(value, boundary);
        if value.zero() {
            quotient_of_zero_is_zero(value, boundary);
        }
        if value.finite() {
            quotient_follows_signs(value, boundary);
        }
    }
}

/// The inputs on which wrapping an angle comes to an end: numbers of size up to `2^27`,
/// and those that are not finite.
pub open spec fn wrappable(x: Binary32) -> bool {
    !x.finite() || x.mag() <= WRAP_LIMIT
}

/// Whether wrapping `x` comes to an end.
pub fn is_wrappable(x: Binary32) -> (r: bool)
    ensures
        r == wrappable(x),
{
    !x.is_finite() || x.magnitude() <= WRAP_LIMIT
}

/// `x` less whole revolutions until it is below one, as far as subtracting changes it.
pub open spec fn lowered(x: Binary32) -> Binary32
    decreases
        (if x.rank() < 0 {
            0
        } else {
            x.rank()
        }),
{
    let next = x - b32(TWO_PI);
    if x >= b32(TWO_PI) && next.rank() < x.rank() {
        lowered(next)
    } else {
        x
    }
}

/// `x` plus whole revolutions until it is not negative, as far as adding changes it.
pub open spec fn raised(x: Binary32) -> Binary32
    decreases
        (if x.rank() < 0 {
            -x.rank()
        } else {
            0
        }),
{
    let next = x + b32(TWO_PI);
    if x < b32(ZERO) && next.rank() > x.rank() {
        raised(next)
    } else {
        x
    }
}

/// The angle equal to `x` up to whole revolutions, in the first revolution: 0 where the sum
/// would round to a full revolution, and NaN for an angle that is not finite.
pub open spec fn wrapped_angle(x: Binary32) -> Binary32 {
    if x.finite() {
        if raised(lowered(x)) >= b32(TWO_PI) {
            b32(ZERO)
        } else {
            raised(lowered(x))
        }
    } else {
        b32(QUIET_NAN)
    }
}

/// Whether a number is a NaN or an angle in the first revolution, below two pi.
pub open spec fn angle_or_nan(theta: Binary32) -> bool {
    theta.nan() || (theta >= b32(ZERO) && theta < b32(TWO_PI))
}

/// The angle equal to `x` up to whole revolutions, between minus pi and pi.
pub open spec fn centred_angle(x: Binary32) -> Binary32 {
    wrapped_angle(x + b32(PI)) - b32(PI)
}

/// Neighbouring magnitudes up to the limit lie less than two revolutions apart.
proof fn lemma_gap(mag: nat)
    requires
        0 < mag <= WRAP_LIMIT,
    ensures
        0 < mag_units(mag) - mag_units((mag - 1) as nat) <= pow2(152),
{
    let prev = (mag - 1) as nat;
    let e = prev / 0x80_0000;
    lemma_pow2_pos(152);
    lemma2_to64();
    if e == 0 {
        lemma_mag_units_at(0, prev);
        lemma_mag_units_at(0, mag);
        assert(prev * pow2(0) == prev);
        assert(mag * pow2(0) == mag);
    } else {
        let k = (e - 1) as nat;
        let s = 0x80_0000 + prev % 0x80_0000;
        lemma_mag_units_at(k, s);
        lemma_mag_units_at(k, s + 1);
        assert((s + 1) * pow2(k) - s * pow2(k) == pow2(k)) by (nonlinear_arith);
        lemma_pow2_pos(k);
        if k < 152 {
            lemma_pow2_strictly_increases(k, 152);
        }
    }
}

/// One revolution in units of `2^-149`.
pub proof fn lemma_two_pi()
    ensures
        b32(TWO_PI).finite(),
        b32(TWO_PI).value() == 0xc9_0fdb * pow2(128),
        pow2(152) < 2 * b32(TWO_PI).value(),
        b32(MINUS_HALF_STEP).finite(),
        b32(MINUS_HALF_STEP).value() == -pow2(127),
        pow2(128) == 2 * pow2(127),
        pow2(127) > 0,
        (-b32(TWO_PI)).value() == -b32(TWO_PI).value(),
        (-b32(TWO_PI)).negative(),
{
    assert(TWO_PI / 0x80_0000 == 129 && TWO_PI % 0x80_0000 == 0x49_0fdb);
    lemma_mag_units_at(128, 0xc9_0fdb);
    assert(b32(TWO_PI).units() == 0xc9_0fdb * pow2(128));
    lemma2_to64();
    lemma_pow2_adds(24, 128);
    lemma_pow2_pos(128);
    lemma_pow2_pos(127);
    lemma_pow2_unfold(128);
    assert(MINUS_HALF_STEP % 0x8000_0000 == 0x3480_0000);
    lemma_mag_units_at(104, 0x80_0000);
    lemma_pow2_adds(23, 104);
}

/// Subtracting a revolution lowers every angle above zero and up to the limit.
proof fn lemma_step(mag: nat)
    requires
        0 < mag <= WRAP_LIMIT,
        mag_units(mag) > b32(TWO_PI).value(),
    ensures
        unbounded_mag((mag_units(mag) - b32(TWO_PI).value()) as nat, 1) < mag,
{
    let u = mag_units(mag);
    let t = b32(TWO_PI).value();
    lemma_two_pi();
    lemma_gap(mag);
    let rest = (u - t) as nat;
    let r = unbounded_mag(rest, 1);
    rounding_is_exact(mag, 1);
    assert(u * 1 == u);
    rounding_is_monotone(rest, 1, u, 1);
    if r == mag {
        rounding_is_nearest(rest, 1, (mag - 1) as nat);
        assert(mag_units(r) * 1 == u);
        assert(mag_units((mag - 1) as nat) * 1 == mag_units((mag - 1) as nat));
    }
}

/// Every wrappable angle at or above a revolution gets smaller by one, but not below zero.
proof fn lemma_lowering_step(x: Binary32)
    requires
        x.finite(),
        wrappable(x),
        x >= b32(TWO_PI),
    ensures
        ({
            let next = x - b32(TWO_PI);
            &&& next.finite()
            &&& next.rank() < x.rank()
            &&& next.rank() >= 0
            &&& wrappable(next)
        }),
{
    let t = b32(TWO_PI);
    lemma_two_pi();
    order_is_value_order(t, x);
    lemma_sum_kind(x, -t);
    if x.value() > t.value() {
        lemma_step(x.mag());
    }
}

/// Every wrappable negative angle gets larger by adding a revolution, up to one revolution.
proof fn lemma_raising_step(x: Binary32)
    requires
        x.finite(),
        wrappable(x),
        x < b32(ZERO),
    ensures
        ({
            let next = x + b32(TWO_PI);
            &&& next.finite()
            &&& next.rank() > x.rank()
            &&& next <= b32(TWO_PI)
            &&& wrappable(next)
        }),
{
    let t = b32(TWO_PI);
    lemma_two_pi();
    lemma_sum_kind(x, t);
    lemma_mag_units_order(x.mag(), 0);
    lemma_rounded_sum_exact(t, false);
    lemma_rounded_sum_order(x.value() + t.value(), false, t.value(), false);
    if x.value() + t.value() < 0 {
        lemma_step(x.mag());
    }
}

/// The angle in the first revolution that equals `angle_rad` up to whole revolutions; NaN
/// for an angle that is not finite.
pub fn wrap_angle_0_to_2pi(angle_rad: Binary32) -> (r: Binary32)
    requires
        wrappable(angle_rad),
    ensures
        r == wrapped_angle(angle_rad),
{
    if !angle_rad.is_finite() {
        return b32(QUIET_NAN);
    }
    let mut wrapped: Binary32 = angle_rad;
    while wrapped >= b32(TWO_PI)
        invariant
            wrapped.finite(),
            wrappable(wrapped),
            lowered(wrapped) == lowered(angle_rad),
        decreases
                (if wrapped.rank() < 0 {
                    0
                } else {
                    wrapped.rank()
                }),
    {
        proof {
            lemma_lowering_step(wrapped);
        }
        wrapped = wrapped - b32(TWO_PI);
    }
    while wrapped < b32(ZERO)
        invariant
            wrapped.finite(),
            wrappable(wrapped),
            raised(wrapped) == raised(lowered(angle_rad)),
        decreases
                (if wrapped.rank() < 0 {
                    -wrapped.rank()
                } else {
                    0
                }),
    {
        proof {
            lemma_raising_step(wrapped);
        }
        wrapped = wrapped + b32(TWO_PI);
    }
    if wrapped >= b32(TWO_PI) {
        wrapped = b32(ZERO);
    }
    wrapped
}

/// The angle between minus pi and pi that equals `angle_rad` up to whole revolutions.
pub fn wrap_angle_minus_pi_to_pi(angle_rad: Binary32) -> (r: Binary32)
    requires
        wrappable(angle_rad + b32(PI)),
    ensures
        r == centred_angle(angle_rad),
{
    wrap_angle_0_to_2pi(angle_rad + b32(PI)) - b32(PI)
}

/// A function of one number that is defined everywhere.
pub open spec fn total<F: Fn(Binary32) -> Binary32>(f: F) -> bool {
    forall|x: Binary32| #[trigger] f.requires((x,))
}

/// An arctangent of two numbers: defined everywhere, with angles that can be wrapped.
pub open spec fn arctangent<A: Fn(Binary32, Binary32) -> Binary32>(f: A) -> bool {
    &&& forall|y: Binary32, x: Binary32| #[trigger] f.requires((y, x))
    &&& forall|y: Binary32, x: Binary32, a: Binary32| #[trigger]
        f.ensures((y, x), a) ==> wrappable(a)
}

/// The direction of the vector `(x, y)` in the first revolution, from an arctangent with
/// results between minus pi and pi.
pub fn atan2_angle_0_to_2pi<A: Fn(Binary32, Binary32) -> Binary32>(
    y: Binary32,
    x: Binary32,
    atan2: &A,
) -> (r: Binary32)
    requires
        atan2.requires((y, x)),
        forall|a: Binary32| atan2.ensures((y, x), a) ==> wrappable(a),
    ensures
        exists|a: Binary32| atan2.ensures((y, x), a) && r == wrapped_angle(a),
{
    let a: Binary32 = atan2(y, x);
    wrap_angle_0_to_2pi(a)
}

/// How one added revolution rounds: it completes to a full revolution exactly from the
/// negative angles smaller than half a step, and never falls just short of zero.
proof fn lemma_near_two_pi(x: Binary32)
    requires
        x.finite(),
        wrappable(x),
        x < b32(ZERO),
    ensures
        x + b32(TWO_PI) < b32(TWO_PI) <==> x <= b32(MINUS_HALF_STEP),
        x + b32(TWO_PI) < b32(ZERO) ==> x + b32(TWO_PI) <= b32(MINUS_HALF_STEP),
{
    let t = b32(TWO_PI);
    let half = b32(MINUS_HALF_STEP);
    let v = x.value();
    let s = v + t.value();
    lemma_two_pi();
    lemma_sum_kind(x, t);
    lemma_mag_units_order(x.mag(), 0);
    order_is_value_order(x, half);
    lemma_raising_step(x);
    lemma_mag_units_at(128, 0xc9_0fda);
    lemma_mag_units_at(128, 0xc9_0fdb);
    lemma_mag_units_at(128, 0xc9_0fdc);
    let mt = t.mag();
    if v > half.value() {
        let r = unbounded_mag(s as nat, 1);
        rounding_is_exact(mt, 1);
        assert(mag_units(mt) * 1 == mag_units(mt));
        rounding_is_monotone(s as nat, 1, mag_units(mt), 1);
        if r < mt {
            rounding_is_nearest(s as nat, 1, mt);
            assert(mag_units(r) * 1 == mag_units(r));
            lemma_mag_units_order((mt - 1) as nat, r);
        }
    } else if s > 0 {
        let top = (t.value() - pow2(127)) as nat;
        lemma_pow2_pos(128);
        lemma_unbounded_mag_at(top, 1, 128);
        assert(1 * pow2(128) == pow2(128));
        lemma_div_mod_unique(top, pow2(128), 0xc9_0fda, pow2(127));
        assert(unbounded_mag(top, 1) == mt - 1);
        rounding_is_monotone(s as nat, 1, top, 1);
    } else if s < 0 {
        lemma_mag_units_order(mt, x.mag());
        lemma_mag_units_order(x.mag(), mt + 1);
        lemma_rounded_sum_exact(half, false);
        lemma_rounded_sum_order(s, false, half.value(), false);
    }
}

proof fn lemma_lowered_range(x: Binary32)
    requires
        x.finite(),
        wrappable(x),
    ensures
        lowered(x).finite(),
        wrappable(lowered(x)),
        lowered(x) < b32(TWO_PI),
        x < b32(TWO_PI) ==> lowered(x) == x,
        x >= b32(ZERO) ==> lowered(x) >= b32(ZERO),
    decreases
            (if x.rank() < 0 {
                0
            } else {
                x.rank()
            }),
{
    if x >= b32(TWO_PI) {
        lemma_lowering_step(x);
        lemma_lowered_range(x - b32(TWO_PI));
    }
}

proof fn lemma_raised_range(x: Binary32)
    requires
        x.finite(),
        wrappable(x),
        x < b32(TWO_PI),
    ensures
        raised(x).finite(),
        raised(x).within(b32(ZERO), b32(TWO_PI)),
        raised(x) < b32(TWO_PI) <==> !(b32(MINUS_HALF_STEP) < x && x < b32(ZERO)),
    decreases
            (if x.rank() < 0 {
                -x.rank()
            } else {
                0
            }),
{
    if x < b32(ZERO) {
        let next = x + b32(TWO_PI);
        lemma_raising_step(x);
        lemma_near_two_pi(x);
        if next < b32(ZERO) {
            lemma_raised_range(next);
        } else {
            assert(raised(x) == raised(next));
            assert(raised(next) == next);
        }
    }
}

/// A wrapped angle lies in the first revolution, below two pi.
pub proof fn wrapped_angle_lies_in_first_revolution(x: Binary32)
    requires
        x.finite(),
        wrappable(x),
    ensures
        wrapped_angle(x).finite(),
        wrapped_angle(x) >= b32(ZERO),
        wrapped_angle(x) < b32(TWO_PI),
{
    lemma_lowered_range(x);
    lemma_raised_range(lowered(x));
}

/// What wrapping gives is a NaN or an angle in the first revolution.
pub proof fn wrapped_angle_is_angle_or_nan(x: Binary32)
    requires
        wrappable(x),
    ensures
        angle_or_nan(wrapped_angle(x)),
{
    if x.finite() {
        wrapped_angle_lies_in_first_revolution(x);
    }
}

/// An angle in the first revolution is already wrapped.
pub proof fn wrapping_keeps_first_revolution(x: Binary32)
    requires
        x >= b32(ZERO),
        x < b32(TWO_PI),
    ensures
        wrapped_angle(x) == x,
{
}

/// Wrapping twice is wrapping once.
pub proof fn wrapping_is_idempotent(x: Binary32)
    requires
        wrappable(x),
    ensures
        wrapped_angle(wrapped_angle(x)) == wrapped_angle(x),
{
    if x.finite() {
        wrapped_angle_lies_in_first_revolution(x);
    }
}

/// An angle that is not finite wraps to NaN, and no other does.
pub proof fn wrapping_is_nan_only_for_non_finite(x: Binary32)
    requires
        wrappable(x),
    ensures
        wrapped_angle(x).nan() <==> !x.finite(),
{
    if x.finite() {
        wrapped_angle_lies_in_first_revolution(x);
    }
}

/// The distance between neighbouring numbers of the size of an angle, or of one revolution
/// where the angle is smaller.
pub open spec fn angle_spacing(x: Binary32) -> nat {
    if x.mag() < TWO_PI {
        spacing(TWO_PI as nat)
    } else {
        spacing(x.mag())
    }
}

proof fn lemma_angle_spacing(a: Binary32, b: Binary32)
    requires
        a.mag() <= b.mag() || a.mag() <= TWO_PI,
    ensures
        angle_spacing(a) <= angle_spacing(b),
{
    if b.mag() >= TWO_PI {
        lemma_spacing(TWO_PI as nat, b.mag());
    }
    if a.mag() >= TWO_PI && a.mag() <= b.mag() {
        lemma_spacing(a.mag(), b.mag());
    }
}

/// How far from `x - turns` revolutions an angle lies.
pub open spec fn deviation(angle: Binary32, x: Binary32, turns: int) -> nat {
    abs(angle.value() - (x.value() - turns * b32(TWO_PI).value()))
}

proof fn lemma_lowered_error(x: Binary32) -> (turns: nat)
    requires
        x.finite(),
        wrappable(x),
    ensures
        2 * deviation(lowered(x), x, turns as int) <= turns * angle_spacing(x),
        turns > 0 <==> x >= b32(TWO_PI),
    decreases
            (if x.rank() < 0 {
                0
            } else {
                x.rank()
            }),
{
    let t = b32(TWO_PI);
    if x >= t {
        let next = x - t;
        lemma_lowering_step(x);
        lemma_two_pi();
        order_is_value_order(t, x);
        lemma_mag_units_order(t.mag(), x.mag());
        sum_error_is_at_most_half_spacing(x, -t, x.mag());
        let more = lemma_lowered_error(next);
        lemma_angle_spacing(next, x);
        assert(more * angle_spacing(next) <= more * angle_spacing(x)) by (nonlinear_arith)
            requires
                angle_spacing(next) <= angle_spacing(x),
        ;
        assert((more + 1) * t.value() == more * t.value() + t.value()) by (nonlinear_arith);
        assert((more + 1) * angle_spacing(x) == more * angle_spacing(x) + angle_spacing(x))
            by (nonlinear_arith);
        more + 1
    } else {
        assert(0 * t.value() == 0);
        assert(0 * angle_spacing(x) == 0);
        0
    }
}

proof fn lemma_raised_error(x: Binary32) -> (turns: nat)
    requires
        x.finite(),
        wrappable(x),
    ensures
        2 * deviation(raised(x), x, -(turns as int)) <= turns * angle_spacing(x),
        turns > 0 <==> x < b32(ZERO),
    decreases
            (if x.rank() < 0 {
                -x.rank()
            } else {
                0
            }),
{
    let t = b32(TWO_PI);
    if x < b32(ZERO) {
        let next = x + t;
        let larger = if x.mag() < TWO_PI {
            TWO_PI as nat
        } else {
            x.mag()
        };
        lemma_raising_step(x);
        lemma_two_pi();
        lemma_mag_units_order(t.mag(), x.mag());
        lemma_mag_units_order(x.mag(), 0);
        sum_error_is_at_most_half_spacing(x, t, larger);
        let more = lemma_raised_error(next);
        lemma_angle_spacing(next, x);
        assert(more * angle_spacing(next) <= more * angle_spacing(x)) by (nonlinear_arith)
            requires
                angle_spacing(next) <= angle_spacing(x),
        ;
        assert(-(more + 1) * t.value() == -more * t.value() - t.value()) by (nonlinear_arith);
        assert((more + 1) * angle_spacing(x) == more * angle_spacing(x) + angle_spacing(x))
            by (nonlinear_arith);
        more + 1
    } else {
        assert(0 * t.value() == 0);
        assert(0 * angle_spacing(x) == 0);
        0
    }
}

/// Wrapping takes whole revolutions away: the result lies a number of revolutions from the
/// angle, up to a rounding by half a step for each of them. The negative angles smaller
/// than half a step go to zero, with no revolution.
pub proof fn wrapping_takes_whole_revolutions(x: Binary32) -> (turns: int)
    requires
        x.finite(),
        wrappable(x),
    ensures
        turns > 0 <==> x >= b32(TWO_PI),
        turns < 0 <==> x <= b32(MINUS_HALF_STEP),
        turns != 0 ==> 2 * deviation(wrapped_angle(x), x, turns) <= abs(turns) * angle_spacing(x),
        turns == 0 && x >= b32(ZERO) ==> wrapped_angle(x) == x,
        turns == 0 && x < b32(ZERO) ==> wrapped_angle(x) == b32(ZERO) && 2 * deviation(
            wrapped_angle(x),
            x,
            0,
        ) <= angle_spacing(x),
{
    lemma_two_pi();
    lemma_lowered_range(x);
    lemma_raised_range(lowered(x));
    order_is_value_order(x, b32(ZERO));
    order_is_value_order(b32(MINUS_HALF_STEP), x);
    lemma_mag_units_order(0, 0);
    if x >= b32(ZERO) {
        lemma_lowered_error(x) as int
    } else if x <= b32(MINUS_HALF_STEP) {
        -(lemma_raised_error(x) as int)
    } else {
        lemma_spacing(TWO_PI as nat, TWO_PI as nat);
        lemma_mag_units_at(128, 0xc9_0fdb);
        lemma_mag_units_at(128, 0xc9_0fdc);
        lemma_mag_units_order(x.mag(), (MINUS_HALF_STEP - 0x8000_0000) as nat);
        assert(0 * b32(TWO_PI).value() == 0);
        0
    }
}

/// Wrapping an angle of up to two revolutions, up to three roundings.
pub proof fn lemma_small_wrap(x: Binary32) -> (turns: int)
    requires
        x.finite(),
        abs(x.value()) <= 2 * b32(TWO_PI).value(),
    ensures
        deviation(wrapped_angle(x), x, turns) <= 3 * pow2(128),
        wrapped_angle(x).finite(),
        0 <= wrapped_angle(x).value() < b32(TWO_PI).value(),
{
    let t = b32(TWO_PI).value();
    let w = wrapped_angle(x);
    lemma_two_pi();
    lemma_pow2_unfold(129);
    lemma_mag_units_at(129, 0xc9_0fdb);
    lemma_mag_units_order(x.mag(), (TWO_PI + 0x80_0000) as nat);
    assert(x.mag() <= TWO_PI + 0x80_0000);
    let turns = wrapping_takes_whole_revolutions(x);
    wrapped_angle_lies_in_first_revolution(x);
    lemma_mag_units_order(0, 0);
    order_is_value_order(b32(ZERO), w);
    order_is_value_order(w, b32(TWO_PI));
    let step = angle_spacing(x);
    assert(step <= 2 * pow2(128)) by {
        lemma_spacing(TWO_PI as nat, TWO_PI as nat);
        assert(TWO_PI as nat / 0x80_0000 == 129);
        assert((TWO_PI + 0x80_0000) as nat / 0x80_0000 == 130);
        if x.mag() >= TWO_PI {
            lemma_spacing(x.mag(), (TWO_PI + 0x80_0000) as nat);
        }
    }
    let n = abs(turns);
    let dev = deviation(w, x, turns);
    if turns != 0 {
        assert(2 * dev <= n * (2 * pow2(128))) by (nonlinear_arith)
            requires
                2 * dev <= n * step,
                step <= 2 * pow2(128),
        ;
        assert(abs(turns * t) == n * t) by (nonlinear_arith)
            requires
                n == abs(turns),
                t > 0,
        ;
        assert(n <= 3) by (nonlinear_arith)
            requires
                n * t <= 3 * t + dev,
                2 * dev <= n * (2 * pow2(128)),
                t == 0xc9_0fdb * pow2(128),
                pow2(128) > 0,
        ;
        assert(n * (2 * pow2(128)) <= 6 * pow2(128)) by (nonlinear_arith)
            requires
                n <= 3,
        ;
    } else {
        assert(0 * t == 0);
    }
    turns
}

/// The encoding of none, one or two revolutions.
pub open spec fn revolution_mag(turns: nat) -> nat {
    if turns == 2 {
        TWO_PI as nat + 0x80_0000
    } else if turns == 1 {
        TWO_PI as nat
    } else {
        0
    }
}

/// The size of none, one or two revolutions.
proof fn lemma_revolution_mag(turns: nat)
    requires
        turns <= 2,
    ensures
        mag_units(revolution_mag(turns)) == turns * b32(TWO_PI).value(),
{
    let t = b32(TWO_PI).value();
    lemma_two_pi();
    lemma_mag_units_order(0, 0);
    if turns == 2 {
        lemma_mag_units_at(128, 0xc9_0fdb);
        lemma_mag_units_at(129, 0xc9_0fdb);
        lemma_pow2_unfold(129);
        assert(TWO_PI as nat == 0x80_0000 * 128 + 0xc9_0fdb);
        assert(revolution_mag(2) == 0x80_0000 * 129 + 0xc9_0fdb);
        assert(t == 0xc9_0fdb * pow2(128));
        assert(mag_units(revolution_mag(2)) == 0xc9_0fdb * pow2(129));
    } else if turns == 1 {
        assert(1 * t == t);
    } else {
        assert(0 * t == 0);
    }
}

/// Up to two revolutions in either direction wrap exactly to zero. Beyond them rounding of
/// the steps can leave a rest.
pub proof fn wrapping_of_whole_revolutions_is_zero(x: Binary32, turns: int)
    requires
        x.finite(),
        -2 <= turns <= 2,
        x.value() == turns * b32(TWO_PI).value(),
    ensures
        wrapped_angle(x).zero(),
{
    let t = b32(TWO_PI);
    let m = revolution_mag(abs(turns));
    lemma_two_pi();
    lemma_mag_units_order(0, 0);
    lemma_revolution_mag(abs(turns));
    assert(turns * t.value() == if turns < 0 {
        -(abs(turns) * t.value())
    } else {
        abs(turns) * t.value()
    }) by (nonlinear_arith);
    lemma_mag_units_order(x.mag(), m);
    assert(x.mag() == m);
    assert(wrappable(x));
    lemma_sum_kind(x, -t);
    lemma_sum_kind(x, t);
    lemma_sum_kind(t, -t);
    lemma_sum_kind(-t, t);
    lemma_rounded_sum_exact(t, false);
    lemma_rounded_sum_exact(-t, false);
    lemma_rounded_sum_exact(-t, true);
    reveal_with_fuel(lowered, 3);
    reveal_with_fuel(raised, 3);
    order_is_value_order(t, x);
    order_is_value_order(x, b32(ZERO));
}

/// A centred angle lies between minus pi and pi, below pi.
pub proof fn centred_angle_lies_between_minus_pi_and_pi(x: Binary32)
    requires
        wrappable(x + b32(PI)),
        (x + b32(PI)).finite(),
    ensures
        centred_angle(x) >= b32(MINUS_PI),
        centred_angle(x) < b32(PI),
{
    let r = wrapped_angle(x + b32(PI));
    let zero = b32(ZERO);
    let pi = b32(PI);
    wrapped_angle_lies_in_first_revolution(x + pi);
    assert(-pi == b32(MINUS_PI));
    lemma_sum_kind(r, -pi);
    lemma_sum_kind(zero, -pi);
    lemma_sum_kind(b32(TWO_PI), -pi);
    lemma_two_pi();
    lemma_mag_units_at(127, 0xc9_0fdb);
    lemma_pow2_unfold(128);
    assert(b32(TWO_PI).value() == 2 * pi.value());
    lemma_mag_units_order(0, 0);
    assert(zero.value() == 0);
    lemma_rounded_sum_exact(-pi, false);
    lemma_rounded_sum_exact(pi, false);
    addition_keeps_order(zero, r, -pi);
    let below = b32((PI - 1) as u32);
    lemma_mag_units_at(128, 0xc9_0fda);
    lemma_mag_units_at(127, 0xc9_0fda);
    lemma_mag_units_order(r.mag(), (TWO_PI - 1) as nat);
    lemma_rounded_sum_exact(below, false);
    lemma_rounded_sum_order(r.value() - pi.value(), false, below.value(), false);
}

/// Encoding of `-1/6`.
pub const SIN_3: u32 = 0xbe2a_aaab;

/// Encoding of `1/120`.
pub const SIN_5: u32 = 0x3c08_8889;

/// Encoding of `-1/5040`.
pub const SIN_7: u32 = 0xb950_0d01;

/// Encoding of `1/362880`.
pub const SIN_9: u32 = 0x3638_ef1d;

/// Encoding of `1/24`.
pub const COS_4: u32 = 0x3d2a_aaab;

/// Encoding of `-1/720`.
pub const COS_6: u32 = 0xbab6_0b61;

/// Encoding of `1/40320`.
pub const COS_8: u32 = 0x37d0_0d01;

/// Encoding of `0.999866`.
pub const ATAN_1: u32 = 0x3f7f_f738;

/// Encoding of `-0.3302995`.
pub const ATAN_3: u32 = 0xbea9_1d04;

/// Encoding of `0.180141`.
pub const ATAN_5: u32 = 0x3e38_76e2;

/// Encoding of `-0.085133`.
pub const ATAN_7: u32 = 0xbdae_5a36;

/// Encoding of `0.0208351`.
pub const ATAN_9: u32 = 0x3caa_ae5f;

/// A centred angle mirrored into the range from minus half pi to half pi, with the sign
/// that the cosine then needs.
pub open spec fn folded(reduced: Binary32) -> (Binary32, Binary32) {
    if reduced > b32(FRAC_PI_2) {
        (b32(PI) - reduced, b32(MINUS_ONE))
    } else if reduced < b32(MINUS_FRAC_PI_2) {
        (b32(MINUS_PI) - reduced, b32(MINUS_ONE))
    } else {
        (reduced, b32(ONE))
    }
}

/// The sine series up to the ninth power, evaluated from the innermost term.
pub open spec fn sine_series(x: Binary32) -> Binary32 {
    let squared = x * x;
    x * (b32(ONE) + squared * (b32(SIN_3) + squared * (b32(SIN_5) + squared * (b32(SIN_7) + squared
        * b32(SIN_9)))))
}

/// The cosine series up to the eighth power, evaluated from the innermost term.
pub open spec fn cosine_series(x: Binary32) -> Binary32 {
    let squared = x * x;
    b32(ONE) + squared * (b32(MINUS_HALF) + squared * (b32(COS_4) + squared * (b32(COS_6) + squared
        * b32(COS_8))))
}

/// Sine and cosine by series after folding the angle; NaN for an angle that is not finite.
pub open spec fn fast_sin_cos_of(angle_rad: Binary32) -> (Binary32, Binary32) {
    if angle_rad.finite() {
        let (x, cosine_sign) = folded(centred_angle(angle_rad));
        (sine_series(x), cosine_sign * cosine_series(x))
    } else {
        (b32(QUIET_NAN), b32(QUIET_NAN))
    }
}

/// Sine and cosine of an angle by polynomials; two NaNs for an angle that is not finite.
pub fn fast_sin_cos(angle_rad: Binary32) -> (r: (Binary32, Binary32))
    requires
        angle_rad.finite() ==> wrappable(angle_rad + b32(PI)),
    ensures
        r == fast_sin_cos_of(angle_rad),
{
    if !angle_rad.is_finite() {
        return (b32(QUIET_NAN), b32(QUIET_NAN));
    }
    let mut reduced: Binary32 = wrap_angle_minus_pi_to_pi(angle_rad);
    let mut cosine_sign: Binary32 = b32(ONE);
    if reduced > b32(FRAC_PI_2) {
        reduced = b32(PI) - reduced;
        cosine_sign = b32(MINUS_ONE);
    } else if reduced < b32(MINUS_FRAC_PI_2) {
        reduced = b32(MINUS_PI) - reduced;
        cosine_sign = b32(MINUS_ONE);
    }
    let squared: Binary32 = reduced * reduced;
    let sine: Binary32 = reduced * (b32(ONE) + squared * (b32(SIN_3) + squared * (b32(SIN_5)
        + squared * (b32(SIN_7) + squared * b32(SIN_9)))));
    let cosine: Binary32 = cosine_sign * (b32(ONE) + squared * (b32(MINUS_HALF) + squared * (b32(
        COS_4,
    ) + squared * (b32(COS_6) + squared * b32(COS_8)))));
    (sine, cosine)
}

/// The arctangent polynomial for a ratio between 0 and 1.
pub open spec fn atan_series(ratio: Binary32) -> Binary32 {
    let squared = ratio * ratio;
    ratio * (b32(ATAN_1) + squared * (b32(ATAN_3) + squared * (b32(ATAN_5) + squared * (b32(ATAN_7)
        + squared * b32(ATAN_9)))))
}

/// The direction of the vector `(abs_x, abs_y)` in the first quadrant.
pub open spec fn first_quadrant_angle(abs_y: Binary32, abs_x: Binary32) -> Binary32 {
    if abs_x >= abs_y {
        atan_series(abs_y / abs_x)
    } else {
        b32(FRAC_PI_2) - atan_series(abs_x / abs_y)
    }
}

/// The direction of the vector `(x, |y|)` in the upper half plane.
pub open spec fn upper_direction(y: Binary32, x: Binary32) -> Binary32 {
    let first = first_quadrant_angle(y.size(), x.size());
    if x < b32(ZERO) {
        b32(PI) - first
    } else {
        first
    }
}

/// The direction of the vector `(x, y)`: 0 for the zero vector and where the direction
/// would round to a full revolution, NaN where a coordinate is not finite.
pub open spec fn fast_direction(y: Binary32, x: Binary32) -> Binary32 {
    if !x.finite() || !y.finite() {
        b32(QUIET_NAN)
    } else if x.zero() && y.zero() {
        b32(ZERO)
    } else {
        let upper = upper_direction(y, x);
        if y < b32(ZERO) {
            if b32(TWO_PI) - upper >= b32(TWO_PI) {
                b32(ZERO)
            } else {
                b32(TWO_PI) - upper
            }
        } else {
            upper
        }
    }
}

fn atan_first_octant(ratio: Binary32) -> (r: Binary32)
    ensures
        r == atan_series(ratio),
{
    let squared: Binary32 = ratio * ratio;
    ratio * (b32(ATAN_1) + squared * (b32(ATAN_3) + squared * (b32(ATAN_5) + squared * (b32(ATAN_7)
        + squared * b32(ATAN_9)))))
}

/// The direction of the vector `(x, y)` by a polynomial, folded by octant and quadrant.
pub fn fast_atan2_angle_0_to_2pi(y: Binary32, x: Binary32) -> (r: Binary32)
    ensures
        r == fast_direction(y, x),
{
    if !x.is_finite() || !y.is_finite() {
        return b32(QUIET_NAN);
    }
    let abs_x: Binary32 = x.abs();
    let abs_y: Binary32 = y.abs();
    if abs_x == b32(ZERO) && abs_y == b32(ZERO) {
        return b32(ZERO);
    }
    let first_quadrant: Binary32 = if abs_x >= abs_y {
        atan_first_octant(abs_y / abs_x)
    } else {
        b32(FRAC_PI_2) - atan_first_octant(abs_x / abs_y)
    };
    let upper_half: Binary32 = if x < b32(ZERO) {
        b32(PI) - first_quadrant
    } else {
        first_quadrant
    };
    if y < b32(ZERO) {
        let lower_half: Binary32 = b32(TWO_PI) - upper_half;
        if lower_half >= b32(TWO_PI) {
            b32(ZERO)
        } else {
            lower_half
        }
    } else {
        upper_half
    }
}

/// Folding brings a centred angle between minus half pi and half pi.
pub proof fn folded_angle_lies_in_half_revolution(x: Binary32)
    requires
        x.within(b32(MINUS_PI), b32(PI)),
    ensures
        folded(x).0.within(b32(MINUS_FRAC_PI_2), b32(FRAC_PI_2)),
{
    let pi = b32(PI);
    let half = b32(FRAC_PI_2);
    assert(-pi == b32(MINUS_PI) && -half == b32(MINUS_FRAC_PI_2));
    lemma_mag_units_at(127, 0xc9_0fdb);
    lemma_mag_units_at(126, 0xc9_0fdb);
    lemma_pow2_unfold(127);
    assert(pi.mag() == 0x80_0000 * 127 + 0xc9_0fdb);
    assert(half.mag() == 0x80_0000 * 126 + 0xc9_0fdb);
    assert(pi.units() == 0xc9_0fdb * pow2(127));
    assert(half.units() == 0xc9_0fdb * pow2(126));
    assert(pi.value() == 2 * half.value());
    lemma_sum_kind(pi, -x);
    lemma_sum_kind(-pi, -x);
    order_is_value_order(x, half);
    order_is_value_order(x, -half);
    order_is_value_order(x, pi);
    order_is_value_order(x, -pi);
    lemma_rounded_sum_exact(half, false);
    lemma_rounded_sum_exact(-half, false);
    if x > half {
        lemma_rounded_sum_order(0, false, pi.value() - x.value(), false);
        lemma_rounded_sum_order(pi.value() - x.value(), false, half.value(), false);
    } else if x < -half {
        lemma_rounded_sum_order(-pi.value() - x.value(), x.negative() == false, 0, false);
        lemma_rounded_sum_order(-half.value(), false, -pi.value() - x.value(), !x.negative());
    }
}

/// Adding to `c` a number between 0 and a smaller `d` of the opposite sign moves it
/// towards zero, but not past it.
proof fn lemma_partial_sum(c: Binary32, d: Binary32, q: Binary32)
    requires
        c.finite(),
        d.finite(),
        q.finite(),
        c.negative() != d.negative(),
        d.mag() <= c.mag(),
        d.negative() ==> q.within(d, b32(ZERO)),
        !d.negative() ==> q.within(b32(ZERO), d),
    ensures
        (c + q).finite(),
        c.negative() ==> (c + q).within(c, b32(ZERO)),
        !c.negative() ==> (c + q).within(b32(ZERO), c),
{
    let zero = b32(ZERO);
    lemma_sum_kind(c, q);
    lemma_mag_units_order(d.mag(), c.mag());
    lemma_mag_units_order(0, 0);
    assert(zero.value() == 0);
    order_is_value_order(d, q);
    order_is_value_order(q, d);
    order_is_value_order(zero, q);
    order_is_value_order(q, zero);
    lemma_rounded_sum_exact(c, false);
    let s = c.value() + q.value();
    let n = c.negative() && q.negative();
    if c.negative() {
        lemma_rounded_sum_order(c.value(), false, s, n);
        lemma_rounded_sum_order(s, n, 0, false);
    } else {
        lemma_rounded_sum_order(s, n, c.value(), false);
        lemma_rounded_sum_order(0, false, s, n);
    }
}

/// The arctangent polynomial of a ratio between 0 and 1 stays between 0 and its first
/// coefficient.
proof fn lemma_atan_series_range(ratio: Binary32)
    requires
        ratio.within(b32(ZERO), b32(ONE)),
    ensures
        atan_series(ratio).within(b32(ZERO), b32(ATAN_1)),
{
    let sq = ratio * ratio;
    fraction_lies_between_zero_and_whole(ratio, ratio);
    let p7 = b32(ATAN_7) + sq * b32(ATAN_9);
    fraction_lies_between_zero_and_whole(sq, b32(ATAN_9));
    lemma_partial_sum(b32(ATAN_7), b32(ATAN_9), sq * b32(ATAN_9));
    let p5 = b32(ATAN_5) + sq * p7;
    fraction_lies_between_zero_and_whole(sq, p7);
    lemma_partial_sum(b32(ATAN_5), b32(ATAN_7), sq * p7);
    let p3 = b32(ATAN_3) + sq * p5;
    fraction_lies_between_zero_and_whole(sq, p5);
    lemma_partial_sum(b32(ATAN_3), b32(ATAN_5), sq * p5);
    let p1 = b32(ATAN_1) + sq * p3;
    fraction_lies_between_zero_and_whole(sq, p3);
    lemma_partial_sum(b32(ATAN_1), b32(ATAN_3), sq * p3);
    fraction_lies_between_zero_and_whole(ratio, p1);
}

/// `whole - part` for a part between 0 and `whole` lies between 0 and `whole`.
proof fn lemma_complement(whole: Binary32, part: Binary32)
    requires
        whole.finite(),
        !whole.negative(),
        part.within(b32(ZERO), whole),
    ensures
        (whole - part).finite(),
        (whole - part).within(b32(ZERO), whole),
{
    lemma_partial_sum(whole, -whole, -part);
}

/// The direction in the first quadrant lies between 0 and half pi.
proof fn lemma_first_quadrant(abs_y: Binary32, abs_x: Binary32)
    requires
        abs_x.finite(),
        abs_y.finite(),
        !abs_x.negative(),
        !abs_y.negative(),
        !(abs_x.zero() && abs_y.zero()),
    ensures
        first_quadrant_angle(abs_y, abs_x).within(b32(ZERO), b32(FRAC_PI_2)),
{
    if abs_x >= abs_y {
        quotient_by_larger_is_fraction(abs_y, abs_x);
        lemma_atan_series_range(abs_y / abs_x);
    } else {
        quotient_by_larger_is_fraction(abs_x, abs_y);
        lemma_atan_series_range(abs_x / abs_y);
        lemma_complement(b32(FRAC_PI_2), atan_series(abs_x / abs_y));
    }
}

/// One revolution less an angle between 0 and pi lies between pi and one revolution.
proof fn lemma_lower_half(upper: Binary32)
    requires
        upper.within(b32(ZERO), b32(PI)),
    ensures
        (b32(TWO_PI) - upper).within(b32(PI), b32(TWO_PI)),
{
    let pi = b32(PI);
    let rest = b32(TWO_PI).value() - upper.value();
    lemma_complement(b32(TWO_PI), upper);
    lemma_two_pi();
    lemma_mag_units_at(127, 0xc9_0fdb);
    lemma_pow2_unfold(128);
    assert(pi.mag() == 0x80_0000 * 127 + 0xc9_0fdb);
    assert(pi.value() == 0xc9_0fdb * pow2(127));
    assert(b32(TWO_PI).value() == 2 * pi.value());
    assert(upper.value() <= pi.value()) by {
        order_is_value_order(upper, pi);
    }
    lemma_mag_units_order(upper.mag(), 0);
    lemma_sum_kind(b32(TWO_PI), -upper);
    lemma_rounded_sum_exact(pi, false);
    lemma_rounded_sum_order(pi.value(), false, rest, false);
}

/// The fast direction of a vector lies in the first revolution, below two pi, in the half
/// and, for the upper half, in the quadrant of the vector. A vector in the lower half that
/// is closer to the first axis than half a step has the direction zero.
pub proof fn fast_direction_matches_half_plane(y: Binary32, x: Binary32)
    requires
        x.finite(),
        y.finite(),
    ensures
        fast_direction(y, x) >= b32(ZERO),
        fast_direction(y, x) < b32(TWO_PI),
        y >= b32(ZERO) ==> fast_direction(y, x) <= b32(PI),
        y >= b32(ZERO) && x >= b32(ZERO) ==> fast_direction(y, x) <= b32(FRAC_PI_2),
        y < b32(ZERO) && -upper_direction(y, x) <= b32(MINUS_HALF_STEP) ==> fast_direction(y, x)
            >= b32(PI),
        y < b32(ZERO) && !(-upper_direction(y, x) <= b32(MINUS_HALF_STEP)) ==> fast_direction(y, x)
            == b32(ZERO),
{
    let first = first_quadrant_angle(y.size(), x.size());
    let upper = upper_direction(y, x);
    if !(x.zero() && y.zero()) {
        lemma_first_quadrant(y.size(), x.size());
        lemma_complement(b32(PI), first);
        if y < b32(ZERO) {
            lemma_lower_half(upper);
            addition_is_commutative(b32(TWO_PI), -upper);
            if upper.zero() {
                zero_is_neutral(b32(TWO_PI), -upper);
            } else {
                lemma_near_two_pi(-upper);
            }
        }
    }
}

} // verus!
