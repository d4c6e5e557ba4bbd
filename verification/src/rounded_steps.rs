//! Single steps that many controllers and observers share, in exact reals up to rounding.
use vstd::prelude::*;
use crate::arithmetic::fraction_lies_between_zero_and_whole;
use crate::arithmetic::lemma_div_kind;
use crate::arithmetic::lemma_one;
use crate::arithmetic::lemma_rounded_sum_exact;
use crate::arithmetic::lemma_rounded_sum_order;
use crate::arithmetic::lemma_sum_kind;
use crate::arithmetic::multiplication_is_commutative;
use crate::arithmetic::negation_is_an_involution;
use crate::arithmetic::negation_of_dividend_negates_quotient;
use crate::arithmetic::one_is_neutral;
use crate::arithmetic::order_is_value_order;
use crate::arithmetic::product_with_zero_is_zero;
use crate::arithmetic::quotient_by_larger_is_fraction;
use crate::arithmetic::quotient_by_smaller_is_at_least_one;
use crate::arithmetic::quotient_follows_signs;
use crate::arithmetic::quotient_of_zero_is_zero;
use crate::arithmetic::zero_is_neutral;
use crate::binary32::b32;
use crate::binary32::Binary32;
use crate::binary32::INFINITY;
use crate::binary32::MINUS_ONE;
use crate::binary32::ONE;
use crate::binary32::ZERO;
use crate::controller::filtered_rate;
use crate::exact::lemma_unscaled;
use crate::exact::real_of;
use crate::exact::size_of_real;
use crate::math::clamped;
use crate::math::saturated;
use crate::nearest::lemma_mag_units_order;
use crate::observer::bemf::smoothed;
use crate::real_rounding::lemma_real_negative;
use crate::real_rounding::lemma_real_scaled;
use crate::running_error::given;
use crate::running_error::larger_real;
use crate::running_error::lemma_order_of_reals;
use crate::running_error::lemma_zero_real;
use crate::running_error::minus;
use crate::running_error::off_by;
use crate::running_error::over;
use crate::running_error::plus;
use crate::running_error::strictly_inside;
use crate::running_error::times;
use crate::running_error::tiny;
use vstd::arithmetic::power2::pow2;

verus! {

/// A limit between infinities does nothing.
pub proof fn lemma_no_limit(x: Binary32)
    ensures
        clamped(x, -b32(INFINITY), b32(INFINITY)) == x,
        x.finite() <==> strictly_inside(x, -b32(INFINITY), b32(INFINITY)),
{
}

/// The share that a filter coefficient stands for: limited to the range from 0 to 1.
pub open spec fn share_of(alpha: Binary32) -> real {
    if alpha >= b32(ONE) {
        1real
    } else if alpha <= b32(ZERO) {
        0real
    } else {
        real_of(alpha)
    }
}

/// The limited coefficient as a real.
pub proof fn lemma_share_of(alpha: Binary32)
    requires
        !alpha.nan(),
    ensures
        clamped(alpha, b32(ZERO), b32(ONE)).finite(),
        real_of(clamped(alpha, b32(ZERO), b32(ONE))) == share_of(alpha),
        0real <= share_of(alpha) <= 1real,
{
    let one = b32(ONE);
    let zero = b32(ZERO);
    let c = clamped(alpha, zero, one);
    lemma_one();
    lemma_real_scaled(one);
    lemma_zero_real(zero);
    let u = pow2(149) as real;
    assert(1real * u == u) by (nonlinear_arith);
    lemma_unscaled(real_of(one), 1real, u);
    lemma_unscaled(1real, real_of(one), u);
    lemma_order_of_reals(zero, c);
    lemma_order_of_reals(c, one);
    if alpha.finite() {
        lemma_order_of_reals(zero, alpha);
        lemma_order_of_reals(alpha, one);
        lemma_zero_real(alpha);
    }
}

/// Whether a number is an estimate moved by its share of the way to a raw value, rounded.
pub open spec fn is_smoothed(
    x: Binary32,
    estimate: Binary32,
    alpha: Binary32,
    raw: Binary32,
) -> bool {
    let e = real_of(estimate);
    let r = real_of(raw);
    let share = share_of(alpha);
    off_by(
        x,
        e + share * (r - e),
        size_of_real(e) + (share * (size_of_real(r) + size_of_real(e)) + tiny()),
        3real,
    )
}

/// Smoothing moves an estimate by its share of the way to the raw value.
pub proof fn smoothing_takes_share_of_way(estimate: Binary32, alpha: Binary32, raw: Binary32)
    requires
        !alpha.nan(),
        smoothed(estimate, alpha, raw).finite(),
    ensures
        is_smoothed(smoothed(estimate, alpha, raw), estimate, alpha, raw),
{
    lemma_share_of(alpha);
    let e = given(estimate);
    let x = given(raw);
    let share = given(clamped(alpha, b32(ZERO), b32(ONE)));
    let way = minus(x, e);
    let part = times(share, way);
    let sum = plus(e, part);
}

/// An amplified error, rounded.
pub open spec fn is_amplified(x: Binary32, gain: Binary32, error: Binary32) -> bool {
    off_by(
        x,
        real_of(gain) * real_of(error),
        size_of_real(real_of(gain)) * size_of_real(real_of(error)) + tiny(),
        1real,
    )
}

/// A finite product, rounded.
pub proof fn products_are_rounded(a: Binary32, b: Binary32)
    ensures
        (a * b).finite() ==> is_amplified(a * b, a, b),
{
    let x = given(a);
    let y = given(b);
    let p = times(x, y);
    assert(p.steps == 1real);
}

/// A difference, rounded.
pub open spec fn is_difference(x: Binary32, a: Binary32, b: Binary32) -> bool {
    off_by(
        x,
        real_of(a) - real_of(b),
        size_of_real(real_of(a)) + size_of_real(real_of(b)),
        1real,
    )
}

/// A finite difference, rounded.
pub proof fn differences_are_rounded(a: Binary32, b: Binary32)
    ensures
        (a - b).finite() ==> is_difference(a - b, a, b),
{
    let x = given(a);
    let y = given(b);
    let d = minus(x, y);
    assert((larger_real(0real, 0real) + 1real) == 1real);
}

/// The integral part after a step without limits, rounded: it grows by gain, period and
/// error.
pub open spec fn is_integrated(
    x: Binary32,
    before: Binary32,
    ki: Binary32,
    ts: Binary32,
    error: Binary32,
) -> bool {
    let i = real_of(before);
    let k = real_of(ki);
    let t = real_of(ts);
    let e = real_of(error);
    off_by(
        x,
        i + (k * t) * e,
        size_of_real(i) + ((size_of_real(k) * size_of_real(t) + tiny()) * size_of_real(e) + tiny()),
        3real,
    )
}

/// A finite integral part is rounded.
pub proof fn lemma_integrated(before: Binary32, ki: Binary32, ts: Binary32, error: Binary32)
    ensures
        (before + ki * ts * error).finite() ==> is_integrated(
            before + ki * ts * error,
            before,
            ki,
            ts,
            error,
        ),
{
    let i = given(before);
    let k = given(ki);
    let t = given(ts);
    let e = given(error);
    let kt = times(k, t);
    let step = times(kt, e);
    let sum = plus(i, step);
}

/// A filtered rate, rounded: moved from the one before by its share of the way to the
/// difference quotient.
pub open spec fn is_filtered_rate(
    x: Binary32,
    before: Binary32,
    alpha: Binary32,
    error: Binary32,
    last: Binary32,
    ts: Binary32,
) -> bool {
    let d = real_of(before);
    let e = real_of(error);
    let l = real_of(last);
    let t = real_of(ts);
    let share = share_of(alpha);
    off_by(
        x,
        d + share * ((e - l) / t - d),
        size_of_real(d) + (share * (((size_of_real(e) + size_of_real(l)) / size_of_real(t)
            + tiny()) + size_of_real(d)) + tiny()),
        5real,
    )
}

/// A finite filtered rate is rounded.
pub proof fn lemma_filtered_rate(
    before: Binary32,
    alpha: Binary32,
    error: Binary32,
    last: Binary32,
    ts: Binary32,
)
    requires
        !alpha.nan(),
        ts.finite(),
        ts > b32(ZERO),
        filtered_rate(before, alpha, error - last, ts).finite(),
    ensures
        is_filtered_rate(
            filtered_rate(before, alpha, error - last, ts),
            before,
            alpha,
            error,
            last,
            ts,
        ),
{
    lemma_share_of(alpha);
    let d = given(before);
    let e = given(error);
    let l = given(last);
    let share = given(clamped(alpha, b32(ZERO), b32(ONE)));
    let difference = minus(e, l);
    let quotient = over(difference, ts);
    let way = minus(quotient, d);
    let part = times(share, way);
    let sum = plus(d, part);
    assert(sum.steps == 5real);
}

/// Whether a number is what a share leaves of the one before, rounded.
pub open spec fn is_faded(x: Binary32, before: Binary32, alpha: Binary32) -> bool {
    let d = real_of(before);
    let share = share_of(alpha);
    off_by(x, (1real - share) * d, (1real + share) * size_of_real(d) + tiny(), 2real)
}

/// Without a change of the error, a filtered rate moves towards zero and never past it; with
/// a full share it is zero.
pub proof fn lemma_rate_decays(before: Binary32, alpha: Binary32, change: Binary32, ts: Binary32)
    requires
        !alpha.nan(),
        before.finite(),
        change.zero(),
        ts > b32(ZERO),
    ensures
        ({
            let next = filtered_rate(before, alpha, change, ts);
            &&& before >= b32(ZERO) ==> next.within(b32(ZERO), before)
            &&& before <= b32(ZERO) ==> next.within(before, b32(ZERO))
            &&& alpha >= b32(ONE) ==> next.zero()
            &&& alpha <= b32(ZERO) ==> next.same(before)
            &&& is_faded(next, before, alpha)
        }),
{
    let zero = b32(ZERO);
    let share = clamped(alpha, zero, b32(ONE));
    let quotient = change / ts;
    let way = quotient - before;
    let step = share * way;
    quotient_of_zero_is_zero(change, ts);
    lemma_sum_kind(quotient, -before);
    negation_is_an_involution(before);
    lemma_mag_units_order(0, 0);
    lemma_mag_units_order(before.mag(), 0);
    lemma_rounded_sum_exact(-before, quotient.negative() && (-before).negative());
    assert(way.same(-before));
    fraction_lies_between_zero_and_whole(share, way);
    order_is_value_order(way, -before);
    order_is_value_order(step, zero);
    order_is_value_order(zero, step);
    order_is_value_order(step, way);
    order_is_value_order(way, step);
    order_is_value_order(zero, before);
    order_is_value_order(before, zero);
    order_is_value_order(zero, way);
    order_is_value_order(way, zero);
    lemma_share_of(alpha);
    lemma_real_negative(before);
    lemma_order_of_reals(way, -before);
    lemma_order_of_reals(-before, way);
    let d = given(before);
    let w = given(way);
    let c = given(share);
    let p = times(c, w);
    let sum = plus(d, p);
    assert(sum.steps == 2real);
    assert(real_of(way) == -real_of(before));
    let k = share_of(alpha);
    let b = real_of(before);
    assert((1real - k) * b == b + k * (-b)) by (nonlinear_arith);
    let size = size_of_real(b);
    assert((1real + k) * size == size + k * size) by (nonlinear_arith);
    lemma_sum_kind(before, step);
    let s = before.value() + step.value();
    let negative = before.negative() && step.negative();
    lemma_rounded_sum_exact(before, negative);
    lemma_rounded_sum_exact(zero, negative);
    if before >= zero {
        lemma_rounded_sum_order(0, negative, s, negative);
        lemma_rounded_sum_order(s, negative, before.value(), negative);
    }
    if before <= zero {
        lemma_rounded_sum_order(s, negative, 0, negative);
        lemma_rounded_sum_order(before.value(), negative, s, negative);
    }
    if alpha >= b32(ONE) {
        one_is_neutral(way);
        multiplication_is_commutative(b32(ONE), way);
    }
    if alpha <= zero {
        product_with_zero_is_zero(way, share);
        multiplication_is_commutative(way, share);
        zero_is_neutral(before, step);
    }
}

/// A softened sign is the sign outside the boundary layer, and the part of the layer that
/// the value makes up inside it.
pub proof fn saturation_follows_value(value: Binary32, boundary: Binary32)
    requires
        value.finite(),
        boundary.finite(),
    ensures
        ({
            let s = saturated(value, boundary);
            let v = real_of(value);
            let b = real_of(boundary);
            &&& s.finite()
            &&& boundary <= b32(ZERO) && value > b32(ZERO) ==> s == b32(ONE)
            &&& boundary <= b32(ZERO) && value < b32(ZERO) ==> s == b32(MINUS_ONE)
            &&& value.zero() ==> s.zero()
            &&& boundary > b32(ZERO) && value >= boundary ==> s == b32(ONE)
            &&& boundary > b32(ZERO) && value <= -boundary ==> s == b32(MINUS_ONE)
            &&& boundary > b32(ZERO) && value.size() <= boundary ==> off_by(
                s,
                v / b,
                size_of_real(v) / b + tiny(),
                1real,
            )
        }),
{
    if boundary > b32(ZERO) {
        let q = value / boundary;
        let x = given(value);
        let t = over(x, boundary);
        assert(t.steps == 1real);
        lemma_zero_real(b32(ZERO));
        lemma_order_of_reals(b32(ZERO), boundary);
        negation_is_an_involution(value);
        negation_is_an_involution(boundary);
        lemma_div_kind(value, boundary);
        lemma_div_kind(-value, boundary);
        assert(-b32(ONE) == b32(MINUS_ONE));
        negation_is_an_involution((-value) / boundary);
        negation_of_dividend_negates_quotient(-value, boundary);
        quotient_follows_signs(value, boundary);
        if value.zero() {
            quotient_of_zero_is_zero(value, boundary);
        }
        if value >= boundary {
            quotient_by_smaller_is_at_least_one(value, boundary);
        }
        if value <= -boundary {
            quotient_by_smaller_is_at_least_one(-value, boundary);
        }
        if value.size() <= boundary {
            quotient_by_larger_is_fraction(value.size(), boundary);
            assert(value.size() == value || value.size() == -value);
            assert(saturated(value, boundary) == q);
        }
    }
}

} // verus!
