//! What one step of each advanced controller does to exact reals, up to rounding.
use vstd::prelude::*;
use crate::advanced_control::AdaptiveParam;
use crate::advanced_control::AdaptiveState;
use crate::advanced_control::BacksteppingParam;
use crate::advanced_control::BacksteppingState;
use crate::advanced_control::FuzzyParam;
use crate::advanced_control::FuzzyState;
use crate::advanced_control::HinfParam;
use crate::advanced_control::HinfState;
use crate::advanced_control::LqrParam;
use crate::advanced_control::LqrState;
use crate::advanced_control::membership;
use crate::advanced_control::MpcParam;
use crate::advanced_control::MracParam;
use crate::advanced_control::MracState;
use crate::advanced_control::rule_weight;
use crate::advanced_control::rule_weights;
use crate::advanced_control::scale_or_one;
use crate::advanced_control::SmcParam;
use crate::advanced_control::SmcState;
use crate::advanced_control::weighted_rules;
use crate::arithmetic::addition_is_commutative;
use crate::arithmetic::difference_with_itself_is_zero;
use crate::arithmetic::lemma_mul_kind;
use crate::arithmetic::multiplication_is_commutative;
use crate::arithmetic::negation_is_an_involution;
use crate::arithmetic::negation_of_factor_negates_product;
use crate::arithmetic::one_is_neutral;
use crate::arithmetic::product_with_zero_is_zero;
use crate::arithmetic::quotient_by_one_is_dividend;
use crate::arithmetic::sum_of_zeros_is_zero;
use crate::arithmetic::zero_is_neutral;
use crate::binary32::b32;
use crate::binary32::Binary32;
use crate::binary32::INFINITY;
use crate::binary32::MINUS_ONE;
use crate::binary32::nearest_to_int;
use crate::binary32::ONE;
use crate::binary32::ZERO;
use crate::controller_laws::is_sum_of_two;
use crate::controller_laws::lemma_sum_of_two;
use crate::equations::is_cost;
use crate::equations::is_first_order_step;
use crate::equations::is_interpolated;
use crate::equations::is_offset_product_of_four;
use crate::equations::is_product_plus;
use crate::equations::is_reduced;
use crate::equations::is_reduced_plus;
use crate::equations::is_stepped_back;
use crate::equations::is_sum;
use crate::equations::is_twice_reduced;
use crate::equations::lemma_is_cost;
use crate::equations::lemma_is_first_order_step;
use crate::equations::lemma_is_interpolated;
use crate::equations::lemma_is_offset_product_of_four;
use crate::equations::lemma_is_product_plus;
use crate::equations::lemma_is_reduced;
use crate::equations::lemma_is_reduced_plus;
use crate::equations::lemma_is_stepped_back;
use crate::equations::lemma_is_sum;
use crate::equations::lemma_is_twice_reduced;
use crate::equations::lemma_negative_real;
use crate::equations::lemma_small_constants;
use crate::exact::real_of;
use crate::exact::size_of_real;
use crate::math::clamped;
use crate::math::saturated;
use crate::observer::smo_laws::lemma_product_with;
use crate::rounded_steps::differences_are_rounded;
use crate::rounded_steps::is_amplified;
use crate::rounded_steps::is_difference;
use crate::rounded_steps::lemma_no_limit;
use crate::rounded_steps::products_are_rounded;
use crate::rounded_steps::saturation_follows_value;
use crate::running_error::given;
use crate::running_error::lemma_order_of_reals;
use crate::running_error::lemma_zero_real;
use crate::running_error::limit_if_any;
use crate::running_error::minus;
use crate::running_error::negative;
use crate::running_error::not_limited;
use crate::running_error::off_by;
use crate::running_error::ordinary;
use crate::running_error::ordinary_divisor;
use crate::running_error::over;
use crate::running_error::plus;
use crate::running_error::strictly_inside;
use crate::running_error::times;
use crate::running_error::tiny;
use crate::running_error::Traced;
use crate::running_error::usual_limits;
use vstd::arithmetic::power2::lemma2_to64;

verus! {

/// The adaptive controller answers the error with its gain, and the gain grows with the
/// product of error and reference.
pub proof fn adaptive_follows_equations(
    state: AdaptiveState,
    param: AdaptiveParam,
    reference: Binary32,
    feedback: Binary32,
)
    requires
        param.ts > b32(ZERO),
    ensures
        ({
            let next = state.updated(param, reference, feedback);
            &&& next.error.finite() ==> is_difference(next.error, reference, feedback)
            &&& strictly_inside(next.gain, param.gain_min, param.gain_max)
                ==> is_offset_product_of_four(
                next.gain,
                state.gain,
                param.learning_rate,
                next.error,
                reference,
                param.ts,
            )
            &&& strictly_inside(next.output, param.out_min, param.out_max) ==> is_amplified(
                next.output,
                next.gain,
                next.error,
            )
        }),
{
    let next = state.updated(param, reference, feedback);
    differences_are_rounded(reference, feedback);
    lemma_is_offset_product_of_four(
        state.gain,
        param.learning_rate,
        next.error,
        reference,
        param.ts,
    );
    products_are_rounded(next.gain, next.error);
    if strictly_inside(next.gain, param.gain_min, param.gain_max) {
        not_limited(
            state.gain + param.learning_rate * next.error * reference * param.ts,
            param.gain_min,
            param.gain_max,
        );
    }
    if strictly_inside(next.output, param.out_min, param.out_max) {
        not_limited(next.gain * next.error, param.out_min, param.out_max);
    }
}

/// Limits of the adaptive controller only limit gain and output.
pub proof fn adaptive_limits_only_limit(
    state: AdaptiveState,
    param: AdaptiveParam,
    reference: Binary32,
    feedback: Binary32,
)
    requires
        param.ts > b32(ZERO),
    ensures
        ({
            let free_gain = AdaptiveParam {
                gain_min: -b32(INFINITY),
                gain_max: b32(INFINITY),
                ..param
            };
            let free_output = AdaptiveParam {
                out_min: -b32(INFINITY),
                out_max: b32(INFINITY),
                ..param
            };
            let next = state.updated(param, reference, feedback);
            &&& next.gain == clamped(
                state.updated(free_gain, reference, feedback).gain,
                param.gain_min,
                param.gain_max,
            )
            &&& next.output == clamped(
                state.updated(free_output, reference, feedback).output,
                param.out_min,
                param.out_max,
            )
        }),
{
    let next = state.updated(param, reference, feedback);
    lemma_no_limit(state.gain + param.learning_rate * next.error * reference * param.ts);
    lemma_no_limit(next.gain * next.error);
}

/// Backstepping asks for the rate that takes the first error down, and for the acceleration
/// that takes the second error down and follows that rate.
pub proof fn backstepping_follows_equations(
    param: BacksteppingParam,
    x1: Binary32,
    x2: Binary32,
    reference: Binary32,
    reference_dot: Binary32,
    reference_ddot: Binary32,
)
    ensures
        ({
            let next = BacksteppingState::updated(
                param,
                x1,
                x2,
                reference,
                reference_dot,
                reference_ddot,
            );
            let free = BacksteppingParam { out_min: -b32(INFINITY), out_max: b32(INFINITY),
                ..param };
            &&& next.e1.finite() ==> is_difference(next.e1, x1, reference)
            &&& next.alpha.finite() ==> is_reduced(next.alpha, reference_dot, param.k1, next.e1)
            &&& next.e2.finite() ==> is_difference(next.e2, x2, next.alpha)
            &&& strictly_inside(next.output, param.out_min, param.out_max) ==> is_stepped_back(
                next.output,
                reference_ddot,
                param.k1,
                x2,
                reference_dot,
                param.k2,
                next.e2,
            )
            &&& next.output == clamped(
                BacksteppingState::updated(
                    free,
                    x1,
                    x2,
                    reference,
                    reference_dot,
                    reference_ddot,
                ).output,
                param.out_min,
                param.out_max,
            )
        }),
{
    let next = BacksteppingState::updated(param, x1, x2, reference, reference_dot, reference_ddot);
    differences_are_rounded(x1, reference);
    lemma_is_reduced(reference_dot, param.k1, next.e1);
    differences_are_rounded(x2, next.alpha);
    lemma_is_stepped_back(reference_ddot, param.k1, x2, reference_dot, param.k2, next.e2);
    let output = reference_ddot - param.k1 * (x2 - reference_dot) - param.k2 * next.e2;
    lemma_no_limit(output);
    if strictly_inside(next.output, param.out_min, param.out_max) {
        not_limited(output, param.out_min, param.out_max);
    }
}

/// The state feedback opposes both states.
pub proof fn lqr_follows_equation(
    param: LqrParam,
    x0: Binary32,
    x1: Binary32,
    feedforward: Binary32,
)
    ensures
        ({
            let next = LqrState::updated(param, x0, x1, feedforward);
            let free = LqrParam { out_min: -b32(INFINITY), out_max: b32(INFINITY), ..param };
            &&& strictly_inside(next.u, param.out_min, param.out_max) ==> is_twice_reduced(
                next.u,
                feedforward,
                param.k0,
                x0,
                param.k1,
                x1,
            )
            &&& next.u == clamped(
                LqrState::updated(free, x0, x1, feedforward).u,
                param.out_min,
                param.out_max,
            )
        }),
{
    let next = LqrState::updated(param, x0, x1, feedforward);
    let u = feedforward - param.k0 * x0 - param.k1 * x1;
    lemma_is_twice_reduced(feedforward, param.k0, x0, param.k1, x1);
    lemma_no_limit(u);
    if strictly_inside(next.u, param.out_min, param.out_max) {
        not_limited(u, param.out_min, param.out_max);
    }
}

/// Whether a term opposes a disturbance with gain over attenuation, rounded.
pub open spec fn is_robust_term(
    x: Binary32,
    kw: Binary32,
    gamma: Binary32,
    disturbance: Binary32,
) -> bool {
    let k = real_of(kw);
    let g = if gamma <= b32(ZERO) {
        1real
    } else {
        real_of(gamma)
    };
    let d = real_of(disturbance);
    off_by(
        x,
        (-(k / g)) * d,
        (size_of_real(k) / size_of_real(g) + tiny()) * size_of_real(d) + tiny(),
        2real,
    )
}

/// The robust controller opposes state and disturbance; an attenuation that is not positive
/// stands for one.
pub proof fn hinf_follows_equation(
    param: HinfParam,
    x: Binary32,
    disturbance: Binary32,
    feedforward: Binary32,
)
    requires
        param.gamma.finite(),
    ensures
        ({
            let next = HinfState::updated(param, x, disturbance, feedforward);
            let free = HinfParam { out_min: -b32(INFINITY), out_max: b32(INFINITY), ..param };
            &&& next.robust_term.finite() ==> is_robust_term(
                next.robust_term,
                param.kw,
                param.gamma,
                disturbance,
            )
            &&& strictly_inside(next.u, param.out_min, param.out_max) ==> is_reduced_plus(
                next.u,
                feedforward,
                param.kx,
                x,
                next.robust_term,
            )
            &&& next.u == clamped(
                HinfState::updated(free, x, disturbance, feedforward).u,
                param.out_min,
                param.out_max,
            )
        }),
{
    let next = HinfState::updated(param, x, disturbance, feedforward);
    let gamma = if param.gamma <= b32(ZERO) {
        b32(ONE)
    } else {
        param.gamma
    };
    let u = feedforward - param.kx * x + next.robust_term;
    lemma_small_constants();
    lemma_zero_real(gamma);
    let k = given(param.kw);
    let d = given(disturbance);
    let q = over(k, gamma);
    let m = negative(q);
    let t = times(m, d);
    assert(t.steps == 2real);
    lemma_is_reduced_plus(feedforward, param.kx, x, next.robust_term);
    lemma_no_limit(u);
    if strictly_inside(next.u, param.out_min, param.out_max) {
        not_limited(u, param.out_min, param.out_max);
    }
}

/// Prediction and cost of an input, and the candidates, which lie on a grid between the
/// limits of the input.
pub proof fn mpc_follows_equations(
    param: MpcParam,
    x: Binary32,
    reference: Binary32,
    u: Binary32,
    i: int,
)
    requires
        0 <= i < param.count(),
    ensures
        ({
            let predicted = param.prediction(x, u);
            let error = predicted - reference;
            let cost = param.cost_of(x, reference, u);
            let place = nearest_to_int(i);
            let last = nearest_to_int(param.count() - 1);
            &&& predicted.finite() ==> is_sum_of_two(predicted, param.a, x, param.b, u)
            &&& error.finite() ==> is_difference(error, predicted, reference)
            &&& cost.finite() ==> is_cost(cost, param.q, error, param.r, u)
            &&& last.finite() && !last.zero() && param.candidate(i).finite() ==> is_interpolated(
                param.candidate(i),
                param.u_min,
                place,
                last,
                param.u_max,
            )
        }),
{
    let predicted = param.prediction(x, u);
    let error = predicted - reference;
    let last = nearest_to_int(param.count() - 1);
    lemma_sum_of_two(param.a, x, param.b, u);
    differences_are_rounded(predicted, reference);
    lemma_is_cost(param.q, error, param.r, u);
    if last.finite() && !last.zero() {
        lemma_is_interpolated(param.u_min, nearest_to_int(i), last, param.u_max);
    }
}

/// The adaptive controller follows a model of first order, learns from how far the model is
/// ahead of the feedback, and answers the reference with what it learnt.
pub proof fn mrac_follows_equations(
    state: MracState,
    param: MracParam,
    reference: Binary32,
    feedback: Binary32,
)
    requires
        param.ts > b32(ZERO),
    ensures
        ({
            let next = state.updated(param, reference, feedback);
            &&& next.model_output.finite() ==> is_first_order_step(
                next.model_output,
                state.model_output,
                param.ts,
                param.model_a,
                param.model_b,
                reference,
            )
            &&& next.error.finite() ==> is_difference(next.error, next.model_output, feedback)
            &&& strictly_inside(next.theta, param.theta_min, param.theta_max)
                ==> is_offset_product_of_four(
                next.theta,
                state.theta,
                param.gamma,
                next.error,
                reference,
                param.ts,
            )
            &&& strictly_inside(next.output, param.out_min, param.out_max) ==> is_amplified(
                next.output,
                next.theta,
                reference,
            )
        }),
{
    let next = state.updated(param, reference, feedback);
    lemma_is_first_order_step(
        state.model_output,
        param.ts,
        param.model_a,
        param.model_b,
        reference,
    );
    differences_are_rounded(next.model_output, feedback);
    lemma_is_offset_product_of_four(
        state.theta,
        param.gamma,
        next.error,
        reference,
        param.ts,
    );
    products_are_rounded(next.theta, reference);
    if strictly_inside(next.theta, param.theta_min, param.theta_max) {
        not_limited(
            state.theta + param.gamma * next.error * reference * param.ts,
            param.theta_min,
            param.theta_max,
        );
    }
    if strictly_inside(next.output, param.out_min, param.out_max) {
        not_limited(next.theta * reference, param.out_min, param.out_max);
    }
}

/// Limits of the model reference controller only limit what it learnt and its output.
pub proof fn mrac_limits_only_limit(
    state: MracState,
    param: MracParam,
    reference: Binary32,
    feedback: Binary32,
)
    requires
        param.ts > b32(ZERO),
    ensures
        ({
            let free_theta = MracParam {
                theta_min: -b32(INFINITY),
                theta_max: b32(INFINITY),
                ..param
            };
            let free_output = MracParam {
                out_min: -b32(INFINITY),
                out_max: b32(INFINITY),
                ..param
            };
            let next = state.updated(param, reference, feedback);
            &&& next.theta == clamped(
                state.updated(free_theta, reference, feedback).theta,
                param.theta_min,
                param.theta_max,
            )
            &&& next.output == clamped(
                state.updated(free_output, reference, feedback).output,
                param.out_min,
                param.out_max,
            )
        }),
{
    let next = state.updated(param, reference, feedback);
    lemma_no_limit(state.theta + param.gamma * next.error * reference * param.ts);
    lemma_no_limit(next.theta * reference);
}

/// The sliding surface is the weighted error and its rate; the switching part is the gain
/// against the sign of the surface, softened in the boundary layer; the output is both the
/// equivalent control and the switching part.
pub proof fn smc_follows_equations(
    param: SmcParam,
    error: Binary32,
    error_dot: Binary32,
    equivalent: Binary32,
)
    requires
        param.k.finite(),
        param.boundary.finite(),
    ensures
        ({
            let next = SmcState::updated(param, error, error_dot, equivalent);
            let free = SmcParam { out_min: -b32(INFINITY), out_max: b32(INFINITY), ..param };
            let k = real_of(param.k);
            let b = real_of(param.boundary);
            let s = real_of(next.surface);
            let soft = param.boundary > b32(ZERO);
            &&& next.surface.finite() ==> is_product_plus(
                next.surface,
                param.c,
                error,
                error_dot,
            )
            &&& next.surface.finite() && !soft && next.surface > b32(ZERO) ==> next.switching
                == -param.k
            &&& next.surface.finite() && !soft && next.surface < b32(ZERO) ==> next.switching
                == param.k
            &&& next.surface.finite() && soft && next.surface >= param.boundary ==> next.switching
                == -param.k
            &&& next.surface.finite() && soft && next.surface <= -param.boundary ==> next.switching
                == param.k
            &&& soft && next.surface.size() <= param.boundary && next.switching.finite() ==> off_by(
                next.switching,
                (-k) * (s / b),
                size_of_real(k) * (size_of_real(s) / b + tiny()) + tiny(),
                2real,
            )
            &&& strictly_inside(next.output, param.out_min, param.out_max) ==> is_sum(
                next.output,
                equivalent,
                next.switching,
            )
            &&& next.output == clamped(
                SmcState::updated(free, error, error_dot, equivalent).output,
                param.out_min,
                param.out_max,
            )
        }),
{
    let next = SmcState::updated(param, error, error_dot, equivalent);
    lemma_is_product_plus(param.c, error, error_dot);
    lemma_is_sum(equivalent, next.switching);
    lemma_no_limit(equivalent + next.switching);
    if strictly_inside(next.output, param.out_min, param.out_max) {
        not_limited(equivalent + next.switching, param.out_min, param.out_max);
    }
    lemma_negative_real(param.k);
    negation_is_an_involution(param.k);
    if next.surface.finite() {
        // The force of gain minus k against a measurement of zero.
        let surface = next.surface;
        let gain = -param.k;
        saturation_follows_value(surface, param.boundary);
        one_is_neutral(gain);
        lemma_mul_kind(gain, b32(ONE));
        negation_of_factor_negates_product(gain, b32(ONE));
        assert(-b32(ONE) == b32(MINUS_ONE));
        assert(-(-param.k) == param.k);
        if param.boundary > b32(ZERO) && surface.size() <= param.boundary {
            lemma_zero_real(b32(ZERO));
            lemma_order_of_reals(b32(ZERO), param.boundary);
            let e = given(surface);
            let g = given(gain);
            let q = over(e, param.boundary);
            let t = Traced { number: saturated(surface, param.boundary), ..q };
            let f = lemma_product_with(g, t);
        }
    }
}

/// Steps of the state feedback, of the robust controller and of backstepping on ordinary
/// numbers stay finite.
pub proof fn feedback_stays_finite(
    lqr: LqrParam,
    hinf: HinfParam,
    backstepping: BacksteppingParam,
    a: Binary32,
    b: Binary32,
    c: Binary32,
    d: Binary32,
    e: Binary32,
)
    requires
        ordinary(a) && ordinary(b) && ordinary(c) && ordinary(d) && ordinary(e),
    ensures
        ordinary(lqr.k0) && ordinary(lqr.k1) && usual_limits(lqr.out_min, lqr.out_max)
            ==> LqrState::updated(lqr, a, b, c).u.finite(),
        ordinary(hinf.kx) && ordinary(hinf.kw) && ordinary_divisor(hinf.gamma) && usual_limits(
            hinf.out_min,
            hinf.out_max,
        ) ==> HinfState::updated(hinf, a, b, c).u.finite(),
        ordinary(backstepping.k1) && ordinary(backstepping.k2) && usual_limits(
            backstepping.out_min,
            backstepping.out_max,
        ) ==> BacksteppingState::updated(backstepping, a, b, c, d, e).output.finite(),
{
    let ta = given(a);
    let tb = given(b);
    let tc = given(c);
    let td = given(d);
    let te = given(e);
    if ordinary(lqr.k0) && ordinary(lqr.k1) && usual_limits(lqr.out_min, lqr.out_max) {
        let k0 = given(lqr.k0);
        let k1 = given(lqr.k1);
        let p = times(k0, ta);
        let q = times(k1, tb);
        let first = minus(tc, p);
        let all = minus(first, q);
        let u = limit_if_any(all, lqr.out_min, lqr.out_max);
    }
    if ordinary(hinf.kx) && ordinary(hinf.kw) && ordinary_divisor(hinf.gamma) && usual_limits(
        hinf.out_min,
        hinf.out_max,
    ) {
        lemma2_to64();
        lemma_small_constants();
        lemma_zero_real(hinf.gamma);
        let gamma = if hinf.gamma <= b32(ZERO) {
            b32(ONE)
        } else {
            hinf.gamma
        };
        let kx = given(hinf.kx);
        let kw = given(hinf.kw);
        let share = over(kw, gamma);
        let against = negative(share);
        let robust = times(against, tb);
        let p = times(kx, ta);
        let first = minus(tc, p);
        let all = plus(first, robust);
        let u = limit_if_any(all, hinf.out_min, hinf.out_max);
    }
    if ordinary(backstepping.k1) && ordinary(backstepping.k2) && usual_limits(
        backstepping.out_min,
        backstepping.out_max,
    ) {
        let k1 = given(backstepping.k1);
        let k2 = given(backstepping.k2);
        let e1 = minus(ta, tc);
        let drop = times(k1, e1);
        let alpha = minus(td, drop);
        let e2 = minus(tb, alpha);
        let rate = minus(tb, td);
        let p = times(k1, rate);
        let q = times(k2, e2);
        let first = minus(te, p);
        let all = minus(first, q);
        let u = limit_if_any(all, backstepping.out_min, backstepping.out_max);
    }
}

/// Steps of the adaptive controllers on ordinary numbers stay finite.
pub proof fn adaptive_controllers_stay_finite(
    adaptive: AdaptiveState,
    param: AdaptiveParam,
    mrac: MracState,
    model: MracParam,
    reference: Binary32,
    feedback: Binary32,
)
    requires
        ordinary(reference),
        ordinary(feedback),
    ensures
        ordinary(adaptive.gain) && ordinary(param.learning_rate) && ordinary(param.ts) && param.ts
            > b32(ZERO) && usual_limits(param.gain_min, param.gain_max) ==> adaptive.updated(
            param,
            reference,
            feedback,
        ).gain.finite(),
        ordinary(mrac.model_output) && ordinary(model.model_a) && ordinary(model.model_b)
            && ordinary(model.ts) && model.ts > b32(ZERO) ==> mrac.updated(
            model,
            reference,
            feedback,
        ).model_output.finite() && mrac.updated(model, reference, feedback).error.finite(),
{
    let r = given(reference);
    let f = given(feedback);
    if ordinary(adaptive.gain) && ordinary(param.learning_rate) && ordinary(param.ts)
        && usual_limits(param.gain_min, param.gain_max) {
        let e = minus(r, f);
        let rate = given(param.learning_rate);
        let t = given(param.ts);
        let g = given(adaptive.gain);
        let first = times(rate, e);
        let second = times(first, r);
        let step = times(second, t);
        let sum = plus(g, step);
        let gain = limit_if_any(sum, param.gain_min, param.gain_max);
    }
    if ordinary(mrac.model_output) && ordinary(model.model_a) && ordinary(model.model_b)
        && ordinary(model.ts) {
        negation_is_an_involution(model.model_a);
        lemma_negative_real(model.model_a);
        let y = given(mrac.model_output);
        let a = given(-model.model_a);
        let b = given(model.model_b);
        let t = given(model.ts);
        let decay = times(a, y);
        let drive = times(b, r);
        let slope = plus(decay, drive);
        let step = times(t, slope);
        let next = plus(y, step);
        let error = minus(next, f);
    }
}

/// The rule set that a scaled input calls for alone: the first at minus one and below, the
/// second at zero, the third at one and above.
pub open spec fn calls_for(x: Binary32, set: int) -> bool {
    ||| set == 0 && x <= b32(MINUS_ONE)
    ||| set == 1 && x.zero()
    ||| set == 2 && x >= b32(ONE)
}

/// Memberships where one set is called for alone.
proof fn lemma_called_for(x: Binary32, set: int, k: int)
    requires
        calls_for(x, set),
        0 <= k < 3,
    ensures
        k == set ==> membership(x)[k] == b32(ONE),
        k != set ==> membership(x)[k].zero(),
{
    let value = clamped(x, b32(MINUS_ONE), b32(ONE));
    assert(-b32(MINUS_ONE) == b32(ONE));
    if set == 1 {
        zero_is_neutral(b32(ONE), -value.size());
    } else {
        assert(value.size() == b32(ONE));
        difference_with_itself_is_zero(b32(ONE));
    }
}

/// The sums over the rules where one rule is called for alone.
proof fn lemma_single_rule(
    e: Binary32,
    de: Binary32,
    i: int,
    j: int,
    rules: [[Binary32; 3]; 3],
    n: int,
)
    requires
        calls_for(e, i),
        calls_for(de, j),
        0 <= n <= 9,
        0 <= i < 3,
        0 <= j < 3,
        forall|k: int, l: int| 0 <= k < 3 && 0 <= l < 3 ==> (#[trigger] rules[k][l]).finite(),
        !rules[i][j].zero(),
    ensures
        ({
            let sum = weighted_rules(membership(e), membership(de), rules, n);
            let weights = rule_weights(membership(e), membership(de), n);
            &&& n <= 3 * i + j ==> sum.zero() && weights.zero()
            &&& n > 3 * i + j ==> sum == rules[i][j] && weights == b32(ONE)
        }),
    decreases n,
{
    if n > 0 {
        let e_mu = membership(e);
        let de_mu = membership(de);
        let k = (n - 1) / 3;
        let l = (n - 1) % 3;
        let rule = rules[k][l];
        let weight = e_mu[k] * de_mu[l];
        lemma_single_rule(e, de, i, j, rules, n - 1);
        lemma_called_for(e, i, k);
        lemma_called_for(de, j, l);
        let before = weighted_rules(e_mu, de_mu, rules, n - 1);
        let weights = rule_weights(e_mu, de_mu, n - 1);
        assert(rule_weight(e_mu, de_mu, n - 1) == weight);
        if k == i && l == j {
            one_is_neutral(b32(ONE));
            one_is_neutral(rule);
            multiplication_is_commutative(b32(ONE), rule);
            zero_is_neutral(rule, before);
            addition_is_commutative(rule, before);
            zero_is_neutral(b32(ONE), weights);
            addition_is_commutative(b32(ONE), weights);
        } else {
            if l != j {
                product_with_zero_is_zero(e_mu[k], de_mu[l]);
            } else {
                product_with_zero_is_zero(de_mu[l], e_mu[k]);
                multiplication_is_commutative(de_mu[l], e_mu[k]);
            }
            product_with_zero_is_zero(rule, weight);
            multiplication_is_commutative(rule, weight);
            if n - 1 <= 3 * i + j {
                sum_of_zeros_is_zero(before, weight * rule);
                sum_of_zeros_is_zero(weights, weight);
            } else {
                zero_is_neutral(before, weight * rule);
                zero_is_neutral(weights, weight);
            }
        }
    }
}

/// Where error and change of the error call for one rule alone, the output is that rule,
/// scaled and limited. The row of the rules goes with the error, the column with its change.
pub proof fn fuzzy_output_of_single_rule(
    param: FuzzyParam,
    error: Binary32,
    error_delta: Binary32,
    i: int,
    j: int,
)
    requires
        calls_for(error / scale_or_one(param.e_scale), i),
        calls_for(error_delta / scale_or_one(param.de_scale), j),
        0 <= i < 3,
        0 <= j < 3,
        forall|k: int, l: int|
            0 <= k < 3 && 0 <= l < 3 ==> (#[trigger] param.rules[k][l]).finite(),
        !param.rules[i][j].zero(),
    ensures
        ({
            let next = FuzzyState::updated(param, error, error_delta);
            let scaled = param.rules[i][j] * param.out_scale;
            &&& next.weight_sum == b32(ONE)
            &&& next.output == clamped(scaled, param.out_min, param.out_max)
            &&& scaled.finite() ==> is_amplified(scaled, param.rules[i][j], param.out_scale)
        }),
{
    let e = error / scale_or_one(param.e_scale);
    let de = error_delta / scale_or_one(param.de_scale);
    lemma_single_rule(e, de, i, j, param.rules, 9);
    quotient_by_one_is_dividend(param.rules[i][j]);
    products_are_rounded(param.rules[i][j], param.out_scale);
}

} // verus!
