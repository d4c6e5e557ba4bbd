//! What one step of each state estimator does to exact reals, up to rounding.
use vstd::prelude::*;
use crate::binary32::b32;
use crate::binary32::Binary32;
use crate::binary32::ONE;
use crate::binary32::ZERO;
use crate::controller_laws::is_sum_of_two;
use crate::controller_laws::lemma_sum_of_two;
use crate::equations::is_central_weight;
use crate::equations::is_half_over;
use crate::equations::is_left_over;
use crate::equations::is_offset_product;
use crate::equations::is_product_of_three_plus;
use crate::equations::is_quotient;
use crate::equations::is_quotient_of_product;
use crate::equations::is_reduced;
use crate::equations::is_reduced_by_product_of_three;
use crate::equations::is_spread_excess;
use crate::equations::is_sum;
use crate::equations::is_sum_of_four;
use crate::equations::is_sum_of_three;
use crate::equations::is_weighted_product_sum;
use crate::equations::is_weighted_square_sum;
use crate::equations::lemma_is_central_weight;
use crate::equations::lemma_is_half_over;
use crate::equations::lemma_is_left_over;
use crate::equations::lemma_is_offset_product;
use crate::equations::lemma_is_product_of_three_plus;
use crate::equations::lemma_is_quotient;
use crate::equations::lemma_is_quotient_of_product;
use crate::equations::lemma_is_reduced;
use crate::equations::lemma_is_reduced_by_product_of_three;
use crate::equations::lemma_is_spread_excess;
use crate::equations::lemma_is_sum;
use crate::equations::lemma_is_sum_of_four;
use crate::equations::lemma_is_sum_of_three;
use crate::equations::lemma_is_weighted_product_sum;
use crate::equations::lemma_is_weighted_square_sum;
use crate::equations::lemma_small_constants;
use crate::exact::real_of;
use crate::exact::size_of_real;
use crate::foc::FocBasicInput;
use crate::foc::FocBasicParam;
use crate::math::wrapped_angle;
use crate::observer::estimator::EkfFocInput;
use crate::observer::estimator::EkfFocState;
use crate::observer::estimator::EkfLinearization;
use crate::observer::estimator::EkfState;
use crate::observer::estimator::gain_of;
use crate::observer::estimator::KalmanParam;
use crate::observer::estimator::KalmanState;
use crate::observer::estimator::LuenbergerParam;
use crate::observer::estimator::LuenbergerState;
use crate::observer::estimator::UkfNoise;
use crate::observer::estimator::UkfState;
use crate::observer::linear_filters::lemma_root_as_real;
use crate::rounded_steps::differences_are_rounded;
use crate::rounded_steps::is_amplified;
use crate::rounded_steps::is_difference;
use crate::rounded_steps::products_are_rounded;
use crate::square_root::sqrt_of;

verus! {

/// Whether a gain is `p * h / (h * p * h + r)`, rounded; a sum of zero stands for one.
pub open spec fn is_kalman_gain(k: Binary32, p: Binary32, h: Binary32, r: Binary32) -> bool {
    let total = h * p * h + r;
    let divisor = if total.zero() {
        b32(ONE)
    } else {
        total
    };
    &&& total.finite() ==> is_product_of_three_plus(total, h, p, h, r)
    &&& total.finite() && k.finite() ==> is_quotient_of_product(k, p, h, divisor)
}

proof fn lemma_kalman_gain(p: Binary32, h: Binary32, r: Binary32)
    ensures
        is_kalman_gain(gain_of(p, h, r), p, h, r),
{
    let total = h * p * h + r;
    lemma_small_constants();
    lemma_is_product_of_three_plus(h, p, h, r);
    if total.finite() {
        let divisor = if total.zero() {
            b32(ONE)
        } else {
            total
        };
        lemma_is_quotient_of_product(p, h, divisor);
    }
}

/// The Kalman filter predicts with its model, weighs prediction and measurement by their
/// variances, and corrects the prediction by the gain times the residual.
pub proof fn kalman_follows_equations(
    state: KalmanState,
    param: KalmanParam,
    u: Binary32,
    measurement: Binary32,
)
    ensures
        ({
            let next = state.updated(param, u, measurement);
            let x_pred = param.a * state.x + param.b * u;
            let p_pred = param.a * state.p * param.a + param.q;
            &&& x_pred.finite() ==> is_sum_of_two(x_pred, param.a, state.x, param.b, u)
            &&& p_pred.finite() ==> is_product_of_three_plus(
                p_pred,
                param.a,
                state.p,
                param.a,
                param.q,
            )
            &&& is_kalman_gain(next.k, p_pred, param.h, param.r)
            &&& next.residual.finite() ==> is_reduced(
                next.residual,
                measurement,
                param.h,
                x_pred,
            )
            &&& next.x.finite() ==> is_offset_product(next.x, x_pred, next.k, next.residual)
            &&& next.p.finite() ==> is_left_over(next.p, next.k, param.h, p_pred)
        }),
{
    let next = state.updated(param, u, measurement);
    let x_pred = param.a * state.x + param.b * u;
    let p_pred = param.a * state.p * param.a + param.q;
    lemma_sum_of_two(param.a, state.x, param.b, u);
    lemma_is_product_of_three_plus(param.a, state.p, param.a, param.q);
    lemma_kalman_gain(p_pred, param.h, param.r);
    lemma_is_reduced(measurement, param.h, x_pred);
    lemma_is_offset_product(x_pred, next.k, next.residual);
    lemma_is_left_over(next.k, param.h, p_pred);
}

/// The extended filter weighs the prediction of its model and the measurement by their
/// variances, with the slopes of the model, and corrects the prediction by the gain times
/// the residual.
pub proof fn ekf_follows_equations(
    state: EkfState,
    q: Binary32,
    r: Binary32,
    model: EkfLinearization,
    measurement: Binary32,
)
    ensures
        ({
            let next = state.updated(q, r, model, measurement);
            let p_pred = model.f_jac * state.p * model.f_jac + q;
            &&& p_pred.finite() ==> is_product_of_three_plus(
                p_pred,
                model.f_jac,
                state.p,
                model.f_jac,
                q,
            )
            &&& is_kalman_gain(next.k, p_pred, model.h_jac, r)
            &&& next.residual.finite() ==> is_difference(
                next.residual,
                measurement,
                model.h_value,
            )
            &&& next.x.finite() ==> is_offset_product(
                next.x,
                model.x_pred,
                next.k,
                next.residual,
            )
            &&& next.p.finite() ==> is_left_over(next.p, next.k, model.h_jac, p_pred)
        }),
{
    let next = state.updated(q, r, model, measurement);
    let p_pred = model.f_jac * state.p * model.f_jac + q;
    lemma_is_product_of_three_plus(model.f_jac, state.p, model.f_jac, q);
    lemma_kalman_gain(p_pred, model.h_jac, r);
    differences_are_rounded(measurement, model.h_value);
    lemma_is_offset_product(model.x_pred, next.k, next.residual);
    lemma_is_left_over(next.k, model.h_jac, p_pred);
}

/// The observer follows its model, driven by the input, and is drawn to the measurement by
/// what it exceeds the expected output by.
pub proof fn luenberger_follows_equations(
    state: LuenbergerState,
    param: LuenbergerParam,
    input_u: Binary32,
    measured_y: Binary32,
)
    ensures
        ({
            let next = state.updated(param, input_u, measured_y);
            let expected = param.c0 * state.x0 + param.c1 * state.x1;
            &&& expected.finite() ==> is_sum_of_two(
                expected,
                param.c0,
                state.x0,
                param.c1,
                state.x1,
            )
            &&& next.error.finite() ==> is_difference(next.error, measured_y, expected)
            &&& next.x0.finite() ==> is_sum_of_four(
                next.x0,
                param.a00,
                state.x0,
                param.a01,
                state.x1,
                param.b0,
                input_u,
                param.l0,
                next.error,
            )
            &&& next.x1.finite() ==> is_sum_of_four(
                next.x1,
                param.a10,
                state.x0,
                param.a11,
                state.x1,
                param.b1,
                input_u,
                param.l1,
                next.error,
            )
            &&& next.y_hat.finite() ==> is_sum_of_two(
                next.y_hat,
                param.c0,
                next.x0,
                param.c1,
                next.x1,
            )
        }),
{
    let next = state.updated(param, input_u, measured_y);
    let expected = param.c0 * state.x0 + param.c1 * state.x1;
    let e = next.error;
    lemma_sum_of_two(param.c0, state.x0, param.c1, state.x1);
    differences_are_rounded(measured_y, expected);
    lemma_is_sum_of_four(
        param.a00,
        state.x0,
        param.a01,
        state.x1,
        param.b0,
        input_u,
        param.l0,
        e,
    );
    lemma_is_sum_of_four(
        param.a10,
        state.x0,
        param.a11,
        state.x1,
        param.b1,
        input_u,
        param.l1,
        e,
    );
    lemma_sum_of_two(param.c0, next.x0, param.c1, next.x1);
}

/// The weights of the unscented filter follow from its spread, and a spread that is not
/// positive stands for the smallest.
pub proof fn unscented_weights_follow_spread(noise: UkfNoise)
    ensures
        ({
            let s = noise.spread();
            let lambda = noise.lambda();
            let scale = noise.scale();
            let m = noise.mean_weight();
            let c = noise.variance_weight();
            let o = noise.outer_weight();
            &&& noise.alpha > b32(ZERO) ==> s == noise.alpha
            &&& lambda.finite() ==> is_spread_excess(lambda, s, noise.kappa)
            &&& b32(ONE) + lambda > b32(ZERO) && scale.finite() ==> is_sum(
                scale,
                b32(ONE),
                lambda,
            )
            &&& scale.finite() && !scale.zero() && m.finite() ==> is_quotient(m, lambda, scale)
            &&& scale.finite() && !scale.zero() && o.finite() ==> is_half_over(o, scale)
            &&& c.finite() ==> is_central_weight(c, m, s, noise.beta)
        }),
{
    let s = noise.spread();
    let lambda = noise.lambda();
    let scale = noise.scale();
    lemma_is_spread_excess(s, noise.kappa);
    lemma_is_sum(b32(ONE), lambda);
    if scale.finite() && !scale.zero() {
        lemma_is_quotient(lambda, scale);
        lemma_is_half_over(scale);
    }
    lemma_is_central_weight(noise.mean_weight(), s, noise.beta);
}

/// The points of the unscented filter lie on both sides of the state, at the root of the
/// scaled variance.
pub proof fn unscented_points_lie_around_state(state: UkfState, noise: UkfNoise)
    ensures
        ({
            let square = noise.scale() * state.p;
            let reach = sqrt_of(square);
            let root = real_of(reach);
            let at = state.points(noise);
            &&& at.0 == state.x
            &&& square.finite() ==> is_amplified(square, noise.scale(), state.p)
            &&& square.zero() || square.normal() && square > b32(ZERO) ==> 2097152real
                * size_of_real(root * root - real_of(square)) <= root * root
            &&& at.1.finite() ==> is_sum(at.1, state.x, reach)
            &&& at.2.finite() ==> is_difference(at.2, state.x, reach)
        }),
{
    let square = noise.scale() * state.p;
    let reach = sqrt_of(square);
    products_are_rounded(noise.scale(), state.p);
    lemma_is_sum(state.x, reach);
    differences_are_rounded(state.x, reach);
    if square.zero() || square.normal() && square > b32(ZERO) {
        lemma_root_as_real(square);
    }
}

/// Means, variances and covariance of the unscented filter are weighted sums over its points.
pub proof fn unscented_moments_are_weighted_sums(
    noise: UkfNoise,
    v: (Binary32, Binary32, Binary32),
    base: Binary32,
    d: (Binary32, Binary32, Binary32),
    e: (Binary32, Binary32, Binary32),
)
    ensures
        ({
            let m = noise.mean_weight();
            let c = noise.variance_weight();
            let o = noise.outer_weight();
            let mean = noise.mean(v);
            let variance = noise.variance(base, d);
            let covariance = noise.covariance(d, e);
            &&& mean.finite() ==> is_sum_of_three(mean, m, v.0, o, v.1, o, v.2)
            &&& variance.finite() ==> is_weighted_square_sum(
                variance,
                base,
                c,
                d.0,
                d.0,
                o,
                d.1,
                d.1,
                o,
                d.2,
                d.2,
            )
            &&& covariance.finite() ==> is_weighted_product_sum(
                covariance,
                c,
                d.0,
                e.0,
                o,
                d.1,
                e.1,
                o,
                d.2,
                e.2,
            )
        }),
{
    let m = noise.mean_weight();
    let c = noise.variance_weight();
    let o = noise.outer_weight();
    lemma_is_sum_of_three(m, v.0, o, v.1, o, v.2);
    lemma_is_weighted_square_sum(base, c, d.0, d.0, o, d.1, d.1, o, d.2, d.2);
    lemma_is_weighted_product_sum(c, d.0, e.0, o, d.1, e.1, o, d.2, e.2);
}

/// The unscented filter corrects the mean of the moved points by the gain times what the
/// measurement exceeds the mean of the seen points by. The gain is the covariance over the
/// variance of what is seen, and the variance falls by what the gain takes off.
pub proof fn unscented_filter_follows_equations(
    noise: UkfNoise,
    moved: (Binary32, Binary32, Binary32),
    seen: (Binary32, Binary32, Binary32),
    measurement: Binary32,
)
    ensures
        ({
            let next = UkfState::updated(noise, moved, seen, measurement);
            let x = noise.mean(moved);
            let z = noise.mean(seen);
            let d = (moved.0 - x, moved.1 - x, moved.2 - x);
            let e = (seen.0 - z, seen.1 - z, seen.2 - z);
            let p = noise.variance(noise.q, d);
            let total = noise.variance(noise.r, e);
            let pz = if total.zero() {
                b32(ONE)
            } else {
                total
            };
            let shared = noise.covariance(d, e);
            &&& next.residual.finite() ==> is_difference(next.residual, measurement, z)
            &&& pz.finite() && next.k.finite() ==> is_quotient(next.k, shared, pz)
            &&& next.x.finite() ==> is_offset_product(next.x, x, next.k, next.residual)
            &&& next.p.finite() ==> is_reduced_by_product_of_three(next.p, p, next.k, pz, next.k)
        }),
{
    let next = UkfState::updated(noise, moved, seen, measurement);
    let x = noise.mean(moved);
    let z = noise.mean(seen);
    let d = (moved.0 - x, moved.1 - x, moved.2 - x);
    let e = (seen.0 - z, seen.1 - z, seen.2 - z);
    let p = noise.variance(noise.q, d);
    let total = noise.variance(noise.r, e);
    let pz = if total.zero() {
        b32(ONE)
    } else {
        total
    };
    lemma_small_constants();
    differences_are_rounded(measurement, z);
    if pz.finite() {
        lemma_is_quotient(noise.covariance(d, e), pz);
    }
    lemma_is_offset_product(x, next.k, next.residual);
    lemma_is_reduced_by_product_of_three(p, next.k, pz, next.k);
}

/// The combined estimator controls the currents at the estimated angle, wrapped to one
/// revolution, and hands the duties of the current loop out.
pub proof fn estimated_angle_turns_current_loop(
    state: EkfFocState,
    param: FocBasicParam,
    input: EkfFocInput,
    ekf: EkfState,
    estimate: Binary32,
    sin: Binary32,
    cos: Binary32,
)
    ensures
        ({
            let next = state.joined(param, input, ekf, estimate, sin, cos);
            let angle = wrapped_angle(estimate);
            &&& next.theta_rad == angle
            &&& next.foc == state.foc.updated(
                param,
                FocBasicInput { theta_e_rad: angle, ..input.foc },
                sin,
                cos,
            )
            &&& next.pwm == next.foc.pwm
            &&& next.ekf == ekf
        }),
{
    reveal(EkfFocState::joined);
    let angle = wrapped_angle(estimate);
    let a = FocBasicInput { theta_e_rad: angle, ..input.foc };
    let b = EkfFocState::current_input(input, angle);
    assert(a == b);
    let next = state.foc.updated(param, a, sin, cos);
    assert(next == state.foc.updated(param, b, sin, cos));
}

} // verus!
