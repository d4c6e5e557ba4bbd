//! What one step of the adaptive, higher-order and super-twisting observers does to exact
//! reals, up to rounding.
use vstd::prelude::*;
use crate::arithmetic::lemma_mul_kind;
use crate::arithmetic::lemma_sum_kind;
use crate::arithmetic::negation_is_an_involution;
use crate::arithmetic::product_follows_signs;
use crate::arithmetic::sum_of_non_negatives;
use crate::binary32::b32;
use crate::binary32::Binary32;
use crate::binary32::MINUS_ONE;
use crate::binary32::ONE;
use crate::binary32::ZERO;
use crate::controller_laws::is_sum_of_two;
use crate::controller_laws::lemma_sum_of_two;
use crate::equations::is_adapted;
use crate::equations::is_driven;
use crate::equations::is_offset_product_of_three;
use crate::equations::is_product_of_three_plus;
use crate::equations::is_quotient_of_difference;
use crate::equations::lemma_is_adapted;
use crate::equations::lemma_is_driven;
use crate::equations::lemma_is_offset_product_of_three;
use crate::equations::lemma_is_product_of_three_plus;
use crate::equations::lemma_is_quotient_of_difference;
use crate::exact::real_of;
use crate::exact::size_of_real;
use crate::math::clamped;
use crate::math::saturated;
use crate::math::wrapped_angle;
use crate::observer::advanced_smo::AdaptiveSmoInput;
use crate::observer::advanced_smo::AdaptiveSmoParam;
use crate::observer::advanced_smo::AdaptiveSmoState;
use crate::observer::advanced_smo::HigherOrderSmoInput;
use crate::observer::advanced_smo::HigherOrderSmoParam;
use crate::observer::advanced_smo::HigherOrderSmoState;
use crate::observer::advanced_smo::modelled_currents;
use crate::observer::advanced_smo::smoothed_vector;
use crate::observer::advanced_smo::SuperTwistingSmoInput;
use crate::observer::advanced_smo::SuperTwistingSmoParam;
use crate::observer::advanced_smo::SuperTwistingSmoState;
use crate::observer::linear_filters::lemma_root_as_real;
use crate::observer::smo_laws::forces_model;
use crate::observer::smo_laws::lemma_force;
use crate::rounded_steps::differences_are_rounded;
use crate::rounded_steps::is_difference;
use crate::rounded_steps::is_smoothed;
use crate::rounded_steps::smoothing_takes_share_of_way;
use crate::running_error::lemma_zero_real;
use crate::running_error::not_limited;
use crate::running_error::strictly_inside;
use crate::square_root::sqrt_of;
use crate::transform::AlphaBeta;

verus! {

/// Whether both axes of a modelled current moved by what resistance, induced voltage and
/// force leave of the voltages of their axes.
pub open spec fn both_driven(
    after: AlphaBeta,
    before: AlphaBeta,
    ts: Binary32,
    ls: Binary32,
    voltage: AlphaBeta,
    rs: Binary32,
    emf: AlphaBeta,
    force: AlphaBeta,
) -> bool {
    &&& after.alpha.finite() ==> is_driven(
        after.alpha,
        before.alpha,
        ts,
        ls,
        voltage.alpha,
        rs,
        emf.alpha,
        force.alpha,
    )
    &&& after.beta.finite() ==> is_driven(
        after.beta,
        before.beta,
        ts,
        ls,
        voltage.beta,
        rs,
        emf.beta,
        force.beta,
    )
}

/// Whether both axes of an induced voltage moved by their share of the way to the force.
pub open spec fn both_smoothed(
    after: AlphaBeta,
    before: AlphaBeta,
    alpha: Binary32,
    force: AlphaBeta,
) -> bool {
    &&& after.alpha.finite() ==> is_smoothed(after.alpha, before.alpha, alpha, force.alpha)
    &&& after.beta.finite() ==> is_smoothed(after.beta, before.beta, alpha, force.beta)
}

proof fn lemma_model(
    est: AlphaBeta,
    rs: Binary32,
    ls: Binary32,
    ts: Binary32,
    voltage: AlphaBeta,
    emf: AlphaBeta,
    force: AlphaBeta,
    alpha: Binary32,
)
    requires
        ls > b32(ZERO),
        ls.finite(),
        !alpha.nan(),
    ensures
        both_driven(
            modelled_currents(est, rs, ls, ts, voltage, emf, force),
            est,
            ts,
            ls,
            voltage,
            rs,
            emf,
            force,
        ),
        both_smoothed(smoothed_vector(emf, alpha, force), emf, alpha, force),
{
    lemma_zero_real(b32(ZERO));
    lemma_is_driven(est.alpha, ts, ls, voltage.alpha, rs, emf.alpha, force.alpha);
    lemma_is_driven(est.beta, ts, ls, voltage.beta, rs, emf.beta, force.beta);
    let after = smoothed_vector(emf, alpha, force);
    if after.alpha.finite() {
        smoothing_takes_share_of_way(emf.alpha, alpha, force.alpha);
    }
    if after.beta.finite() {
        smoothing_takes_share_of_way(emf.beta, alpha, force.beta);
    }
}

/// The adaptive observer: the gain grows while the current error exceeds its target, each
/// force is that gain with the sign of the error of its axis, the modelled current moves
/// under its own voltage against resistance, induced voltage and force, and the induced
/// voltage moves to the force.
pub proof fn adaptive_smo_follows_equations(
    state: AdaptiveSmoState,
    param: AdaptiveSmoParam,
    input: AdaptiveSmoInput,
)
    requires
        state.initialized != 0,
        param.ls > b32(ZERO),
        param.ls.finite(),
        param.boundary.finite(),
        !param.emf_filter_alpha.nan(),
    ensures
        ({
            let next = state.vector_updated(param, input);
            let est = state.current_est;
            let i = input.current;
            let a = est.alpha - i.alpha;
            let b = est.beta - i.beta;
            let square = a * a + b * b;
            let length = real_of(next.error_abs);
            &&& square.finite() ==> is_sum_of_two(square, a, a, b, b)
            &&& square.zero() || square.normal() ==> 2097152real * size_of_real(
                length * length - real_of(square),
            ) <= length * length
            &&& strictly_inside(next.k_slide, param.k_min, param.k_max) ==> is_adapted(
                next.k_slide,
                state.k_slide,
                param.adapt_rate,
                next.error_abs,
                param.target_error,
                param.ts,
            )
            &&& next.k_slide.finite() && a.finite() ==> forces_model(
                next.sliding.alpha,
                next.k_slide,
                param.boundary,
                est.alpha,
                i.alpha,
            )
            &&& next.k_slide.finite() && b.finite() ==> forces_model(
                next.sliding.beta,
                next.k_slide,
                param.boundary,
                est.beta,
                i.beta,
            )
            &&& both_driven(
                next.current_est,
                est,
                param.ts,
                param.ls,
                input.voltage,
                param.rs,
                state.emf,
                next.sliding,
            )
            &&& both_smoothed(next.emf, state.emf, param.emf_filter_alpha, next.sliding)
        }),
{
    let next = state.vector_updated(param, input);
    let est = state.current_est;
    let i = input.current;
    let a = est.alpha - i.alpha;
    let b = est.beta - i.beta;
    let square = a * a + b * b;
    lemma_sum_of_two(a, a, b, b);
    if square.zero() || square.normal() {
        lemma_mul_kind(a, a);
        lemma_mul_kind(b, b);
        lemma_sum_kind(a * a, b * b);
        product_follows_signs(a, a);
        product_follows_signs(b, b);
        sum_of_non_negatives(a * a, b * b);
        lemma_root_as_real(square);
    }
    lemma_is_adapted(
        state.k_slide,
        param.adapt_rate,
        next.error_abs,
        param.target_error,
        param.ts,
    );
    if strictly_inside(next.k_slide, param.k_min, param.k_max) {
        not_limited(
            state.k_slide + param.adapt_rate * (next.error_abs - param.target_error) * param.ts,
            param.k_min,
            param.k_max,
        );
    }
    if next.k_slide.finite() && a.finite() {
        lemma_force(next.k_slide, param.boundary, est.alpha, i.alpha);
    }
    if next.k_slide.finite() && b.finite() {
        lemma_force(next.k_slide, param.boundary, est.beta, i.beta);
    }
    lemma_model(
        est,
        param.rs,
        param.ls,
        param.ts,
        input.voltage,
        state.emf,
        next.sliding,
        param.emf_filter_alpha,
    );
}

/// The first step of the adaptive observer is that of an observer at rest whose gain is the
/// initial one, limited.
pub proof fn adaptive_smo_starts_at_rest(
    state: AdaptiveSmoState,
    param: AdaptiveSmoParam,
    input: AdaptiveSmoInput,
)
    requires
        state.initialized == 0,
        param.ls > b32(ZERO),
    ensures
        ({
            let rest = AdaptiveSmoState {
                k_slide: clamped(param.k_initial, param.k_min, param.k_max),
                initialized: 1,
                ..AdaptiveSmoState::initial()
            };
            state.vector_updated(param, input) == rest.vector_updated(param, input)
        }),
{
}

/// The sign of a number, as a number.
pub open spec fn plain_sign(x: Binary32) -> Binary32 {
    if x > b32(ZERO) {
        b32(ONE)
    } else if x < b32(ZERO) {
        b32(MINUS_ONE)
    } else {
        b32(ZERO)
    }
}

/// The higher-order observer: the rate of each current error is its difference quotient, and
/// each force answers the error and its rate of its axis.
pub proof fn higher_order_smo_follows_equations(
    state: HigherOrderSmoState,
    param: HigherOrderSmoParam,
    input: HigherOrderSmoInput,
)
    requires
        param.ls > b32(ZERO),
        param.ls.finite(),
        param.ts > b32(ZERO),
        param.ts.finite(),
        !param.emf_filter_alpha.nan(),
    ensures
        ({
            let next = state.vector_updated(param, input);
            let est = state.current_est;
            let i = input.current;
            let e = next.last_error;
            let d = next.error_dot;
            &&& e.alpha.finite() ==> is_difference(e.alpha, est.alpha, i.alpha)
            &&& e.beta.finite() ==> is_difference(e.beta, est.beta, i.beta)
            &&& d.alpha.finite() ==> is_quotient_of_difference(
                d.alpha,
                e.alpha,
                state.last_error.alpha,
                param.ts,
            )
            &&& d.beta.finite() ==> is_quotient_of_difference(
                d.beta,
                e.beta,
                state.last_error.beta,
                param.ts,
            )
            &&& next.sliding.alpha.finite() ==> is_sum_of_two(
                next.sliding.alpha,
                param.k_slide,
                saturated(e.alpha, param.boundary),
                param.k_dot,
                saturated(d.alpha, param.dot_boundary),
            )
            &&& next.sliding.beta.finite() ==> is_sum_of_two(
                next.sliding.beta,
                param.k_slide,
                saturated(e.beta, param.boundary),
                param.k_dot,
                saturated(d.beta, param.dot_boundary),
            )
            &&& both_driven(
                next.current_est,
                est,
                param.ts,
                param.ls,
                input.voltage,
                param.rs,
                state.emf,
                next.sliding,
            )
            &&& both_smoothed(next.emf, state.emf, param.emf_filter_alpha, next.sliding)
        }),
{
    let next = state.vector_updated(param, input);
    let est = state.current_est;
    let i = input.current;
    let e = next.last_error;
    let d = next.error_dot;
    lemma_zero_real(b32(ZERO));
    differences_are_rounded(est.alpha, i.alpha);
    differences_are_rounded(est.beta, i.beta);
    lemma_is_quotient_of_difference(e.alpha, state.last_error.alpha, param.ts);
    lemma_is_quotient_of_difference(e.beta, state.last_error.beta, param.ts);
    lemma_sum_of_two(
        param.k_slide,
        saturated(e.alpha, param.boundary),
        param.k_dot,
        saturated(d.alpha, param.dot_boundary),
    );
    lemma_sum_of_two(
        param.k_slide,
        saturated(e.beta, param.boundary),
        param.k_dot,
        saturated(d.beta, param.dot_boundary),
    );
    lemma_model(
        est,
        param.rs,
        param.ls,
        param.ts,
        input.voltage,
        state.emf,
        next.sliding,
        param.emf_filter_alpha,
    );
}

/// The super-twisting observer: each integral part moves by gain and period in the direction
/// of the current error of its axis, and each force is the gain times the root of that error,
/// with its sign, and the integral part.
pub proof fn super_twisting_smo_follows_equations(
    state: SuperTwistingSmoState,
    param: SuperTwistingSmoParam,
    input: SuperTwistingSmoInput,
)
    requires
        param.ls > b32(ZERO),
        param.ls.finite(),
        !param.emf_filter_alpha.nan(),
    ensures
        ({
            let next = state.vector_updated(param, input);
            let est = state.current_est;
            let a = est.alpha - input.current.alpha;
            let b = est.beta - input.current.beta;
            &&& a.finite() ==> is_difference(a, est.alpha, input.current.alpha)
            &&& b.finite() ==> is_difference(b, est.beta, input.current.beta)
            &&& next.integral.alpha.finite() ==> is_offset_product_of_three(
                next.integral.alpha,
                state.integral.alpha,
                param.k2,
                plain_sign(a),
                param.ts,
            )
            &&& next.integral.beta.finite() ==> is_offset_product_of_three(
                next.integral.beta,
                state.integral.beta,
                param.k2,
                plain_sign(b),
                param.ts,
            )
            &&& next.sliding.alpha.finite() ==> is_product_of_three_plus(
                next.sliding.alpha,
                param.k1,
                sqrt_of(a.size()),
                plain_sign(a),
                next.integral.alpha,
            )
            &&& next.sliding.beta.finite() ==> is_product_of_three_plus(
                next.sliding.beta,
                param.k1,
                sqrt_of(b.size()),
                plain_sign(b),
                next.integral.beta,
            )
            &&& both_driven(
                next.current_est,
                est,
                param.ts,
                param.ls,
                input.voltage,
                param.rs,
                state.emf,
                next.sliding,
            )
            &&& both_smoothed(next.emf, state.emf, param.emf_filter_alpha, next.sliding)
        }),
{
    let next = state.vector_updated(param, input);
    let est = state.current_est;
    let a = est.alpha - input.current.alpha;
    let b = est.beta - input.current.beta;
    differences_are_rounded(est.alpha, input.current.alpha);
    differences_are_rounded(est.beta, input.current.beta);
    lemma_is_offset_product_of_three(
        state.integral.alpha,
        param.k2,
        plain_sign(a),
        param.ts,
    );
    lemma_is_offset_product_of_three(state.integral.beta, param.k2, plain_sign(b), param.ts);
    lemma_is_product_of_three_plus(
        param.k1,
        sqrt_of(a.size()),
        plain_sign(a),
        next.integral.alpha,
    );
    lemma_is_product_of_three_plus(
        param.k1,
        sqrt_of(b.size()),
        plain_sign(b),
        next.integral.beta,
    );
    lemma_model(
        est,
        param.rs,
        param.ls,
        param.ts,
        input.voltage,
        state.emf,
        next.sliding,
        param.emf_filter_alpha,
    );
}

/// An induced voltage of `(-y, x)` stands for a rotor in the direction of `(x, y)`, in
/// all three observers.
pub proof fn advanced_angles_lag_induced_voltage<A: Fn(Binary32, Binary32) -> Binary32>(
    adaptive: (AdaptiveSmoState, AdaptiveSmoParam, AdaptiveSmoInput, AdaptiveSmoState),
    higher: (HigherOrderSmoState, HigherOrderSmoParam, HigherOrderSmoInput, HigherOrderSmoState),
    twisting: (
        SuperTwistingSmoState,
        SuperTwistingSmoParam,
        SuperTwistingSmoInput,
        SuperTwistingSmoState,
    ),
    atan2: A,
    x: Binary32,
    y: Binary32,
    angle: Binary32,
)
    requires
        forall|a: Binary32| atan2.ensures((y, x), a) ==> a == angle,
    ensures
        ({
            let (state, param, input, next) = adaptive;
            param.ls > b32(ZERO) && state.steps_to(param, input, atan2, next) && next.emf == (
            AlphaBeta { alpha: -y, beta: x }) ==> next.theta_emf_rad == wrapped_angle(angle)
        }),
        ({
            let (state, param, input, next) = higher;
            param.ls > b32(ZERO) && param.ts > b32(ZERO) && state.steps_to(
                param,
                input,
                atan2,
                next,
            ) && next.emf == (AlphaBeta { alpha: -y, beta: x }) ==> next.theta_emf_rad
                == wrapped_angle(angle)
        }),
        ({
            let (state, param, input, next) = twisting;
            param.ls > b32(ZERO) && state.steps_to(param, input, atan2, next) && next.emf == (
            AlphaBeta { alpha: -y, beta: x }) ==> next.theta_emf_rad == wrapped_angle(angle)
        }),
{
    negation_is_an_involution(y);
    let emf = AlphaBeta { alpha: -y, beta: x };
    assert(-emf.alpha == y);
    let (state, param, input, next) = adaptive;
    let vector = state.vector_updated(param, input);
    if param.ls > b32(ZERO) && state.steps_to(param, input, atan2, next) && next.emf == emf {
        let a = choose|a: Binary32|
            atan2.ensures((-vector.emf.alpha, vector.emf.beta), a) && next == vector.with_angle(a);
        assert(next.emf == vector.emf);
        assert(atan2.ensures((y, x), a));
    }
    let (state, param, input, next) = higher;
    let vector = state.vector_updated(param, input);
    if param.ls > b32(ZERO) && param.ts > b32(ZERO) && state.steps_to(param, input, atan2, next)
        && next.emf == emf {
        let a = choose|a: Binary32|
            atan2.ensures((-vector.emf.alpha, vector.emf.beta), a) && next == vector.with_angle(a);
        assert(next.emf == vector.emf);
        assert(atan2.ensures((y, x), a));
    }
    let (state, param, input, next) = twisting;
    let vector = state.vector_updated(param, input);
    if param.ls > b32(ZERO) && state.steps_to(param, input, atan2, next) && next.emf == emf {
        let a = choose|a: Binary32|
            atan2.ensures((-vector.emf.alpha, vector.emf.beta), a) && next == vector.with_angle(a);
        assert(next.emf == vector.emf);
        assert(atan2.ensures((y, x), a));
    }
}

} // verus!
