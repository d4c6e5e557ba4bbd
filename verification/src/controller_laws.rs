//! What one step of each controller does to exact reals, up to rounding, and how its limits
//! act.
use vstd::prelude::*;
use crate::arithmetic::lemma_rounded_sum_exact;
use crate::arithmetic::lemma_sum_kind;
use crate::arithmetic::negation_is_an_involution;
use crate::arithmetic::order_is_value_order;
use crate::binary32::b32;
use crate::binary32::Binary32;
use crate::binary32::INFINITY;
use crate::binary32::ONE;
use crate::binary32::ZERO;
use crate::controller::CascadeInput;
use crate::controller::CascadeParam;
use crate::controller::CascadeState;
use crate::controller::FeedForwardParam;
use crate::controller::FeedForwardState;
use crate::controller::filtered_rate;
use crate::controller::PdParam;
use crate::controller::PdState;
use crate::controller::PidParam;
use crate::controller::PidState;
use crate::controller::PiParam;
use crate::controller::PiState;
use crate::controller::PositionLoopParam;
use crate::controller::PositionLoopState;
use crate::controller::PParam;
use crate::controller::PState;
use crate::controller::SpeedLoopParam;
use crate::controller::SpeedLoopState;
use crate::exact::real_of;
use crate::exact::size_of_real;
use crate::foc::FocBasicInput;
use crate::foc_laws::foc_turns_with_rotor;
use crate::foc_laws::turns_with;
use crate::math::clamped;
use crate::math::TWO_PI;
use crate::nearest::lemma_mag_units_order;
use crate::observer::bemf::smoothing_stays_between;
use crate::observer::flux::between_up_to_rounding;
use crate::observer::smo::lemma_shorter_way;
use crate::rounded_steps::differences_are_rounded;
use crate::rounded_steps::is_amplified;
use crate::rounded_steps::is_difference;
use crate::rounded_steps::is_faded;
use crate::rounded_steps::is_filtered_rate;
use crate::rounded_steps::is_integrated;
use crate::rounded_steps::lemma_filtered_rate;
use crate::rounded_steps::lemma_integrated;
use crate::rounded_steps::lemma_no_limit;
use crate::rounded_steps::lemma_rate_decays;
use crate::rounded_steps::lemma_share_of;
use crate::running_error::given;
use crate::running_error::lemma_zero_real;
use crate::running_error::limit_if_any;
use crate::running_error::minus;
use crate::running_error::not_limited;
use crate::running_error::off_by;
use crate::running_error::ordinary;
use crate::running_error::ordinary_divisor;
use crate::running_error::over;
use crate::running_error::plus;
use crate::running_error::strictly_inside;
use crate::running_error::times;
use crate::running_error::tiny;
use crate::running_error::Traced;
use crate::running_error::usual_limits;
use vstd::arithmetic::power2::lemma2_to64;
use vstd::arithmetic::power2::pow2;
use vstd::math::abs;

verus! {

/// A proportional controller amplifies what the reference exceeds the feedback by.
pub proof fn p_amplifies_error(param: PParam, reference: Binary32, feedback: Binary32)
    ensures
        ({
            let next = PState::updated(param, reference, feedback);
            &&& next.error.finite() ==> is_difference(next.error, reference, feedback)
            &&& strictly_inside(next.output, param.out_min, param.out_max) ==> is_amplified(
                next.output,
                param.kp,
                next.error,
            )
        }),
{
    let next = PState::updated(param, reference, feedback);
    differences_are_rounded(reference, feedback);
    let e = given(next.error);
    let k = given(param.kp);
    let p = times(k, e);
    if strictly_inside(next.output, param.out_min, param.out_max) {
        not_limited(param.kp * next.error, param.out_min, param.out_max);
    }
}

/// Limits of a proportional controller only limit its output.
pub proof fn p_limits_only_limit(param: PParam, reference: Binary32, feedback: Binary32)
    ensures
        ({
            let free = PParam { out_min: -b32(INFINITY), out_max: b32(INFINITY), ..param };
            PState::updated(param, reference, feedback).output == clamped(
                PState::updated(free, reference, feedback).output,
                param.out_min,
                param.out_max,
            )
        }),
{
    lemma_no_limit(param.kp * (reference - feedback));
}

/// The output of a PI controller is the amplified error and the integral part together,
/// unless both the output and the integral part are at a limit. Where the output is not at
/// a limit, the integral part grew by gain, period and error, unless it is at a limit.
pub proof fn pi_output_is_sum_of_parts(
    state: PiState,
    param: PiParam,
    reference: Binary32,
    feedback: Binary32,
)
    ensures
        ({
            let next = state.updated(param, reference, feedback);
            let free = strictly_inside(next.output, param.out_min, param.out_max);
            let integrates = strictly_inside(
                next.integrator,
                param.integrator_min,
                param.integrator_max,
            );
            let e = real_of(next.error);
            let i = real_of(next.integrator);
            let k = real_of(param.kp);
            let u = real_of(next.output);
            &&& next.error.finite() ==> is_difference(next.error, reference, feedback)
            &&& free || integrates && next.output.finite() ==> 8388608real * size_of_real(u
                - (k * e + i)) <= 2real * (
            size_of_real(u) + (size_of_real(k) * size_of_real(e) + tiny()) + size_of_real(i))
            &&& free && integrates ==> is_integrated(
                next.integrator,
                state.integrator,
                param.ki,
                param.ts,
                next.error,
            )
        }),
{
    let next = state.updated(param, reference, feedback);
    let error = reference - feedback;
    let proportional = param.kp * error;
    let step = state.integrator + param.ki * param.ts * error;
    let integrated = clamped(step, param.integrator_min, param.integrator_max);
    let unlimited = proportional + integrated;
    let u = given(next.output);
    let i = given(next.integrator);
    let k = given(param.kp);
    let e = given(error);
    let p = times(k, e);
    let sum = plus(p, i);
    let rest = minus(u, p);
    assert(sum.number.finite() ==> off_by(sum.number, sum.exact, sum.weight, 2real));
    assert(rest.number.finite() ==> off_by(rest.number, rest.exact, rest.weight, 2real));
    differences_are_rounded(reference, feedback);
    lemma_integrated(state.integrator, param.ki, param.ts, error);
    if strictly_inside(next.output, param.out_min, param.out_max) {
        not_limited(unlimited, param.out_min, param.out_max);
    }
    if strictly_inside(next.integrator, param.integrator_min, param.integrator_max) {
        if unlimited.same(next.output) {
            not_limited(step, param.integrator_min, param.integrator_max);
            assert(next.output == unlimited);
        } else {
            not_limited(
                next.output - proportional,
                param.integrator_min,
                param.integrator_max,
            );
        }
    }
}

/// A PI controller without output limits.
pub open spec fn pi_with_free_output(param: PiParam) -> PiParam {
    PiParam { out_min: -b32(INFINITY), out_max: b32(INFINITY), ..param }
}

/// Output limits of a PI controller limit the output that it has without them; limits of
/// the integral part limit the part that it has without them.
pub proof fn pi_limits_only_limit(
    state: PiState,
    param: PiParam,
    reference: Binary32,
    feedback: Binary32,
)
    ensures
        ({
            let free = pi_with_free_output(param);
            let freest = PiParam {
                integrator_min: -b32(INFINITY),
                integrator_max: b32(INFINITY),
                ..free
            };
            let next = state.updated(free, reference, feedback);
            let last = state.updated(freest, reference, feedback);
            &&& state.updated(param, reference, feedback).output == clamped(
                next.output,
                param.out_min,
                param.out_max,
            )
            &&& !next.output.nan() && !last.output.nan() ==> next.integrator == clamped(
                last.integrator,
                param.integrator_min,
                param.integrator_max,
            )
        }),
{
    let error = reference - feedback;
    let step = state.integrator + param.ki * param.ts * error;
    let integrated = clamped(step, param.integrator_min, param.integrator_max);
    let proportional = param.kp * error;
    lemma_no_limit(proportional + integrated);
    lemma_no_limit(proportional + step);
    lemma_no_limit(step);
    let free = pi_with_free_output(param);
    let freest = PiParam {
        integrator_min: -b32(INFINITY),
        integrator_max: b32(INFINITY),
        ..free
    };
    let last = state.updated(freest, reference, feedback);
    lemma_no_limit(last.output - proportional);
}

/// A preload leaves output and integral part of one step: their relation is that of every
/// step, and a desired output within the limits is reached, up to rounding, unless the
/// integral part is at a limit.
pub proof fn pi_preload_reaches_output(
    param: PiParam,
    reference: Binary32,
    feedback: Binary32,
    desired_output: Binary32,
)
    ensures
        ({
            let next = PiState::preloaded(param, reference, feedback, desired_output);
            let e = real_of(next.error);
            let i = real_of(next.integrator);
            let k = real_of(param.kp);
            let u = real_of(next.output);
            let wanted = real_of(desired_output);
            let part = size_of_real(k) * size_of_real(e) + tiny();
            &&& next.error.finite() ==> is_difference(next.error, reference, feedback)
            &&& strictly_inside(next.output, param.out_min, param.out_max) ==> off_by(
                next.output,
                k * e + i,
                part + size_of_real(i),
                2real,
            )
            &&& desired_output.within(param.out_min, param.out_max) && strictly_inside(
                next.integrator,
                param.integrator_min,
                param.integrator_max,
            ) ==> off_by(next.integrator, wanted - k * e, size_of_real(wanted) + part, 2real)
            &&& strictly_inside(next.output, param.out_min, param.out_max)
                && desired_output.within(param.out_min, param.out_max) && strictly_inside(
                next.integrator,
                param.integrator_min,
                param.integrator_max,
            ) ==> off_by(next.output, wanted, size_of_real(wanted) + size_of_real(i)
                + 2real * part, 2real)
        }),
{
    let next = PiState::preloaded(param, reference, feedback, desired_output);
    let proportional = param.kp * next.error;
    let wanted = clamped(desired_output, param.out_min, param.out_max);
    let k = given(param.kp);
    let e = given(next.error);
    let i = given(next.integrator);
    let p = times(k, e);
    let sum = plus(p, i);
    let w = given(desired_output);
    let rest = minus(w, p);
    differences_are_rounded(reference, feedback);
    assert(sum.number.finite() ==> off_by(sum.number, sum.exact, sum.weight, 2real));
    assert(rest.number.finite() ==> off_by(rest.number, rest.exact, rest.weight, 2real));
    if strictly_inside(next.output, param.out_min, param.out_max) {
        not_limited(proportional + next.integrator, param.out_min, param.out_max);
    }
    if strictly_inside(next.integrator, param.integrator_min, param.integrator_max) {
        not_limited(wanted - proportional, param.integrator_min, param.integrator_max);
    }
}

/// Whether a number is the sum of two amplified numbers, rounded.
pub open spec fn is_sum_of_two(
    x: Binary32,
    first_gain: Binary32,
    first: Binary32,
    second_gain: Binary32,
    second: Binary32,
) -> bool {
    let k = real_of(first_gain);
    let e = real_of(first);
    let h = real_of(second_gain);
    let d = real_of(second);
    off_by(
        x,
        k * e + h * d,
        (size_of_real(k) * size_of_real(e) + tiny()) + (size_of_real(h) * size_of_real(d)
            + tiny()),
        2real,
    )
}

/// A finite sum of two products is rounded.
pub proof fn lemma_sum_of_two(k: Binary32, e: Binary32, h: Binary32, d: Binary32)
    ensures
        (k * e + h * d).finite() ==> is_sum_of_two(k * e + h * d, k, e, h, d),
{
    let a = given(k);
    let b = given(e);
    let c = given(h);
    let f = given(d);
    let p = times(a, b);
    let q = times(c, f);
    let sum = plus(p, q);
    assert(sum.steps == 2real);
}

/// The error of the step before, against which a PD controller takes the difference.
pub open spec fn pd_last_error(state: PdState, next: PdState) -> Binary32 {
    if state.initialized == 0 {
        next.error
    } else {
        state.last_error
    }
}

/// The derivative of a PD controller moves by its share of the way to the difference quotient
/// of the error, and its output is the amplified error and the amplified derivative together.
pub proof fn pd_output_is_sum_of_parts(
    state: PdState,
    param: PdParam,
    reference: Binary32,
    feedback: Binary32,
)
    requires
        param.ts > b32(ZERO),
        param.ts.finite(),
        !param.derivative_alpha.nan(),
    ensures
        ({
            let next = state.updated(param, reference, feedback);
            &&& next.error.finite() ==> is_difference(next.error, reference, feedback)
            &&& next.last_error == next.error
            &&& next.initialized != 0
            &&& next.derivative.finite() ==> is_filtered_rate(
                next.derivative,
                state.derivative,
                param.derivative_alpha,
                next.error,
                pd_last_error(state, next),
                param.ts,
            )
            &&& strictly_inside(next.output, param.out_min, param.out_max) ==> is_sum_of_two(
                next.output,
                param.kp,
                next.error,
                param.kd,
                next.derivative,
            )
        }),
{
    let next = state.updated(param, reference, feedback);
    differences_are_rounded(reference, feedback);
    if next.derivative.finite() {
        lemma_filtered_rate(
            state.derivative,
            param.derivative_alpha,
            next.error,
            pd_last_error(state, next),
            param.ts,
        );
    }
    lemma_sum_of_two(param.kp, next.error, param.kd, next.derivative);
    if strictly_inside(next.output, param.out_min, param.out_max) {
        not_limited(
            param.kp * next.error + param.kd * next.derivative,
            param.out_min,
            param.out_max,
        );
    }
}

/// Limits of a PD controller only limit its output.
pub proof fn pd_limits_only_limit(
    state: PdState,
    param: PdParam,
    reference: Binary32,
    feedback: Binary32,
)
    requires
        param.ts > b32(ZERO),
    ensures
        ({
            let free = PdParam { out_min: -b32(INFINITY), out_max: b32(INFINITY), ..param };
            let next = state.updated(free, reference, feedback);
            state.updated(param, reference, feedback) == (PdState {
                output: clamped(next.output, param.out_min, param.out_max),
                ..next
            })
        }),
{
    let next = state.updated(param, reference, feedback);
    lemma_no_limit(param.kp * next.error + param.kd * next.derivative);
}

/// While the error of a PD controller does not change, its derivative moves towards zero and
/// never past it: the share of the step is taken off, and a full share leaves zero.
pub proof fn pd_derivative_decays(
    state: PdState,
    param: PdParam,
    reference: Binary32,
    feedback: Binary32,
)
    requires
        param.ts > b32(ZERO),
        !param.derivative_alpha.nan(),
        state.derivative.finite(),
        (reference - feedback).finite(),
        state.initialized == 0 || state.last_error.same(reference - feedback),
    ensures
        ({
            let before = state.derivative;
            let after = state.updated(param, reference, feedback).derivative;
            &&& before >= b32(ZERO) ==> after.within(b32(ZERO), before)
            &&& before <= b32(ZERO) ==> after.within(before, b32(ZERO))
            &&& param.derivative_alpha >= b32(ONE) ==> after.zero()
            &&& param.derivative_alpha <= b32(ZERO) ==> after.same(before)
            &&& is_faded(after, before, param.derivative_alpha)
        }),
{
    let error = reference - feedback;
    let last = state.base_error(error);
    difference_of_equals_is_zero(error, last);
    lemma_rate_decays(state.derivative, param.derivative_alpha, error - last, param.ts);
}

/// Numbers that are equal differ by zero.
pub proof fn difference_of_equals_is_zero(a: Binary32, b: Binary32)
    requires
        a.finite(),
        b.same(a),
    ensures
        (a - b).zero(),
{
    order_is_value_order(b, a);
    negation_is_an_involution(b);
    lemma_sum_kind(a, -b);
    lemma_mag_units_order(0, 0);
    lemma_rounded_sum_exact(b32(ZERO), a.negative() && (-b).negative());
}

/// The error of the step before, against which a PID controller takes the difference.
pub open spec fn pid_last_error(state: PidState, next: PidState) -> Binary32 {
    if state.initialized == 0 {
        next.error
    } else {
        state.last_error
    }
}

/// The derivative of a PID controller moves by its share of the way to the difference
/// quotient of the error. Its output is the amplified error, the integral part and the
/// amplified derivative together, unless both the output and the integral part are at a
/// limit. Where the output is not at a limit, the integral part grew by gain, period and
/// error, unless it is at a limit.
pub proof fn pid_output_is_sum_of_parts(
    state: PidState,
    param: PidParam,
    reference: Binary32,
    feedback: Binary32,
)
    requires
        param.ts > b32(ZERO),
        param.ts.finite(),
        !param.derivative_alpha.nan(),
    ensures
        ({
            let next = state.updated(param, reference, feedback);
            let free = strictly_inside(next.output, param.out_min, param.out_max);
            let integrates = strictly_inside(
                next.integrator,
                param.integrator_min,
                param.integrator_max,
            );
            let e = real_of(next.error);
            let i = real_of(next.integrator);
            let d = real_of(next.derivative);
            let k = real_of(param.kp);
            let h = real_of(param.kd);
            let u = real_of(next.output);
            &&& next.error.finite() ==> is_difference(next.error, reference, feedback)
            &&& next.last_error == next.error
            &&& next.initialized != 0
            &&& next.derivative.finite() ==> is_filtered_rate(
                next.derivative,
                state.derivative,
                param.derivative_alpha,
                next.error,
                pid_last_error(state, next),
                param.ts,
            )
            &&& free || integrates && next.output.finite() ==> 8388608real * size_of_real(
                u - (k * e + i + h * d),
            ) <= 3real * (size_of_real(u) + (size_of_real(k) * size_of_real(e) + tiny())
                + size_of_real(i) + (size_of_real(h) * size_of_real(d) + tiny()))
            &&& free && integrates ==> is_integrated(
                next.integrator,
                state.integrator,
                param.ki,
                param.ts,
                next.error,
            )
        }),
{
    let next = state.updated(param, reference, feedback);
    let error = reference - feedback;
    let proportional = param.kp * error;
    let step = state.integrator + param.ki * param.ts * error;
    let integrated = clamped(step, param.integrator_min, param.integrator_max);
    let differential = param.kd * next.derivative;
    let unlimited = proportional + integrated + differential;
    let u = given(next.output);
    let i = given(next.integrator);
    let k = given(param.kp);
    let h = given(param.kd);
    let e = given(error);
    let d = given(next.derivative);
    let p = times(k, e);
    let r = times(h, d);
    let first = plus(p, i);
    let sum = plus(first, r);
    let most = minus(u, p);
    let rest = minus(most, r);
    assert(sum.number.finite() ==> off_by(sum.number, sum.exact, sum.weight, 3real));
    assert(rest.number.finite() ==> off_by(rest.number, rest.exact, rest.weight, 3real));
    differences_are_rounded(reference, feedback);
    lemma_integrated(state.integrator, param.ki, param.ts, error);
    if next.derivative.finite() {
        lemma_filtered_rate(
            state.derivative,
            param.derivative_alpha,
            error,
            pid_last_error(state, next),
            param.ts,
        );
    }
    if strictly_inside(next.output, param.out_min, param.out_max) {
        not_limited(unlimited, param.out_min, param.out_max);
    }
    if strictly_inside(next.integrator, param.integrator_min, param.integrator_max) {
        if unlimited.same(next.output) {
            not_limited(step, param.integrator_min, param.integrator_max);
            assert(next.output == unlimited);
        } else {
            not_limited(
                next.output - proportional - differential,
                param.integrator_min,
                param.integrator_max,
            );
        }
    }
}

/// Output limits of a PID controller limit the output that it has without them; limits of
/// the integral part limit the part that it has without them. The derivative knows neither.
pub proof fn pid_limits_only_limit(
    state: PidState,
    param: PidParam,
    reference: Binary32,
    feedback: Binary32,
)
    requires
        param.ts > b32(ZERO),
    ensures
        ({
            let free = PidParam { out_min: -b32(INFINITY), out_max: b32(INFINITY), ..param };
            let freest = PidParam {
                integrator_min: -b32(INFINITY),
                integrator_max: b32(INFINITY),
                ..free
            };
            let now = state.updated(param, reference, feedback);
            let next = state.updated(free, reference, feedback);
            let last = state.updated(freest, reference, feedback);
            &&& now.output == clamped(next.output, param.out_min, param.out_max)
            &&& now.derivative == next.derivative
            &&& now.derivative == last.derivative
            &&& !next.output.nan() && !last.output.nan() ==> next.integrator == clamped(
                last.integrator,
                param.integrator_min,
                param.integrator_max,
            )
        }),
{
    let next = state.updated(param, reference, feedback);
    let error = reference - feedback;
    let step = state.integrator + param.ki * param.ts * error;
    let integrated = clamped(step, param.integrator_min, param.integrator_max);
    let proportional = param.kp * error;
    let differential = param.kd * next.derivative;
    lemma_no_limit(proportional + integrated + differential);
    lemma_no_limit(proportional + step + differential);
    lemma_no_limit(step);
}

/// While the error of a PID controller does not change, its derivative moves towards zero and
/// never past it: the share of the step is taken off, and a full share leaves zero.
pub proof fn pid_derivative_decays(
    state: PidState,
    param: PidParam,
    reference: Binary32,
    feedback: Binary32,
)
    requires
        param.ts > b32(ZERO),
        !param.derivative_alpha.nan(),
        state.derivative.finite(),
        (reference - feedback).finite(),
        state.initialized == 0 || state.last_error.same(reference - feedback),
    ensures
        ({
            let before = state.derivative;
            let after = state.updated(param, reference, feedback).derivative;
            &&& before >= b32(ZERO) ==> after.within(b32(ZERO), before)
            &&& before <= b32(ZERO) ==> after.within(before, b32(ZERO))
            &&& param.derivative_alpha >= b32(ONE) ==> after.zero()
            &&& param.derivative_alpha <= b32(ZERO) ==> after.same(before)
            &&& is_faded(after, before, param.derivative_alpha)
        }),
{
    let error = reference - feedback;
    let last = state.base_error(error);
    difference_of_equals_is_zero(error, last);
    lemma_rate_decays(state.derivative, param.derivative_alpha, error - last, param.ts);
}

/// The derivative of a PID controller lies between the one before and the difference
/// quotient of the error, up to the roundings of one difference and one sum.
pub proof fn pid_derivative_lies_between(
    state: PidState,
    param: PidParam,
    reference: Binary32,
    feedback: Binary32,
)
    requires
        param.ts > b32(ZERO),
        !param.derivative_alpha.nan(),
        state.derivative.finite(),
        state.updated(param, reference, feedback).derivative.finite(),
        ({
            let next = state.updated(param, reference, feedback);
            let quotient = (next.error - pid_last_error(state, next)) / param.ts;
            quotient.finite() && (quotient - state.derivative).finite()
        }),
    ensures
        ({
            let next = state.updated(param, reference, feedback);
            between_up_to_rounding(
                state.derivative,
                next.derivative,
                (next.error - pid_last_error(state, next)) / param.ts,
            )
        }),
{
    let next = state.updated(param, reference, feedback);
    let quotient = (next.error - pid_last_error(state, next)) / param.ts;
    smoothing_stays_between(state.derivative, param.derivative_alpha, quotient);
}

/// A feed-forward term is the sum of its amplified references and its bias.
pub proof fn feed_forward_sums_parts(
    param: FeedForwardParam,
    velocity_ref: Binary32,
    acceleration_ref: Binary32,
)
    ensures
        ({
            let next = FeedForwardState::updated(param, velocity_ref, acceleration_ref);
            let v = real_of(velocity_ref);
            let a = real_of(acceleration_ref);
            let kv = real_of(param.kv);
            let ka = real_of(param.ka);
            let bias = real_of(param.bias);
            strictly_inside(next.output, param.out_min, param.out_max) ==> off_by(
                next.output,
                kv * v + ka * a + bias,
                (size_of_real(kv) * size_of_real(v) + tiny()) + (size_of_real(ka) * size_of_real(a)
                    + tiny()) + size_of_real(bias),
                3real,
            )
        }),
{
    let next = FeedForwardState::updated(param, velocity_ref, acceleration_ref);
    let kv = given(param.kv);
    let v = given(velocity_ref);
    let ka = given(param.ka);
    let a = given(acceleration_ref);
    let bias = given(param.bias);
    let p = times(kv, v);
    let q = times(ka, a);
    let first = plus(p, q);
    let sum = plus(first, bias);
    assert(sum.steps == 3real);
    if strictly_inside(next.output, param.out_min, param.out_max) {
        not_limited(
            param.kv * velocity_ref + param.ka * acceleration_ref + param.bias,
            param.out_min,
            param.out_max,
        );
    }
}

/// Limits of a feed-forward term only limit its output.
pub proof fn feed_forward_limits_only_limit(
    param: FeedForwardParam,
    velocity_ref: Binary32,
    acceleration_ref: Binary32,
)
    ensures
        ({
            let free = FeedForwardParam {
                out_min: -b32(INFINITY),
                out_max: b32(INFINITY),
                ..param
            };
            FeedForwardState::updated(param, velocity_ref, acceleration_ref).output == clamped(
                FeedForwardState::updated(free, velocity_ref, acceleration_ref).output,
                param.out_min,
                param.out_max,
            )
        }),
{
    lemma_no_limit(param.kv * velocity_ref + param.ka * acceleration_ref + param.bias);
}

/// The speed reference of the position loop is the amplified position error, and where
/// positions are no angles, the error is what the reference exceeds the feedback by.
pub proof fn position_loop_amplifies_error(
    param: PositionLoopParam,
    position_ref: Binary32,
    position_feedback: Binary32,
)
    ensures
        ({
            let next = PositionLoopState::updated(param, position_ref, position_feedback);
            let free = PositionLoopParam {
                speed_min: -b32(INFINITY),
                speed_max: b32(INFINITY),
                ..param
            };
            &&& param.wrap_error == 0 && next.error.finite() ==> is_difference(
                next.error,
                position_ref,
                position_feedback,
            )
            &&& strictly_inside(next.speed_ref, param.speed_min, param.speed_max) ==> is_amplified(
                next.speed_ref,
                param.kp,
                next.error,
            )
            &&& next.speed_ref == clamped(
                PositionLoopState::updated(free, position_ref, position_feedback).speed_ref,
                param.speed_min,
                param.speed_max,
            )
        }),
{
    let next = PositionLoopState::updated(param, position_ref, position_feedback);
    differences_are_rounded(position_ref, position_feedback);
    let k = given(param.kp);
    let e = given(next.error);
    let p = times(k, e);
    lemma_no_limit(param.kp * next.error);
    if strictly_inside(next.speed_ref, param.speed_min, param.speed_max) {
        not_limited(param.kp * next.error, param.speed_min, param.speed_max);
    }
}

/// In the position loop of an angle, the error leads from the feedback to the reference, up
/// to whole revolutions and the roundings of the difference and of the wrap.
pub proof fn position_error_leads_to_reference(
    param: PositionLoopParam,
    position_ref: Binary32,
    position_feedback: Binary32,
) -> (turns: int)
    requires
        param.wrap_error != 0,
        position_ref >= b32(ZERO),
        position_ref < b32(TWO_PI),
        position_feedback >= b32(ZERO),
        position_feedback < b32(TWO_PI),
    ensures
        ({
            let error = PositionLoopState::updated(param, position_ref, position_feedback).error;
            abs(
                error.value() - (position_ref.value() - position_feedback.value() - turns * b32(
                    TWO_PI,
                ).value()),
            ) <= 5 * pow2(128)
        }),
{
    lemma_shorter_way(position_feedback, position_ref)
}

/// In the cascade each loop sets the reference of the next: the speed loop follows the speed
/// reference of the position loop, and the current loop the torque current reference of the
/// speed loop and the constant flux current reference.
pub proof fn cascade_passes_references_on(
    state: CascadeState,
    param: CascadeParam,
    input: CascadeInput,
    sin: Binary32,
    cos: Binary32,
)
    ensures
        ({
            let next = state.updated(param, input, sin, cos);
            let speed = next.speed.pi;
            &&& param.position.wrap_error == 0 && next.position.error.finite() ==> is_difference(
                next.position.error,
                input.position_ref,
                input.position_feedback,
            )
            &&& next.speed_ref == next.position.speed_ref
            &&& speed.error.finite() ==> is_difference(
                speed.error,
                next.speed_ref,
                input.speed_feedback,
            )
            &&& next.iq_ref == speed.output
            &&& next.speed.iq_ref == speed.output
            &&& next.foc.iq_pi.error.finite() ==> is_difference(
                next.foc.iq_pi.error,
                next.iq_ref,
                next.foc.current_dq.q,
            )
            &&& next.foc.id_pi.error.finite() ==> is_difference(
                next.foc.id_pi.error,
                param.id_ref,
                next.foc.current_dq.d,
            )
            &&& next.pwm == next.foc.pwm
            &&& next.position == PositionLoopState::updated(
                param.position,
                input.position_ref,
                input.position_feedback,
            )
            &&& next.speed == state.speed.updated(
                param.speed,
                next.speed_ref,
                input.speed_feedback,
            )
            &&& next.foc == state.foc.updated(
                param.foc,
                FocBasicInput {
                    ia: input.ia,
                    ib: input.ib,
                    ic: input.ic,
                    id_ref: param.id_ref,
                    iq_ref: next.iq_ref,
                    theta_e_rad: input.theta_e_rad,
                },
                sin,
                cos,
            )
        }),
{
    let next = state.updated(param, input, sin, cos);
    differences_are_rounded(input.position_ref, input.position_feedback);
    differences_are_rounded(next.speed_ref, input.speed_feedback);
    differences_are_rounded(next.iq_ref, next.foc.current_dq.q);
    differences_are_rounded(param.id_ref, next.foc.current_dq.d);
}

/// Whether gains, period and limits of a PI controller are ordinary.
pub open spec fn ordinary_pi(param: PiParam) -> bool {
    &&& ordinary(param.kp) && ordinary(param.ki) && ordinary(param.ts)
    &&& usual_limits(param.out_min, param.out_max)
    &&& usual_limits(param.integrator_min, param.integrator_max)
}

/// A PI controller with traced inputs stays finite.
pub proof fn lemma_pi_stays_finite(state: PiState, param: PiParam, r: Traced, f: Traced)
    requires
        ordinary_pi(param),
        ordinary(state.integrator),
        r.holds(),
        f.holds(),
        r.fits,
        f.fits,
        r.exponent <= 66,
        f.exponent <= 66,
        r.steps <= 100real,
        f.steps <= 100real,
    ensures
        ({
            let next = state.updated(param, r.number, f.number);
            next.error.finite() && next.integrator.finite() && next.output.finite()
        }),
{
    let e = minus(r, f);
    let kp = given(param.kp);
    let ki = given(param.ki);
    let ts = given(param.ts);
    let i = given(state.integrator);
    let p = times(kp, e);
    let kt = times(ki, ts);
    let step = times(kt, e);
    let sum = plus(i, step);
    let integrated = limit_if_any(sum, param.integrator_min, param.integrator_max);
    let all = plus(p, integrated);
    let output = limit_if_any(all, param.out_min, param.out_max);
    let rest = minus(output, p);
}

/// A step of a PI controller on ordinary numbers stays finite.
pub proof fn pi_stays_finite(
    state: PiState,
    param: PiParam,
    reference: Binary32,
    feedback: Binary32,
)
    requires
        ordinary_pi(param),
        ordinary(state.integrator),
        ordinary(reference),
        ordinary(feedback),
    ensures
        ({
            let next = state.updated(param, reference, feedback);
            next.error.finite() && next.integrator.finite() && next.output.finite()
        }),
{
    let r = given(reference);
    let f = given(feedback);
    lemma_pi_stays_finite(state, param, r, f);
}

/// Whether the numbers of a step of a PD controller are ordinary.
pub open spec fn ordinary_pd(
    state: PdState,
    param: PdParam,
    reference: Binary32,
    feedback: Binary32,
) -> bool {
    &&& ordinary(param.kp) && ordinary(param.kd) && ordinary_divisor(param.ts)
    &&& usual_limits(param.out_min, param.out_max)
    &&& param.ts > b32(ZERO) && !param.derivative_alpha.nan()
    &&& ordinary(state.derivative) && ordinary(state.last_error)
    &&& ordinary(reference) && ordinary(feedback)
}

/// A filtered rate from a traced error.
proof fn lemma_traced_rate(
    before: Binary32,
    alpha: Binary32,
    e: Traced,
    l: Traced,
    ts: Binary32,
) -> (r: Traced)
    requires
        e.holds(),
        l.holds(),
        e.fits,
        l.fits,
        e.exponent <= 21,
        l.exponent <= 21,
        e.steps <= 1real,
        l.steps <= 1real,
        !alpha.nan(),
        ordinary(before),
        ordinary_divisor(ts),
        ts > b32(ZERO),
    ensures
        r.holds(),
        r.fits,
        r.exponent <= 70,
        r.steps <= 10real,
        r.number == filtered_rate(before, alpha, e.number - l.number, ts),
{
    let share = clamped(alpha, b32(ZERO), b32(ONE));
    lemma_share_of(alpha);
    lemma2_to64();
    lemma_zero_real(ts);
    let d = given(before);
    let c = given(share);
    let change = minus(e, l);
    let quotient = over(change, ts);
    let way = minus(quotient, d);
    let part = times(c, way);
    let sum = plus(d, part);
    sum
}

/// A step of a PD controller on ordinary numbers stays finite.
pub proof fn pd_stays_finite(
    state: PdState,
    param: PdParam,
    reference: Binary32,
    feedback: Binary32,
)
    requires
        ordinary_pd(state, param, reference, feedback),
    ensures
        ({
            let next = state.updated(param, reference, feedback);
            next.error.finite() && next.derivative.finite() && next.output.finite()
        }),
{
    let r = given(reference);
    let f = given(feedback);
    let e = minus(r, f);
    let last = given(state.last_error);
    let l = if state.initialized == 0 { e } else { last };
    let d = lemma_traced_rate(state.derivative, param.derivative_alpha, e, l, param.ts);
    let kp = given(param.kp);
    let kd = given(param.kd);
    let p = times(kp, e);
    let q = times(kd, d);
    let sum = plus(p, q);
    let output = limit_if_any(sum, param.out_min, param.out_max);
}

/// Whether the numbers of a step of a PID controller are ordinary.
pub open spec fn ordinary_pid(
    state: PidState,
    param: PidParam,
    reference: Binary32,
    feedback: Binary32,
) -> bool {
    &&& ordinary(param.kp) && ordinary(param.ki) && ordinary(param.kd)
    &&& ordinary_divisor(param.ts)
    &&& usual_limits(param.out_min, param.out_max)
    &&& usual_limits(param.integrator_min, param.integrator_max)
    &&& param.ts > b32(ZERO) && !param.derivative_alpha.nan()
    &&& ordinary(state.integrator) && ordinary(state.derivative) && ordinary(state.last_error)
    &&& ordinary(reference) && ordinary(feedback)
}

/// A step of a PID controller on ordinary numbers stays finite.
pub proof fn pid_stays_finite(
    state: PidState,
    param: PidParam,
    reference: Binary32,
    feedback: Binary32,
)
    requires
        ordinary_pid(state, param, reference, feedback),
    ensures
        ({
            let next = state.updated(param, reference, feedback);
            &&& next.error.finite() && next.derivative.finite()
            &&& next.integrator.finite() && next.output.finite()
        }),
{
    let r = given(reference);
    let f = given(feedback);
    let e = minus(r, f);
    let last = given(state.last_error);
    let l = if state.initialized == 0 { e } else { last };
    let d = lemma_traced_rate(state.derivative, param.derivative_alpha, e, l, param.ts);
    let kp = given(param.kp);
    let ki = given(param.ki);
    let ts = given(param.ts);
    let kd = given(param.kd);
    let i = given(state.integrator);
    let p = times(kp, e);
    let kt = times(ki, ts);
    let step = times(kt, e);
    let sum = plus(i, step);
    let integrated = limit_if_any(sum, param.integrator_min, param.integrator_max);
    let q = times(kd, d);
    let first = plus(p, integrated);
    let all = plus(first, q);
    let output = limit_if_any(all, param.out_min, param.out_max);
    let most = minus(output, p);
    let rest = minus(most, q);
}

/// A step of a proportional controller on ordinary numbers stays finite.
pub proof fn p_stays_finite(param: PParam, reference: Binary32, feedback: Binary32)
    requires
        ordinary(param.kp),
        usual_limits(param.out_min, param.out_max),
        ordinary(reference),
        ordinary(feedback),
    ensures
        PState::updated(param, reference, feedback).error.finite(),
        PState::updated(param, reference, feedback).output.finite(),
{
    let r = given(reference);
    let f = given(feedback);
    let e = minus(r, f);
    let k = given(param.kp);
    let p = times(k, e);
    let output = limit_if_any(p, param.out_min, param.out_max);
}

/// A feed-forward term of ordinary numbers stays finite.
pub proof fn feed_forward_stays_finite(
    param: FeedForwardParam,
    velocity_ref: Binary32,
    acceleration_ref: Binary32,
)
    requires
        ordinary(param.kv),
        ordinary(param.ka),
        ordinary(param.bias),
        usual_limits(param.out_min, param.out_max),
        ordinary(velocity_ref),
        ordinary(acceleration_ref),
    ensures
        FeedForwardState::updated(param, velocity_ref, acceleration_ref).output.finite(),
{
    let kv = given(param.kv);
    let v = given(velocity_ref);
    let ka = given(param.ka);
    let a = given(acceleration_ref);
    let bias = given(param.bias);
    let p = times(kv, v);
    let q = times(ka, a);
    let first = plus(p, q);
    let sum = plus(first, bias);
    let output = limit_if_any(sum, param.out_min, param.out_max);
}

/// The speed loop is its PI controller: it follows the speed reference with the measured
/// speed, and hands the output out as torque current reference.
pub proof fn speed_loop_follows_speed(
    state: SpeedLoopState,
    param: SpeedLoopParam,
    speed_ref: Binary32,
    speed_feedback: Binary32,
)
    ensures
        ({
            let next = state.updated(param, speed_ref, speed_feedback);
            &&& next.pi == state.pi.updated(param.pi, speed_ref, speed_feedback)
            &&& next.pi.error.finite() ==> is_difference(
                next.pi.error,
                speed_ref,
                speed_feedback,
            )
            &&& next.iq_ref == next.pi.output
        }),
{
    differences_are_rounded(speed_ref, speed_feedback);
}

/// All controllers start at rest.
pub proof fn controllers_start_at_rest()
    ensures
        PState::initial().error.zero() && PState::initial().output.zero(),
        PiState::initial().integrator.zero() && PiState::initial().output.zero(),
        PiState::initial().error.zero(),
        PdState::initial().derivative.zero() && PdState::initial().output.zero(),
        PdState::initial().error.zero() && PdState::initial().initialized == 0,
        PidState::initial().integrator.zero() && PidState::initial().derivative.zero(),
        PidState::initial().output.zero() && PidState::initial().initialized == 0,
        PidState::initial().error.zero(),
        SpeedLoopState::initial().pi == PiState::initial(),
        SpeedLoopState::initial().iq_ref.zero(),
        PositionLoopState::initial().error.zero(),
        PositionLoopState::initial().speed_ref.zero(),
        FeedForwardState::initial().output.zero(),
{
}

/// The current loop of the cascade turns currents and voltage by the angle of the rotor.
pub proof fn cascade_turns_with_rotor(
    state: CascadeState,
    param: CascadeParam,
    input: CascadeInput,
    sin: Binary32,
    cos: Binary32,
)
    ensures
        turns_with(state.updated(param, input, sin, cos).foc, sin, cos),
{
    let iq_ref = state.updated(param, input, sin, cos).iq_ref;
    let current_input = CascadeState::current_input(param, input, iq_ref);
    foc_turns_with_rotor(state.foc, param.foc, current_input, sin, cos);
}

} // verus!
