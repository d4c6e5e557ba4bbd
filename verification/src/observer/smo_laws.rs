//! What a step of the sliding-mode observers does to exact reals, up to rounding, and how
//! their axes relate.
use vstd::prelude::*;
use crate::arithmetic::lemma_mul_kind;
use crate::arithmetic::negation_is_an_involution;
use crate::arithmetic::negation_of_factor_negates_product;
use crate::arithmetic::one_is_neutral;
use crate::binary32::b32;
use crate::binary32::Binary32;
use crate::binary32::MINUS_ONE;
use crate::binary32::ONE;
use crate::binary32::ZERO;
use crate::exact::real_of;
use crate::exact::size_of_real;
use crate::math::clamped;
use crate::math::saturated;
use crate::math::saturated_sign_is_limited;
use crate::math::wrapped_angle;
use crate::near::lemma_inverse_powers;
use crate::near::lemma_real_constant;
use crate::observer::bemf::smoothed;
use crate::observer::smo::driven;
use crate::observer::smo::SmoInput;
use crate::observer::smo::SmoParam;
use crate::observer::smo::SmoState;
use crate::rounded_steps::differences_are_rounded;
use crate::rounded_steps::is_difference;
use crate::rounded_steps::is_smoothed;
use crate::rounded_steps::lemma_share_of;
use crate::rounded_steps::saturation_follows_value;
use crate::rounded_steps::smoothing_takes_share_of_way;
use crate::running_error::given;
use crate::running_error::given_small;
use crate::running_error::lemma_order_of_reals;
use crate::running_error::lemma_zero_real;
use crate::running_error::minus;
use crate::running_error::off_by;
use crate::running_error::ordinary;
use crate::running_error::ordinary_divisor;
use crate::running_error::over;
use crate::running_error::plus;
use crate::running_error::times;
use crate::running_error::tiny;
use crate::running_error::Traced;
use crate::transform::AlphaBeta;

verus! {

/// A vector with its axes exchanged.
pub open spec fn exchanged(v: AlphaBeta) -> AlphaBeta {
    AlphaBeta { alpha: v.beta, beta: v.alpha }
}

/// A state with its axes exchanged.
pub open spec fn smo_exchanged(state: SmoState) -> SmoState {
    SmoState {
        current_est: exchanged(state.current_est),
        sliding: exchanged(state.sliding),
        emf: exchanged(state.emf),
        theta_emf_rad: state.theta_emf_rad,
    }
}

/// Both axes obey the same law: exchanging them before a step exchanges them after it.
pub proof fn smo_axes_are_alike(state: SmoState, param: SmoParam, input: SmoInput)
    ensures
        smo_exchanged(state).vector_updated(
            param,
            SmoInput { voltage: exchanged(input.voltage), current: exchanged(input.current) },
        ) == smo_exchanged(state.vector_updated(param, input)),
{
}

/// Each axis depends on its own voltage, current and state only.
pub proof fn smo_axes_are_independent(
    state: SmoState,
    other: SmoState,
    param: SmoParam,
    input: SmoInput,
    other_input: SmoInput,
)
    requires
        state.current_est.beta == other.current_est.beta,
        state.sliding.beta == other.sliding.beta,
        state.emf.beta == other.emf.beta,
        input.voltage.beta == other_input.voltage.beta,
        input.current.beta == other_input.current.beta,
    ensures
        ({
            let a = state.vector_updated(param, input);
            let b = other.vector_updated(param, other_input);
            &&& a.current_est.beta == b.current_est.beta
            &&& a.sliding.beta == b.sliding.beta
            &&& a.emf.beta == b.emf.beta
        }),
{
}

/// Whether a force is the sliding gain with the sign of the error of the model, softened in
/// the boundary layer.
pub open spec fn forces_model(
    force: Binary32,
    gain: Binary32,
    boundary: Binary32,
    estimated: Binary32,
    measured: Binary32,
) -> bool {
    let error = estimated - measured;
    let k = real_of(gain);
    let b = real_of(boundary);
    let e = real_of(error);
    &&& error.finite() ==> is_difference(error, estimated, measured)
    &&& boundary <= b32(ZERO) && error > b32(ZERO) ==> force == gain
    &&& boundary <= b32(ZERO) && error < b32(ZERO) ==> force == -gain
    &&& boundary > b32(ZERO) && error >= boundary ==> force == gain
    &&& boundary > b32(ZERO) && error <= -boundary ==> force == -gain
    &&& boundary > b32(ZERO) && error.size() <= boundary && force.finite() ==> off_by(
        force,
        k * (e / b),
        size_of_real(k) * (size_of_real(e) / b + tiny()) + tiny(),
        2real,
    )
}

/// A force from the error of the model.
pub proof fn lemma_force(
    gain: Binary32,
    boundary: Binary32,
    estimated: Binary32,
    measured: Binary32,
)
    requires
        gain.finite(),
        boundary.finite(),
        (estimated - measured).finite(),
    ensures
        forces_model(
            gain * saturated(estimated - measured, boundary),
            gain,
            boundary,
            estimated,
            measured,
        ),
{
    let error = estimated - measured;
    let s = saturated(error, boundary);
    differences_are_rounded(estimated, measured);
    saturation_follows_value(error, boundary);
    one_is_neutral(gain);
    lemma_mul_kind(gain, b32(ONE));
    negation_of_factor_negates_product(gain, b32(ONE));
    assert(-b32(ONE) == b32(MINUS_ONE));
    if boundary > b32(ZERO) && error.size() <= boundary {
        let e = given(error);
        let k = given(gain);
        lemma_zero_real(b32(ZERO));
        lemma_order_of_reals(b32(ZERO), boundary);
        lemma_zero_real(boundary);
        let q = over(e, boundary);
        assert(q.steps == 1real);
        let t = Traced { number: s, ..q };
        let f = lemma_product_with(k, t);
    }
}

/// The product of an exact number and a finite one that is off by one step.
pub proof fn lemma_product_with(k: Traced, q: Traced) -> (r: Traced)
    requires
        k.holds(),
        k.steps == 0real,
        size_of_real(q.exact) <= q.weight,
        q.steps == 1real,
        q.number.finite(),
        off_by(q.number, q.exact, q.weight, 1real),
    ensures
        r.holds(),
        r.number == k.number * q.number,
        r.exact == k.exact * q.exact,
        r.weight == k.weight * q.weight + tiny(),
        r.steps == 2real,
{
    let t = Traced { fits: false, ..q };
    let r = times(k, t);
    r
}

/// Whether a modelled current moved by what its own voltage leaves after the resistance and
/// the force, over the inductance.
pub open spec fn models_current(
    after: Binary32,
    before: Binary32,
    param: SmoParam,
    voltage: Binary32,
    force: Binary32,
) -> bool {
    let i = real_of(before);
    let v = real_of(voltage);
    let f = real_of(force);
    let r = real_of(param.rs);
    let l = real_of(param.ls);
    let t = real_of(param.ts);
    off_by(
        after,
        i + (t * (1real / l)) * (v - r * i - f),
        size_of_real(i) + ((size_of_real(t) * (1real / l + tiny()) + tiny()) * (size_of_real(v) + (
        size_of_real(r) * size_of_real(i) + tiny()) + size_of_real(f)) + tiny()),
        7real,
    )
}

proof fn lemma_current(
    before: Binary32,
    param: SmoParam,
    voltage: Binary32,
    force: Binary32,
)
    requires
        param.ls > b32(ZERO),
        param.ls.finite(),
    ensures
        ({
            let after = before + param.ts * (b32(ONE) / param.ls) * (voltage - param.rs * before
                - force);
            after.finite() ==> models_current(after, before, param, voltage, force)
        }),
{
    lemma_inverse_powers();
    lemma_real_constant(b32(ONE), 0x80_0000, 23);
    lemma_zero_real(b32(ZERO));
    lemma_order_of_reals(b32(ZERO), param.ls);
    let one = given(b32(ONE));
    let i = given(before);
    let v = given(voltage);
    let f = given(force);
    let r = given(param.rs);
    let t = given(param.ts);
    let inverse = over(one, param.ls);
    let speed = times(t, inverse);
    let drop = times(r, i);
    let rest = minus(v, drop);
    let drive = minus(rest, f);
    let step = times(speed, drive);
    let sum = plus(i, step);
    assert(sum.steps == 7real);
}

/// In each axis the force answers the error of the modelled current, the modelled current
/// moves under its own voltage against resistance and force, and the induced voltage moves
/// by its share of the way to the force.
pub proof fn smo_follows_equations(state: SmoState, param: SmoParam, input: SmoInput)
    requires
        param.ls > b32(ZERO),
        param.ls.finite(),
        param.k_slide.finite(),
        param.boundary.finite(),
        !param.emf_filter_alpha.nan(),
    ensures
        ({
            let next = state.vector_updated(param, input);
            let est = state.current_est;
            let i = input.current;
            &&& (est.alpha - i.alpha).finite() ==> forces_model(
                next.sliding.alpha,
                param.k_slide,
                param.boundary,
                est.alpha,
                i.alpha,
            )
            &&& (est.beta - i.beta).finite() ==> forces_model(
                next.sliding.beta,
                param.k_slide,
                param.boundary,
                est.beta,
                i.beta,
            )
            &&& next.current_est.alpha.finite() ==> models_current(
                next.current_est.alpha,
                est.alpha,
                param,
                input.voltage.alpha,
                next.sliding.alpha,
            )
            &&& next.current_est.beta.finite() ==> models_current(
                next.current_est.beta,
                est.beta,
                param,
                input.voltage.beta,
                next.sliding.beta,
            )
            &&& next.emf.alpha.finite() ==> is_smoothed(
                next.emf.alpha,
                state.emf.alpha,
                param.emf_filter_alpha,
                next.sliding.alpha,
            )
            &&& next.emf.beta.finite() ==> is_smoothed(
                next.emf.beta,
                state.emf.beta,
                param.emf_filter_alpha,
                next.sliding.beta,
            )
        }),
{
    let next = state.vector_updated(param, input);
    let est = state.current_est;
    let k = param.k_slide;
    if (est.alpha - input.current.alpha).finite() {
        lemma_force(k, param.boundary, est.alpha, input.current.alpha);
    }
    if (est.beta - input.current.beta).finite() {
        lemma_force(k, param.boundary, est.beta, input.current.beta);
    }
    lemma_current(est.alpha, param, input.voltage.alpha, next.sliding.alpha);
    lemma_current(est.beta, param, input.voltage.beta, next.sliding.beta);
    if next.emf.alpha.finite() {
        smoothing_takes_share_of_way(state.emf.alpha, param.emf_filter_alpha, next.sliding.alpha);
    }
    if next.emf.beta.finite() {
        smoothing_takes_share_of_way(state.emf.beta, param.emf_filter_alpha, next.sliding.beta);
    }
}

/// Whether the numbers of one axis are ordinary.
pub open spec fn ordinary_axis(
    param: SmoParam,
    estimated: Binary32,
    emf: Binary32,
    voltage: Binary32,
    current: Binary32,
) -> bool {
    &&& ordinary(param.rs) && ordinary_divisor(param.ls) && ordinary(param.ts)
    &&& ordinary(param.k_slide) && ordinary(param.boundary)
    &&& param.ls > b32(ZERO) && !param.emf_filter_alpha.nan()
    &&& ordinary(estimated) && ordinary(emf) && ordinary(voltage) && ordinary(current)
}

proof fn lemma_axis_stays_finite(
    param: SmoParam,
    estimated: Binary32,
    emf: Binary32,
    voltage: Binary32,
    current: Binary32,
)
    requires
        ordinary_axis(param, estimated, emf, voltage, current),
    ensures
        ({
            let force = SmoState::force(param, estimated, current);
            &&& force.finite()
            &&& smoothed(emf, param.emf_filter_alpha, force).finite()
            &&& driven(
                estimated,
                param.ts,
                param.ls,
                voltage - param.rs * estimated - force,
            ).finite()
        }),
{
    let s = saturated(estimated - current, param.boundary);
    lemma_inverse_powers();
    lemma_real_constant(b32(ONE), 0x80_0000, 23);
    lemma_real_constant(b32(MINUS_ONE), 0x80_0000, 23);
    lemma_zero_real(b32(ZERO));
    lemma_share_of(param.emf_filter_alpha);
    let i = given(estimated);
    let c = given(current);
    let gap = minus(i, c);
    saturation_follows_value(estimated - current, param.boundary);
    saturated_sign_is_limited(estimated - current, param.boundary);
    lemma_order_of_reals(b32(MINUS_ONE), s);
    lemma_order_of_reals(s, b32(ONE));
    let one = given_small(b32(ONE));
    let sat = given_small(s);
    let k = given(param.k_slide);
    let f = times(k, sat);
    let v = given(voltage);
    let e = given(emf);
    let r = given(param.rs);
    let t = given(param.ts);
    let share = given_small(clamped(param.emf_filter_alpha, b32(ZERO), b32(ONE)));
    lemma_zero_real(param.ls);
    let inverse = over(one, param.ls);
    let speed = times(t, inverse);
    let drop = times(r, i);
    let rest = minus(v, drop);
    let drive = minus(rest, f);
    let step = times(speed, drive);
    let sum = plus(i, step);
    let way = minus(f, e);
    let part = times(share, way);
    let after = plus(e, part);
}

/// A step on ordinary numbers stays finite.
pub proof fn smo_stays_finite(state: SmoState, param: SmoParam, input: SmoInput)
    requires
        ordinary_axis(
            param,
            state.current_est.alpha,
            state.emf.alpha,
            input.voltage.alpha,
            input.current.alpha,
        ),
        ordinary_axis(
            param,
            state.current_est.beta,
            state.emf.beta,
            input.voltage.beta,
            input.current.beta,
        ),
    ensures
        ({
            let next = state.vector_updated(param, input);
            &&& next.current_est.alpha.finite() && next.current_est.beta.finite()
            &&& next.sliding.alpha.finite() && next.sliding.beta.finite()
            &&& next.emf.alpha.finite() && next.emf.beta.finite()
        }),
{
    lemma_axis_stays_finite(
        param,
        state.current_est.alpha,
        state.emf.alpha,
        input.voltage.alpha,
        input.current.alpha,
    );
    lemma_axis_stays_finite(
        param,
        state.current_est.beta,
        state.emf.beta,
        input.voltage.beta,
        input.current.beta,
    );
}

/// The induced voltage leads the rotor by a quarter revolution: where it is `(-y, x)`, the
/// angle is the direction of `(x, y)`.
pub proof fn smo_angle_lags_induced_voltage<A: Fn(Binary32, Binary32) -> Binary32>(
    state: SmoState,
    param: SmoParam,
    input: SmoInput,
    atan2: A,
    next: SmoState,
    x: Binary32,
    y: Binary32,
    angle: Binary32,
)
    requires
        state.steps_to(param, input, atan2, next),
        next.emf == (AlphaBeta { alpha: -y, beta: x }),
        forall|a: Binary32| atan2.ensures((y, x), a) ==> a == angle,
    ensures
        next.theta_emf_rad == wrapped_angle(angle),
        next.current_est == state.vector_updated(param, input).current_est,
        next.sliding == state.vector_updated(param, input).sliding,
{
    negation_is_an_involution(y);
}

} // verus!
