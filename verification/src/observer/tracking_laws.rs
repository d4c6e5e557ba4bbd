//! What one step of the phase-locked loop, of the induced-voltage observers and of signal
//! injection does to exact reals, up to rounding.
use vstd::prelude::*;
use crate::arithmetic::lemma_mul_kind;
use crate::arithmetic::negation_is_an_involution;
use crate::arithmetic::negation_of_factor_negates_product;
use crate::arithmetic::one_is_neutral;
use crate::binary32::b32;
use crate::binary32::Binary32;
use crate::binary32::HALF;
use crate::binary32::INFINITY;
use crate::binary32::MINUS_ONE;
use crate::binary32::ONE;
use crate::binary32::ZERO;
use crate::equations::is_blended;
use crate::equations::is_induced;
use crate::equations::is_offset_product;
use crate::equations::is_offset_product_of_three;
use crate::equations::is_product_of_three;
use crate::equations::is_product_plus;
use crate::equations::is_proportional_and_integral;
use crate::equations::is_quotient_of_difference;
use crate::equations::is_reduced;
use crate::equations::lemma_is_blended;
use crate::equations::lemma_is_induced;
use crate::equations::lemma_is_offset_product;
use crate::equations::lemma_is_offset_product_of_three;
use crate::equations::lemma_is_product_of_three;
use crate::equations::lemma_is_product_plus;
use crate::equations::lemma_is_proportional_and_integral;
use crate::equations::lemma_is_quotient_of_difference;
use crate::equations::lemma_is_reduced;
use crate::exact::real_of;
use crate::math::centred_angle;
use crate::math::clamped;
use crate::math::TWO_PI;
use crate::math::wrappable;
use crate::math::wrapped_angle;
use crate::observer::bemf::BemfInput;
use crate::observer::bemf::BemfIntegralInput;
use crate::observer::bemf::BemfIntegralParam;
use crate::observer::bemf::BemfIntegralState;
use crate::observer::bemf::BemfParam;
use crate::observer::bemf::BemfPllState;
use crate::observer::bemf::BemfState;
use crate::observer::bemf::induced;
use crate::observer::flux::FluxCurrentParam;
use crate::observer::flux::FluxCurrentState;
use crate::observer::flux::FluxHybridParam;
use crate::observer::flux::FluxHybridState;
use crate::observer::flux::FluxInput;
use crate::observer::flux::FluxParam;
use crate::observer::flux::FluxState;
use crate::observer::flux::leaky_flux;
use crate::observer::flux::weight_at;
use crate::observer::flux_laws::integrates_voltage;
use crate::observer::flux_laws::lemma_integrates;
use crate::observer::injection::HfBemfParam;
use crate::observer::injection::HfBemfState;
use crate::observer::injection::HfInjectionParam;
use crate::observer::injection::HfInjectionState;
use crate::observer::injection::PulseInjectionParam;
use crate::observer::injection::PulseInjectionState;
use crate::observer::injection::RotatingHfParam;
use crate::observer::injection::RotatingHfState;
use crate::observer::PllParam;
use crate::observer::PllState;
use crate::observer::smo::FluxSmoParam;
use crate::observer::smo::FluxSmoState;
use crate::observer::smo::joint_angle;
use crate::observer::smo::SmoPllState;
use crate::observer::smo::SmoState;
use crate::observer::smo_laws::exchanged;
use crate::rounded_steps::differences_are_rounded;
use crate::rounded_steps::is_amplified;
use crate::rounded_steps::is_difference;
use crate::rounded_steps::is_integrated;
use crate::rounded_steps::is_smoothed;
use crate::rounded_steps::lemma_integrated;
use crate::rounded_steps::lemma_no_limit;
use crate::rounded_steps::lemma_share_of;
use crate::rounded_steps::products_are_rounded;
use crate::rounded_steps::share_of;
use crate::rounded_steps::smoothing_takes_share_of_way;
use crate::running_error::lemma_zero_real;
use crate::running_error::not_limited;
use crate::running_error::strictly_inside;
use crate::transform::AlphaBeta;
use crate::transform::Dq;

verus! {

/// The loop turns by speed and period. Its speed is the amplified phase error and the
/// integral part together, and the integral part grows by gain, period and error; where the
/// speed is limited, the integral part is what the limited speed leaves for it.
pub proof fn pll_follows_equations(state: PllState, param: PllParam, phase_error: Binary32)
    ensures
        ({
            let next = state.updated(param, phase_error);
            let free = strictly_inside(next.omega_rad_s, param.omega_min, param.omega_max);
            let turned = state.theta_rad + next.omega_rad_s * param.ts;
            &&& next.phase_error == phase_error
            &&& free ==> is_proportional_and_integral(
                next.omega_rad_s,
                param.kp,
                phase_error,
                state.integrator,
                param.ki,
                param.ts,
            )
            &&& free && next.integrator.finite() ==> is_integrated(
                next.integrator,
                state.integrator,
                param.ki,
                param.ts,
                phase_error,
            )
            &&& next.omega_rad_s.finite() && next.integrator.finite() ==> is_product_plus(
                next.omega_rad_s,
                param.kp,
                phase_error,
                next.integrator,
            ) || is_reduced(next.integrator, next.omega_rad_s, param.kp, phase_error)
            &&& turned.finite() ==> is_offset_product(
                turned,
                state.theta_rad,
                next.omega_rad_s,
                param.ts,
            )
            &&& next.theta_rad == wrapped_angle(turned)
        }),
{
    let next = state.updated(param, phase_error);
    let e = phase_error;
    let free_speed = param.kp * e + (state.integrator + param.ki * param.ts * e);
    lemma_is_proportional_and_integral(param.kp, e, state.integrator, param.ki, param.ts);
    lemma_integrated(state.integrator, param.ki, param.ts, e);
    lemma_is_product_plus(param.kp, e, next.integrator);
    lemma_is_reduced(next.omega_rad_s, param.kp, e);
    lemma_is_offset_product(state.theta_rad, next.omega_rad_s, param.ts);
    if strictly_inside(next.omega_rad_s, param.omega_min, param.omega_max) {
        not_limited(free_speed, param.omega_min, param.omega_max);
    }
}

/// Limits of the loop only limit its speed.
pub proof fn pll_limits_only_limit(state: PllState, param: PllParam, phase_error: Binary32)
    ensures
        ({
            let free = PllParam { omega_min: -b32(INFINITY), omega_max: b32(INFINITY), ..param };
            state.updated(param, phase_error).omega_rad_s == clamped(
                state.updated(free, phase_error).omega_rad_s,
                param.omega_min,
                param.omega_max,
            )
        }),
{
    lemma_no_limit(
        param.kp * phase_error + (state.integrator + param.ki * param.ts * phase_error),
    );
}

/// Each axis of the induced voltage moves by its share of the way to what resistance and
/// inductance leave of its voltage; the first step knows no change of the current.
pub proof fn bemf_follows_equations(state: BemfState, param: BemfParam, input: BemfInput)
    requires
        param.ts > b32(ZERO),
        param.ts.finite(),
        !param.emf_filter_alpha.nan(),
    ensures
        ({
            let next = state.vector_updated(param, input);
            let last = if state.initialized == 0 {
                input.current
            } else {
                state.last_current
            };
            let v = input.voltage;
            let i = input.current;
            let raw = AlphaBeta {
                alpha: v.alpha - param.rs * i.alpha - param.ls * ((i.alpha - last.alpha)
                    / param.ts),
                beta: v.beta - param.rs * i.beta - param.ls * ((i.beta - last.beta) / param.ts),
            };
            &&& next.last_current == i
            &&& next.initialized != 0
            &&& raw.alpha.finite() ==> is_induced(
                raw.alpha,
                v.alpha,
                param.rs,
                i.alpha,
                param.ls,
                last.alpha,
                param.ts,
            )
            &&& raw.beta.finite() ==> is_induced(
                raw.beta,
                v.beta,
                param.rs,
                i.beta,
                param.ls,
                last.beta,
                param.ts,
            )
            &&& next.emf.alpha.finite() ==> is_smoothed(
                next.emf.alpha,
                state.emf.alpha,
                param.emf_filter_alpha,
                raw.alpha,
            )
            &&& next.emf.beta.finite() ==> is_smoothed(
                next.emf.beta,
                state.emf.beta,
                param.emf_filter_alpha,
                raw.beta,
            )
        }),
{
    let next = state.vector_updated(param, input);
    let last = state.base_current(input.current);
    let v = input.voltage;
    let i = input.current;
    lemma_is_induced(v.alpha, param.rs, i.alpha, param.ls, last.alpha, param.ts);
    lemma_is_induced(v.beta, param.rs, i.beta, param.ls, last.beta, param.ts);
    if next.emf.alpha.finite() {
        smoothing_takes_share_of_way(
            state.emf.alpha,
            param.emf_filter_alpha,
            induced(param, v.alpha, i.alpha, last.alpha),
        );
    }
    if next.emf.beta.finite() {
        smoothing_takes_share_of_way(
            state.emf.beta,
            param.emf_filter_alpha,
            induced(param, v.beta, i.beta, last.beta),
        );
    }
}

/// A state of the induced-voltage observer with its axes exchanged.
pub open spec fn bemf_exchanged(state: BemfState) -> BemfState {
    BemfState {
        last_current: exchanged(state.last_current),
        emf: exchanged(state.emf),
        ..state
    }
}

/// Both axes of the induced-voltage observer obey the same law.
pub proof fn bemf_axes_are_alike(state: BemfState, param: BemfParam, input: BemfInput)
    ensures
        bemf_exchanged(state).vector_updated(
            param,
            BemfInput { voltage: exchanged(input.voltage), current: exchanged(input.current) },
        ) == bemf_exchanged(state.vector_updated(param, input)),
{
}

/// The induced voltage leads the rotor by a quarter revolution: where it is `(-y, x)`, the
/// angle is the direction of `(x, y)`.
pub proof fn bemf_angle_lags_induced_voltage<A: Fn(Binary32, Binary32) -> Binary32>(
    state: BemfState,
    param: BemfParam,
    input: BemfInput,
    atan2: A,
    next: BemfState,
    x: Binary32,
    y: Binary32,
    angle: Binary32,
)
    requires
        param.ts > b32(ZERO),
        state.steps_to(param, input, atan2, next),
        next.emf == (AlphaBeta { alpha: -y, beta: x }),
        forall|a: Binary32| atan2.ensures((y, x), a) ==> a == angle,
    ensures
        next.theta_emf_rad == wrapped_angle(angle),
{
    let vector = state.vector_updated(param, input);
    negation_is_an_involution(y);
    let a = choose|a: Binary32|
        atan2.ensures((-vector.emf.alpha, vector.emf.beta), a) && next == vector.with_angle(a);
    assert(next.emf == vector.emf);
    assert(atan2.ensures((y, x), a));
}

/// The integrated flux moves in each axis, while it is not at a limit, by what the voltage of
/// its axis leaves after resistance and decay.
pub proof fn bemf_integral_follows_voltage(
    state: BemfIntegralState,
    param: BemfIntegralParam,
    input: BemfIntegralInput,
)
    requires
        param.ts > b32(ZERO),
    ensures
        ({
            let next = state.vector_updated(param, input);
            &&& strictly_inside(next.flux.alpha, param.flux_min, param.flux_max)
                ==> integrates_voltage(
                next.flux.alpha,
                state.flux.alpha,
                param.rs,
                param.ts,
                param.leakage,
                input.voltage.alpha,
                input.current.alpha,
            )
            &&& strictly_inside(next.flux.beta, param.flux_min, param.flux_max)
                ==> integrates_voltage(
                next.flux.beta,
                state.flux.beta,
                param.rs,
                param.ts,
                param.leakage,
                input.voltage.beta,
                input.current.beta,
            )
        }),
{
    let next = state.vector_updated(param, input);
    let p = param;
    let f = state.flux;
    let v = input.voltage;
    let i = input.current;
    lemma_integrates(f.alpha, p.rs, p.ts, p.leakage, v.alpha, i.alpha);
    lemma_integrates(f.beta, p.rs, p.ts, p.leakage, v.beta, i.beta);
    if strictly_inside(next.flux.alpha, p.flux_min, p.flux_max) {
        not_limited(
            leaky_flux(f.alpha, p.rs, p.ts, p.leakage, v.alpha, i.alpha),
            p.flux_min,
            p.flux_max,
        );
    }
    if strictly_inside(next.flux.beta, p.flux_min, p.flux_max) {
        not_limited(
            leaky_flux(f.beta, p.rs, p.ts, p.leakage, v.beta, i.beta),
            p.flux_min,
            p.flux_max,
        );
    }
}

/// The integrator of the induced voltage is the voltage model of the flux under another name:
/// both make the same step.
pub proof fn bemf_integral_is_voltage_model(
    state: BemfIntegralState,
    param: BemfIntegralParam,
    input: BemfIntegralInput,
)
    ensures
        ({
            let same = FluxParam {
                rs: param.rs,
                ts: param.ts,
                leakage: param.leakage,
                flux_min: param.flux_min,
                flux_max: param.flux_max,
            };
            let flux = FluxState { flux: state.flux, theta_flux_rad: state.theta_rad };
            let next = flux.vector_updated(
                same,
                FluxInput { voltage: input.voltage, current: input.current },
            );
            state.vector_updated(param, input) == (BemfIntegralState {
                flux: next.flux,
                theta_rad: next.theta_flux_rad,
            })
        }),
{
}

/// The angle of the integrated flux is its direction.
pub proof fn bemf_integral_angle_is_direction<A: Fn(Binary32, Binary32) -> Binary32>(
    state: BemfIntegralState,
    param: BemfIntegralParam,
    input: BemfIntegralInput,
    atan2: A,
    next: BemfIntegralState,
    angle: Binary32,
)
    requires
        param.ts > b32(ZERO),
        state.steps_to(param, input, atan2, next),
        forall|a: Binary32| atan2.ensures((next.flux.beta, next.flux.alpha), a) ==> a == angle,
    ensures
        next.theta_rad == wrapped_angle(angle),
{
    let vector = state.vector_updated(param, input);
    let a = choose|a: Binary32|
        atan2.ensures((vector.flux.beta, vector.flux.alpha), a) && next == vector.with_angle(a);
    assert(next.flux == vector.flux);
    assert(atan2.ensures((next.flux.beta, next.flux.alpha), a));
}

/// A step of the combined observers hands the angle and speed of the loop out, and the
/// induced voltage that the observer returned.
pub proof fn joined_states_hand_out_results(emf: AlphaBeta, bemf: BemfState, smo: SmoState,
    pll: PllState)
    ensures
        ({
            let first = BemfPllState::joined(emf, bemf, pll);
            let second = SmoPllState::joined(emf, smo, pll);
            &&& first.theta_rad == first.pll.theta_rad && first.omega_rad_s
                == first.pll.omega_rad_s
            &&& second.theta_rad == second.pll.theta_rad && second.omega_rad_s
                == second.pll.omega_rad_s
            &&& first.emf == emf && second.emf == emf
            &&& first.pll == pll && second.pll == pll
            &&& first.bemf == bemf && second.smo == smo
        }),
{
}

/// The carrier turns by two pi times frequency and period. The injected voltage is the
/// carrier, scaled, along the axis, and the response is demodulated with the carrier.
pub proof fn pulsating_injection_follows_carrier(
    state: HfInjectionState,
    param: HfInjectionParam,
    current_response: Binary32,
    carrier: Binary32,
    axis_sin: Binary32,
    axis_cos: Binary32,
)
    requires
        param.ts > b32(ZERO),
        !param.demod_alpha.nan(),
    ensures
        ({
            let next = state.updated(param, current_response, carrier, axis_sin, axis_cos);
            let turned = state.carrier_angle_rad + b32(TWO_PI) * param.freq_hz * param.ts;
            let mixed = current_response * carrier;
            &&& next.carrier == carrier
            &&& turned.finite() ==> is_offset_product_of_three(
                turned,
                state.carrier_angle_rad,
                b32(TWO_PI),
                param.freq_hz,
                param.ts,
            )
            &&& next.carrier_angle_rad == wrapped_angle(turned)
            &&& next.voltage.alpha.finite() ==> is_product_of_three(
                next.voltage.alpha,
                param.amplitude,
                carrier,
                axis_cos,
            )
            &&& next.voltage.beta.finite() ==> is_product_of_three(
                next.voltage.beta,
                param.amplitude,
                carrier,
                axis_sin,
            )
            &&& mixed.finite() ==> is_amplified(mixed, current_response, carrier)
            &&& next.demod_response.finite() ==> is_smoothed(
                next.demod_response,
                state.demod_response,
                param.demod_alpha,
                mixed,
            )
        }),
{
    let next = state.updated(param, current_response, carrier, axis_sin, axis_cos);
    lemma_is_offset_product_of_three(
        state.carrier_angle_rad,
        b32(TWO_PI),
        param.freq_hz,
        param.ts,
    );
    lemma_is_product_of_three(param.amplitude, carrier, axis_cos);
    lemma_is_product_of_three(param.amplitude, carrier, axis_sin);
    products_are_rounded(current_response, carrier);
    if next.demod_response.finite() {
        smoothing_takes_share_of_way(
            state.demod_response,
            param.demod_alpha,
            current_response * carrier,
        );
    }
}

/// The rotating voltage has the direction of its carrier, which turns by two pi times
/// frequency and period, and each axis of the response is demodulated with the carrier of
/// its axis.
pub proof fn rotating_injection_follows_carrier(
    state: RotatingHfState,
    param: RotatingHfParam,
    current_response: AlphaBeta,
    sin: Binary32,
    cos: Binary32,
)
    requires
        param.ts > b32(ZERO),
        !param.demod_alpha.nan(),
    ensures
        ({
            let next = state.vector_updated(param, current_response, sin, cos);
            let turned = state.carrier_angle_rad + b32(TWO_PI) * param.freq_hz * param.ts;
            let along = current_response.alpha * cos;
            let across = current_response.beta * sin;
            &&& turned.finite() ==> is_offset_product_of_three(
                turned,
                state.carrier_angle_rad,
                b32(TWO_PI),
                param.freq_hz,
                param.ts,
            )
            &&& next.carrier_angle_rad == wrapped_angle(turned)
            &&& next.voltage.alpha.finite() ==> is_amplified(
                next.voltage.alpha,
                param.amplitude,
                cos,
            )
            &&& next.voltage.beta.finite() ==> is_amplified(
                next.voltage.beta,
                param.amplitude,
                sin,
            )
            &&& along.finite() ==> is_amplified(along, current_response.alpha, cos)
            &&& across.finite() ==> is_amplified(across, current_response.beta, sin)
            &&& next.demod.alpha.finite() ==> is_smoothed(
                next.demod.alpha,
                state.demod.alpha,
                param.demod_alpha,
                along,
            )
            &&& next.demod.beta.finite() ==> is_smoothed(
                next.demod.beta,
                state.demod.beta,
                param.demod_alpha,
                across,
            )
        }),
{
    let next = state.vector_updated(param, current_response, sin, cos);
    let along = current_response.alpha * cos;
    let across = current_response.beta * sin;
    lemma_is_offset_product_of_three(
        state.carrier_angle_rad,
        b32(TWO_PI),
        param.freq_hz,
        param.ts,
    );
    products_are_rounded(param.amplitude, cos);
    products_are_rounded(param.amplitude, sin);
    products_are_rounded(current_response.alpha, cos);
    products_are_rounded(current_response.beta, sin);
    if next.demod.alpha.finite() {
        smoothing_takes_share_of_way(state.demod.alpha, param.demod_alpha, along);
    }
    if next.demod.beta.finite() {
        smoothing_takes_share_of_way(state.demod.beta, param.demod_alpha, across);
    }
}

/// A pulse lies along the axis, against the one before, and the saliency is what the response
/// to positive pulses exceeds that to negative ones by.
pub proof fn pulses_measure_saliency(
    state: PulseInjectionState,
    param: PulseInjectionParam,
    current_response: Binary32,
    sin: Binary32,
    cos: Binary32,
)
    requires
        param.amplitude.finite(),
    ensures
        ({
            let next = state.updated(param, current_response, sin, cos);
            let push = if state.polarity >= 0 {
                -param.amplitude
            } else {
                param.amplitude
            };
            &&& state.polarity >= 0 ==> next.positive_response == current_response
                && next.negative_response == state.negative_response
            &&& state.polarity < 0 ==> next.negative_response == current_response
                && next.positive_response == state.positive_response
            &&& next.saliency.finite() ==> is_difference(
                next.saliency,
                next.positive_response,
                next.negative_response,
            )
            &&& (next.polarity >= 0) != (state.polarity >= 0)
            &&& next.voltage.alpha.finite() ==> is_amplified(next.voltage.alpha, push, cos)
            &&& next.voltage.beta.finite() ==> is_amplified(next.voltage.beta, push, sin)
        }),
{
    let next = state.updated(param, current_response, sin, cos);
    let push = if state.polarity >= 0 {
        -param.amplitude
    } else {
        param.amplitude
    };
    differences_are_rounded(next.positive_response, next.negative_response);
    one_is_neutral(param.amplitude);
    lemma_mul_kind(param.amplitude, b32(ONE));
    negation_of_factor_negates_product(param.amplitude, b32(ONE));
    assert(-b32(ONE) == b32(MINUS_ONE));
    products_are_rounded(push, cos);
    products_are_rounded(push, sin);
}

/// The current model: the flux along the rotor is that of the magnets and of the current, and
/// the flux across it that of the current.
pub proof fn current_model_follows_currents(param: FluxCurrentParam, current_dq: Dq)
    ensures
        ({
            let flux = FluxCurrentState::flux_of(param, current_dq);
            &&& strictly_inside(flux.d, param.flux_min, param.flux_max) ==> is_product_plus(
                flux.d,
                param.ld,
                current_dq.d,
                param.flux_pm,
            )
            &&& strictly_inside(flux.q, param.flux_min, param.flux_max) ==> is_amplified(
                flux.q,
                param.lq,
                current_dq.q,
            )
        }),
{
    let flux = FluxCurrentState::flux_of(param, current_dq);
    lemma_is_product_plus(param.ld, current_dq.d, param.flux_pm);
    products_are_rounded(param.lq, current_dq.q);
    if strictly_inside(flux.d, param.flux_min, param.flux_max) {
        not_limited(
            param.ld * current_dq.d + param.flux_pm,
            param.flux_min,
            param.flux_max,
        );
    }
    if strictly_inside(flux.q, param.flux_min, param.flux_max) {
        not_limited(param.lq * current_dq.q, param.flux_min, param.flux_max);
    }
}

/// The hybrid flux blends both models in each axis, and the weight of the voltage model is
/// the part of the way from the low to the high speed.
pub proof fn hybrid_flux_blends_models(
    param: FluxHybridParam,
    flux_voltage: AlphaBeta,
    flux_current: AlphaBeta,
    speed_abs: Binary32,
    angle: Binary32,
)
    ensures
        ({
            let next = FluxHybridState::updated(
                param,
                flux_voltage,
                flux_current,
                speed_abs,
                angle,
            );
            let w = next.weight_voltage;
            &&& next.flux.alpha.finite() ==> is_blended(
                next.flux.alpha,
                w,
                flux_voltage.alpha,
                flux_current.alpha,
            )
            &&& next.flux.beta.finite() ==> is_blended(
                next.flux.beta,
                w,
                flux_voltage.beta,
                flux_current.beta,
            )
        }),
{
    let next = FluxHybridState::updated(param, flux_voltage, flux_current, speed_abs, angle);
    let w = next.weight_voltage;
    lemma_is_blended(w, flux_voltage.alpha, flux_current.alpha);
    lemma_is_blended(w, flux_voltage.beta, flux_current.beta);
}

/// Between two speeds the weight is the part of the way from the lower to the higher.
pub proof fn weight_is_part_of_way(speed: Binary32, low: Binary32, high: Binary32)
    requires
        (high - low).finite(),
        high - low > b32(ZERO),
        strictly_inside(weight_at(speed, low, high), b32(ZERO), b32(ONE)),
    ensures
        is_difference(high - low, high, low),
        is_quotient_of_difference(weight_at(speed, low, high), speed, low, high - low),
{
    differences_are_rounded(high, low);
    lemma_zero_real(b32(ZERO));
    not_limited((speed - low) / (high - low), b32(ZERO), b32(ONE));
    lemma_is_quotient_of_difference(speed, low, high - low);
}

/// A joint angle lies the share of the weight on the shorter way from the first angle to the
/// second.
pub proof fn joint_angle_lies_on_shorter_way(first: Binary32, second: Binary32, weight: Binary32)
    requires
        !weight.nan(),
    ensures
        ({
            let share = clamped(weight, b32(ZERO), b32(ONE));
            let gap = second - first;
            let moved = first + share * centred_angle(gap);
            &&& real_of(share) == share_of(weight)
            &&& gap.finite() ==> is_difference(gap, second, first)
            &&& moved.finite() ==> is_offset_product(moved, first, share, centred_angle(gap))
            &&& joint_angle(first, second, weight) == wrapped_angle(moved)
        }),
{
    let share = clamped(weight, b32(ZERO), b32(ONE));
    lemma_share_of(weight);
    differences_are_rounded(second, first);
    lemma_is_offset_product(first, share, centred_angle(second - first));
}

/// Both joint observers hand out what the inner observers returned, and join their angles:
/// from the flux to the sliding-mode angle by the weight, and from the injected to the
/// induced-voltage angle by the weight at the speed.
pub proof fn joint_observers_hand_out_results(
    param: FluxSmoParam,
    flux: FluxState,
    smo: SmoState,
    hf_param: HfBemfParam,
    speed: Binary32,
    hf: RotatingHfState,
    bemf: BemfState,
)
    requires
        param.flux.ts > b32(ZERO),
        param.smo.ls > b32(ZERO),
        hf_param.hf.ts > b32(ZERO),
        hf_param.bemf.ts > b32(ZERO),
    ensures
        ({
            let a = FluxSmoState::joined(param, flux, smo);
            let b = HfBemfState::joined(hf_param, speed, hf, bemf);
            &&& a.flux == flux && a.smo == smo
            &&& a.flux_vector == flux.flux && a.emf == smo.emf
            &&& a.theta_flux_rad == flux.theta_flux_rad
            &&& a.theta_smo_rad == smo.theta_emf_rad
            &&& a.theta_rad == joint_angle(a.theta_flux_rad, a.theta_smo_rad, param.smo_weight)
            &&& b.hf == hf && b.bemf == bemf
            &&& b.hf_voltage == hf.voltage && b.bemf_emf == bemf.emf
            &&& b.theta_hf_rad == hf.theta_est_rad
            &&& b.theta_bemf_rad == bemf.theta_emf_rad
            &&& b.bemf_weight == weight_at(
                speed,
                hf_param.speed_low_abs,
                hf_param.speed_high_abs,
            )
            &&& b.theta_rad == joint_angle(b.theta_hf_rad, b.theta_bemf_rad, b.bemf_weight)
        }),
{
}

/// The angle of the rotating injection is half of the angle of the demodulated response,
/// whose period is half a revolution of the rotor. Sine and cosine are those of the carrier.
pub proof fn rotating_angle_is_half_of_response<
    S: Fn(Binary32) -> Binary32,
    C: Fn(Binary32) -> Binary32,
    A: Fn(Binary32, Binary32) -> Binary32,
>(
    state: RotatingHfState,
    param: RotatingHfParam,
    current_response: AlphaBeta,
    sin: S,
    cos: C,
    atan2: A,
    next: RotatingHfState,
    s: Binary32,
    c: Binary32,
    angle: Binary32,
)
    requires
        param.ts > b32(ZERO),
        state.steps_to(param, current_response, sin, cos, atan2, next),
        forall|a: Binary32|
            #![trigger sin.ensures((next.carrier_angle_rad,), a)]
            sin.ensures((next.carrier_angle_rad,), a) ==> a == s,
        forall|a: Binary32|
            #![trigger cos.ensures((next.carrier_angle_rad,), a)]
            cos.ensures((next.carrier_angle_rad,), a) ==> a == c,
        forall|a: Binary32|
            #![trigger atan2.ensures((next.demod.beta, next.demod.alpha), a)]
            atan2.ensures((next.demod.beta, next.demod.alpha), a) ==> a == angle,
    ensures
        ({
            let whole = wrapped_angle(angle);
            let half = b32(HALF) * whole;
            &&& half.finite() ==> is_amplified(half, b32(HALF), whole)
            &&& next.theta_est_rad == wrapped_angle(half)
            &&& next.voltage.alpha.finite() ==> is_amplified(
                next.voltage.alpha,
                param.amplitude,
                c,
            )
            &&& next.voltage.beta.finite() ==> is_amplified(next.voltage.beta, param.amplitude, s)
        }),
{
    let turned = wrapped_angle(state.turned(param));
    let (s1, c1, a1) = choose|s1: Binary32, c1: Binary32, a1: Binary32| {
        let vector = state.vector_updated(param, current_response, s1, c1);
        &&& #[trigger] sin.ensures((turned,), s1)
        &&& #[trigger] cos.ensures((turned,), c1)
        &&& #[trigger] atan2.ensures((next.demod.beta, next.demod.alpha), a1)
        &&& wrappable(a1)
        &&& next == vector.with_angle(a1)
    };
    assert(next.carrier_angle_rad == turned);
    assert(sin.ensures((next.carrier_angle_rad,), s1));
    assert(cos.ensures((next.carrier_angle_rad,), c1));
    products_are_rounded(b32(HALF), wrapped_angle(angle));
    products_are_rounded(param.amplitude, c);
    products_are_rounded(param.amplitude, s);
}

} // verus!
