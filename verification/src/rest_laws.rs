//! States at rest: what they hold before the first step, and which steps change nothing.
use vstd::prelude::*;
use crate::adrc::AdrcFastTdParam;
use crate::adrc::AdrcFastTdState;
use crate::adrc::AdrcNonlinearParam;
use crate::adrc::AdrcState;
use crate::advanced_control::AdaptiveParam;
use crate::advanced_control::AdaptiveState;
use crate::advanced_control::BacksteppingState;
use crate::advanced_control::FuzzyState;
use crate::advanced_control::HinfState;
use crate::advanced_control::LqrState;
use crate::advanced_control::MpcState;
use crate::advanced_control::MracParam;
use crate::advanced_control::MracState;
use crate::advanced_control::SmcState;
use crate::binary32::b32;
use crate::binary32::Binary32;
use crate::binary32::ONE;
use crate::binary32::ZERO;
use crate::controller::PdParam;
use crate::controller::PdState;
use crate::controller::PidParam;
use crate::controller::PidState;
use crate::controller::PiState;
use crate::filter::DifferentiatorParam;
use crate::filter::DifferentiatorState;
use crate::filter::HighPassState;
use crate::filter::LowPassState;
use crate::foc::FocBasicState;
use crate::math::wrapped_angle;
use crate::observer::advanced_smo::AdaptiveSmoInput;
use crate::observer::advanced_smo::AdaptiveSmoParam;
use crate::observer::advanced_smo::AdaptiveSmoState;
use crate::observer::advanced_smo::HigherOrderSmoInput;
use crate::observer::advanced_smo::HigherOrderSmoParam;
use crate::observer::advanced_smo::HigherOrderSmoState;
use crate::observer::advanced_smo::SuperTwistingSmoInput;
use crate::observer::advanced_smo::SuperTwistingSmoParam;
use crate::observer::advanced_smo::SuperTwistingSmoState;
use crate::observer::bemf::BemfInput;
use crate::observer::bemf::BemfIntegralInput;
use crate::observer::bemf::BemfIntegralParam;
use crate::observer::bemf::BemfIntegralState;
use crate::observer::bemf::BemfParam;
use crate::observer::bemf::BemfPllState;
use crate::observer::bemf::BemfState;
use crate::observer::bemf::BemfZeroCrossState;
use crate::observer::estimator::EkfFocState;
use crate::observer::estimator::EkfState;
use crate::observer::estimator::KalmanState;
use crate::observer::estimator::LuenbergerState;
use crate::observer::estimator::UkfState;
use crate::observer::flux::FluxCurrentState;
use crate::observer::flux::FluxHybridState;
use crate::observer::flux::FluxImprovedParam;
use crate::observer::flux::FluxImprovedState;
use crate::observer::flux::FluxInput;
use crate::observer::flux::FluxParam;
use crate::observer::flux::FluxState;
use crate::observer::flux::weight_at;
use crate::observer::injection::HfBemfState;
use crate::observer::injection::HfInjectionParam;
use crate::observer::injection::HfInjectionState;
use crate::observer::injection::PulseInjectionState;
use crate::observer::injection::RotatingHfParam;
use crate::observer::injection::RotatingHfState;
use crate::observer::PllState;
use crate::observer::smo::FluxSmoState;
use crate::observer::smo::SmoPllState;
use crate::observer::smo::SmoState;
use crate::transform::AlphaBeta;

verus! {

/// The current loop starts at rest.
pub proof fn current_loop_starts_at_rest()
    ensures
        ({
            let s = FocBasicState::initial();
            &&& s.id_pi == PiState::initial()
            &&& s.iq_pi == PiState::initial()
            &&& s.current_alpha_beta.alpha.zero() && s.current_alpha_beta.beta.zero()
            &&& s.current_dq.d.zero() && s.current_dq.q.zero()
            &&& s.voltage_dq.d.zero() && s.voltage_dq.q.zero()
            &&& s.voltage_alpha_beta.alpha.zero() && s.voltage_alpha_beta.beta.zero()
        }),
{
}

/// Disturbance rejection starts at rest.
pub proof fn disturbance_rejection_starts_at_rest()
    ensures
        ({
            let s = AdrcState::initial();
            &&& s.v1.zero()
            &&& s.v2.zero()
            &&& s.z1.zero()
            &&& s.z2.zero()
            &&& s.z3.zero()
            &&& s.error.zero()
            &&& s.u0.zero()
            &&& s.output.zero()
        }),
        ({
            let s = AdrcFastTdState::initial();
            &&& s.v1.zero()
            &&& s.v2.zero()
            &&& s.fh.zero()
        }),
{
}

/// Filters start at rest.
pub proof fn filters_start_at_rest()
    ensures
        ({
            let s = LowPassState::initial();
            &&& s.output.zero()
            &&& s.initialized == 0
        }),
        ({
            let s = HighPassState::initial();
            &&& s.last_input.zero()
            &&& s.output.zero()
            &&& s.initialized == 0
        }),
        ({
            let s = DifferentiatorState::initial();
            &&& s.last_input.zero()
            &&& s.output.zero()
            &&& s.initialized == 0
        }),
{
}

/// Advanced controllers start at rest.
pub proof fn advanced_controllers_start_at_rest()
    ensures
        ({
            let s = AdaptiveState::initial();
            &&& s.gain.zero()
            &&& s.error.zero()
            &&& s.output.zero()
        }),
        ({
            let s = BacksteppingState::initial();
            &&& s.e1.zero()
            &&& s.e2.zero()
            &&& s.alpha.zero()
            &&& s.output.zero()
        }),
        ({
            let s = FuzzyState::initial();
            &&& s.output.zero()
            &&& s.weight_sum.zero()
        }),
        ({
            let s = HinfState::initial();
            &&& s.u.zero()
            &&& s.robust_term.zero()
        }),
        ({
            let s = LqrState::initial();
            &&& s.u.zero()
        }),
        ({
            let s = MpcState::initial();
            &&& s.u.zero()
            &&& s.predicted_x.zero()
            &&& s.cost.zero()
        }),
        ({
            let s = MracState::initial();
            &&& s.model_output.zero()
            &&& s.theta.zero()
            &&& s.error.zero()
            &&& s.output.zero()
        }),
        ({
            let s = SmcState::initial();
            &&& s.surface.zero()
            &&& s.switching.zero()
            &&& s.output.zero()
        }),
{
}

/// The phase-locked loop starts at rest.
pub proof fn phase_locked_loop_starts_at_rest()
    ensures
        ({
            let s = PllState::initial();
            &&& s.theta_rad.zero()
            &&& s.omega_rad_s.zero()
            &&& s.integrator.zero()
            &&& s.phase_error.zero()
        }),
{
}

/// Sliding-mode observers start at rest.
pub proof fn sliding_observers_start_at_rest()
    ensures
        ({
            let s = SmoState::initial();
            &&& s.current_est.alpha.zero() && s.current_est.beta.zero()
            &&& s.sliding.alpha.zero() && s.sliding.beta.zero()
            &&& s.emf.alpha.zero() && s.emf.beta.zero()
            &&& s.theta_emf_rad.zero()
        }),
        ({
            let s = SmoPllState::initial();
            &&& s.smo == SmoState::initial()
            &&& s.pll == PllState::initial()
            &&& s.emf.alpha.zero() && s.emf.beta.zero()
            &&& s.theta_rad.zero()
            &&& s.omega_rad_s.zero()
        }),
        ({
            let s = FluxSmoState::initial();
            &&& s.flux == FluxState::initial()
            &&& s.smo == SmoState::initial()
            &&& s.flux_vector.alpha.zero() && s.flux_vector.beta.zero()
            &&& s.emf.alpha.zero() && s.emf.beta.zero()
            &&& s.theta_flux_rad.zero()
            &&& s.theta_smo_rad.zero()
            &&& s.theta_rad.zero()
        }),
{
}

/// Flux observers start at rest.
pub proof fn flux_observers_start_at_rest()
    ensures
        ({
            let s = FluxState::initial();
            &&& s.flux.alpha.zero() && s.flux.beta.zero()
            &&& s.theta_flux_rad.zero()
        }),
        ({
            let s = FluxCurrentState::initial();
            &&& s.flux_dq.d.zero() && s.flux_dq.q.zero()
            &&& s.theta_flux_rad.zero()
        }),
        ({
            let s = FluxHybridState::initial();
            &&& s.flux.alpha.zero() && s.flux.beta.zero()
            &&& s.weight_voltage.zero()
            &&& s.theta_flux_rad.zero()
        }),
        ({
            let s = FluxImprovedState::initial();
            &&& s.raw_flux.alpha.zero() && s.raw_flux.beta.zero()
            &&& s.flux.alpha.zero() && s.flux.beta.zero()
            &&& s.theta_flux_rad.zero()
        }),
{
}

/// Induced-voltage observers start at rest.
pub proof fn induced_voltage_observers_start_at_rest()
    ensures
        ({
            let s = BemfState::initial();
            &&& s.last_current.alpha.zero() && s.last_current.beta.zero()
            &&& s.emf.alpha.zero() && s.emf.beta.zero()
            &&& s.theta_emf_rad.zero()
            &&& s.initialized == 0
        }),
        ({
            let s = BemfIntegralState::initial();
            &&& s.flux.alpha.zero() && s.flux.beta.zero()
            &&& s.theta_rad.zero()
        }),
        ({
            let s = BemfZeroCrossState::initial();
            &&& s.last_sign == 0
            &&& s.crossing == 0
            &&& s.direction == 0
            &&& s.last_bemf.zero()
        }),
        ({
            let s = BemfPllState::initial();
            &&& s.bemf == BemfState::initial()
            &&& s.pll == PllState::initial()
            &&& s.emf.alpha.zero() && s.emf.beta.zero()
            &&& s.theta_rad.zero()
            &&& s.omega_rad_s.zero()
        }),
{
}

/// Advanced sliding-mode observers start at rest.
pub proof fn advanced_observers_start_at_rest()
    ensures
        ({
            let s = AdaptiveSmoState::initial();
            &&& s.current_est.alpha.zero() && s.current_est.beta.zero()
            &&& s.sliding.alpha.zero() && s.sliding.beta.zero()
            &&& s.emf.alpha.zero() && s.emf.beta.zero()
            &&& s.k_slide.zero()
            &&& s.error_abs.zero()
            &&& s.theta_emf_rad.zero()
            &&& s.initialized == 0
        }),
        ({
            let s = HigherOrderSmoState::initial();
            &&& s.current_est.alpha.zero() && s.current_est.beta.zero()
            &&& s.last_error.alpha.zero() && s.last_error.beta.zero()
            &&& s.error_dot.alpha.zero() && s.error_dot.beta.zero()
            &&& s.sliding.alpha.zero() && s.sliding.beta.zero()
            &&& s.emf.alpha.zero() && s.emf.beta.zero()
            &&& s.theta_emf_rad.zero()
        }),
        ({
            let s = SuperTwistingSmoState::initial();
            &&& s.current_est.alpha.zero() && s.current_est.beta.zero()
            &&& s.integral.alpha.zero() && s.integral.beta.zero()
            &&& s.sliding.alpha.zero() && s.sliding.beta.zero()
            &&& s.emf.alpha.zero() && s.emf.beta.zero()
            &&& s.theta_emf_rad.zero()
        }),
{
}

/// State estimators start at rest.
pub proof fn estimators_start_at_rest()
    ensures
        ({
            let s = KalmanState::initial();
            &&& s.x.zero()
            &&& s.p.zero()
            &&& s.k.zero()
            &&& s.residual.zero()
        }),
        ({
            let s = LuenbergerState::initial();
            &&& s.x0.zero()
            &&& s.x1.zero()
            &&& s.y_hat.zero()
            &&& s.error.zero()
        }),
        ({
            let s = EkfState::initial();
            &&& s.x.zero()
            &&& s.p.zero()
            &&& s.k.zero()
            &&& s.residual.zero()
        }),
        ({
            let s = EkfFocState::initial();
            &&& s.ekf == EkfState::initial()
            &&& s.foc == FocBasicState::initial()
            &&& s.theta_rad.zero()
        }),
        ({
            let s = UkfState::initial();
            &&& s.x.zero()
            &&& s.p.zero()
            &&& s.k.zero()
            &&& s.residual.zero()
        }),
{
}

/// Signal injection starts at rest.
pub proof fn injections_start_at_rest()
    ensures
        ({
            let s = HfInjectionState::initial();
            &&& s.carrier_angle_rad.zero()
            &&& s.carrier.zero()
            &&& s.voltage.alpha.zero() && s.voltage.beta.zero()
            &&& s.demod_response.zero()
        }),
        ({
            let s = RotatingHfState::initial();
            &&& s.carrier_angle_rad.zero()
            &&& s.voltage.alpha.zero() && s.voltage.beta.zero()
            &&& s.demod.alpha.zero() && s.demod.beta.zero()
            &&& s.theta_est_rad.zero()
        }),
        ({
            let s = PulseInjectionState::initial();
            &&& s.polarity == 1
            &&& s.voltage.alpha.zero() && s.voltage.beta.zero()
            &&& s.positive_response.zero()
            &&& s.negative_response.zero()
            &&& s.saliency.zero()
        }),
        ({
            let s = HfBemfState::initial();
            &&& s.hf == RotatingHfState::initial()
            &&& s.bemf == BemfState::initial()
            &&& s.hf_voltage.alpha.zero() && s.hf_voltage.beta.zero()
            &&& s.bemf_emf.alpha.zero() && s.bemf_emf.beta.zero()
            &&& s.theta_hf_rad.zero()
            &&& s.theta_bemf_rad.zero()
            &&& s.theta_rad.zero()
            &&& s.bemf_weight.zero()
        }),
{
}

/// A controller whose period is zero or negative keeps its state.
pub proof fn invalid_period_stops_controllers(
    pd: (PdState, PdParam),
    pid: (PidState, PidParam),
    adrc: (AdrcState, AdrcNonlinearParam),
    adaptive: (AdaptiveState, AdaptiveParam),
    mrac: (MracState, MracParam),
    reference: Binary32,
    feedback: Binary32,
    power1: Binary32,
    power2: Binary32,
)
    ensures
        pd.1.ts <= b32(ZERO) ==> pd.0.updated(pd.1, reference, feedback) == pd.0,
        pid.1.ts <= b32(ZERO) ==> pid.0.updated(pid.1, reference, feedback) == pid.0,
        adrc.1.base.ts <= b32(ZERO) ==> adrc.0.updated(adrc.1.base, reference, feedback) == adrc.0,
        adrc.1.base.ts <= b32(ZERO) ==> adrc.0.updated_nonlinear(
            adrc.1,
            reference,
            feedback,
            power1,
            power2,
        ) == adrc.0,
        adaptive.1.ts <= b32(ZERO) ==> adaptive.0.updated(adaptive.1, reference, feedback)
            == adaptive.0,
        mrac.1.ts <= b32(ZERO) ==> mrac.0.updated(mrac.1, reference, feedback) == mrac.0,
{
}

/// A differentiator whose period is zero or negative keeps its state, and so does one whose
/// acceleration or time scale is.
pub proof fn invalid_period_stops_differentiators(
    plain: (DifferentiatorState, DifferentiatorParam),
    fast: (AdrcFastTdState, AdrcFastTdParam),
    input: Binary32,
)
    ensures
        plain.1.ts <= b32(ZERO) ==> plain.0.updated(plain.1, input) == plain.0,
        fast.1.ts <= b32(ZERO) || fast.1.r <= b32(ZERO) || fast.1.h0 <= b32(ZERO)
            ==> fast.0.updated(fast.1, input) == fast.0,
{
}

/// An observer whose period or inductance is zero or negative keeps its state.
pub proof fn invalid_period_stops_observers(
    flux: (FluxState, FluxParam, FluxInput),
    improved: (FluxImprovedState, FluxImprovedParam),
    bemf: (BemfState, BemfParam, BemfInput),
    integral: (BemfIntegralState, BemfIntegralParam, BemfIntegralInput),
    adaptive: (AdaptiveSmoState, AdaptiveSmoParam, AdaptiveSmoInput),
    higher: (HigherOrderSmoState, HigherOrderSmoParam, HigherOrderSmoInput),
    twisting: (SuperTwistingSmoState, SuperTwistingSmoParam, SuperTwistingSmoInput),
)
    ensures
        flux.1.ts <= b32(ZERO) ==> flux.0.vector_updated(flux.1, flux.2) == flux.0,
        improved.1.ts <= b32(ZERO) ==> improved.0.vector_updated(improved.1, flux.2)
            == improved.0,
        bemf.1.ts <= b32(ZERO) ==> bemf.0.vector_updated(bemf.1, bemf.2) == bemf.0,
        integral.1.ts <= b32(ZERO) ==> integral.0.vector_updated(integral.1, integral.2)
            == integral.0,
        adaptive.1.ls <= b32(ZERO) ==> adaptive.0.vector_updated(adaptive.1, adaptive.2)
            == adaptive.0,
        higher.1.ls <= b32(ZERO) || higher.1.ts <= b32(ZERO) ==> higher.0.vector_updated(
            higher.1,
            higher.2,
        ) == higher.0,
        twisting.1.ls <= b32(ZERO) ==> twisting.0.vector_updated(twisting.1, twisting.2)
            == twisting.0,
{
}

/// An injection whose period is zero or negative keeps its state.
pub proof fn invalid_period_stops_injections(
    pulsating: (HfInjectionState, HfInjectionParam),
    rotating: (RotatingHfState, RotatingHfParam),
    response: AlphaBeta,
    carrier: Binary32,
    sin: Binary32,
    cos: Binary32,
)
    ensures
        pulsating.1.ts <= b32(ZERO) ==> pulsating.0.updated(
            pulsating.1,
            response.alpha,
            carrier,
            sin,
            cos,
        ) == pulsating.0,
        pulsating.1.ts <= b32(ZERO) ==> pulsating.0.reported(pulsating.1)
            == AlphaBeta::initial(),
        rotating.1.ts <= b32(ZERO) ==> rotating.0.vector_updated(rotating.1, response, sin, cos)
            == rotating.0,
        rotating.1.ts <= b32(ZERO) ==> rotating.0.reported(rotating.1) == AlphaBeta::initial(),
{
}

/// What is started at a value holds that value and is otherwise at rest.
pub proof fn started_states_hold_their_value(x: Binary32, p: Binary32)
    ensures
        AdrcFastTdState::started(x) == (AdrcFastTdState {
            v1: x,
            ..AdrcFastTdState::initial()
        }),
        AdaptiveState::started(x) == (AdaptiveState { gain: x, ..AdaptiveState::initial() }),
        MracState::started(x) == (MracState { theta: x, ..MracState::initial() }),
        PllState::started(x) == (PllState {
            theta_rad: wrapped_angle(x),
            ..PllState::initial()
        }),
        KalmanState::started(x, p) == (KalmanState { x, p, ..KalmanState::initial() }),
        EkfState::started(x, p) == (EkfState { x, p, ..EkfState::initial() }),
        UkfState::started(x, p) == (UkfState { x, p, ..UkfState::initial() }),
        LuenbergerState::started(x, p) == (LuenbergerState {
            x0: x,
            x1: p,
            ..LuenbergerState::initial()
        }),
        LowPassState::started(x).output == x && LowPassState::started(x).initialized != 0,
        HighPassState::started(x) == (HighPassState {
            last_input: x,
            initialized: 1,
            ..HighPassState::initial()
        }),
        DifferentiatorState::started(x) == (DifferentiatorState {
            last_input: x,
            initialized: 1,
            ..DifferentiatorState::initial()
        }),
{
}

/// Where two speeds leave no room between them, the weight steps from zero to one at the
/// upper.
pub proof fn weight_steps_without_room(speed: Binary32, low: Binary32, high: Binary32)
    requires
        high - low <= b32(ZERO),
    ensures
        speed >= high ==> weight_at(speed, low, high) == b32(ONE),
        speed < high ==> weight_at(speed, low, high).zero(),
{
}

} // verus!
