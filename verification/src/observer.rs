//! Rotor angle observers, and the phase-locked loop that several of them share.
use vstd::prelude::*;
use crate::arithmetic::lemma_mul_kind;
use crate::arithmetic::lemma_sum_kind;
use crate::arithmetic::power_mag;
use crate::arithmetic::product_of_bounded_numbers;
use crate::arithmetic::sum_of_bounded_numbers;
use crate::binary32::b32;
use crate::binary32::Binary32;
use crate::binary32::ZERO;
use crate::math::angle_or_nan;
use crate::math::clamp;
use crate::math::clamped;
use crate::math::is_wrappable;
use crate::math::limited;
use crate::math::TWO_PI;
use crate::math::wrap_angle_0_to_2pi;
use crate::math::wrappable;
use crate::math::wrapped_angle;
use crate::math::wrapped_angle_is_angle_or_nan;
use crate::rounded_steps::differences_are_rounded;
use crate::rounded_steps::is_difference;

pub mod advanced_smo;
pub mod advanced_smo_laws;
pub mod bemf;
pub mod estimator;
pub mod estimator_laws;
pub mod flux;
pub mod flux_laws;
pub mod injection;
pub mod linear_filters;
pub mod smo;
pub mod smo_laws;
pub mod tracking_laws;

pub use self::advanced_smo::AdaptiveSmoParam;
pub use self::advanced_smo::AdaptiveSmoState;
pub use self::advanced_smo::AdaptiveSmoInput;
pub use self::advanced_smo::HigherOrderSmoParam;
pub use self::advanced_smo::HigherOrderSmoState;
pub use self::advanced_smo::HigherOrderSmoInput;
pub use self::advanced_smo::SuperTwistingSmoParam;
pub use self::advanced_smo::SuperTwistingSmoState;
pub use self::advanced_smo::SuperTwistingSmoInput;
pub use self::bemf::BemfParam;
pub use self::bemf::BemfState;
pub use self::bemf::BemfInput;
pub use self::bemf::BemfIntegralParam;
pub use self::bemf::BemfIntegralState;
pub use self::bemf::BemfIntegralInput;
pub use self::bemf::BemfZeroCrossParam;
pub use self::bemf::BemfZeroCrossState;
pub use self::bemf::BemfPllParam;
pub use self::bemf::BemfPllState;
pub use self::estimator::KalmanParam;
pub use self::estimator::KalmanState;
pub use self::estimator::LuenbergerParam;
pub use self::estimator::LuenbergerState;
pub use self::estimator::EkfStateFunction;
pub use self::estimator::EkfMeasureFunction;
pub use self::estimator::EkfParam;
pub use self::estimator::EkfState;
pub use self::estimator::EkfLinearization;
pub use self::estimator::EkfFocParam;
pub use self::estimator::EkfFocInput;
pub use self::estimator::EkfFocState;
pub use self::estimator::UkfStateFunction;
pub use self::estimator::UkfMeasureFunction;
pub use self::estimator::UkfParam;
pub use self::estimator::UkfNoise;
pub use self::estimator::UkfState;
pub use self::flux::FluxParam;
pub use self::flux::FluxState;
pub use self::flux::FluxInput;
pub use self::flux::FluxCurrentParam;
pub use self::flux::FluxCurrentState;
pub use self::flux::FluxHybridParam;
pub use self::flux::FluxHybridState;
pub use self::flux::speed_weight;
pub use self::flux::FluxImprovedParam;
pub use self::flux::FluxImprovedState;
pub use self::flux::FluxImprovedInput;
pub use self::injection::HfInjectionParam;
pub use self::injection::HfInjectionState;
pub use self::injection::RotatingHfParam;
pub use self::injection::RotatingHfState;
pub use self::injection::PulseInjectionParam;
pub use self::injection::PulseInjectionState;
pub use self::injection::HfBemfParam;
pub use self::injection::HfBemfInput;
pub use self::injection::HfBemfState;
pub use self::smo::SmoParam;
pub use self::smo::SmoState;
pub use self::smo::SmoInput;
pub use self::smo::SmoPllParam;
pub use self::smo::SmoPllState;
pub use self::smo::FluxSmoParam;
pub use self::smo::FluxSmoState;
pub use self::smo::is_joinable;

verus! {

/// Gains, period and speed limits of a phase-locked loop.
#[derive(Clone, Copy, Debug, Default, PartialEq)]
pub struct PllParam {
    pub kp: Binary32,
    pub ki: Binary32,
    /// Sample period in seconds.
    pub ts: Binary32,
    pub omega_min: Binary32,
    pub omega_max: Binary32,
}

/// Phase-locked loop: an angle that follows a measured one, and its speed.
#[derive(Clone, Copy, Debug, PartialEq)]
pub struct PllState {
    /// Angle in the first revolution, in radians.
    pub theta_rad: Binary32,
    /// Limited speed in radians per second.
    pub omega_rad_s: Binary32,
    /// Integral part of the speed.
    pub integrator: Binary32,
    /// Last sine of the angle difference.
    pub phase_error: Binary32,
}

impl PllState {
    /// At angle zero and at rest.
    pub open spec fn initial() -> PllState {
        PllState {
            theta_rad: b32(ZERO),
            omega_rad_s: b32(ZERO),
            integrator: b32(ZERO),
            phase_error: b32(ZERO),
        }
    }
}

impl Default for PllState {
    fn default() -> (r: PllState)
        ensures
            r == PllState::initial(),
    {
        PllState {
            theta_rad: b32(ZERO),
            omega_rad_s: b32(ZERO),
            integrator: b32(ZERO),
            phase_error: b32(ZERO),
        }
    }
}

impl PllState {
    /// The state at rest at an angle.
    pub open spec fn started(theta_rad: Binary32) -> PllState {
        PllState {
            theta_rad: wrapped_angle(theta_rad),
            omega_rad_s: b32(ZERO),
            integrator: b32(ZERO),
            phase_error: b32(ZERO),
        }
    }

    /// The speed before its limits for a phase error.
    pub open spec fn free_speed(self, param: PllParam, phase_error: Binary32) -> Binary32 {
        param.kp * phase_error + (self.integrator + param.ki * param.ts * phase_error)
    }

    /// The limited speed for a phase error.
    pub open spec fn speed(self, param: PllParam, phase_error: Binary32) -> Binary32 {
        clamped(self.free_speed(param, phase_error), param.omega_min, param.omega_max)
    }

    /// The angle before wrapping for a phase error.
    pub open spec fn turned(self, param: PllParam, phase_error: Binary32) -> Binary32 {
        self.theta_rad + self.speed(param, phase_error) * param.ts
    }

    /// Whether the step for a phase error leads to an angle that can be wrapped.
    pub open spec fn accepts(self, param: PllParam, phase_error: Binary32) -> bool {
        wrappable(self.turned(param, phase_error))
    }

    /// The state after a step with a phase error; where the speed is limited, the integrator
    /// is what the limited speed leaves for it.
    pub open spec fn updated(self, param: PllParam, phase_error: Binary32) -> PllState {
        let omega = self.free_speed(param, phase_error);
        let omega_rad_s = self.speed(param, phase_error);
        PllState {
            theta_rad: wrapped_angle(self.turned(param, phase_error)),
            omega_rad_s,
            integrator: if omega.same(omega_rad_s) {
                self.integrator + param.ki * param.ts * phase_error
            } else {
                omega_rad_s - param.kp * phase_error
            },
            phase_error,
        }
    }

    /// A loop at rest at an angle.
    pub fn new(initial_theta_rad: Binary32) -> (r: PllState)
        requires
            wrappable(initial_theta_rad),
        ensures
            r == PllState::started(initial_theta_rad),
    {
        let mut state: PllState = PllState::default();
        state.reset(initial_theta_rad);
        state
    }

    /// Starts again, at rest at an angle.
    pub fn reset(&mut self, theta_rad: Binary32)
        requires
            wrappable(theta_rad),
        ensures
            *final(self) == PllState::started(theta_rad),
    {
        self.theta_rad = wrap_angle_0_to_2pi(theta_rad);
        self.omega_rad_s = b32(ZERO);
        self.integrator = b32(ZERO);
        self.phase_error = b32(ZERO);
    }

    /// Whether a step for a phase error can be made.
    pub fn can_step(&self, param: &PllParam, phase_error: Binary32) -> (r: bool)
        ensures
            r == self.accepts(*param, phase_error),
    {
        let integrator: Binary32 = self.integrator + param.ki * param.ts * phase_error;
        let omega: Binary32 = clamp(
            param.kp * phase_error + integrator,
            param.omega_min,
            param.omega_max,
        );
        is_wrappable(self.theta_rad + omega * param.ts)
    }

    /// Makes one step for a phase error, the sine of the angle difference.
    pub fn update_with_error(&mut self, param: &PllParam, phase_error: Binary32) -> (r: Binary32)
        requires
            old(self).accepts(*param, phase_error),
        ensures
            *final(self) == old(self).updated(*param, phase_error),
            r == final(self).theta_rad,
    {
        self.phase_error = phase_error;
        self.integrator = self.integrator + param.ki * param.ts * self.phase_error;
        let proportional: Binary32 = param.kp * self.phase_error;
        let omega: Binary32 = proportional + self.integrator;
        self.omega_rad_s = clamp(omega, param.omega_min, param.omega_max);
        if omega != self.omega_rad_s {
            self.integrator = self.omega_rad_s - proportional;
        }
        self.theta_rad = wrap_angle_0_to_2pi(self.theta_rad + self.omega_rad_s * param.ts);
        self.theta_rad
    }

    /// Makes one step towards a measured angle and returns the angle.
    pub fn update<S: Fn(Binary32) -> Binary32>(
        &mut self,
        param: &PllParam,
        theta_meas_rad: Binary32,
        sin: &S,
    ) -> (r: Binary32)
        requires
            sin.requires((theta_meas_rad - old(self).theta_rad,)),
            forall|s: Binary32| #[trigger]
                sin.ensures((theta_meas_rad - old(self).theta_rad,), s) ==> old(self).accepts(
                    *param,
                    s,
                ),
        ensures
            exists|s: Binary32|
                sin.ensures((theta_meas_rad - old(self).theta_rad,), s) && *final(self) == old(
                    self,
                ).updated(*param, s),
            exists|gap: Binary32, s: Binary32|
                sin.ensures((gap,), s) && final(self).phase_error == s && (gap.finite()
                    ==> is_difference(gap, theta_meas_rad, old(self).theta_rad)),
            r == final(self).theta_rad,
    {
        let s: Binary32 = sin(theta_meas_rad - self.theta_rad);
        proof {
            differences_are_rounded(theta_meas_rad, self.theta_rad);
        }
        self.update_with_error(param, s)
    }
}

/// The speed is a NaN or keeps its limits.
pub proof fn pll_speed_is_limited(state: PllState, param: PllParam, phase_error: Binary32)
    requires
        !param.omega_min.nan(),
        !param.omega_max.nan(),
    ensures
        limited(
            state.updated(param, phase_error).omega_rad_s,
            param.omega_min,
            param.omega_max,
        ),
{
}

/// The angle is a NaN or lies in the first revolution, below two pi.
pub proof fn pll_angle_lies_in_first_revolution(
    state: PllState,
    param: PllParam,
    phase_error: Binary32,
)
    requires
        state.accepts(param, phase_error),
    ensures
        angle_or_nan(state.updated(param, phase_error).theta_rad),
{
    wrapped_angle_is_angle_or_nan(state.turned(param, phase_error));
}

/// With a speed limit and a period whose product is far below the wrapping limit, every
/// step from an angle in the first revolution is accepted, whatever the phase error.
pub proof fn pll_accepts_every_error(
    state: PllState,
    param: PllParam,
    phase_error: Binary32,
    j: int,
    k: int,
)
    requires
        limited(state.theta_rad, b32(ZERO), b32(TWO_PI)),
        param.omega_min.mag() <= power_mag(j),
        param.omega_max.mag() <= power_mag(j),
        param.ts.mag() <= power_mag(k),
        -126 <= j <= 127,
        -126 <= k <= 127,
        3 <= j + k <= 26,
    ensures
        state.accepts(param, phase_error),
{
    let omega = state.speed(param, phase_error);
    if !omega.nan() && !state.theta_rad.nan() {
        product_of_bounded_numbers(omega, param.ts, j, k);
        sum_of_bounded_numbers(state.theta_rad, omega * param.ts, j + k);
    } else {
        lemma_mul_kind(omega, param.ts);
        lemma_sum_kind(state.theta_rad, omega * param.ts);
    }
}

/// While the speed keeps its limits, the integrator gains the integrated error; at a limit
/// it is set so that the speed is the limit.
pub proof fn pll_integrator_follows_limit(
    state: PllState,
    param: PllParam,
    phase_error: Binary32,
)
    ensures
        ({
            let next = state.updated(param, phase_error);
            let gained = state.integrator + param.ki * param.ts * phase_error;
            ||| next.integrator == gained
            ||| next.integrator == next.omega_rad_s - param.kp * phase_error
        }),
{
}

} // verus!
