//! Refined sliding-mode observers: with adaptive gain, with the rate of the error, and with
//! an integral of its sign.
use core::ops::Neg;
use vstd::prelude::*;
use crate::arithmetic::addition_is_commutative;
use crate::arithmetic::lemma_div_kind;
use crate::arithmetic::lemma_one;
use crate::arithmetic::order_is_value_order;
use crate::arithmetic::product_error_is_at_most_half_spacing;
use crate::arithmetic::quotient_of_zero_is_zero;
use crate::arithmetic::sum_of_zeros_is_zero;
use crate::arithmetic::zero_is_neutral;
use crate::binary32::b32;
use crate::binary32::Binary32;
use crate::binary32::MINUS_ONE;
use crate::binary32::ONE;
use crate::binary32::ZERO;
use crate::math::arctangent;
use crate::math::clamp;
use crate::math::clamped;
use crate::math::limited;
use crate::math::saturate;
use crate::math::saturated;
use crate::math::saturated_sign_is_limited;
use crate::math::sign;
use crate::math::sign_of;
use crate::math::wrap_angle_0_to_2pi;
use crate::math::wrappable;
use crate::math::wrapped_angle;
use crate::observer::bemf::smoothed;
use crate::observer::smo::driven;
use crate::square_root::sqrt_of;
use crate::transform::AlphaBeta;
use vstd::arithmetic::power2::pow2;
use vstd::math::abs;

verus! {

/// The model currents after a step under voltage, resistance, induced voltage and force.
pub open spec fn modelled_currents(
    est: AlphaBeta,
    rs: Binary32,
    ls: Binary32,
    ts: Binary32,
    voltage: AlphaBeta,
    emf: AlphaBeta,
    sliding: AlphaBeta,
) -> AlphaBeta {
    AlphaBeta {
        alpha: driven(
            est.alpha,
            ts,
            ls,
            voltage.alpha - rs * est.alpha - emf.alpha - sliding.alpha,
        ),
        beta: driven(est.beta, ts, ls, voltage.beta - rs * est.beta - emf.beta - sliding.beta),
    }
}

fn model_currents(
    est: AlphaBeta,
    rs: Binary32,
    ls: Binary32,
    ts: Binary32,
    voltage: AlphaBeta,
    emf: AlphaBeta,
    sliding: AlphaBeta,
) -> (r: AlphaBeta)
    ensures
        r == modelled_currents(est, rs, ls, ts, voltage, emf, sliding),
{
    let inv_l: Binary32 = b32(ONE) / ls;
    AlphaBeta {
        alpha: est.alpha + ts * inv_l * (voltage.alpha - rs * est.alpha - emf.alpha
            - sliding.alpha),
        beta: est.beta + ts * inv_l * (voltage.beta - rs * est.beta - emf.beta - sliding.beta),
    }
}

/// The induced voltage after a step towards the force.
pub open spec fn smoothed_vector(
    emf: AlphaBeta,
    alpha: Binary32,
    sliding: AlphaBeta,
) -> AlphaBeta {
    AlphaBeta {
        alpha: smoothed(emf.alpha, alpha, sliding.alpha),
        beta: smoothed(emf.beta, alpha, sliding.beta),
    }
}

fn smooth_vector(emf: AlphaBeta, alpha: Binary32, sliding: AlphaBeta) -> (r: AlphaBeta)
    ensures
        r == smoothed_vector(emf, alpha, sliding),
{
    let share: Binary32 = clamp(alpha, b32(ZERO), b32(ONE));
    AlphaBeta {
        alpha: emf.alpha + share * (sliding.alpha - emf.alpha),
        beta: emf.beta + share * (sliding.beta - emf.beta),
    }
}

/// Motor model, adaptation and filter of the observer.
#[derive(Clone, Copy, Debug, Default, PartialEq)]
pub struct AdaptiveSmoParam {
    /// Stator resistance.
    pub rs: Binary32,
    /// Stator inductance.
    pub ls: Binary32,
    /// Sample period in seconds.
    pub ts: Binary32,
    /// Sliding gain to start with.
    pub k_initial: Binary32,
    pub k_min: Binary32,
    pub k_max: Binary32,
    /// Rate at which the gain follows the error.
    pub adapt_rate: Binary32,
    /// Error at which the gain stays.
    pub target_error: Binary32,
    /// Current error up to which the force is linear.
    pub boundary: Binary32,
    /// Share of the newest force in the estimate, from 0 to 1.
    pub emf_filter_alpha: Binary32,
}

/// Sliding-mode observer whose gain follows the current error.
#[derive(Clone, Copy, Debug, PartialEq)]
pub struct AdaptiveSmoState {
    pub current_est: AlphaBeta,
    /// Force that drives the model onto the measurement.
    pub sliding: AlphaBeta,
    /// Filtered force: the induced voltage.
    pub emf: AlphaBeta,
    /// Sliding gain.
    pub k_slide: Binary32,
    /// Size of the current error.
    pub error_abs: Binary32,
    /// Rotor angle in the first revolution.
    pub theta_emf_rad: Binary32,
    /// Not zero once there is a gain.
    pub initialized: i32,
}

impl AdaptiveSmoState {
    /// Without a gain; the first step takes it from the parameters.
    pub open spec fn initial() -> AdaptiveSmoState {
        AdaptiveSmoState {
            current_est: AlphaBeta::initial(),
            sliding: AlphaBeta::initial(),
            emf: AlphaBeta::initial(),
            k_slide: b32(ZERO),
            error_abs: b32(ZERO),
            theta_emf_rad: b32(ZERO),
            initialized: 0,
        }
    }
}

impl Default for AdaptiveSmoState {
    fn default() -> (r: AdaptiveSmoState)
        ensures
            r == AdaptiveSmoState::initial(),
    {
        AdaptiveSmoState {
            current_est: AlphaBeta::default(),
            sliding: AlphaBeta::default(),
            emf: AlphaBeta::default(),
            k_slide: b32(ZERO),
            error_abs: b32(ZERO),
            theta_emf_rad: b32(ZERO),
            initialized: 0,
        }
    }
}

/// Voltage and current of one step.
#[derive(Clone, Copy, Debug, Default, PartialEq)]
pub struct AdaptiveSmoInput {
    pub voltage: AlphaBeta,
    pub current: AlphaBeta,
}

impl AdaptiveSmoState {
    /// The state with the starting gain and nothing else.
    pub open spec fn started(param: AdaptiveSmoParam) -> AdaptiveSmoState {
        AdaptiveSmoState {
            k_slide: clamped(param.k_initial, param.k_min, param.k_max),
            initialized: 1,
            ..AdaptiveSmoState::initial()
        }
    }

    /// The state from which a step is made.
    pub open spec fn ready(self, param: AdaptiveSmoParam) -> AdaptiveSmoState {
        if self.initialized == 0 {
            AdaptiveSmoState::started(param)
        } else {
            self
        }
    }

    /// The state after a step from a ready state, but for the angle.
    pub open spec fn stepped(
        self,
        param: AdaptiveSmoParam,
        input: AdaptiveSmoInput,
    ) -> AdaptiveSmoState {
        let err_alpha = self.current_est.alpha - input.current.alpha;
        let err_beta = self.current_est.beta - input.current.beta;
        let error_abs = sqrt_of(err_alpha * err_alpha + err_beta * err_beta);
        let k_slide = clamped(
            self.k_slide + param.adapt_rate * (error_abs - param.target_error) * param.ts,
            param.k_min,
            param.k_max,
        );
        let sliding = AlphaBeta {
            alpha: k_slide * saturated(err_alpha, param.boundary),
            beta: k_slide * saturated(err_beta, param.boundary),
        };
        AdaptiveSmoState {
            current_est: modelled_currents(
                self.current_est,
                param.rs,
                param.ls,
                param.ts,
                input.voltage,
                self.emf,
                sliding,
            ),
            sliding,
            emf: smoothed_vector(self.emf, param.emf_filter_alpha, sliding),
            k_slide,
            error_abs,
            theta_emf_rad: self.theta_emf_rad,
            initialized: self.initialized,
        }
    }

    /// The state after a step but for the angle; an inductance that is zero or negative
    /// changes nothing.
    pub open spec fn vector_updated(
        self,
        param: AdaptiveSmoParam,
        input: AdaptiveSmoInput,
    ) -> AdaptiveSmoState {
        if param.ls <= b32(ZERO) {
            self
        } else {
            self.ready(param).stepped(param, input)
        }
    }

    /// The state with the angle that an arctangent gave.
    pub open spec fn with_angle(self, angle: Binary32) -> AdaptiveSmoState {
        AdaptiveSmoState { theta_emf_rad: wrapped_angle(angle), ..self }
    }

    /// An observer with the starting gain.
    pub fn new(param: &AdaptiveSmoParam) -> (r: AdaptiveSmoState)
        ensures
            r == AdaptiveSmoState::started(*param),
    {
        let mut state: AdaptiveSmoState = AdaptiveSmoState::default();
        state.reset(param);
        state
    }

    /// Starts again with the starting gain.
    pub fn reset(&mut self, param: &AdaptiveSmoParam)
        ensures
            *final(self) == AdaptiveSmoState::started(*param),
    {
        let mut fresh: AdaptiveSmoState = AdaptiveSmoState::default();
        fresh.k_slide = clamp(param.k_initial, param.k_min, param.k_max);
        fresh.initialized = 1;
        *self = fresh;
    }

    /// Makes one step without the angle and returns the induced voltage; zero where the
    /// inductance is not valid.
    pub fn update_vector(
        &mut self,
        param: &AdaptiveSmoParam,
        input: &AdaptiveSmoInput,
    ) -> (r: AlphaBeta)
        ensures
            *final(self) == old(self).vector_updated(*param, *input),
            r == (if param.ls <= b32(ZERO) {
                AlphaBeta::initial()
            } else {
                final(self).emf
            }),
    {
        if param.ls <= b32(ZERO) {
            return AlphaBeta::default();
        }
        if self.initialized == 0 {
            self.reset(param);
        }
        let err_alpha: Binary32 = self.current_est.alpha - input.current.alpha;
        let err_beta: Binary32 = self.current_est.beta - input.current.beta;
        self.error_abs = (err_alpha * err_alpha + err_beta * err_beta).sqrt();
        self.k_slide = self.k_slide + param.adapt_rate * (self.error_abs - param.target_error)
            * param.ts;
        self.k_slide = clamp(self.k_slide, param.k_min, param.k_max);
        self.sliding.alpha = self.k_slide * saturate(err_alpha, param.boundary);
        self.sliding.beta = self.k_slide * saturate(err_beta, param.boundary);
        self.current_est = model_currents(
            self.current_est,
            param.rs,
            param.ls,
            param.ts,
            input.voltage,
            self.emf,
            self.sliding,
        );
        self.emf = smooth_vector(self.emf, param.emf_filter_alpha, self.sliding);
        self.emf
    }

    /// Takes the angle that an arctangent gave.
    pub fn update_angle(&mut self, angle: Binary32)
        requires
            wrappable(angle),
        ensures
            *final(self) == old(self).with_angle(angle),
    {
        self.theta_emf_rad = wrap_angle_0_to_2pi(angle);
    }

    /// What a step with an arctangent may lead to: the angle is that of the induced voltage
    /// turned back by a quarter revolution.
    pub open spec fn steps_to<A: Fn(Binary32, Binary32) -> Binary32>(
        self,
        param: AdaptiveSmoParam,
        input: AdaptiveSmoInput,
        atan2: A,
        next: AdaptiveSmoState,
    ) -> bool {
        let vector = self.vector_updated(param, input);
        if param.ls <= b32(ZERO) {
            next == self
        } else {
            exists|a: Binary32|
                atan2.ensures((-vector.emf.alpha, vector.emf.beta), a) && next
                    == vector.with_angle(a)
        }
    }

    /// Makes one step and returns the induced voltage; zero where the inductance is not
    /// valid.
    pub fn update<A: Fn(Binary32, Binary32) -> Binary32>(
        &mut self,
        param: &AdaptiveSmoParam,
        input: &AdaptiveSmoInput,
        atan2: &A,
    ) -> (r: AlphaBeta)
        requires
            arctangent(*atan2),
        ensures
            old(self).steps_to(*param, *input, *atan2, *final(self)),
            r == (if param.ls <= b32(ZERO) {
                AlphaBeta::initial()
            } else {
                final(self).emf
            }),
    {
        if param.ls <= b32(ZERO) {
            return AlphaBeta::default();
        }
        let emf: AlphaBeta = self.update_vector(param, input);
        let a: Binary32 = atan2(emf.alpha.neg(), emf.beta);
        self.update_angle(a);
        self.emf
    }
}

/// Motor model, gains and filter of the observer.
#[derive(Clone, Copy, Debug, Default, PartialEq)]
pub struct HigherOrderSmoParam {
    /// Stator resistance.
    pub rs: Binary32,
    /// Stator inductance.
    pub ls: Binary32,
    /// Sample period in seconds.
    pub ts: Binary32,
    /// Gain of the current error.
    pub k_slide: Binary32,
    /// Gain of its rate.
    pub k_dot: Binary32,
    /// Current error up to which its part of the force is linear.
    pub boundary: Binary32,
    /// Rate up to which its part of the force is linear.
    pub dot_boundary: Binary32,
    /// Share of the newest force in the estimate, from 0 to 1.
    pub emf_filter_alpha: Binary32,
}

/// Sliding-mode observer driven by the current error and its rate.
#[derive(Clone, Copy, Debug, PartialEq)]
pub struct HigherOrderSmoState {
    pub current_est: AlphaBeta,
    pub last_error: AlphaBeta,
    pub error_dot: AlphaBeta,
    /// Force that drives the model onto the measurement.
    pub sliding: AlphaBeta,
    /// Filtered force: the induced voltage.
    pub emf: AlphaBeta,
    /// Rotor angle in the first revolution.
    pub theta_emf_rad: Binary32,
}

impl HigherOrderSmoState {
    /// The state before the first step.
    pub open spec fn initial() -> HigherOrderSmoState {
        HigherOrderSmoState {
            current_est: AlphaBeta::initial(),
            last_error: AlphaBeta::initial(),
            error_dot: AlphaBeta::initial(),
            sliding: AlphaBeta::initial(),
            emf: AlphaBeta::initial(),
            theta_emf_rad: b32(ZERO),
        }
    }

    /// Returns to the state before the first step.
    pub fn reset(&mut self)
        ensures
            *final(self) == HigherOrderSmoState::initial(),
    {
        *self = HigherOrderSmoState::default();
    }
}

impl Default for HigherOrderSmoState {
    fn default() -> (r: HigherOrderSmoState)
        ensures
            r == HigherOrderSmoState::initial(),
    {
        HigherOrderSmoState {
            current_est: AlphaBeta::default(),
            last_error: AlphaBeta::default(),
            error_dot: AlphaBeta::default(),
            sliding: AlphaBeta::default(),
            emf: AlphaBeta::default(),
            theta_emf_rad: b32(ZERO),
        }
    }
}

/// Voltage and current of one step.
#[derive(Clone, Copy, Debug, Default, PartialEq)]
pub struct HigherOrderSmoInput {
    pub voltage: AlphaBeta,
    pub current: AlphaBeta,
}

impl HigherOrderSmoParam {
    /// Whether inductance or period is zero or negative.
    pub open spec fn invalid(self) -> bool {
        self.ls <= b32(ZERO) || self.ts <= b32(ZERO)
    }
}

impl HigherOrderSmoState {
    /// The force for an error and its rate.
    pub open spec fn force(
        param: HigherOrderSmoParam,
        error: Binary32,
        rate: Binary32,
    ) -> Binary32 {
        param.k_slide * saturated(error, param.boundary) + param.k_dot * saturated(
            rate,
            param.dot_boundary,
        )
    }

    /// The state after a step but for the angle; an inductance or a period that is zero or
    /// negative changes nothing.
    pub open spec fn vector_updated(
        self,
        param: HigherOrderSmoParam,
        input: HigherOrderSmoInput,
    ) -> HigherOrderSmoState {
        let error = AlphaBeta {
            alpha: self.current_est.alpha - input.current.alpha,
            beta: self.current_est.beta - input.current.beta,
        };
        let error_dot = AlphaBeta {
            alpha: (error.alpha - self.last_error.alpha) / param.ts,
            beta: (error.beta - self.last_error.beta) / param.ts,
        };
        let sliding = AlphaBeta {
            alpha: HigherOrderSmoState::force(param, error.alpha, error_dot.alpha),
            beta: HigherOrderSmoState::force(param, error.beta, error_dot.beta),
        };
        if param.invalid() {
            self
        } else {
            HigherOrderSmoState {
                current_est: modelled_currents(
                    self.current_est,
                    param.rs,
                    param.ls,
                    param.ts,
                    input.voltage,
                    self.emf,
                    sliding,
                ),
                last_error: error,
                error_dot,
                sliding,
                emf: smoothed_vector(self.emf, param.emf_filter_alpha, sliding),
                theta_emf_rad: self.theta_emf_rad,
            }
        }
    }

    /// The state with the angle that an arctangent gave.
    pub open spec fn with_angle(self, angle: Binary32) -> HigherOrderSmoState {
        HigherOrderSmoState { theta_emf_rad: wrapped_angle(angle), ..self }
    }

    /// Makes one step without the angle and returns the induced voltage; zero where
    /// inductance or period is not valid.
    pub fn update_vector(
        &mut self,
        param: &HigherOrderSmoParam,
        input: &HigherOrderSmoInput,
    ) -> (r: AlphaBeta)
        ensures
            *final(self) == old(self).vector_updated(*param, *input),
            r == (if param.invalid() {
                AlphaBeta::initial()
            } else {
                final(self).emf
            }),
    {
        if param.ls <= b32(ZERO) || param.ts <= b32(ZERO) {
            return AlphaBeta::default();
        }
        let error: AlphaBeta = AlphaBeta {
            alpha: self.current_est.alpha - input.current.alpha,
            beta: self.current_est.beta - input.current.beta,
        };
        self.error_dot.alpha = (error.alpha - self.last_error.alpha) / param.ts;
        self.error_dot.beta = (error.beta - self.last_error.beta) / param.ts;
        self.sliding.alpha = param.k_slide * saturate(error.alpha, param.boundary) + param.k_dot
            * saturate(self.error_dot.alpha, param.dot_boundary);
        self.sliding.beta = param.k_slide * saturate(error.beta, param.boundary) + param.k_dot
            * saturate(self.error_dot.beta, param.dot_boundary);
        self.current_est = model_currents(
            self.current_est,
            param.rs,
            param.ls,
            param.ts,
            input.voltage,
            self.emf,
            self.sliding,
        );
        self.emf = smooth_vector(self.emf, param.emf_filter_alpha, self.sliding);
        self.last_error = error;
        self.emf
    }

    /// Takes the angle that an arctangent gave.
    pub fn update_angle(&mut self, angle: Binary32)
        requires
            wrappable(angle),
        ensures
            *final(self) == old(self).with_angle(angle),
    {
        self.theta_emf_rad = wrap_angle_0_to_2pi(angle);
    }

    /// What a step with an arctangent may lead to: the angle is that of the induced voltage
    /// turned back by a quarter revolution.
    pub open spec fn steps_to<A: Fn(Binary32, Binary32) -> Binary32>(
        self,
        param: HigherOrderSmoParam,
        input: HigherOrderSmoInput,
        atan2: A,
        next: HigherOrderSmoState,
    ) -> bool {
        let vector = self.vector_updated(param, input);
        if param.invalid() {
            next == self
        } else {
            exists|a: Binary32|
                atan2.ensures((-vector.emf.alpha, vector.emf.beta), a) && next
                    == vector.with_angle(a)
        }
    }

    /// Makes one step and returns the induced voltage; zero where inductance or period is
    /// not valid.
    pub fn update<A: Fn(Binary32, Binary32) -> Binary32>(
        &mut self,
        param: &HigherOrderSmoParam,
        input: &HigherOrderSmoInput,
        atan2: &A,
    ) -> (r: AlphaBeta)
        requires
            arctangent(*atan2),
        ensures
            old(self).steps_to(*param, *input, *atan2, *final(self)),
            r == (if param.invalid() {
                AlphaBeta::initial()
            } else {
                final(self).emf
            }),
    {
        if param.ls <= b32(ZERO) || param.ts <= b32(ZERO) {
            return AlphaBeta::default();
        }
        let emf: AlphaBeta = self.update_vector(param, input);
        let a: Binary32 = atan2(emf.alpha.neg(), emf.beta);
        self.update_angle(a);
        self.emf
    }
}

/// Motor model, gains and filter of the observer.
#[derive(Clone, Copy, Debug, Default, PartialEq)]
pub struct SuperTwistingSmoParam {
    /// Stator resistance.
    pub rs: Binary32,
    /// Stator inductance.
    pub ls: Binary32,
    /// Sample period in seconds.
    pub ts: Binary32,
    /// Gain of the root of the current error.
    pub k1: Binary32,
    /// Gain of the integrated sign.
    pub k2: Binary32,
    /// Share of the newest force in the estimate, from 0 to 1.
    pub emf_filter_alpha: Binary32,
}

/// Sliding-mode observer driven by the root of the current error and the integral of its
/// sign.
#[derive(Clone, Copy, Debug, PartialEq)]
pub struct SuperTwistingSmoState {
    pub current_est: AlphaBeta,
    /// Integral of the sign of the error.
    pub integral: AlphaBeta,
    /// Force that drives the model onto the measurement.
    pub sliding: AlphaBeta,
    /// Filtered force: the induced voltage.
    pub emf: AlphaBeta,
    /// Rotor angle in the first revolution.
    pub theta_emf_rad: Binary32,
}

impl SuperTwistingSmoState {
    /// The state before the first step.
    pub open spec fn initial() -> SuperTwistingSmoState {
        SuperTwistingSmoState {
            current_est: AlphaBeta::initial(),
            integral: AlphaBeta::initial(),
            sliding: AlphaBeta::initial(),
            emf: AlphaBeta::initial(),
            theta_emf_rad: b32(ZERO),
        }
    }

    /// Returns to the state before the first step.
    pub fn reset(&mut self)
        ensures
            *final(self) == SuperTwistingSmoState::initial(),
    {
        *self = SuperTwistingSmoState::default();
    }
}

impl Default for SuperTwistingSmoState {
    fn default() -> (r: SuperTwistingSmoState)
        ensures
            r == SuperTwistingSmoState::initial(),
    {
        SuperTwistingSmoState {
            current_est: AlphaBeta::default(),
            integral: AlphaBeta::default(),
            sliding: AlphaBeta::default(),
            emf: AlphaBeta::default(),
            theta_emf_rad: b32(ZERO),
        }
    }
}

/// Voltage and current of one step.
#[derive(Clone, Copy, Debug, Default, PartialEq)]
pub struct SuperTwistingSmoInput {
    pub voltage: AlphaBeta,
    pub current: AlphaBeta,
}

impl SuperTwistingSmoState {
    /// One axis of the integral after a step.
    pub open spec fn accumulated(
        param: SuperTwistingSmoParam,
        integral: Binary32,
        error: Binary32,
    ) -> Binary32 {
        integral + param.k2 * sign_of(error) * param.ts
    }

    /// The force for an error and the new integral.
    pub open spec fn force(
        param: SuperTwistingSmoParam,
        integral: Binary32,
        error: Binary32,
    ) -> Binary32 {
        param.k1 * sqrt_of(error.size()) * sign_of(error) + integral
    }

    /// The state after a step but for the angle; an inductance that is zero or negative
    /// changes nothing.
    pub open spec fn vector_updated(
        self,
        param: SuperTwistingSmoParam,
        input: SuperTwistingSmoInput,
    ) -> SuperTwistingSmoState {
        let err_alpha = self.current_est.alpha - input.current.alpha;
        let err_beta = self.current_est.beta - input.current.beta;
        let integral = AlphaBeta {
            alpha: SuperTwistingSmoState::accumulated(param, self.integral.alpha, err_alpha),
            beta: SuperTwistingSmoState::accumulated(param, self.integral.beta, err_beta),
        };
        let sliding = AlphaBeta {
            alpha: SuperTwistingSmoState::force(param, integral.alpha, err_alpha),
            beta: SuperTwistingSmoState::force(param, integral.beta, err_beta),
        };
        if param.ls <= b32(ZERO) {
            self
        } else {
            SuperTwistingSmoState {
                current_est: modelled_currents(
                    self.current_est,
                    param.rs,
                    param.ls,
                    param.ts,
                    input.voltage,
                    self.emf,
                    sliding,
                ),
                integral,
                sliding,
                emf: smoothed_vector(self.emf, param.emf_filter_alpha, sliding),
                theta_emf_rad: self.theta_emf_rad,
            }
        }
    }

    /// The state with the angle that an arctangent gave.
    pub open spec fn with_angle(self, angle: Binary32) -> SuperTwistingSmoState {
        SuperTwistingSmoState { theta_emf_rad: wrapped_angle(angle), ..self }
    }

    /// Makes one step without the angle and returns the induced voltage; zero where the
    /// inductance is not valid.
    pub fn update_vector(
        &mut self,
        param: &SuperTwistingSmoParam,
        input: &SuperTwistingSmoInput,
    ) -> (r: AlphaBeta)
        ensures
            *final(self) == old(self).vector_updated(*param, *input),
            r == (if param.ls <= b32(ZERO) {
                AlphaBeta::initial()
            } else {
                final(self).emf
            }),
    {
        if param.ls <= b32(ZERO) {
            return AlphaBeta::default();
        }
        let err_alpha: Binary32 = self.current_est.alpha - input.current.alpha;
        let err_beta: Binary32 = self.current_est.beta - input.current.beta;
        let sign_alpha: Binary32 = sign(err_alpha);
        let sign_beta: Binary32 = sign(err_beta);
        self.integral.alpha = self.integral.alpha + param.k2 * sign_alpha * param.ts;
        self.integral.beta = self.integral.beta + param.k2 * sign_beta * param.ts;
        self.sliding.alpha = param.k1 * err_alpha.abs().sqrt() * sign_alpha + self.integral.alpha;
        self.sliding.beta = param.k1 * err_beta.abs().sqrt() * sign_beta + self.integral.beta;
        self.current_est = model_currents(
            self.current_est,
            param.rs,
            param.ls,
            param.ts,
            input.voltage,
            self.emf,
            self.sliding,
        );
        self.emf = smooth_vector(self.emf, param.emf_filter_alpha, self.sliding);
        self.emf
    }

    /// Takes the angle that an arctangent gave.
    pub fn update_angle(&mut self, angle: Binary32)
        requires
            wrappable(angle),
        ensures
            *final(self) == old(self).with_angle(angle),
    {
        self.theta_emf_rad = wrap_angle_0_to_2pi(angle);
    }

    /// What a step with an arctangent may lead to: the angle is that of the induced voltage
    /// turned back by a quarter revolution.
    pub open spec fn steps_to<A: Fn(Binary32, Binary32) -> Binary32>(
        self,
        param: SuperTwistingSmoParam,
        input: SuperTwistingSmoInput,
        atan2: A,
        next: SuperTwistingSmoState,
    ) -> bool {
        let vector = self.vector_updated(param, input);
        if param.ls <= b32(ZERO) {
            next == self
        } else {
            exists|a: Binary32|
                atan2.ensures((-vector.emf.alpha, vector.emf.beta), a) && next
                    == vector.with_angle(a)
        }
    }

    /// Makes one step and returns the induced voltage; zero where the inductance is not
    /// valid.
    pub fn update<A: Fn(Binary32, Binary32) -> Binary32>(
        &mut self,
        param: &SuperTwistingSmoParam,
        input: &SuperTwistingSmoInput,
        atan2: &A,
    ) -> (r: AlphaBeta)
        requires
            arctangent(*atan2),
        ensures
            old(self).steps_to(*param, *input, *atan2, *final(self)),
            r == (if param.ls <= b32(ZERO) {
                AlphaBeta::initial()
            } else {
                final(self).emf
            }),
    {
        if param.ls <= b32(ZERO) {
            return AlphaBeta::default();
        }
        let emf: AlphaBeta = self.update_vector(param, input);
        let a: Binary32 = atan2(emf.alpha.neg(), emf.beta);
        self.update_angle(a);
        self.emf
    }
}

/// The adaptive gain is a NaN or keeps its limits, from the start and after every step.
pub proof fn adaptive_gain_is_limited(
    state: AdaptiveSmoState,
    param: AdaptiveSmoParam,
    input: AdaptiveSmoInput,
)
    requires
        !param.k_min.nan(),
        !param.k_max.nan(),
        !(param.ls <= b32(ZERO)),
    ensures
        limited(AdaptiveSmoState::started(param).k_slide, param.k_min, param.k_max),
        limited(state.vector_updated(param, input).k_slide, param.k_min, param.k_max),
{
}

/// A step without a gain is the first step after a start, whatever else the state holds,
/// and leaves a gain.
pub proof fn adaptive_first_step_starts(
    state: AdaptiveSmoState,
    param: AdaptiveSmoParam,
    input: AdaptiveSmoInput,
)
    requires
        state.initialized == 0,
        !(param.ls <= b32(ZERO)),
    ensures
        state.vector_updated(param, input) == AdaptiveSmoState::started(param).vector_updated(
            param,
            input,
        ),
        state.vector_updated(param, input).initialized != 0,
{
}

/// The force on each axis is at most the adaptive gain in size.
pub proof fn adaptive_force_is_limited(
    state: AdaptiveSmoState,
    param: AdaptiveSmoParam,
    input: AdaptiveSmoInput,
)
    requires
        !(param.ls <= b32(ZERO)),
        param.boundary.finite(),
        state.vector_updated(param, input).k_slide.finite(),
        !(state.ready(param).current_est.alpha - input.current.alpha).nan(),
        !(state.ready(param).current_est.beta - input.current.beta).nan(),
    ensures
        ({
            let next = state.vector_updated(param, input);
            let size = next.k_slide.size();
            next.sliding.alpha.within(-size, size) && next.sliding.beta.within(-size, size)
        }),
{
    let k = state.vector_updated(param, input).k_slide;
    lemma_saturated_force(
        k,
        state.ready(param).current_est.alpha - input.current.alpha,
        param.boundary,
    );
    lemma_saturated_force(
        k,
        state.ready(param).current_est.beta - input.current.beta,
        param.boundary,
    );
}

/// A gain times a saturated error is at most the gain in size.
proof fn lemma_saturated_force(k: Binary32, error: Binary32, boundary: Binary32)
    requires
        k.finite(),
        !error.nan(),
        boundary.finite(),
    ensures
        (k * saturated(error, boundary)).within(-k.size(), k.size()),
{
    let sat = saturated(error, boundary);
    saturated_sign_is_limited(error, boundary);
    lemma_div_kind(error, boundary);
    assert(sat.within(b32(MINUS_ONE), b32(ONE)));
    lemma_one();
    order_is_value_order(b32(MINUS_ONE), sat);
    order_is_value_order(sat, b32(ONE));
    assert(-b32(ONE) == b32(MINUS_ONE));
    let u = pow2(149);
    assert(abs(k.value() * sat.value()) <= k.units() * u) by (nonlinear_arith)
        requires
            abs(k.value()) == k.units(),
            abs(sat.value()) <= u,
    ;
    product_error_is_at_most_half_spacing(k, sat, k.mag());
}

/// The rate of the first error after a reset, with nothing to compare it to.
spec fn first_rate(current: Binary32, ts: Binary32) -> Binary32 {
    (b32(ZERO) - current - b32(ZERO)) / ts
}

/// The first step after a reset has the whole error over the period as its rate.
pub proof fn higher_order_first_rate_is_whole_error(
    param: HigherOrderSmoParam,
    input: HigherOrderSmoInput,
)
    requires
        !param.invalid(),
        !param.ts.nan(),
        !input.current.alpha.nan(),
        !input.current.beta.nan(),
    ensures
        ({
            let rate = HigherOrderSmoState::initial().vector_updated(param, input).error_dot;
            &&& input.current.alpha.zero() ==> rate.alpha.zero()
            &&& !input.current.alpha.zero() ==> rate.alpha == -input.current.alpha / param.ts
            &&& input.current.beta.zero() ==> rate.beta.zero()
            &&& !input.current.beta.zero() ==> rate.beta == -input.current.beta / param.ts
        }),
{
    let rate = HigherOrderSmoState::initial().vector_updated(param, input).error_dot;
    assert(rate.alpha == first_rate(input.current.alpha, param.ts));
    assert(rate.beta == first_rate(input.current.beta, param.ts));
    lemma_first_rate(input.current.alpha, param.ts);
    lemma_first_rate(input.current.beta, param.ts);
}

proof fn lemma_first_rate(current: Binary32, ts: Binary32)
    requires
        !current.nan(),
        ts > b32(ZERO),
    ensures
        current.zero() ==> first_rate(current, ts).zero(),
        !current.zero() ==> first_rate(current, ts) == -current / ts,
{
    let zero = b32(ZERO);
    if current.zero() {
        sum_of_zeros_is_zero(zero, -current);
        sum_of_zeros_is_zero(zero - current, -zero);
        quotient_of_zero_is_zero(zero - current - zero, ts);
    } else {
        zero_is_neutral(-current, zero);
        addition_is_commutative(-current, zero);
        zero_is_neutral(-current, -zero);
    }
}

} // verus!
