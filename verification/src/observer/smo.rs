//! Sliding-mode observers: a current model is forced onto the measured current, and the
//! force needed is the induced voltage.
use core::ops::Neg;
use vstd::prelude::*;
use crate::arithmetic::fraction_lies_between_zero_and_whole;
use crate::arithmetic::lemma_mul_kind;
use crate::arithmetic::lemma_sum_kind;
use crate::arithmetic::multiplication_is_commutative;
use crate::arithmetic::negation_of_factor_negates_product;
use crate::arithmetic::one_is_neutral;
use crate::arithmetic::order_is_value_order;
use crate::arithmetic::product_of_bounded_numbers;
use crate::arithmetic::product_with_zero_is_zero;
use crate::arithmetic::sum_error_is_at_most_half_spacing;
use crate::arithmetic::sum_of_bounded_numbers;
use crate::arithmetic::zero_is_neutral;
use crate::binary32::b32;
use crate::binary32::Binary32;
use crate::binary32::ONE;
use crate::binary32::ZERO;
use crate::math::angle_or_nan;
use crate::math::arctangent;
use crate::math::centred_angle;
use crate::math::centred_angle_lies_between_minus_pi_and_pi;
use crate::math::clamp;
use crate::math::clamped;
use crate::math::deviation;
use crate::math::is_wrappable;
use crate::math::lemma_small_wrap;
use crate::math::lemma_two_pi;
use crate::math::PI;
use crate::math::saturate;
use crate::math::saturated;
use crate::math::saturated_sign_is_limited;
use crate::math::total;
use crate::math::TWO_PI;
use crate::math::wrap_angle_0_to_2pi;
use crate::math::wrap_angle_minus_pi_to_pi;
use crate::math::wrappable;
use crate::math::wrapped_angle;
use crate::math::wrapped_angle_is_angle_or_nan;
use crate::math::wrapping_is_nan_only_for_non_finite;
use crate::math::wrapping_keeps_first_revolution;
use crate::nearest::lemma_mag_units_at;
use crate::nearest::lemma_mag_units_order;
use crate::nearest::spacing;
use crate::observer::bemf::smoothed;
use crate::observer::flux::FluxInput;
use crate::observer::flux::FluxParam;
use crate::observer::flux::FluxState;
use crate::observer::PllParam;
use crate::observer::PllState;
use crate::rounded_steps::differences_are_rounded;
use crate::rounded_steps::is_difference;
use crate::rounding::mag_units;
use crate::transform::AlphaBeta;
use vstd::arithmetic::power2::lemma_pow2_pos;
use vstd::arithmetic::power2::lemma_pow2_unfold;
use vstd::arithmetic::power2::pow2;
use vstd::math::abs;

verus! {

/// Motor model, sliding gain and filter of the observer.
#[derive(Clone, Copy, Debug, Default, PartialEq)]
pub struct SmoParam {
    /// Stator resistance.
    pub rs: Binary32,
    /// Stator inductance.
    pub ls: Binary32,
    /// Sample period in seconds.
    pub ts: Binary32,
    /// Sliding gain.
    pub k_slide: Binary32,
    /// Current error up to which the force is linear.
    pub boundary: Binary32,
    /// Share of the newest force in the estimate, from 0 to 1.
    pub emf_filter_alpha: Binary32,
}

/// Modelled current, force and filtered induced voltage.
#[derive(Clone, Copy, Debug, PartialEq)]
pub struct SmoState {
    pub current_est: AlphaBeta,
    /// Force that drives the model onto the measurement.
    pub sliding: AlphaBeta,
    /// Filtered force: the induced voltage.
    pub emf: AlphaBeta,
    /// Rotor angle in the first revolution.
    pub theta_emf_rad: Binary32,
}

impl SmoState {
    /// The state before the first step.
    pub open spec fn initial() -> SmoState {
        SmoState {
            current_est: AlphaBeta::initial(),
            sliding: AlphaBeta::initial(),
            emf: AlphaBeta::initial(),
            theta_emf_rad: b32(ZERO),
        }
    }

    /// Returns to the state before the first step.
    pub fn reset(&mut self)
        ensures
            *final(self) == SmoState::initial(),
    {
        *self = SmoState::default();
    }
}

impl Default for SmoState {
    fn default() -> (r: SmoState)
        ensures
            r == SmoState::initial(),
    {
        SmoState {
            current_est: AlphaBeta::default(),
            sliding: AlphaBeta::default(),
            emf: AlphaBeta::default(),
            theta_emf_rad: b32(ZERO),
        }
    }
}

/// Voltage and current of one step.
#[derive(Clone, Copy, Debug, Default, PartialEq)]
pub struct SmoInput {
    pub voltage: AlphaBeta,
    pub current: AlphaBeta,
}

/// A modelled current after a step under a driving voltage.
pub open spec fn driven(
    current: Binary32,
    ts: Binary32,
    ls: Binary32,
    drive: Binary32,
) -> Binary32 {
    current + ts * (b32(ONE) / ls) * drive
}

impl SmoState {
    /// The force for one axis.
    pub open spec fn force(param: SmoParam, estimated: Binary32, measured: Binary32) -> Binary32 {
        param.k_slide * saturated(estimated - measured, param.boundary)
    }

    /// The state after a step but for the angle; an inductance that is zero or negative
    /// changes nothing.
    pub open spec fn vector_updated(self, param: SmoParam, input: SmoInput) -> SmoState {
        let est = self.current_est;
        let sliding = AlphaBeta {
            alpha: SmoState::force(param, est.alpha, input.current.alpha),
            beta: SmoState::force(param, est.beta, input.current.beta),
        };
        if param.ls <= b32(ZERO) {
            self
        } else {
            SmoState {
                current_est: AlphaBeta {
                    alpha: driven(
                        est.alpha,
                        param.ts,
                        param.ls,
                        input.voltage.alpha - param.rs * est.alpha - sliding.alpha,
                    ),
                    beta: driven(
                        est.beta,
                        param.ts,
                        param.ls,
                        input.voltage.beta - param.rs * est.beta - sliding.beta,
                    ),
                },
                sliding,
                emf: AlphaBeta {
                    alpha: smoothed(self.emf.alpha, param.emf_filter_alpha, sliding.alpha),
                    beta: smoothed(self.emf.beta, param.emf_filter_alpha, sliding.beta),
                },
                theta_emf_rad: self.theta_emf_rad,
            }
        }
    }

    /// The state with the angle that an arctangent gave.
    pub open spec fn with_angle(self, angle: Binary32) -> SmoState {
        SmoState { theta_emf_rad: wrapped_angle(angle), ..self }
    }

    /// What is returned after a step: the induced voltage, or zero where the inductance is
    /// not valid.
    pub open spec fn reported(self, param: SmoParam) -> AlphaBeta {
        if param.ls <= b32(ZERO) {
            AlphaBeta::initial()
        } else {
            self.emf
        }
    }

    /// Makes one step without the angle and returns the induced voltage; zero where the
    /// inductance is not valid.
    pub fn update_vector(&mut self, param: &SmoParam, input: &SmoInput) -> (r: AlphaBeta)
        ensures
            *final(self) == old(self).vector_updated(*param, *input),
            r == final(self).reported(*param),
    {
        if param.ls <= b32(ZERO) {
            return AlphaBeta::default();
        }
        let inv_l: Binary32 = b32(ONE) / param.ls;
        let alpha: Binary32 = clamp(param.emf_filter_alpha, b32(ZERO), b32(ONE));
        let err_alpha: Binary32 = self.current_est.alpha - input.current.alpha;
        let err_beta: Binary32 = self.current_est.beta - input.current.beta;
        self.sliding.alpha = param.k_slide * saturate(err_alpha, param.boundary);
        self.sliding.beta = param.k_slide * saturate(err_beta, param.boundary);
        self.current_est.alpha = self.current_est.alpha + param.ts * inv_l * (input.voltage.alpha
            - param.rs * self.current_est.alpha - self.sliding.alpha);
        self.current_est.beta = self.current_est.beta + param.ts * inv_l * (input.voltage.beta
            - param.rs * self.current_est.beta - self.sliding.beta);
        self.emf.alpha = self.emf.alpha + alpha * (self.sliding.alpha - self.emf.alpha);
        self.emf.beta = self.emf.beta + alpha * (self.sliding.beta - self.emf.beta);
        self.emf
    }

    /// Takes the angle that an arctangent gave.
    pub fn update_angle(&mut self, angle: Binary32)
        requires
            wrappable(angle),
        ensures
            *final(self) == old(self).with_angle(angle),
    {
        self.theta_emf_rad = wrap_angle_0_to_2pi(angle);
    }

    /// What a step with an arctangent may lead to: the angle is that of the induced voltage
    /// turned back by a quarter revolution.
    pub open spec fn steps_to<A: Fn(Binary32, Binary32) -> Binary32>(
        self,
        param: SmoParam,
        input: SmoInput,
        atan2: A,
        next: SmoState,
    ) -> bool {
        let vector = self.vector_updated(param, input);
        exists|a: Binary32|
            atan2.ensures((-vector.emf.alpha, vector.emf.beta), a) && wrappable(a) && next
                == vector.with_angle(a)
    }

    /// Makes one step and returns the induced voltage; zero where the inductance is not
    /// valid.
    pub fn update<A: Fn(Binary32, Binary32) -> Binary32>(
        &mut self,
        param: &SmoParam,
        input: &SmoInput,
        atan2: &A,
    ) -> (r: AlphaBeta)
        requires
            arctangent(*atan2),
        ensures
            old(self).steps_to(*param, *input, *atan2, *final(self)),
            r == final(self).reported(*param),
    {
        let emf: AlphaBeta = self.update_vector(param, input);
        let a: Binary32 = atan2(self.emf.alpha.neg(), self.emf.beta);
        self.update_angle(a);
        emf
    }
}

/// Parameters of the observer and of the loop that smooths its angle.
#[derive(Clone, Copy, Debug, Default, PartialEq)]
pub struct SmoPllParam {
    pub smo: SmoParam,
    pub pll: PllParam,
}

/// Sliding-mode observer followed by a phase-locked loop.
#[derive(Clone, Copy, Debug, PartialEq)]
pub struct SmoPllState {
    pub smo: SmoState,
    pub pll: PllState,
    /// Last induced voltage returned.
    pub emf: AlphaBeta,
    /// Smoothed angle.
    pub theta_rad: Binary32,
    /// Its speed.
    pub omega_rad_s: Binary32,
}

impl SmoPllState {
    /// The state before the first step.
    pub open spec fn initial() -> SmoPllState {
        SmoPllState {
            smo: SmoState::initial(),
            pll: PllState::initial(),
            emf: AlphaBeta::initial(),
            theta_rad: b32(ZERO),
            omega_rad_s: b32(ZERO),
        }
    }

    /// Returns to the state before the first step.
    pub fn reset(&mut self)
        ensures
            *final(self) == SmoPllState::initial(),
    {
        *self = SmoPllState::default();
    }
}

impl Default for SmoPllState {
    fn default() -> (r: SmoPllState)
        ensures
            r == SmoPllState::initial(),
    {
        SmoPllState {
            smo: SmoState::default(),
            pll: PllState::default(),
            emf: AlphaBeta::default(),
            theta_rad: b32(ZERO),
            omega_rad_s: b32(ZERO),
        }
    }
}

impl SmoPllState {
    /// The state with new inner states, whose results are copied out.
    pub open spec fn joined(emf: AlphaBeta, smo: SmoState, pll: PllState) -> SmoPllState {
        SmoPllState { smo, pll, emf, theta_rad: pll.theta_rad, omega_rad_s: pll.omega_rad_s }
    }

    /// Makes one step of the loop for a phase error, after the observer made its step and
    /// returned `emf`.
    pub fn update_with_error(
        &mut self,
        param: &SmoPllParam,
        emf: AlphaBeta,
        phase_error: Binary32,
    ) -> (r: Binary32)
        requires
            old(self).pll.accepts(param.pll, phase_error),
        ensures
            *final(self) == SmoPllState::joined(
                emf,
                old(self).smo,
                old(self).pll.updated(param.pll, phase_error),
            ),
            r == final(self).theta_rad,
    {
        self.emf = emf;
        self.theta_rad = self.pll.update_with_error(&param.pll, phase_error);
        self.omega_rad_s = self.pll.omega_rad_s;
        self.theta_rad
    }

    /// Makes one step of the observer and of the loop, and returns the smoothed angle.
    pub fn update<A: Fn(Binary32, Binary32) -> Binary32, S: Fn(Binary32) -> Binary32>(
        &mut self,
        param: &SmoPllParam,
        input: &SmoInput,
        atan2: &A,
        sin: &S,
    ) -> (r: Binary32)
        requires
            arctangent(*atan2),
            total(*sin),
            forall|smo: SmoState, s: Binary32| #[trigger]
                old(self).smo.steps_to(param.smo, *input, *atan2, smo) && #[trigger] sin.ensures(
                    (smo.theta_emf_rad - old(self).pll.theta_rad,),
                    s,
                ) ==> old(self).pll.accepts(param.pll, s),
        ensures
            old(self).smo.steps_to(param.smo, *input, *atan2, final(self).smo),
            exists|s: Binary32|
                sin.ensures((final(self).smo.theta_emf_rad - old(self).pll.theta_rad,), s)
                    && *final(self) == SmoPllState::joined(
                    final(self).smo.reported(param.smo),
                    final(self).smo,
                    old(self).pll.updated(param.pll, s),
                ),
            exists|gap: Binary32, s: Binary32|
                sin.ensures((gap,), s) && final(self).pll.phase_error == s && (gap.finite()
                    ==> is_difference(gap, final(self).smo.theta_emf_rad, old(self).pll.theta_rad)),
            r == final(self).theta_rad,
    {
        let emf: AlphaBeta = self.smo.update(&param.smo, input, atan2);
        let s: Binary32 = sin(self.smo.theta_emf_rad - self.pll.theta_rad);
        proof {
            differences_are_rounded(self.smo.theta_emf_rad, self.pll.theta_rad);
        }
        self.update_with_error(param, emf, s)
    }
}

/// Parameters of both observers, and the weight of the sliding-mode angle.
#[derive(Clone, Copy, Debug, Default, PartialEq)]
pub struct FluxSmoParam {
    pub flux: FluxParam,
    pub smo: SmoParam,
    /// Weight of the sliding-mode angle, from 0 to 1.
    pub smo_weight: Binary32,
}

/// Flux observer and sliding-mode observer side by side, and their joint angle.
#[derive(Clone, Copy, Debug, PartialEq)]
pub struct FluxSmoState {
    pub flux: FluxState,
    pub smo: SmoState,
    /// Last flux returned.
    pub flux_vector: AlphaBeta,
    /// Last induced voltage returned.
    pub emf: AlphaBeta,
    /// Angle of the flux observer.
    pub theta_flux_rad: Binary32,
    /// Angle of the sliding-mode observer.
    pub theta_smo_rad: Binary32,
    /// Joint angle in the first revolution.
    pub theta_rad: Binary32,
}

impl FluxSmoState {
    /// The state before the first step.
    pub open spec fn initial() -> FluxSmoState {
        FluxSmoState {
            flux: FluxState::initial(),
            smo: SmoState::initial(),
            flux_vector: AlphaBeta::initial(),
            emf: AlphaBeta::initial(),
            theta_flux_rad: b32(ZERO),
            theta_smo_rad: b32(ZERO),
            theta_rad: b32(ZERO),
        }
    }

    /// Returns to the state before the first step.
    pub fn reset(&mut self)
        ensures
            *final(self) == FluxSmoState::initial(),
    {
        *self = FluxSmoState::default();
    }
}

impl Default for FluxSmoState {
    fn default() -> (r: FluxSmoState)
        ensures
            r == FluxSmoState::initial(),
    {
        FluxSmoState {
            flux: FluxState::default(),
            smo: SmoState::default(),
            flux_vector: AlphaBeta::default(),
            emf: AlphaBeta::default(),
            theta_flux_rad: b32(ZERO),
            theta_smo_rad: b32(ZERO),
            theta_rad: b32(ZERO),
        }
    }
}

/// Two angles joined: from the first by a share, limited to the range from 0 to 1, of the
/// shorter way to the second.
pub open spec fn joint_angle(first: Binary32, second: Binary32, weight: Binary32) -> Binary32 {
    wrapped_angle(
        first + clamped(weight, b32(ZERO), b32(ONE)) * centred_angle(second - first),
    )
}

/// Whether both wraps on the way to a joint angle come to an end.
pub open spec fn can_join(first: Binary32, second: Binary32, weight: Binary32) -> bool {
    &&& wrappable(second - first + b32(PI))
    &&& wrappable(first + clamped(weight, b32(ZERO), b32(ONE)) * centred_angle(second - first))
}

/// Tests whether two angles can be joined.
pub fn is_joinable(first: Binary32, second: Binary32, weight: Binary32) -> (r: bool)
    ensures
        r == can_join(first, second, weight),
{
    if !is_wrappable(second - first + b32(PI)) {
        return false;
    }
    let delta: Binary32 = wrap_angle_minus_pi_to_pi(second - first);
    is_wrappable(first + clamp(weight, b32(ZERO), b32(ONE)) * delta)
}

/// Angles in the first revolution can be joined.
pub proof fn angles_can_be_joined(first: Binary32, second: Binary32, weight: Binary32)
    requires
        angle_or_nan(first),
        angle_or_nan(second),
    ensures
        can_join(first, second, weight),
{
    let share = clamped(weight, b32(ZERO), b32(ONE));
    let difference = second - first;
    let delta = centred_angle(difference);
    lemma_sum_kind(second, -first);
    lemma_sum_kind(difference, b32(PI));
    if !first.nan() && !second.nan() {
        sum_of_bounded_numbers(second, -first, 3);
        sum_of_bounded_numbers(difference, b32(PI), 4);
        centred_angle_lies_between_minus_pi_and_pi(difference);
        lemma_mul_kind(share, delta);
        if !share.nan() {
            product_of_bounded_numbers(share, delta, 0, 2);
            sum_of_bounded_numbers(first, share * delta, 3);
        }
    } else {
        wrapping_is_nan_only_for_non_finite(difference + b32(PI));
        lemma_sum_kind(wrapped_angle(difference + b32(PI)), -b32(PI));
        lemma_mul_kind(share, delta);
    }
    lemma_sum_kind(first, share * delta);
}

impl FluxSmoState {
    /// The state with new inner states, whose results are copied out and joined.
    pub open spec fn joined(
        param: FluxSmoParam,
        flux: FluxState,
        smo: SmoState,
    ) -> FluxSmoState {
        FluxSmoState {
            flux,
            smo,
            flux_vector: if param.flux.ts <= b32(ZERO) {
                AlphaBeta::initial()
            } else {
                flux.flux
            },
            emf: smo.reported(param.smo),
            theta_flux_rad: flux.theta_flux_rad,
            theta_smo_rad: smo.theta_emf_rad,
            theta_rad: joint_angle(flux.theta_flux_rad, smo.theta_emf_rad, param.smo_weight),
        }
    }

    /// Copies out and joins the results of the inner observers, after each made its step.
    pub fn update_joint_angle(
        &mut self,
        param: &FluxSmoParam,
        flux_vector: AlphaBeta,
        emf: AlphaBeta,
    ) -> (r: Binary32)
        requires
            can_join(
                old(self).flux.theta_flux_rad,
                old(self).smo.theta_emf_rad,
                param.smo_weight,
            ),
        ensures
            *final(self) == (FluxSmoState {
                flux: old(self).flux,
                smo: old(self).smo,
                flux_vector,
                emf,
                theta_flux_rad: old(self).flux.theta_flux_rad,
                theta_smo_rad: old(self).smo.theta_emf_rad,
                theta_rad: joint_angle(
                    old(self).flux.theta_flux_rad,
                    old(self).smo.theta_emf_rad,
                    param.smo_weight,
                ),
            }),
            r == final(self).theta_rad,
    {
        self.flux_vector = flux_vector;
        self.emf = emf;
        self.theta_flux_rad = self.flux.theta_flux_rad;
        self.theta_smo_rad = self.smo.theta_emf_rad;
        let weight: Binary32 = clamp(param.smo_weight, b32(ZERO), b32(ONE));
        let delta: Binary32 = wrap_angle_minus_pi_to_pi(self.theta_smo_rad - self.theta_flux_rad);
        self.theta_rad = wrap_angle_0_to_2pi(self.theta_flux_rad + weight * delta);
        self.theta_rad
    }

    /// Makes one step of both observers and returns the joint angle.
    pub fn update<A: Fn(Binary32, Binary32) -> Binary32>(
        &mut self,
        param: &FluxSmoParam,
        input: &SmoInput,
        atan2: &A,
    ) -> (r: Binary32)
        requires
            arctangent(*atan2),
            forall|flux: FluxState, smo: SmoState| #[trigger]
                old(self).flux.steps_to(
                    param.flux,
                    (FluxInput { voltage: input.voltage, current: input.current }),
                    *atan2,
                    flux,
                ) && #[trigger] old(self).smo.steps_to(param.smo, *input, *atan2, smo) ==> can_join(
                    flux.theta_flux_rad,
                    smo.theta_emf_rad,
                    param.smo_weight,
                ),
        ensures
            old(self).flux.steps_to(
                param.flux,
                (FluxInput { voltage: input.voltage, current: input.current }),
                *atan2,
                final(self).flux,
            ),
            old(self).smo.steps_to(param.smo, *input, *atan2, final(self).smo),
            *final(self) == FluxSmoState::joined(*param, final(self).flux, final(self).smo),
            r == final(self).theta_rad,
    {
        let flux_input: FluxInput = FluxInput { voltage: input.voltage, current: input.current };
        let flux_vector: AlphaBeta = self.flux.update(&param.flux, &flux_input, atan2);
        let emf: AlphaBeta = self.smo.update(&param.smo, input, atan2);
        self.update_joint_angle(param, flux_vector, emf)
    }
}

/// The force never exceeds the sliding gain.
pub proof fn sliding_force_is_limited(
    param: SmoParam,
    estimated: Binary32,
    measured: Binary32,
)
    requires
        param.k_slide >= b32(ZERO),
        param.k_slide.finite(),
        !param.boundary.nan(),
        (estimated - measured).finite(),
    ensures
        SmoState::force(param, estimated, measured).within(-param.k_slide, param.k_slide),
{
    let k = param.k_slide;
    let error = estimated - measured;
    let sat = saturated(error, param.boundary);
    saturated_sign_is_limited(error, param.boundary);
    multiplication_is_commutative(k, sat);
    multiplication_is_commutative(k, -sat);
    if sat >= b32(ZERO) {
        fraction_lies_between_zero_and_whole(sat, k);
    } else {
        fraction_lies_between_zero_and_whole(-sat, k);
        lemma_mul_kind(k, sat);
        negation_of_factor_negates_product(k, sat);
    }
}

/// The joint angle is a NaN or lies in the first revolution, below two pi.
pub proof fn joint_angle_lies_in_first_revolution(
    first: Binary32,
    second: Binary32,
    weight: Binary32,
)
    requires
        can_join(first, second, weight),
    ensures
        angle_or_nan(joint_angle(first, second, weight)),
{
    wrapped_angle_is_angle_or_nan(
        first + clamped(weight, b32(ZERO), b32(ONE)) * centred_angle(second - first),
    );
}

/// From a remembered flux angle in the first revolution, whatever step both observers make
/// can be joined, and leaves such an angle.
pub proof fn flux_smo_steps_can_be_joined<A: Fn(Binary32, Binary32) -> Binary32>(
    state: FluxSmoState,
    param: FluxSmoParam,
    input: SmoInput,
    atan2: A,
    flux: FluxState,
    smo: SmoState,
)
    requires
        arctangent(atan2),
        angle_or_nan(state.flux.theta_flux_rad),
        state.flux.steps_to(
            param.flux,
            (FluxInput { voltage: input.voltage, current: input.current }),
            atan2,
            flux,
        ),
        state.smo.steps_to(param.smo, input, atan2, smo),
    ensures
        can_join(flux.theta_flux_rad, smo.theta_emf_rad, param.smo_weight),
        angle_or_nan(flux.theta_flux_rad),
{
    assert forall|a: Binary32| wrappable(a) implies angle_or_nan(#[trigger] wrapped_angle(a)) by {
        wrapped_angle_is_angle_or_nan(a);
    }
    angles_can_be_joined(flux.theta_flux_rad, smo.theta_emf_rad, param.smo_weight);
}

/// With weight zero the joint angle is the first one.
pub proof fn joint_angle_without_weight(first: Binary32, second: Binary32, weight: Binary32)
    requires
        first >= b32(ZERO),
        first < b32(TWO_PI),
        second >= b32(ZERO),
        second < b32(TWO_PI),
        weight.zero(),
    ensures
        joint_angle(first, second, weight).same(first),
{
    let difference = second - first;
    let delta = centred_angle(difference);
    let share = clamped(weight, b32(ZERO), b32(ONE));
    lemma_sum_kind(second, -first);
    lemma_sum_kind(difference, b32(PI));
    sum_of_bounded_numbers(second, -first, 3);
    sum_of_bounded_numbers(difference, b32(PI), 4);
    centred_angle_lies_between_minus_pi_and_pi(difference);
    product_with_zero_is_zero(delta, share);
    multiplication_is_commutative(delta, share);
    zero_is_neutral(first, share * delta);
    wrapping_keeps_first_revolution(first + share * delta);
}

/// The value of an angle in the first revolution.
proof fn lemma_angle_value(x: Binary32)
    requires
        x >= b32(ZERO),
        x < b32(TWO_PI),
    ensures
        x.finite(),
        0 <= x.value() < b32(TWO_PI).value(),
        (-x).finite(),
        (-x).value() == -x.value(),
{
    lemma_mag_units_order(0, 0);
    lemma_mag_units_order(x.mag(), 0);
    order_is_value_order(b32(ZERO), x);
    order_is_value_order(x, b32(TWO_PI));
}

/// The shorter way between two angles, up to whole revolutions and five steps.
pub proof fn lemma_shorter_way(first: Binary32, second: Binary32) -> (turns: int)
    requires
        first >= b32(ZERO),
        first < b32(TWO_PI),
        second >= b32(ZERO),
        second < b32(TWO_PI),
    ensures
        ({
            let delta = centred_angle(second - first);
            &&& delta.finite()
            &&& 2 * abs(delta.value()) <= b32(TWO_PI).value() + pow2(128)
            &&& abs(
                delta.value() - (second.value() - first.value() - turns * b32(TWO_PI).value()),
            ) <= 5 * pow2(128)
        }),
{
    let pi = b32(PI);
    let difference = second - first;
    let shifted = difference + pi;
    lemma_around_two_pi();
    lemma_angle_value(first);
    lemma_angle_value(second);
    sum_error_is_at_most_half_spacing(second, -first, TWO_PI as nat);
    sum_error_is_at_most_half_spacing(difference, pi, 0x417f_ffff);
    let turns = lemma_small_wrap(shifted);
    sum_error_is_at_most_half_spacing(wrapped_angle(shifted), -pi, TWO_PI as nat);
    turns
}

/// With weight one the joint angle is the second one, up to whole revolutions and one part
/// in `2^17` of a radian.
pub proof fn joint_angle_with_full_weight(first: Binary32, second: Binary32) -> (turns: int)
    requires
        first >= b32(ZERO),
        first < b32(TWO_PI),
        second >= b32(ZERO),
        second < b32(TWO_PI),
    ensures
        deviation(joint_angle(first, second, b32(ONE)), second, turns) <= pow2(132),
{
    let t = b32(TWO_PI).value();
    let delta = centred_angle(second - first);
    let sum = first + delta;
    lemma_around_two_pi();
    lemma_angle_value(first);
    let k = lemma_shorter_way(first, second);
    sum_error_is_at_most_half_spacing(first, delta, 0x417f_ffff);
    let j = lemma_small_wrap(sum);
    one_is_neutral(delta);
    multiplication_is_commutative(b32(ONE), delta);
    assert((j + k) * t == j * t + k * t) by (nonlinear_arith);
    assert(joint_angle(first, second, b32(ONE)) == wrapped_angle(sum));
    j + k
}

/// Values and spacings around two pi, in units of the spacing there.
proof fn lemma_around_two_pi()
    ensures
        b32(TWO_PI).value() == 0xc9_0fdb * pow2(128),
        2 * b32(PI).value() == b32(TWO_PI).value(),
        (-b32(PI)).value() == -b32(PI).value(),
        mag_units(TWO_PI as nat) == b32(TWO_PI).value(),
        mag_units(0x417f_ffff) == 0x1ff_fffe * pow2(128),
        spacing(TWO_PI as nat) == pow2(128),
        spacing(0x417f_ffff) == 2 * pow2(128),
        pow2(132) == 16 * pow2(128),
        pow2(128) > 0,
{
    lemma_two_pi();
    lemma_mag_units_at(127, 0xc9_0fdb);
    lemma_mag_units_at(129, 0xff_ffff);
    lemma_pow2_unfold(128);
    lemma_pow2_unfold(129);
    lemma_pow2_unfold(130);
    lemma_pow2_unfold(131);
    lemma_pow2_unfold(132);
    lemma_pow2_pos(128);
    assert(PI as nat == 0x80_0000 * 127 + 0xc9_0fdb);
    assert(0x417f_ffffnat == 0x80_0000 * 129 + 0xff_ffff);
    assert(TWO_PI as nat / 0x80_0000 == 129);
    assert(0x417f_ffffnat / 0x80_0000 == 130);
}

/// An inductance that is zero or negative leaves the observer as it is.
pub proof fn smo_rejects_invalid_inductance(
    state: SmoState,
    param: SmoParam,
    input: SmoInput,
)
    requires
        param.ls <= b32(ZERO),
    ensures
        state.vector_updated(param, input) == state,
        state.vector_updated(param, input).reported(param) == AlphaBeta::initial(),
{
}

} // verus!
