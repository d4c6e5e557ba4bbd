//! Flux observers: the integrated voltage, the current model, and blends of the two.
use vstd::prelude::*;
use crate::arithmetic::addition_is_commutative;
use crate::arithmetic::addition_keeps_order;
use crate::arithmetic::difference_with_itself_is_zero;
use crate::arithmetic::lemma_div_kind;
use crate::arithmetic::lemma_mul_kind;
use crate::arithmetic::lemma_sum_kind;
use crate::arithmetic::multiplication_is_commutative;
use crate::arithmetic::one_is_neutral;
use crate::arithmetic::order_is_value_order;
use crate::arithmetic::product_error_is_at_most_half_own_spacing;
use crate::arithmetic::product_follows_signs;
use crate::arithmetic::product_with_zero_is_zero;
use crate::arithmetic::quotient_by_smaller_is_at_least_one;
use crate::arithmetic::quotient_error_is_at_most_half_own_spacing;
use crate::arithmetic::quotient_follows_signs;
use crate::arithmetic::quotient_with_itself_is_one;
use crate::arithmetic::sum_error_is_at_most_half_own_spacing;
use crate::arithmetic::sum_of_non_negatives;
use crate::arithmetic::zero_is_neutral;
use crate::binary32::b32;
use crate::binary32::Binary32;
use crate::binary32::ONE;
use crate::binary32::ZERO;
use crate::math::arctangent;
use crate::math::clamp;
use crate::math::clamped;
use crate::math::limited;
use crate::math::wrap_angle_0_to_2pi;
use crate::math::wrappable;
use crate::math::wrapped_angle;
use crate::nearest::lemma_mag_units_order;
use crate::nearest::lemma_relative_spacing;
use crate::nearest::lemma_spacing;
use crate::nearest::spacing;
use crate::observer::bemf::overshoot;
use crate::observer::bemf::smoothed;
use crate::observer::bemf::smoothing_stays_between;
use crate::square_root::sqrt_of;
use crate::square_root::square_root_error_is_small;
use crate::transform::AlphaBeta;
use crate::transform::Dq;
use vstd::arithmetic::power2::lemma2_to64;
use vstd::arithmetic::power2::lemma_pow2_pos;
use vstd::arithmetic::power2::lemma_pow2_unfold;
use vstd::arithmetic::power2::pow2;
use vstd::math::abs;

verus! {

/// Motor model, leakage and limits of the voltage model.
#[derive(Clone, Copy, Debug, Default, PartialEq)]
pub struct FluxParam {
    /// Stator resistance.
    pub rs: Binary32,
    /// Sample period in seconds.
    pub ts: Binary32,
    /// Rate at which the flux decays.
    pub leakage: Binary32,
    pub flux_min: Binary32,
    pub flux_max: Binary32,
}

/// Flux integrated from the voltage, and its angle.
#[derive(Clone, Copy, Debug, PartialEq)]
pub struct FluxState {
    pub flux: AlphaBeta,
    /// Angle in the first revolution.
    pub theta_flux_rad: Binary32,
}

impl FluxState {
    /// The state before the first step.
    pub open spec fn initial() -> FluxState {
        FluxState {
            flux: AlphaBeta::initial(),
            theta_flux_rad: b32(ZERO),
        }
    }

    /// Returns to the state before the first step.
    pub fn reset(&mut self)
        ensures
            *final(self) == FluxState::initial(),
    {
        *self = FluxState::default();
    }
}

impl Default for FluxState {
    fn default() -> (r: FluxState)
        ensures
            r == FluxState::initial(),
    {
        FluxState {
            flux: AlphaBeta::default(),
            theta_flux_rad: b32(ZERO),
        }
    }
}

/// Voltage and current of one step.
#[derive(Clone, Copy, Debug, Default, PartialEq)]
pub struct FluxInput {
    pub voltage: AlphaBeta,
    pub current: AlphaBeta,
}

/// One axis of the flux after integrating what the resistance leaves of the voltage, with
/// decay.
pub open spec fn leaky_flux(
    flux: Binary32,
    rs: Binary32,
    ts: Binary32,
    leakage: Binary32,
    voltage: Binary32,
    current: Binary32,
) -> Binary32 {
    flux + ts * (voltage - rs * current - leakage * flux)
}

impl FluxState {
    /// One axis of the flux after a step, limited.
    pub open spec fn axis(
        param: FluxParam,
        flux: Binary32,
        voltage: Binary32,
        current: Binary32,
    ) -> Binary32 {
        clamped(
            leaky_flux(flux, param.rs, param.ts, param.leakage, voltage, current),
            param.flux_min,
            param.flux_max,
        )
    }

    /// The state after a step but for the angle; a period that is zero or negative changes
    /// nothing.
    pub open spec fn vector_updated(self, param: FluxParam, input: FluxInput) -> FluxState {
        if param.ts <= b32(ZERO) {
            self
        } else {
            FluxState {
                flux: AlphaBeta {
                    alpha: FluxState::axis(
                        param,
                        self.flux.alpha,
                        input.voltage.alpha,
                        input.current.alpha,
                    ),
                    beta: FluxState::axis(
                        param,
                        self.flux.beta,
                        input.voltage.beta,
                        input.current.beta,
                    ),
                },
                theta_flux_rad: self.theta_flux_rad,
            }
        }
    }

    /// The state with the angle that an arctangent gave.
    pub open spec fn with_angle(self, angle: Binary32) -> FluxState {
        FluxState { theta_flux_rad: wrapped_angle(angle), ..self }
    }

    /// Updates the flux and returns it; zero where the period is not valid.
    pub fn update_vector(&mut self, param: &FluxParam, input: &FluxInput) -> (r: AlphaBeta)
        ensures
            *final(self) == old(self).vector_updated(*param, *input),
            r == (if param.ts <= b32(ZERO) {
                AlphaBeta::initial()
            } else {
                final(self).flux
            }),
    {
        if param.ts <= b32(ZERO) {
            return AlphaBeta::default();
        }
        self.flux.alpha = self.flux.alpha + param.ts * (input.voltage.alpha - param.rs
            * input.current.alpha - param.leakage * self.flux.alpha);
        self.flux.beta = self.flux.beta + param.ts * (input.voltage.beta - param.rs
            * input.current.beta - param.leakage * self.flux.beta);
        self.flux.alpha = clamp(self.flux.alpha, param.flux_min, param.flux_max);
        self.flux.beta = clamp(self.flux.beta, param.flux_min, param.flux_max);
        self.flux
    }

    /// Takes the angle that an arctangent gave.
    pub fn update_angle(&mut self, angle: Binary32)
        requires
            wrappable(angle),
        ensures
            *final(self) == old(self).with_angle(angle),
    {
        self.theta_flux_rad = wrap_angle_0_to_2pi(angle);
    }

    /// What a step with an arctangent may lead to: the angle is that of the flux.
    pub open spec fn steps_to<A: Fn(Binary32, Binary32) -> Binary32>(
        self,
        param: FluxParam,
        input: FluxInput,
        atan2: A,
        next: FluxState,
    ) -> bool {
        let vector = self.vector_updated(param, input);
        if param.ts <= b32(ZERO) {
            next == self
        } else {
            exists|a: Binary32|
                atan2.ensures((vector.flux.beta, vector.flux.alpha), a) && wrappable(a) && next
                    == vector.with_angle(a)
        }
    }

    /// Makes one step and returns the flux; zero where the period is not valid.
    pub fn update<A: Fn(Binary32, Binary32) -> Binary32>(
        &mut self,
        param: &FluxParam,
        input: &FluxInput,
        atan2: &A,
    ) -> (r: AlphaBeta)
        requires
            arctangent(*atan2),
        ensures
            old(self).steps_to(*param, *input, *atan2, *final(self)),
            r == (if param.ts <= b32(ZERO) {
                AlphaBeta::initial()
            } else {
                final(self).flux
            }),
    {
        if param.ts <= b32(ZERO) {
            return AlphaBeta::default();
        }
        let flux: AlphaBeta = self.update_vector(param, input);
        let a: Binary32 = atan2(flux.beta, flux.alpha);
        self.update_angle(a);
        self.flux
    }
}

/// Motor model and limits of the current model.
#[derive(Clone, Copy, Debug, Default, PartialEq)]
pub struct FluxCurrentParam {
    /// Inductance on the flux axis.
    pub ld: Binary32,
    /// Inductance across the flux axis.
    pub lq: Binary32,
    /// Flux of the magnets.
    pub flux_pm: Binary32,
    pub flux_min: Binary32,
    pub flux_max: Binary32,
}

/// Flux from the currents, and its angle in the rotor frame.
#[derive(Clone, Copy, Debug, PartialEq)]
pub struct FluxCurrentState {
    pub flux_dq: Dq,
    /// Angle in the first revolution.
    pub theta_flux_rad: Binary32,
}

impl FluxCurrentState {
    /// The state before the first step.
    pub open spec fn initial() -> FluxCurrentState {
        FluxCurrentState {
            flux_dq: Dq::initial(),
            theta_flux_rad: b32(ZERO),
        }
    }

    /// Returns to the state before the first step.
    pub fn reset(&mut self)
        ensures
            *final(self) == FluxCurrentState::initial(),
    {
        *self = FluxCurrentState::default();
    }
}

impl Default for FluxCurrentState {
    fn default() -> (r: FluxCurrentState)
        ensures
            r == FluxCurrentState::initial(),
    {
        FluxCurrentState {
            flux_dq: Dq::default(),
            theta_flux_rad: b32(ZERO),
        }
    }
}

impl FluxCurrentState {
    /// The limited flux for a current.
    pub open spec fn flux_of(param: FluxCurrentParam, current_dq: Dq) -> Dq {
        Dq {
            d: clamped(param.ld * current_dq.d + param.flux_pm, param.flux_min, param.flux_max),
            q: clamped(param.lq * current_dq.q, param.flux_min, param.flux_max),
        }
    }

    /// The state for a current and the angle that an arctangent gave.
    pub open spec fn updated(
        param: FluxCurrentParam,
        current_dq: Dq,
        angle: Binary32,
    ) -> FluxCurrentState {
        FluxCurrentState {
            flux_dq: FluxCurrentState::flux_of(param, current_dq),
            theta_flux_rad: wrapped_angle(angle),
        }
    }

    /// Updates the flux and returns it.
    pub fn update_vector(&mut self, param: &FluxCurrentParam, current_dq: Dq) -> (r: Dq)
        ensures
            *final(self) == (FluxCurrentState {
                flux_dq: FluxCurrentState::flux_of(*param, current_dq),
                ..*old(self)
            }),
            r == final(self).flux_dq,
    {
        self.flux_dq.d = clamp(
            param.ld * current_dq.d + param.flux_pm,
            param.flux_min,
            param.flux_max,
        );
        self.flux_dq.q = clamp(param.lq * current_dq.q, param.flux_min, param.flux_max);
        self.flux_dq
    }

    /// Takes the angle that an arctangent gave.
    pub fn update_angle(&mut self, angle: Binary32)
        requires
            wrappable(angle),
        ensures
            *final(self) == (FluxCurrentState {
                theta_flux_rad: wrapped_angle(angle),
                ..*old(self)
            }),
    {
        self.theta_flux_rad = wrap_angle_0_to_2pi(angle);
    }

    /// Makes one step and returns the flux.
    pub fn update<A: Fn(Binary32, Binary32) -> Binary32>(
        &mut self,
        param: &FluxCurrentParam,
        current_dq: Dq,
        atan2: &A,
    ) -> (r: Dq)
        requires
            arctangent(*atan2),
        ensures
            exists|a: Binary32|
                atan2.ensures(
                    (
                        FluxCurrentState::flux_of(*param, current_dq).q,
                        FluxCurrentState::flux_of(*param, current_dq).d,
                    ),
                    a,
                ) && *final(self) == FluxCurrentState::updated(*param, current_dq, a),
            r == final(self).flux_dq,
    {
        let flux: Dq = self.update_vector(param, current_dq);
        let a: Binary32 = atan2(flux.q, flux.d);
        self.update_angle(a);
        assert(*self == FluxCurrentState::updated(*param, current_dq, a));
        self.flux_dq
    }
}

/// Speeds between which the models are blended.
#[derive(Clone, Copy, Debug, Default, PartialEq)]
pub struct FluxHybridParam {
    pub speed_low: Binary32,
    pub speed_high: Binary32,
}

/// Blend of the voltage model and the current model by speed.
#[derive(Clone, Copy, Debug, PartialEq)]
pub struct FluxHybridState {
    pub flux: AlphaBeta,
    /// Weight of the voltage model, from 0 to 1.
    pub weight_voltage: Binary32,
    /// Angle in the first revolution.
    pub theta_flux_rad: Binary32,
}

impl FluxHybridState {
    /// The state before the first step.
    pub open spec fn initial() -> FluxHybridState {
        FluxHybridState {
            flux: AlphaBeta::initial(),
            weight_voltage: b32(ZERO),
            theta_flux_rad: b32(ZERO),
        }
    }

    /// Returns to the state before the first step.
    pub fn reset(&mut self)
        ensures
            *final(self) == FluxHybridState::initial(),
    {
        *self = FluxHybridState::default();
    }
}

impl Default for FluxHybridState {
    fn default() -> (r: FluxHybridState)
        ensures
            r == FluxHybridState::initial(),
    {
        FluxHybridState {
            flux: AlphaBeta::default(),
            weight_voltage: b32(ZERO),
            theta_flux_rad: b32(ZERO),
        }
    }
}

/// A weight that grows from 0 to 1 between two speeds, or steps at the upper one where they
/// do not leave room between them.
pub open spec fn weight_at(speed: Binary32, low: Binary32, high: Binary32) -> Binary32 {
    let room = high - low;
    if room <= b32(ZERO) {
        if speed >= high {
            b32(ONE)
        } else {
            b32(ZERO)
        }
    } else {
        clamped((speed - low) / room, b32(ZERO), b32(ONE))
    }
}

/// The weight at a speed that grows from 0 to 1 between two others.
pub fn speed_weight(speed: Binary32, low: Binary32, high: Binary32) -> (r: Binary32)
    ensures
        r == weight_at(speed, low, high),
{
    let room: Binary32 = high - low;
    if room <= b32(ZERO) {
        if speed >= high {
            b32(ONE)
        } else {
            b32(ZERO)
        }
    } else {
        clamp((speed - low) / room, b32(ZERO), b32(ONE))
    }
}

/// The weight of the voltage model.
pub open spec fn voltage_weight(param: FluxHybridParam, speed_abs: Binary32) -> Binary32 {
    weight_at(speed_abs.size(), param.speed_low, param.speed_high)
}

/// One axis of the blend of two vectors.
pub open spec fn blended(weight: Binary32, first: Binary32, second: Binary32) -> Binary32 {
    weight * first + (b32(ONE) - weight) * second
}

impl FluxHybridState {
    /// The blended flux.
    pub open spec fn flux_of(
        weight: Binary32,
        flux_voltage: AlphaBeta,
        flux_current: AlphaBeta,
    ) -> AlphaBeta {
        AlphaBeta {
            alpha: blended(weight, flux_voltage.alpha, flux_current.alpha),
            beta: blended(weight, flux_voltage.beta, flux_current.beta),
        }
    }

    /// The state for two fluxes and a speed, and the angle that an arctangent gave.
    pub open spec fn updated(
        param: FluxHybridParam,
        flux_voltage: AlphaBeta,
        flux_current: AlphaBeta,
        speed_abs: Binary32,
        angle: Binary32,
    ) -> FluxHybridState {
        let weight = voltage_weight(param, speed_abs);
        FluxHybridState {
            flux: FluxHybridState::flux_of(weight, flux_voltage, flux_current),
            weight_voltage: weight,
            theta_flux_rad: wrapped_angle(angle),
        }
    }

    /// Blends the two fluxes and returns the blend.
    pub fn update_vector(
        &mut self,
        param: &FluxHybridParam,
        flux_voltage: AlphaBeta,
        flux_current: AlphaBeta,
        speed_abs: Binary32,
    ) -> (r: AlphaBeta)
        ensures
            final(self).weight_voltage == voltage_weight(*param, speed_abs),
            final(self).flux == FluxHybridState::flux_of(
                voltage_weight(*param, speed_abs),
                flux_voltage,
                flux_current,
            ),
            final(self).theta_flux_rad == old(self).theta_flux_rad,
            r == final(self).flux,
    {
        self.weight_voltage = speed_weight(speed_abs.abs(), param.speed_low, param.speed_high);
        self.flux.alpha = self.weight_voltage * flux_voltage.alpha + (b32(ONE)
            - self.weight_voltage) * flux_current.alpha;
        self.flux.beta = self.weight_voltage * flux_voltage.beta + (b32(ONE) - self.weight_voltage)
            * flux_current.beta;
        self.flux
    }

    /// Takes the angle that an arctangent gave.
    pub fn update_angle(&mut self, angle: Binary32)
        requires
            wrappable(angle),
        ensures
            *final(self) == (FluxHybridState {
                theta_flux_rad: wrapped_angle(angle),
                ..*old(self)
            }),
    {
        self.theta_flux_rad = wrap_angle_0_to_2pi(angle);
    }

    /// Makes one step and returns the blended flux.
    pub fn update<A: Fn(Binary32, Binary32) -> Binary32>(
        &mut self,
        param: &FluxHybridParam,
        flux_voltage: AlphaBeta,
        flux_current: AlphaBeta,
        speed_abs: Binary32,
        atan2: &A,
    ) -> (r: AlphaBeta)
        requires
            arctangent(*atan2),
        ensures
            exists|a: Binary32|
                atan2.ensures((final(self).flux.beta, final(self).flux.alpha), a) && *final(self)
                    == FluxHybridState::updated(
                    *param,
                    flux_voltage,
                    flux_current,
                    speed_abs,
                    a,
                ),
            r == final(self).flux,
    {
        let flux: AlphaBeta = self.update_vector(param, flux_voltage, flux_current, speed_abs);
        let a: Binary32 = atan2(flux.beta, flux.alpha);
        self.update_angle(a);
        assert(*self == FluxHybridState::updated(
            *param,
            flux_voltage,
            flux_current,
            speed_abs,
            a,
        ));
        self.flux
    }
}

/// Motor model, leakage, magnitude limits and output filter.
#[derive(Clone, Copy, Debug, Default, PartialEq)]
pub struct FluxImprovedParam {
    /// Stator resistance.
    pub rs: Binary32,
    /// Sample period in seconds.
    pub ts: Binary32,
    /// Rate at which the flux decays.
    pub leakage: Binary32,
    /// Least magnitude; not in effect unless positive.
    pub flux_mag_min: Binary32,
    /// Largest magnitude; not in effect unless positive.
    pub flux_mag_max: Binary32,
    /// Share of the newest flux in the output, from 0 to 1.
    pub output_alpha: Binary32,
}

/// Integrated flux with limited magnitude, filtered, and its angle.
#[derive(Clone, Copy, Debug, PartialEq)]
pub struct FluxImprovedState {
    /// Integrated flux after limiting.
    pub raw_flux: AlphaBeta,
    /// Filtered flux.
    pub flux: AlphaBeta,
    /// Angle in the first revolution.
    pub theta_flux_rad: Binary32,
}

impl FluxImprovedState {
    /// The state before the first step.
    pub open spec fn initial() -> FluxImprovedState {
        FluxImprovedState {
            raw_flux: AlphaBeta::initial(),
            flux: AlphaBeta::initial(),
            theta_flux_rad: b32(ZERO),
        }
    }

    /// Returns to the state before the first step.
    pub fn reset(&mut self)
        ensures
            *final(self) == FluxImprovedState::initial(),
    {
        *self = FluxImprovedState::default();
    }
}

impl Default for FluxImprovedState {
    fn default() -> (r: FluxImprovedState)
        ensures
            r == FluxImprovedState::initial(),
    {
        FluxImprovedState {
            raw_flux: AlphaBeta::default(),
            flux: AlphaBeta::default(),
            theta_flux_rad: b32(ZERO),
        }
    }
}

/// The improved integrator takes the same input.
pub type FluxImprovedInput = FluxInput;

/// The length of a vector.
pub open spec fn length_of(v: AlphaBeta) -> Binary32 {
    sqrt_of(v.alpha * v.alpha + v.beta * v.beta)
}

/// A length brought between the limits that are in effect.
pub open spec fn limited_length(
    length: Binary32,
    min_mag: Binary32,
    max_mag: Binary32,
) -> Binary32 {
    let capped = if max_mag > b32(ZERO) && length > max_mag {
        max_mag
    } else {
        length
    };
    if min_mag > b32(ZERO) && capped < min_mag {
        min_mag
    } else {
        capped
    }
}

/// A vector scaled to a limited length; one without a positive length stays as it is.
pub open spec fn limited_vector(v: AlphaBeta, min_mag: Binary32, max_mag: Binary32) -> AlphaBeta {
    let length = length_of(v);
    let scale = limited_length(length, min_mag, max_mag) / length;
    if length <= b32(ZERO) {
        v
    } else {
        AlphaBeta { alpha: v.alpha * scale, beta: v.beta * scale }
    }
}

fn limit_vector_magnitude(value: &mut AlphaBeta, min_mag: Binary32, max_mag: Binary32)
    ensures
        *final(value) == limited_vector(*old(value), min_mag, max_mag),
{
    let magnitude: Binary32 = (value.alpha * value.alpha + value.beta * value.beta).sqrt();
    if magnitude <= b32(ZERO) {
        return;
    }
    let mut target: Binary32 = magnitude;
    if max_mag > b32(ZERO) && target > max_mag {
        target = max_mag;
    }
    if min_mag > b32(ZERO) && target < min_mag {
        target = min_mag;
    }
    let scale: Binary32 = target / magnitude;
    value.alpha = value.alpha * scale;
    value.beta = value.beta * scale;
}

impl FluxImprovedState {
    /// The integrated flux after a step, before its magnitude is limited.
    pub open spec fn integrated(
        self,
        param: FluxImprovedParam,
        input: FluxImprovedInput,
    ) -> AlphaBeta {
        AlphaBeta {
            alpha: leaky_flux(
                self.raw_flux.alpha,
                param.rs,
                param.ts,
                param.leakage,
                input.voltage.alpha,
                input.current.alpha,
            ),
            beta: leaky_flux(
                self.raw_flux.beta,
                param.rs,
                param.ts,
                param.leakage,
                input.voltage.beta,
                input.current.beta,
            ),
        }
    }

    /// The state after a step but for the angle; a period that is zero or negative changes
    /// nothing.
    pub open spec fn vector_updated(
        self,
        param: FluxImprovedParam,
        input: FluxImprovedInput,
    ) -> FluxImprovedState {
        let raw = limited_vector(
            self.integrated(param, input),
            param.flux_mag_min,
            param.flux_mag_max,
        );
        if param.ts <= b32(ZERO) {
            self
        } else {
            FluxImprovedState {
                raw_flux: raw,
                flux: AlphaBeta {
                    alpha: smoothed(self.flux.alpha, param.output_alpha, raw.alpha),
                    beta: smoothed(self.flux.beta, param.output_alpha, raw.beta),
                },
                theta_flux_rad: self.theta_flux_rad,
            }
        }
    }

    /// The state with the angle that an arctangent gave.
    pub open spec fn with_angle(self, angle: Binary32) -> FluxImprovedState {
        FluxImprovedState { theta_flux_rad: wrapped_angle(angle), ..self }
    }

    /// Updates the flux and returns it; zero where the period is not valid.
    pub fn update_vector(
        &mut self,
        param: &FluxImprovedParam,
        input: &FluxImprovedInput,
    ) -> (r: AlphaBeta)
        ensures
            *final(self) == old(self).vector_updated(*param, *input),
            r == (if param.ts <= b32(ZERO) {
                AlphaBeta::initial()
            } else {
                final(self).flux
            }),
    {
        if param.ts <= b32(ZERO) {
            return AlphaBeta::default();
        }
        self.raw_flux.alpha = self.raw_flux.alpha + param.ts * (input.voltage.alpha - param.rs
            * input.current.alpha - param.leakage * self.raw_flux.alpha);
        self.raw_flux.beta = self.raw_flux.beta + param.ts * (input.voltage.beta - param.rs
            * input.current.beta - param.leakage * self.raw_flux.beta);
        limit_vector_magnitude(&mut self.raw_flux, param.flux_mag_min, param.flux_mag_max);
        let alpha: Binary32 = clamp(param.output_alpha, b32(ZERO), b32(ONE));
        self.flux.alpha = self.flux.alpha + alpha * (self.raw_flux.alpha - self.flux.alpha);
        self.flux.beta = self.flux.beta + alpha * (self.raw_flux.beta - self.flux.beta);
        self.flux
    }

    /// Takes the angle that an arctangent gave.
    pub fn update_angle(&mut self, angle: Binary32)
        requires
            wrappable(angle),
        ensures
            *final(self) == old(self).with_angle(angle),
    {
        self.theta_flux_rad = wrap_angle_0_to_2pi(angle);
    }

    /// What a step with an arctangent may lead to: the angle is that of the filtered flux.
    pub open spec fn steps_to<A: Fn(Binary32, Binary32) -> Binary32>(
        self,
        param: FluxImprovedParam,
        input: FluxImprovedInput,
        atan2: A,
        next: FluxImprovedState,
    ) -> bool {
        let vector = self.vector_updated(param, input);
        if param.ts <= b32(ZERO) {
            next == self
        } else {
            exists|a: Binary32|
                atan2.ensures((vector.flux.beta, vector.flux.alpha), a) && next
                    == vector.with_angle(a)
        }
    }

    /// Makes one step and returns the flux; zero where the period is not valid.
    pub fn update<A: Fn(Binary32, Binary32) -> Binary32>(
        &mut self,
        param: &FluxImprovedParam,
        input: &FluxImprovedInput,
        atan2: &A,
    ) -> (r: AlphaBeta)
        requires
            arctangent(*atan2),
        ensures
            old(self).steps_to(*param, *input, *atan2, *final(self)),
            r == (if param.ts <= b32(ZERO) {
                AlphaBeta::initial()
            } else {
                final(self).flux
            }),
    {
        if param.ts <= b32(ZERO) {
            return AlphaBeta::default();
        }
        let flux: AlphaBeta = self.update_vector(param, input);
        let a: Binary32 = atan2(flux.beta, flux.alpha);
        self.update_angle(a);
        self.flux
    }
}

/// Each axis of the voltage model is a NaN or keeps its limits.
pub proof fn voltage_model_flux_is_limited(
    param: FluxParam,
    flux: Binary32,
    voltage: Binary32,
    current: Binary32,
)
    requires
        !param.flux_min.nan(),
        !param.flux_max.nan(),
    ensures
        limited(
            FluxState::axis(param, flux, voltage, current),
            param.flux_min,
            param.flux_max,
        ),
{
}

/// Each axis of the current model is a NaN or keeps its limits.
pub proof fn current_model_flux_is_limited(param: FluxCurrentParam, current_dq: Dq)
    requires
        !param.flux_min.nan(),
        !param.flux_max.nan(),
    ensures
        limited(
            FluxCurrentState::flux_of(param, current_dq).d,
            param.flux_min,
            param.flux_max,
        ),
        limited(
            FluxCurrentState::flux_of(param, current_dq).q,
            param.flux_min,
            param.flux_max,
        ),
{
}

/// The weight is a NaN or lies between 0 and 1.
pub proof fn speed_weight_is_limited(speed: Binary32, low: Binary32, high: Binary32)
    ensures
        limited(weight_at(speed, low, high), b32(ZERO), b32(ONE)),
{
}

/// Up to the lower speed the weight is zero, and from the upper speed on it is one.
pub proof fn speed_weight_at_the_ends(speed: Binary32, low: Binary32, high: Binary32)
    requires
        low.finite(),
        high.finite(),
        speed.finite(),
        low < high,
        (high - low).finite(),
    ensures
        speed <= low ==> weight_at(speed, low, high).zero(),
        speed >= high ==> weight_at(speed, low, high) == b32(ONE),
{
    let room = high - low;
    let above = speed - low;
    lemma_sum_kind(high, -low);
    lemma_sum_kind(speed, -low);
    difference_with_itself_is_zero(low);
    addition_keeps_order(low, high, -low);
    if !(room <= b32(ZERO)) {
        lemma_div_kind(above, room);
        if speed <= low {
            addition_keeps_order(speed, low, -low);
            quotient_follows_signs(above, room);
        }
        if speed >= high {
            addition_keeps_order(high, speed, -low);
            if above.finite() {
                quotient_by_smaller_is_at_least_one(above, room);
            } else {
                reveal(Binary32::spec_euclidean_or_real_div);
            }
        }
    }
}

/// With weight one the blend is the first vector, with weight zero the second.
pub proof fn blend_at_the_ends(first: Binary32, second: Binary32)
    requires
        first.finite(),
        second.finite(),
    ensures
        blended(b32(ONE), first, second).same(first),
        blended(b32(ZERO), first, second).same(second),
{
    let one = b32(ONE);
    let zero = b32(ZERO);
    one_is_neutral(first);
    one_is_neutral(second);
    multiplication_is_commutative(one, first);
    multiplication_is_commutative(one, second);
    difference_with_itself_is_zero(one);
    zero_is_neutral(one, -zero);
    product_with_zero_is_zero(second, zero);
    product_with_zero_is_zero(first, zero);
    multiplication_is_commutative(second, zero);
    multiplication_is_commutative(first, zero);
    zero_is_neutral(first, zero * second);
    zero_is_neutral(second, zero * first);
    addition_is_commutative(second, zero * first);
}

/// The factor by which limiting scales a vector.
pub open spec fn length_scale(v: AlphaBeta, min_mag: Binary32, max_mag: Binary32) -> Binary32 {
    limited_length(length_of(v), min_mag, max_mag) / length_of(v)
}

/// Both coordinates of a limited vector are scaled alike, by a factor that is not negative,
/// so its direction stays. The factor is positive unless the length exceeds the limit by
/// `2^150`. A vector whose length is within the limits is kept bit for bit.
pub proof fn limiting_keeps_direction(v: AlphaBeta, min_mag: Binary32, max_mag: Binary32)
    requires
        v.alpha.finite(),
        v.beta.finite(),
        length_of(v).finite(),
    ensures
        ({
            let r = limited_vector(v, min_mag, max_mag);
            let length = length_of(v);
            let target = limited_length(length, min_mag, max_mag);
            let scale = length_scale(v, min_mag, max_mag);
            &&& length.zero() ==> r == v
            &&& !length.zero() ==> r.alpha == v.alpha * scale && r.beta == v.beta * scale
            &&& !length.zero() ==> scale >= b32(ZERO)
            &&& !length.zero() && target.finite() && scale.zero() ==> target.value() * pow2(150)
                <= length.value()
            &&& target == length ==> r == v
        }),
{
    let length = length_of(v);
    let target = limited_length(length, min_mag, max_mag);
    let scale = length_scale(v, min_mag, max_mag);
    lemma_length_sign(v);
    if !length.zero() {
        assert(target > b32(ZERO));
        lemma_div_kind(target, length);
        quotient_follows_signs(target, length);
        if target == length {
            quotient_with_itself_is_one(length);
            one_is_neutral(v.alpha);
            one_is_neutral(v.beta);
        }
        if scale.zero() && target.finite() {
            lemma_mag_units_order(0, 0);
            order_is_value_order(b32(ZERO), length);
            quotient_error_is_at_most_half_own_spacing(target, length);
            lemma_pow2_unfold(150);
            lemma2_to64();
            assert(0 * length.value() == 0);
            assert(1 * length.value() == length.value());
            assert(spacing(0) == 1);
            assert(target.value() * pow2(150) == 2 * (target.value() * pow2(149)))
                by (nonlinear_arith)
                requires
                    pow2(150) == 2 * pow2(149),
            ;
            lemma_mag_units_order(target.mag(), 0);
            assert(target.value() * pow2(149) >= 0) by (nonlinear_arith)
                requires
                    target.value() >= 0,
            ;
        }
    }
}

/// A finite length is not negative.
proof fn lemma_length_sign(v: AlphaBeta)
    requires
        length_of(v).finite(),
    ensures
        length_of(v) >= b32(ZERO),
        !(v.alpha * v.alpha + v.beta * v.beta).nan(),
        v.alpha * v.alpha + v.beta * v.beta >= b32(ZERO),
{
    reveal(sqrt_of);
    let square = v.alpha * v.alpha + v.beta * v.beta;
    lemma_sum_kind(v.alpha * v.alpha, v.beta * v.beta);
    assert(!square.nan());
    lemma_mul_kind(v.alpha, v.alpha);
    lemma_mul_kind(v.beta, v.beta);
    product_follows_signs(v.alpha, v.alpha);
    product_follows_signs(v.beta, v.beta);
    sum_of_non_negatives(v.alpha * v.alpha, v.beta * v.beta);
}

/// The limited length lies between the limits in effect.
pub proof fn limited_length_is_within_limits(
    length: Binary32,
    min_mag: Binary32,
    max_mag: Binary32,
)
    requires
        !length.nan(),
        b32(ZERO) < min_mag,
        min_mag <= max_mag,
    ensures
        limited_length(length, min_mag, max_mag).within(min_mag, max_mag),
{
}

/// A coordinate `r` after scaling, from its size `x` before, with the scale taken out.
proof fn lemma_scaled_coordinate(a: Binary32, scale: Binary32)
    requires
        a.finite(),
        scale.finite(),
        scale > b32(ZERO),
        (a * scale).finite(),
    ensures
        0x80_0000 * ((a * scale).units() * pow2(149)) <= 0x80_0001 * (a.units() * scale.units())
            + 0x80_0000 * pow2(149),
{
    let r = a * scale;
    let u = pow2(149);
    let x = a.units() * scale.units();
    product_error_is_at_most_half_own_spacing(a, scale);
    lemma_mag_units_order(scale.mag(), 0);
    lemma_pow2_pos(149);
    assert(abs(r.value() * u) == r.units() * u) by (nonlinear_arith)
        requires
            abs(r.value()) == r.units(),
            u > 0,
    ;
    assert(abs(a.value() * scale.value()) == x) by (nonlinear_arith)
        requires
            abs(a.value()) == a.units(),
            scale.value() == scale.units(),
            x == a.units() * scale.units(),
    ;
    assert(2 * (r.units() * u) <= 2 * x + spacing(r.mag()) * u);
    if r.mag() < 0x80_0000 {
        lemma2_to64();
        assert(1 * u == u);
    } else {
        lemma_relative_spacing(r.mag());
        assert(0x80_0000 * (spacing(r.mag()) * u) <= r.units() * u) by (nonlinear_arith)
            requires
                0x80_0000 * spacing(r.mag()) <= r.units(),
                u > 0,
        ;
    }
}

/// The square of a length, put together from the squares of coordinates that are off by at
/// most `d`.
proof fn lemma_limited_square(x: int, y: int, z: int, k: int, d: int, a: int, b: int)
    requires
        0 <= x,
        0 <= y,
        0 <= z,
        0 <= d,
        0 <= a <= x + d,
        0 <= b <= y + d,
        0x10_0000 * (x * x + y * y) <= 0x10_0001 * (z * z),
        0x80_0000 * z <= 0x80_0001 * k,
        0x20_0000 * d <= k,
    ensures
        0x2_0000 * (a * a + b * b) <= 0x2_0001 * (k * k),
{
    let q = k * k;
    let zz = z * z;
    assert(x * x >= 0 && y * y >= 0 && zz >= 0 && q >= 0) by (nonlinear_arith)
        requires
            zz == z * z,
            q == k * k,
    ;
    assert(0x4000_0000_0000 * zz <= 0x4000_0100_0001 * q) by (nonlinear_arith)
        requires
            0x80_0000 * z <= 0x80_0001 * k,
            0 <= z,
            zz == z * z,
            q == k * k,
    ;
    assert(x <= 2 * z) by (nonlinear_arith)
        requires
            x * x <= 2 * (z * z),
            0 <= x,
            0 <= z,
    ;
    assert(y <= 2 * z) by (nonlinear_arith)
        requires
            y * y <= 2 * (z * z),
            0 <= y,
            0 <= z,
    ;
    let dx = d * x;
    let dy = d * y;
    let dd = d * d;
    assert(0x20_0000 * dx <= 3 * q) by (nonlinear_arith)
        requires
            dx == d * x,
            x <= 3 * k,
            0 <= x,
            0x20_0000 * d <= k,
            q == k * k,
    ;
    assert(0x20_0000 * dy <= 3 * q) by (nonlinear_arith)
        requires
            dy == d * y,
            y <= 3 * k,
            0 <= y,
            0x20_0000 * d <= k,
            q == k * k,
    ;
    assert(0x400_0000_0000 * dd <= q) by (nonlinear_arith)
        requires
            dd == d * d,
            0 <= d,
            0x20_0000 * d <= k,
            q == k * k,
    ;
    assert(a * a <= x * x + 2 * dx + dd) by (nonlinear_arith)
        requires
            0 <= a <= x + d,
            dx == d * x,
            dd == d * d,
    ;
    assert(b * b <= y * y + 2 * dy + dd) by (nonlinear_arith)
        requires
            0 <= b <= y + d,
            dy == d * y,
            dd == d * d,
    ;
}

/// A rounded square, off by at most half the spacing at a larger number.
proof fn lemma_square_error(a: Binary32, limit: nat)
    requires
        a.finite(),
        (a * a).finite(),
        (a * a).mag() <= limit,
    ensures
        2 * abs((a * a).value() * pow2(149) - a.units() * a.units()) <= spacing(limit) * pow2(149),
{
    product_error_is_at_most_half_own_spacing(a, a);
    lemma_spacing((a * a).mag(), limit);
    assert(a.value() * a.value() == a.units() * a.units()) by (nonlinear_arith)
        requires
            abs(a.value()) == a.units(),
    ;
    assert(spacing((a * a).mag()) * pow2(149) <= spacing(limit) * pow2(149)) by (nonlinear_arith)
        requires
            spacing((a * a).mag()) <= spacing(limit),
    ;
}

/// The exact square of a vector is at most that of its computed length, up to one part in
/// `2^20`.
proof fn lemma_length_square(v: AlphaBeta)
    requires
        v.alpha.finite(),
        v.beta.finite(),
        (v.alpha * v.alpha + v.beta * v.beta).normal(),
    ensures
        length_of(v).normal(),
        length_of(v) > b32(ZERO),
        0x10_0000 * (v.alpha.units() * v.alpha.units() + v.beta.units() * v.beta.units())
            <= 0x10_0001 * (length_of(v).value() * length_of(v).value()),
{
    let p = v.alpha * v.alpha;
    let q = v.beta * v.beta;
    let sum = p + q;
    let u = pow2(149);
    let gap = spacing(sum.mag());
    let exact = v.alpha.units() * v.alpha.units() + v.beta.units() * v.beta.units();
    lemma_mul_kind(v.alpha, v.alpha);
    lemma_mul_kind(v.beta, v.beta);
    product_follows_signs(v.alpha, v.alpha);
    product_follows_signs(v.beta, v.beta);
    sum_of_non_negatives(p, q);
    lemma_square_error(v.alpha, sum.mag());
    lemma_square_error(v.beta, sum.mag());
    sum_error_is_at_most_half_own_spacing(p, q);
    lemma_relative_spacing(sum.mag());
    lemma_mag_units_order(sum.mag(), 0);
    square_root_error_is_small(sum);
    let rest = sum.value() - (p.value() + q.value());
    assert(2 * abs(rest * u) <= gap * u) by (nonlinear_arith)
        requires
            2 * abs(rest) <= gap,
    ;
    assert(rest * u == sum.value() * u - p.value() * u - q.value() * u) by (nonlinear_arith)
        requires
            rest == sum.value() - (p.value() + q.value()),
    ;
    assert(0x80_0000 * (gap * u) <= sum.value() * u) by (nonlinear_arith)
        requires
            0x80_0000 * gap <= sum.value(),
    ;
    assert(exact >= 0) by (nonlinear_arith)
        requires
            exact == v.alpha.units() * v.alpha.units() + v.beta.units() * v.beta.units(),
    ;
}

/// Whether limiting a vector keeps its full precision throughout.
pub open spec fn limits_precisely(v: AlphaBeta, min_mag: Binary32, max_mag: Binary32) -> bool {
    &&& v.alpha.finite() && v.beta.finite()
    &&& (v.alpha * v.alpha + v.beta * v.beta).normal()
    &&& limited_length(length_of(v), min_mag, max_mag).normal()
    &&& length_scale(v, min_mag, max_mag).normal()
    &&& limited_vector(v, min_mag, max_mag).alpha.finite()
    &&& limited_vector(v, min_mag, max_mag).beta.finite()
}

/// A limited vector is no longer than the largest length, up to one part in `2^17` of the
/// squares.
pub proof fn limited_vector_is_not_too_long(v: AlphaBeta, min_mag: Binary32, max_mag: Binary32)
    requires
        limits_precisely(v, min_mag, max_mag),
        max_mag > b32(ZERO),
        max_mag.finite(),
        min_mag <= max_mag,
    ensures
        ({
            let r = limited_vector(v, min_mag, max_mag);
            0x2_0000 * (r.alpha.units() * r.alpha.units() + r.beta.units() * r.beta.units())
                <= 0x2_0001 * (max_mag.units() * max_mag.units())
        }),
{
    let length = length_of(v);
    let target = limited_length(length, min_mag, max_mag);
    let scale = length_scale(v, min_mag, max_mag);
    let r = limited_vector(v, min_mag, max_mag);
    let u = pow2(149);
    lemma_length_square(v);
    lemma_mag_units_order(0, 0);
    lemma_pow2_pos(149);
    order_is_value_order(b32(ZERO), length);
    assert(target > b32(ZERO));
    order_is_value_order(b32(ZERO), target);
    quotient_follows_signs(target, length);
    lemma_div_kind(target, length);
    lemma_mag_units_order(target.mag(), max_mag.mag());
    quotient_error_is_at_most_half_own_spacing(target, length);
    lemma_relative_spacing(scale.mag());
    lemma_relative_spacing(target.mag());
    let z = scale.value() * length.value();
    let k = target.value() * u;
    assert(0x80_0000 * (spacing(scale.mag()) * length.value()) <= z) by (nonlinear_arith)
        requires
            0x80_0000 * spacing(scale.mag()) <= scale.value(),
            length.value() >= 0,
            z == scale.value() * length.value(),
    ;
    let x = v.alpha.units() * scale.value();
    let y = v.beta.units() * scale.value();
    lemma_scaled_squares(
        v.alpha.units() as int,
        v.beta.units() as int,
        length.value(),
        scale.value(),
    );
    assert(0 <= x && 0 <= y && 0 <= z) by (nonlinear_arith)
        requires
            x == v.alpha.units() * scale.value(),
            y == v.beta.units() * scale.value(),
            z == scale.value() * length.value(),
            scale.value() >= 0,
            length.value() >= 0,
    ;
    lemma_coordinate_bounds(x, y, z);
    lemma_scaled_coordinate(v.alpha, scale);
    lemma_scaled_coordinate(v.beta, scale);
    let a = r.alpha.units() * u;
    let b = r.beta.units() * u;
    assert(0x80_0000 * u <= k) by (nonlinear_arith)
        requires
            k == target.value() * u,
            target.value() >= 0x80_0000,
    ;
    let d = (2 * z) / 0x80_0000 + u + 1;
    lemma_limited_square(x, y, z, k, d, a as int, b as int);
    let m = max_mag.units();
    lemma_squares_unscaled(
        r.alpha.units() as int,
        r.beta.units() as int,
        target.value(),
        m as int,
        u,
    );
}

/// Scaling the coordinates of a vector and its length.
proof fn lemma_scaled_squares(a: int, b: int, length: int, scale: int)
    requires
        0x10_0000 * (a * a + b * b) <= 0x10_0001 * (length * length),
    ensures
        0x10_0000 * ((a * scale) * (a * scale) + (b * scale) * (b * scale)) <= 0x10_0001 * ((scale
            * length) * (scale * length)),
{
    let q = scale * scale;
    let n = a * a + b * b;
    let l = length * length;
    assert(q >= 0) by (nonlinear_arith)
        requires
            q == scale * scale,
    ;
    assert((a * scale) * (a * scale) + (b * scale) * (b * scale) == n * q) by (nonlinear_arith)
        requires
            n == a * a + b * b,
            q == scale * scale,
    ;
    assert((scale * length) * (scale * length) == l * q) by (nonlinear_arith)
        requires
            l == length * length,
            q == scale * scale,
    ;
    assert(0x10_0000 * (n * q) <= 0x10_0001 * (l * q)) by (nonlinear_arith)
        requires
            0x10_0000 * n <= 0x10_0001 * l,
            q >= 0,
    ;
}

/// A coordinate is at most twice the length.
proof fn lemma_coordinate_bounds(x: int, y: int, z: int)
    requires
        0 <= x,
        0 <= y,
        0 <= z,
        0x10_0000 * (x * x + y * y) <= 0x10_0001 * (z * z),
    ensures
        x <= 2 * z,
        y <= 2 * z,
{
    assert(x * x >= 0 && y * y >= 0 && z * z >= 0) by (nonlinear_arith);
    assert(x <= 2 * z) by (nonlinear_arith)
        requires
            x * x <= 2 * (z * z),
            0 <= x,
            0 <= z,
    ;
    assert(y <= 2 * z) by (nonlinear_arith)
        requires
            y * y <= 2 * (z * z),
            0 <= y,
            0 <= z,
    ;
}

/// A bound of squares without their common scale.
proof fn lemma_squares_unscaled(a: int, b: int, k: int, m: int, u: nat)
    requires
        0x2_0000 * ((a * u) * (a * u) + (b * u) * (b * u)) <= 0x2_0001 * ((k * u) * (k * u)),
        0 <= k <= m,
        u > 0,
    ensures
        0x2_0000 * (a * a + b * b) <= 0x2_0001 * (m * m),
{
    let q = u * u;
    let n = a * a + b * b;
    assert(q > 0) by (nonlinear_arith)
        requires
            q == u * u,
            u > 0,
    ;
    assert((a * u) * (a * u) + (b * u) * (b * u) == n * q) by (nonlinear_arith)
        requires
            n == a * a + b * b,
            q == u * u,
    ;
    assert((k * u) * (k * u) == (k * k) * q) by (nonlinear_arith)
        requires
            q == u * u,
    ;
    assert(0x2_0000 * n <= 0x2_0001 * (k * k)) by (nonlinear_arith)
        requires
            0x2_0000 * (n * q) <= 0x2_0001 * ((k * k) * q),
            q > 0,
    ;
    assert(k * k <= m * m) by (nonlinear_arith)
        requires
            0 <= k <= m,
    ;
}

/// Each axis of the filtered flux lies between its old value and the limited flux, up to the
/// roundings of one difference and one sum.
pub proof fn filtered_flux_lies_between(
    state: FluxImprovedState,
    param: FluxImprovedParam,
    input: FluxImprovedInput,
)
    requires
        !(param.ts <= b32(ZERO)),
        !param.output_alpha.nan(),
        state.flux.alpha.finite(),
        state.flux.beta.finite(),
        ({
            let next = state.vector_updated(param, input);
            &&& next.raw_flux.alpha.finite() && next.raw_flux.beta.finite()
            &&& next.flux.alpha.finite() && next.flux.beta.finite()
            &&& (next.raw_flux.alpha - state.flux.alpha).finite()
            &&& (next.raw_flux.beta - state.flux.beta).finite()
        }),
    ensures
        ({
            let next = state.vector_updated(param, input);
            &&& between_up_to_rounding(state.flux.alpha, next.flux.alpha, next.raw_flux.alpha)
            &&& between_up_to_rounding(state.flux.beta, next.flux.beta, next.raw_flux.beta)
        }),
{
    let next = state.vector_updated(param, input);
    smoothing_stays_between(state.flux.alpha, param.output_alpha, next.raw_flux.alpha);
    smoothing_stays_between(state.flux.beta, param.output_alpha, next.raw_flux.beta);
}

/// Whether `x` lies on the way from `start` to `end`, not past it by more than half the
/// spacings at their difference and at `x`.
pub open spec fn between_up_to_rounding(start: Binary32, x: Binary32, end: Binary32) -> bool {
    &&& end >= start ==> x >= start
    &&& end <= start ==> x <= start
    &&& 2 * overshoot(start, end, x) <= spacing((end - start).mag()) + spacing(x.mag())
}

} // verus!
