//! Observers that inject a voltage and read the rotor position from the current response.
use vstd::prelude::*;
use crate::arithmetic::fraction_lies_between_zero_and_whole;
use crate::arithmetic::lemma_mul_kind;
use crate::arithmetic::lemma_power_mag;
use crate::arithmetic::multiplication_is_commutative;
use crate::arithmetic::negation_of_factor_negates_product;
use crate::arithmetic::product_follows_signs;
use crate::arithmetic::product_of_bounded_numbers;
use crate::binary32::b32;
use crate::binary32::Binary32;
use crate::binary32::HALF;
use crate::binary32::MINUS_ONE;
use crate::binary32::ONE;
use crate::binary32::ZERO;
use crate::equations::is_product_of_three;
use crate::equations::lemma_is_product_of_three;
use crate::math::angle_or_nan;
use crate::math::arctangent;
use crate::math::clamp;
use crate::math::clamped;
use crate::math::deviation;
use crate::math::is_wrappable;
use crate::math::PI;
use crate::math::total;
use crate::math::TWO_PI;
use crate::math::wrap_angle_0_to_2pi;
use crate::math::wrap_angle_minus_pi_to_pi;
use crate::math::wrappable;
use crate::math::wrapped_angle;
use crate::math::wrapped_angle_is_angle_or_nan;
use crate::math::wrapped_angle_lies_in_first_revolution;
use crate::math::wrapping_keeps_first_revolution;
use crate::nearest::lemma_mag_units_at;
use crate::nearest::lemma_mag_units_order;
use crate::nearest::rounding_is_exact;
use crate::nearest::rounding_is_monotone;
use crate::observer::bemf::BemfInput;
use crate::observer::bemf::BemfParam;
use crate::observer::bemf::BemfState;
use crate::observer::bemf::smoothed;
use crate::observer::flux::speed_weight;
use crate::observer::flux::speed_weight_at_the_ends;
use crate::observer::flux::weight_at;
use crate::observer::smo::angles_can_be_joined;
use crate::observer::smo::can_join;
use crate::observer::smo::is_joinable;
use crate::observer::smo::joint_angle;
use crate::observer::smo::joint_angle_with_full_weight;
use crate::observer::smo::joint_angle_without_weight;
use crate::rounding::mag_units;
use crate::transform::AlphaBeta;
use vstd::arithmetic::power2::lemma_pow2_pos;
use vstd::arithmetic::power2::lemma_pow2_unfold;
use vstd::arithmetic::power2::pow2;

verus! {

/// A carrier angle after one period, before wrapping.
pub open spec fn turned_carrier(angle: Binary32, freq_hz: Binary32, ts: Binary32) -> Binary32 {
    angle + b32(TWO_PI) * freq_hz * ts
}

/// Carrier, axis and filter of the injection on one axis.
#[derive(Clone, Copy, Debug, Default, PartialEq)]
pub struct HfInjectionParam {
    pub amplitude: Binary32,
    /// Carrier frequency.
    pub freq_hz: Binary32,
    /// Sample period in seconds.
    pub ts: Binary32,
    /// Axis of the injection.
    pub axis_angle_rad: Binary32,
    /// Share of the newest response in the demodulated one, from 0 to 1.
    pub demod_alpha: Binary32,
}

/// Injection of a carrier on one axis.
#[derive(Clone, Copy, Debug, PartialEq)]
pub struct HfInjectionState {
    pub carrier_angle_rad: Binary32,
    /// Sine of the carrier angle.
    pub carrier: Binary32,
    /// Voltage to inject.
    pub voltage: AlphaBeta,
    /// Filtered product of response and carrier.
    pub demod_response: Binary32,
}

impl HfInjectionState {
    /// The state before the first step.
    pub open spec fn initial() -> HfInjectionState {
        HfInjectionState {
            carrier_angle_rad: b32(ZERO),
            carrier: b32(ZERO),
            voltage: AlphaBeta::initial(),
            demod_response: b32(ZERO),
        }
    }

    /// Returns to the state before the first step.
    pub fn reset(&mut self)
        ensures
            *final(self) == HfInjectionState::initial(),
    {
        *self = HfInjectionState::default();
    }
}

impl Default for HfInjectionState {
    fn default() -> (r: HfInjectionState)
        ensures
            r == HfInjectionState::initial(),
    {
        HfInjectionState {
            carrier_angle_rad: b32(ZERO),
            carrier: b32(ZERO),
            voltage: AlphaBeta::default(),
            demod_response: b32(ZERO),
        }
    }
}

impl HfInjectionState {
    /// The carrier angle of the next step, before wrapping.
    pub open spec fn turned(self, param: HfInjectionParam) -> Binary32 {
        turned_carrier(self.carrier_angle_rad, param.freq_hz, param.ts)
    }

    /// Whether the next carrier angle can be wrapped, if there is a step.
    pub open spec fn accepts(self, param: HfInjectionParam) -> bool {
        !(param.ts <= b32(ZERO)) ==> wrappable(self.turned(param))
    }

    /// The state after a step for given sines and cosines; a period that is zero or
    /// negative changes nothing.
    pub open spec fn updated(
        self,
        param: HfInjectionParam,
        current_response: Binary32,
        carrier: Binary32,
        axis_sin: Binary32,
        axis_cos: Binary32,
    ) -> HfInjectionState {
        if param.ts <= b32(ZERO) {
            self
        } else {
            HfInjectionState {
                carrier_angle_rad: wrapped_angle(self.turned(param)),
                carrier,
                voltage: AlphaBeta {
                    alpha: param.amplitude * carrier * axis_cos,
                    beta: param.amplitude * carrier * axis_sin,
                },
                demod_response: smoothed(
                    self.demod_response,
                    param.demod_alpha,
                    current_response * carrier,
                ),
            }
        }
    }

    /// What is returned after a step: the voltage, or zero where the period is not valid.
    pub open spec fn reported(self, param: HfInjectionParam) -> AlphaBeta {
        if param.ts <= b32(ZERO) {
            AlphaBeta::initial()
        } else {
            self.voltage
        }
    }

    /// Whether a step can be made.
    pub fn can_step(&self, param: &HfInjectionParam) -> (r: bool)
        ensures
            r == self.accepts(*param),
    {
        param.ts <= b32(ZERO) || is_wrappable(
            self.carrier_angle_rad + b32(TWO_PI) * param.freq_hz * param.ts,
        )
    }

    /// The carrier angle of the next step.
    pub fn next_carrier_angle(&self, param: &HfInjectionParam) -> (r: Binary32)
        requires
            wrappable(self.turned(*param)),
        ensures
            r == wrapped_angle(self.turned(*param)),
    {
        wrap_angle_0_to_2pi(self.carrier_angle_rad + b32(TWO_PI) * param.freq_hz * param.ts)
    }

    /// Makes one step, given the sine of the next carrier angle and the sine and cosine of
    /// the axis angle.
    pub fn update_modulated(
        &mut self,
        param: &HfInjectionParam,
        current_response: Binary32,
        carrier: Binary32,
        axis_sin: Binary32,
        axis_cos: Binary32,
    ) -> (r: AlphaBeta)
        requires
            old(self).accepts(*param),
        ensures
            *final(self) == old(self).updated(
                *param,
                current_response,
                carrier,
                axis_sin,
                axis_cos,
            ),
            r == final(self).reported(*param),
    {
        if param.ts <= b32(ZERO) {
            return AlphaBeta::default();
        }
        self.carrier_angle_rad = self.next_carrier_angle(param);
        self.carrier = carrier;
        self.voltage.alpha = param.amplitude * self.carrier * axis_cos;
        self.voltage.beta = param.amplitude * self.carrier * axis_sin;
        let response: Binary32 = current_response * self.carrier;
        let alpha: Binary32 = clamp(param.demod_alpha, b32(ZERO), b32(ONE));
        self.demod_response = self.demod_response + alpha * (response - self.demod_response);
        self.voltage
    }

    /// Makes one step and returns the voltage to inject; zero where the period is not
    /// valid.
    pub fn update<S: Fn(Binary32) -> Binary32, C: Fn(Binary32) -> Binary32>(
        &mut self,
        param: &HfInjectionParam,
        current_response: Binary32,
        sin: &S,
        cos: &C,
    ) -> (r: AlphaBeta)
        requires
            old(self).accepts(*param),
            total(*sin),
            total(*cos),
        ensures
            param.ts <= b32(ZERO) ==> *final(self) == *old(self),
            !(param.ts <= b32(ZERO)) ==> exists|
                carrier: Binary32,
                axis_sin: Binary32,
                axis_cos: Binary32,
            |
                sin.ensures((wrapped_angle(old(self).turned(*param)),), carrier) && sin.ensures(
                    (param.axis_angle_rad,),
                    axis_sin,
                ) && cos.ensures((param.axis_angle_rad,), axis_cos) && *final(self) == old(
                    self,
                ).updated(*param, current_response, carrier, axis_sin, axis_cos),
            !(param.ts <= b32(ZERO)) ==> exists|axis_sin: Binary32, axis_cos: Binary32|
                sin.ensures((param.axis_angle_rad,), axis_sin) && cos.ensures(
                    (param.axis_angle_rad,),
                    axis_cos,
                ) && points_along(
                    final(self).voltage,
                    param.amplitude,
                    final(self).carrier,
                    axis_sin,
                    axis_cos,
                ),
            r == final(self).reported(*param),
    {
        if param.ts <= b32(ZERO) {
            return AlphaBeta::default();
        }
        let angle: Binary32 = self.next_carrier_angle(param);
        let carrier: Binary32 = sin(angle);
        let axis_cos: Binary32 = cos(param.axis_angle_rad);
        let axis_sin: Binary32 = sin(param.axis_angle_rad);
        proof {
            lemma_is_product_of_three(param.amplitude, carrier, axis_cos);
            lemma_is_product_of_three(param.amplitude, carrier, axis_sin);
        }
        let voltage: AlphaBeta = self.update_modulated(
            param,
            current_response,
            carrier,
            axis_sin,
            axis_cos,
        );
        assert(points_along(self.voltage, param.amplitude, self.carrier, axis_sin, axis_cos));
        voltage
    }
}

/// Whether a voltage is `amplitude * factor` along the axis with the given sine and cosine,
/// rounded.
pub open spec fn points_along(
    voltage: AlphaBeta,
    amplitude: Binary32,
    factor: Binary32,
    sin: Binary32,
    cos: Binary32,
) -> bool {
    &&& voltage.alpha.finite() ==> is_product_of_three(voltage.alpha, amplitude, factor, cos)
    &&& voltage.beta.finite() ==> is_product_of_three(voltage.beta, amplitude, factor, sin)
}

/// Carrier and filter of the rotating injection.
#[derive(Clone, Copy, Debug, Default, PartialEq)]
pub struct RotatingHfParam {
    pub amplitude: Binary32,
    /// Carrier frequency.
    pub freq_hz: Binary32,
    /// Sample period in seconds.
    pub ts: Binary32,
    /// Share of the newest response in the demodulated one, from 0 to 1.
    pub demod_alpha: Binary32,
}

/// Injection of a rotating voltage.
#[derive(Clone, Copy, Debug, PartialEq)]
pub struct RotatingHfState {
    pub carrier_angle_rad: Binary32,
    /// Voltage to inject.
    pub voltage: AlphaBeta,
    /// Filtered products of response and carrier.
    pub demod: AlphaBeta,
    /// Rotor angle, known up to half a revolution.
    pub theta_est_rad: Binary32,
}

impl RotatingHfState {
    /// The state before the first step.
    pub open spec fn initial() -> RotatingHfState {
        RotatingHfState {
            carrier_angle_rad: b32(ZERO),
            voltage: AlphaBeta::initial(),
            demod: AlphaBeta::initial(),
            theta_est_rad: b32(ZERO),
        }
    }

    /// Returns to the state before the first step.
    pub fn reset(&mut self)
        ensures
            *final(self) == RotatingHfState::initial(),
    {
        *self = RotatingHfState::default();
    }
}

impl Default for RotatingHfState {
    fn default() -> (r: RotatingHfState)
        ensures
            r == RotatingHfState::initial(),
    {
        RotatingHfState {
            carrier_angle_rad: b32(ZERO),
            voltage: AlphaBeta::default(),
            demod: AlphaBeta::default(),
            theta_est_rad: b32(ZERO),
        }
    }
}

impl RotatingHfState {
    /// The carrier angle of the next step, before wrapping.
    pub open spec fn turned(self, param: RotatingHfParam) -> Binary32 {
        turned_carrier(self.carrier_angle_rad, param.freq_hz, param.ts)
    }

    /// Whether the next carrier angle can be wrapped, if there is a step.
    pub open spec fn accepts(self, param: RotatingHfParam) -> bool {
        !(param.ts <= b32(ZERO)) ==> wrappable(self.turned(param))
    }

    /// The state after a step but for the rotor angle, for the sine and cosine of the next
    /// carrier angle; a period that is zero or negative changes nothing.
    pub open spec fn vector_updated(
        self,
        param: RotatingHfParam,
        current_response: AlphaBeta,
        sin: Binary32,
        cos: Binary32,
    ) -> RotatingHfState {
        if param.ts <= b32(ZERO) {
            self
        } else {
            RotatingHfState {
                carrier_angle_rad: wrapped_angle(self.turned(param)),
                voltage: AlphaBeta {
                    alpha: param.amplitude * cos,
                    beta: param.amplitude * sin,
                },
                demod: AlphaBeta {
                    alpha: smoothed(
                        self.demod.alpha,
                        param.demod_alpha,
                        current_response.alpha * cos,
                    ),
                    beta: smoothed(
                        self.demod.beta,
                        param.demod_alpha,
                        current_response.beta * sin,
                    ),
                },
                theta_est_rad: self.theta_est_rad,
            }
        }
    }

    /// Half of the angle that an arctangent gave: the response turns twice per revolution.
    pub open spec fn halved(angle: Binary32) -> Binary32 {
        wrapped_angle(b32(HALF) * wrapped_angle(angle))
    }

    /// The state with the angle that an arctangent gave, halved.
    pub open spec fn with_angle(self, angle: Binary32) -> RotatingHfState {
        RotatingHfState { theta_est_rad: RotatingHfState::halved(angle), ..self }
    }

    /// What is returned after a step: the voltage, or zero where the period is not valid.
    pub open spec fn reported(self, param: RotatingHfParam) -> AlphaBeta {
        if param.ts <= b32(ZERO) {
            AlphaBeta::initial()
        } else {
            self.voltage
        }
    }

    /// Whether a step can be made.
    pub fn can_step(&self, param: &RotatingHfParam) -> (r: bool)
        ensures
            r == self.accepts(*param),
    {
        param.ts <= b32(ZERO) || is_wrappable(
            self.carrier_angle_rad + b32(TWO_PI) * param.freq_hz * param.ts,
        )
    }

    /// The carrier angle of the next step.
    pub fn next_carrier_angle(&self, param: &RotatingHfParam) -> (r: Binary32)
        requires
            wrappable(self.turned(*param)),
        ensures
            r == wrapped_angle(self.turned(*param)),
    {
        wrap_angle_0_to_2pi(self.carrier_angle_rad + b32(TWO_PI) * param.freq_hz * param.ts)
    }

    /// Makes one step without the rotor angle, given the sine and cosine of the next
    /// carrier angle.
    pub fn update_vector(
        &mut self,
        param: &RotatingHfParam,
        current_response: AlphaBeta,
        sin: Binary32,
        cos: Binary32,
    ) -> (r: AlphaBeta)
        requires
            old(self).accepts(*param),
        ensures
            *final(self) == old(self).vector_updated(*param, current_response, sin, cos),
            r == final(self).reported(*param),
    {
        if param.ts <= b32(ZERO) {
            return AlphaBeta::default();
        }
        self.carrier_angle_rad = self.next_carrier_angle(param);
        self.voltage.alpha = param.amplitude * cos;
        self.voltage.beta = param.amplitude * sin;
        let alpha: Binary32 = clamp(param.demod_alpha, b32(ZERO), b32(ONE));
        self.demod.alpha = self.demod.alpha + alpha * (current_response.alpha * cos
            - self.demod.alpha);
        self.demod.beta = self.demod.beta + alpha * (current_response.beta * sin - self.demod.beta);
        self.voltage
    }

    /// Takes the angle that an arctangent gave.
    pub fn update_angle(&mut self, angle: Binary32)
        requires
            wrappable(angle),
        ensures
            *final(self) == old(self).with_angle(angle),
    {
        proof {
            lemma_halved(angle);
        }
        self.theta_est_rad = wrap_angle_0_to_2pi(b32(HALF) * wrap_angle_0_to_2pi(angle));
    }

    /// What a step with given functions may lead to.
    pub open spec fn steps_to<
        S: Fn(Binary32) -> Binary32,
        C: Fn(Binary32) -> Binary32,
        A: Fn(Binary32, Binary32) -> Binary32,
    >(
        self,
        param: RotatingHfParam,
        current_response: AlphaBeta,
        sin: S,
        cos: C,
        atan2: A,
        next: RotatingHfState,
    ) -> bool {
        if param.ts <= b32(ZERO) {
            next == self
        } else {
            exists|s: Binary32, c: Binary32, a: Binary32|
                {
                    let vector = self.vector_updated(param, current_response, s, c);
                    &&& #[trigger] sin.ensures((wrapped_angle(self.turned(param)),), s)
                    &&& #[trigger] cos.ensures((wrapped_angle(self.turned(param)),), c)
                    &&& #[trigger] atan2.ensures((next.demod.beta, next.demod.alpha), a)
                    &&& wrappable(a)
                    &&& next == vector.with_angle(a)
                }
        }
    }

    /// Makes one step and returns the voltage to inject; zero where the period is not
    /// valid.
    pub fn update<
        S: Fn(Binary32) -> Binary32,
        C: Fn(Binary32) -> Binary32,
        A: Fn(Binary32, Binary32) -> Binary32,
    >(
        &mut self,
        param: &RotatingHfParam,
        current_response: AlphaBeta,
        sin: &S,
        cos: &C,
        atan2: &A,
    ) -> (r: AlphaBeta)
        requires
            old(self).accepts(*param),
            total(*sin),
            total(*cos),
            arctangent(*atan2),
        ensures
            old(self).steps_to(*param, current_response, *sin, *cos, *atan2, *final(self)),
            r == final(self).reported(*param),
    {
        if param.ts <= b32(ZERO) {
            return AlphaBeta::default();
        }
        let angle: Binary32 = self.next_carrier_angle(param);
        let c: Binary32 = cos(angle);
        let s: Binary32 = sin(angle);
        self.update_vector(param, current_response, s, c);
        let ghost vector = *self;
        let a: Binary32 = atan2(self.demod.beta, self.demod.alpha);
        self.update_angle(a);
        assert(*self == vector.with_angle(a));
        assert(atan2.ensures((self.demod.beta, self.demod.alpha), a));
        self.voltage
    }
}

/// Half of a wrapped angle can be wrapped, and lies in the first revolution.
proof fn lemma_halved(angle: Binary32)
    requires
        wrappable(angle),
    ensures
        wrappable(b32(HALF) * wrapped_angle(angle)),
        angle_or_nan(RotatingHfState::halved(angle)),
{
    let w = wrapped_angle(angle);
    let half = b32(HALF) * w;
    lemma_mul_kind(b32(HALF), w);
    if angle.finite() {
        wrapped_angle_lies_in_first_revolution(angle);
        product_of_bounded_numbers(b32(HALF), w, -1, 3);
        wrapped_angle_lies_in_first_revolution(half);
    }
}

/// Amplitude and axis of the test pulses.
#[derive(Clone, Copy, Debug, Default, PartialEq)]
pub struct PulseInjectionParam {
    pub amplitude: Binary32,
    pub axis_angle_rad: Binary32,
}

/// Test pulses of alternating polarity.
#[derive(Clone, Copy, Debug, PartialEq)]
pub struct PulseInjectionState {
    /// Polarity of the last pulse.
    pub polarity: i32,
    /// Voltage to inject.
    pub voltage: AlphaBeta,
    /// Response to the last positive pulse.
    pub positive_response: Binary32,
    /// Response to the last negative pulse.
    pub negative_response: Binary32,
    /// Positive response less negative response.
    pub saliency: Binary32,
}

impl PulseInjectionState {
    /// The state before the first step.
    pub open spec fn initial() -> PulseInjectionState {
        PulseInjectionState {
            polarity: 1,
            voltage: AlphaBeta::initial(),
            positive_response: b32(ZERO),
            negative_response: b32(ZERO),
            saliency: b32(ZERO),
        }
    }

    /// Returns to the state before the first step.
    pub fn reset(&mut self)
        ensures
            *final(self) == PulseInjectionState::initial(),
    {
        *self = PulseInjectionState::default();
    }
}

impl Default for PulseInjectionState {
    fn default() -> (r: PulseInjectionState)
        ensures
            r == PulseInjectionState::initial(),
    {
        PulseInjectionState {
            polarity: 1,
            voltage: AlphaBeta::default(),
            positive_response: b32(ZERO),
            negative_response: b32(ZERO),
            saliency: b32(ZERO),
        }
    }
}

impl PulseInjectionState {
    /// The polarity as a factor.
    pub open spec fn factor(polarity: int) -> Binary32 {
        if polarity >= 0 {
            b32(ONE)
        } else {
            b32(MINUS_ONE)
        }
    }

    /// The state after the response to the last pulse, with the next pulse of the other
    /// polarity, for the sine and cosine of the axis angle.
    pub open spec fn updated(
        self,
        param: PulseInjectionParam,
        current_response: Binary32,
        sin: Binary32,
        cos: Binary32,
    ) -> PulseInjectionState {
        let positive_response = if self.polarity >= 0 {
            current_response
        } else {
            self.positive_response
        };
        let negative_response = if self.polarity >= 0 {
            self.negative_response
        } else {
            current_response
        };
        let polarity: int = if self.polarity >= 0 {
            -1
        } else {
            1
        };
        let factor = PulseInjectionState::factor(polarity);
        PulseInjectionState {
            polarity: polarity as i32,
            voltage: AlphaBeta {
                alpha: param.amplitude * factor * cos,
                beta: param.amplitude * factor * sin,
            },
            positive_response,
            negative_response,
            saliency: positive_response - negative_response,
        }
    }

    /// Takes the response to the last pulse and returns the next one, given the sine and
    /// cosine of the axis angle.
    pub fn update_rotated(
        &mut self,
        param: &PulseInjectionParam,
        current_response: Binary32,
        sin: Binary32,
        cos: Binary32,
    ) -> (r: AlphaBeta)
        ensures
            *final(self) == old(self).updated(*param, current_response, sin, cos),
            r == final(self).voltage,
    {
        if self.polarity >= 0 {
            self.positive_response = current_response;
            self.polarity = -1;
        } else {
            self.negative_response = current_response;
            self.polarity = 1;
        }
        self.saliency = self.positive_response - self.negative_response;
        let polarity: Binary32 = if self.polarity >= 0 {
            b32(ONE)
        } else {
            b32(MINUS_ONE)
        };
        self.voltage.alpha = param.amplitude * polarity * cos;
        self.voltage.beta = param.amplitude * polarity * sin;
        self.voltage
    }

    /// Takes the response to the last pulse and returns the next one.
    pub fn update<S: Fn(Binary32) -> Binary32, C: Fn(Binary32) -> Binary32>(
        &mut self,
        param: &PulseInjectionParam,
        current_response: Binary32,
        sin: &S,
        cos: &C,
    ) -> (r: AlphaBeta)
        requires
            sin.requires((param.axis_angle_rad,)),
            cos.requires((param.axis_angle_rad,)),
        ensures
            exists|s: Binary32, c: Binary32|
                sin.ensures((param.axis_angle_rad,), s) && cos.ensures((param.axis_angle_rad,), c)
                    && *final(self) == old(self).updated(*param, current_response, s, c),
            exists|s: Binary32, c: Binary32|
                sin.ensures((param.axis_angle_rad,), s) && cos.ensures((param.axis_angle_rad,), c)
                    && points_along(
                    final(self).voltage,
                    param.amplitude,
                    PulseInjectionState::factor(final(self).polarity as int),
                    s,
                    c,
                ),
            r == final(self).voltage,
    {
        let c: Binary32 = cos(param.axis_angle_rad);
        let s: Binary32 = sin(param.axis_angle_rad);
        proof {
            let next = self.updated(*param, current_response, s, c);
            let factor = PulseInjectionState::factor(next.polarity as int);
            lemma_is_product_of_three(param.amplitude, factor, c);
            lemma_is_product_of_three(param.amplitude, factor, s);
        }
        let voltage: AlphaBeta = self.update_rotated(param, current_response, s, c);
        assert(points_along(
            self.voltage,
            param.amplitude,
            PulseInjectionState::factor(self.polarity as int),
            s,
            c,
        ));
        voltage
    }
}

/// Parameters of both observers, and the speeds between which they are blended.
#[derive(Clone, Copy, Debug, Default, PartialEq)]
pub struct HfBemfParam {
    pub hf: RotatingHfParam,
    pub bemf: BemfParam,
    pub speed_low_abs: Binary32,
    pub speed_high_abs: Binary32,
}

/// Inputs of both observers, and the size of the speed.
#[derive(Clone, Copy, Debug, Default, PartialEq)]
pub struct HfBemfInput {
    pub bemf: BemfInput,
    pub hf_current_response: AlphaBeta,
    pub speed_abs: Binary32,
}

/// Rotating injection for low speed and induced voltage for high speed, blended.
#[derive(Clone, Copy, Debug, PartialEq)]
pub struct HfBemfState {
    pub hf: RotatingHfState,
    pub bemf: BemfState,
    /// Last voltage to inject.
    pub hf_voltage: AlphaBeta,
    /// Last induced voltage returned.
    pub bemf_emf: AlphaBeta,
    /// Angle of the injection.
    pub theta_hf_rad: Binary32,
    /// Angle of the induced voltage.
    pub theta_bemf_rad: Binary32,
    /// Joint angle in the first revolution.
    pub theta_rad: Binary32,
    /// Weight of the induced voltage, from 0 to 1.
    pub bemf_weight: Binary32,
}

impl HfBemfState {
    /// The state before the first step.
    pub open spec fn initial() -> HfBemfState {
        HfBemfState {
            hf: RotatingHfState::initial(),
            bemf: BemfState::initial(),
            hf_voltage: AlphaBeta::initial(),
            bemf_emf: AlphaBeta::initial(),
            theta_hf_rad: b32(ZERO),
            theta_bemf_rad: b32(ZERO),
            theta_rad: b32(ZERO),
            bemf_weight: b32(ZERO),
        }
    }

    /// Returns to the state before the first step.
    pub fn reset(&mut self)
        ensures
            *final(self) == HfBemfState::initial(),
    {
        *self = HfBemfState::default();
    }
}

impl Default for HfBemfState {
    fn default() -> (r: HfBemfState)
        ensures
            r == HfBemfState::initial(),
    {
        HfBemfState {
            hf: RotatingHfState::default(),
            bemf: BemfState::default(),
            hf_voltage: AlphaBeta::default(),
            bemf_emf: AlphaBeta::default(),
            theta_hf_rad: b32(ZERO),
            theta_bemf_rad: b32(ZERO),
            theta_rad: b32(ZERO),
            bemf_weight: b32(ZERO),
        }
    }
}

impl HfBemfState {
    /// Whether the angles of both observers can be joined at a speed.
    pub open spec fn joins(
        param: HfBemfParam,
        speed_abs: Binary32,
        hf: RotatingHfState,
        bemf: BemfState,
    ) -> bool {
        can_join(
            hf.theta_est_rad,
            bemf.theta_emf_rad,
            weight_at(speed_abs, param.speed_low_abs, param.speed_high_abs),
        )
    }

    /// The state with new inner states, whose results are copied out and joined.
    pub open spec fn joined(
        param: HfBemfParam,
        speed_abs: Binary32,
        hf: RotatingHfState,
        bemf: BemfState,
    ) -> HfBemfState {
        let weight = weight_at(speed_abs, param.speed_low_abs, param.speed_high_abs);
        HfBemfState {
            hf,
            bemf,
            hf_voltage: hf.reported(param.hf),
            bemf_emf: if param.bemf.ts <= b32(ZERO) {
                AlphaBeta::initial()
            } else {
                bemf.emf
            },
            theta_hf_rad: hf.theta_est_rad,
            theta_bemf_rad: bemf.theta_emf_rad,
            theta_rad: joint_angle(hf.theta_est_rad, bemf.theta_emf_rad, weight),
            bemf_weight: weight,
        }
    }

    /// Tests whether the angles of both observers can be joined at a speed.
    pub fn can_join_at(&self, param: &HfBemfParam, speed_abs: Binary32) -> (r: bool)
        ensures
            r == HfBemfState::joins(*param, speed_abs, self.hf, self.bemf),
    {
        is_joinable(
            self.hf.theta_est_rad,
            self.bemf.theta_emf_rad,
            speed_weight(speed_abs, param.speed_low_abs, param.speed_high_abs),
        )
    }

    /// Copies out and joins the results of the inner observers, after each made its step.
    pub fn update_joint_angle(
        &mut self,
        param: &HfBemfParam,
        speed_abs: Binary32,
        hf_voltage: AlphaBeta,
        bemf_emf: AlphaBeta,
    ) -> (r: Binary32)
        requires
            HfBemfState::joins(*param, speed_abs, old(self).hf, old(self).bemf),
        ensures
            *final(self) == (HfBemfState {
                hf_voltage,
                bemf_emf,
                ..HfBemfState::joined(*param, speed_abs, old(self).hf, old(self).bemf)
            }),
            r == final(self).theta_rad,
    {
        self.hf_voltage = hf_voltage;
        self.bemf_emf = bemf_emf;
        self.theta_hf_rad = self.hf.theta_est_rad;
        self.theta_bemf_rad = self.bemf.theta_emf_rad;
        self.bemf_weight = speed_weight(speed_abs, param.speed_low_abs, param.speed_high_abs);
        proof {
            assert(clamped(self.bemf_weight, b32(ZERO), b32(ONE)) == self.bemf_weight);
        }
        let delta: Binary32 = wrap_angle_minus_pi_to_pi(self.theta_bemf_rad - self.theta_hf_rad);
        self.theta_rad = wrap_angle_0_to_2pi(self.theta_hf_rad + self.bemf_weight * delta);
        self.theta_rad
    }

    /// Makes one step of both observers and returns the joint angle.
    pub fn update<
        S: Fn(Binary32) -> Binary32,
        C: Fn(Binary32) -> Binary32,
        A: Fn(Binary32, Binary32) -> Binary32,
    >(
        &mut self,
        param: &HfBemfParam,
        input: &HfBemfInput,
        sin: &S,
        cos: &C,
        atan2: &A,
    ) -> (r: Binary32)
        requires
            old(self).hf.accepts(param.hf),
            total(*sin),
            total(*cos),
            arctangent(*atan2),
            forall|hf: RotatingHfState, bemf: BemfState| #[trigger]
                old(self).hf.steps_to(
                    param.hf,
                    input.hf_current_response,
                    *sin,
                    *cos,
                    *atan2,
                    hf,
                ) && #[trigger] old(self).bemf.steps_to(param.bemf, input.bemf, *atan2, bemf)
                    ==> HfBemfState::joins(*param, input.speed_abs, hf, bemf),
        ensures
            old(self).hf.steps_to(
                param.hf,
                input.hf_current_response,
                *sin,
                *cos,
                *atan2,
                final(self).hf,
            ),
            old(self).bemf.steps_to(param.bemf, input.bemf, *atan2, final(self).bemf),
            *final(self) == HfBemfState::joined(
                *param,
                input.speed_abs,
                final(self).hf,
                final(self).bemf,
            ),
            r == final(self).theta_rad,
    {
        let hf_voltage: AlphaBeta = self.hf.update(
            &param.hf,
            input.hf_current_response,
            sin,
            cos,
            atan2,
        );
        let bemf_emf: AlphaBeta = self.bemf.update(&param.bemf, &input.bemf, atan2);
        self.update_joint_angle(param, input.speed_abs, hf_voltage, bemf_emf)
    }
}

/// From remembered angles in the first revolution, whatever step both observers make can be
/// joined, and leaves such angles.
pub proof fn hf_bemf_steps_can_be_joined<
    S: Fn(Binary32) -> Binary32,
    C: Fn(Binary32) -> Binary32,
    A: Fn(Binary32, Binary32) -> Binary32,
>(
    state: HfBemfState,
    param: HfBemfParam,
    input: HfBemfInput,
    sin: S,
    cos: C,
    atan2: A,
    hf: RotatingHfState,
    bemf: BemfState,
)
    requires
        arctangent(atan2),
        angle_or_nan(state.hf.theta_est_rad),
        angle_or_nan(state.bemf.theta_emf_rad),
        state.hf.steps_to(param.hf, input.hf_current_response, sin, cos, atan2, hf),
        state.bemf.steps_to(param.bemf, input.bemf, atan2, bemf),
    ensures
        HfBemfState::joins(param, input.speed_abs, hf, bemf),
        angle_or_nan(hf.theta_est_rad),
        angle_or_nan(bemf.theta_emf_rad),
{
    assert forall|a: Binary32| wrappable(a) implies angle_or_nan(#[trigger] wrapped_angle(a)) by {
        wrapped_angle_is_angle_or_nan(a);
    }
    assert forall|a: Binary32| wrappable(a) implies angle_or_nan(
        #[trigger] RotatingHfState::halved(a),
    ) by {
        lemma_halved(a);
    }
    angles_can_be_joined(
        hf.theta_est_rad,
        bemf.theta_emf_rad,
        weight_at(input.speed_abs, param.speed_low_abs, param.speed_high_abs),
    );
}

/// At low speed the joint angle is that of the injection, at high speed that of the induced
/// voltage, up to whole revolutions and one part in `2^17` of a radian.
pub proof fn hf_bemf_angle_at_the_ends(
    param: HfBemfParam,
    speed_abs: Binary32,
    hf: RotatingHfState,
    bemf: BemfState,
) -> (turns: int)
    requires
        param.speed_low_abs.finite(),
        param.speed_high_abs.finite(),
        param.speed_low_abs < param.speed_high_abs,
        (param.speed_high_abs - param.speed_low_abs).finite(),
        speed_abs.finite(),
        hf.theta_est_rad >= b32(ZERO),
        hf.theta_est_rad < b32(TWO_PI),
        bemf.theta_emf_rad >= b32(ZERO),
        bemf.theta_emf_rad < b32(TWO_PI),
    ensures
        ({
            let state = HfBemfState::joined(param, speed_abs, hf, bemf);
            &&& speed_abs <= param.speed_low_abs ==> state.bemf_weight.zero()
                && state.theta_rad.same(hf.theta_est_rad)
            &&& speed_abs >= param.speed_high_abs ==> state.bemf_weight == b32(ONE) && deviation(
                state.theta_rad,
                bemf.theta_emf_rad,
                turns,
            ) <= pow2(132)
        }),
{
    speed_weight_at_the_ends(speed_abs, param.speed_low_abs, param.speed_high_abs);
    let weight = weight_at(speed_abs, param.speed_low_abs, param.speed_high_abs);
    if speed_abs <= param.speed_low_abs {
        joint_angle_without_weight(hf.theta_est_rad, bemf.theta_emf_rad, weight);
    }
    joint_angle_with_full_weight(hf.theta_est_rad, bemf.theta_emf_rad)
}

/// Pulses alternate: every step returns a pulse of the other polarity, and the first one
/// after a reset is negative.
pub proof fn pulses_alternate(
    state: PulseInjectionState,
    param: PulseInjectionParam,
    current_response: Binary32,
    sin: Binary32,
    cos: Binary32,
)
    ensures
        PulseInjectionState::initial().updated(param, current_response, sin, cos).polarity == -1,
        state.updated(param, current_response, sin, cos).polarity == -1 || state.updated(
            param,
            current_response,
            sin,
            cos,
        ).polarity == 1,
        state.polarity == 1 || state.polarity == -1 ==> state.updated(
            param,
            current_response,
            sin,
            cos,
        ).polarity == -state.polarity,
{
}

/// After two steps both responses are new, and the saliency is their difference.
pub proof fn two_pulses_renew_both_responses(
    state: PulseInjectionState,
    param: PulseInjectionParam,
    first: Binary32,
    second: Binary32,
    sin: Binary32,
    cos: Binary32,
)
    ensures
        ({
            let end = state.updated(param, first, sin, cos).updated(param, second, sin, cos);
            &&& state.polarity >= 0 ==> end.positive_response == first && end.negative_response
                == second && end.saliency == first - second
            &&& state.polarity < 0 ==> end.negative_response == first && end.positive_response
                == second && end.saliency == second - first
        }),
{
}

/// The angle of the rotating injection lies in the first half revolution, below pi, since it
/// is known up to half revolutions only.
pub proof fn rotating_angle_lies_in_half_revolution(angle: Binary32)
    requires
        wrappable(angle),
        angle.finite(),
    ensures
        RotatingHfState::halved(angle) >= b32(ZERO),
        RotatingHfState::halved(angle) < b32(PI),
{
    let full = wrapped_angle(angle);
    let half = b32(HALF) * full;
    wrapped_angle_lies_in_first_revolution(angle);
    lemma_half_of_angle(full);
    if half < b32(TWO_PI) {
        wrapping_keeps_first_revolution(half);
    }
}

/// Half of an angle in the first revolution, and when it is less than pi.
proof fn lemma_half_of_angle(full: Binary32)
    requires
        full.within(b32(ZERO), b32(TWO_PI)),
    ensures
        (b32(HALF) * full).within(b32(ZERO), b32(PI)),
        b32(HALF) * full < b32(PI) <==> full < b32(TWO_PI),
{
    reveal(Binary32::spec_mul);
    let den = pow2(149);
    let half = b32(HALF);
    lemma_power_mag(-1);
    lemma_pow2_pos(149);
    lemma_pow2_unfold(149);
    lemma_pow2_unfold(128);
    lemma_mag_units_at(128, 0xc9_0fdb);
    lemma_mag_units_at(128, 0xc9_0fda);
    lemma_mag_units_at(127, 0xc9_0fdb);
    lemma_mag_units_at(127, 0xc9_0fda);
    rounding_is_exact(PI as nat, den);
    rounding_is_exact((PI - 1) as nat, den);
    let product = half.units() * full.units();
    product_follows_signs(half, full);
    let top: nat = if full < b32(TWO_PI) {
        (PI - 1) as nat
    } else {
        PI as nat
    };
    lemma_mag_units_order(full.mag(), TWO_PI as nat);
    lemma_mag_units_order(full.mag(), (TWO_PI - 1) as nat);
    assert(product <= mag_units(top) * den) by (nonlinear_arith)
        requires
            product == half.units() * full.units(),
            full.units() <= 2 * mag_units(top),
            den == 2 * half.units(),
    ;
    assert(product * den <= (mag_units(top) * den) * den) by (nonlinear_arith)
        requires
            product <= mag_units(top) * den,
    ;
    rounding_is_monotone(product, den, mag_units(top) * den, den);
    if full >= b32(TWO_PI) {
        assert(product == mag_units(PI as nat) * den) by (nonlinear_arith)
            requires
                product == half.units() * full.units(),
                full.units() == 2 * mag_units(PI as nat),
                den == 2 * half.units(),
        ;
    }
}

/// A number times a factor between -1 and 1 does not grow.
proof fn lemma_factor_shrinks(x: Binary32, factor: Binary32)
    requires
        x.finite(),
        factor.within(b32(MINUS_ONE), b32(ONE)),
    ensures
        (x * factor).finite(),
        (x * factor).size() <= x.size(),
{
    multiplication_is_commutative(x, factor);
    lemma_mul_kind(factor, x);
    if factor >= b32(ZERO) {
        fraction_lies_between_zero_and_whole(factor, x);
    } else {
        fraction_lies_between_zero_and_whole(-factor, x);
        negation_of_factor_negates_product(factor, x);
    }
}

/// Wherever sines and cosines lie between -1 and 1, neither axis of the injected voltage
/// exceeds the amplitude.
pub proof fn injected_voltage_is_limited(
    state: HfInjectionState,
    param: HfInjectionParam,
    current_response: Binary32,
    carrier: Binary32,
    axis_sin: Binary32,
    axis_cos: Binary32,
)
    requires
        !(param.ts <= b32(ZERO)),
        param.amplitude.finite(),
        carrier.within(b32(MINUS_ONE), b32(ONE)),
        axis_sin.within(b32(MINUS_ONE), b32(ONE)),
        axis_cos.within(b32(MINUS_ONE), b32(ONE)),
    ensures
        ({
            let v = state.updated(param, current_response, carrier, axis_sin, axis_cos).voltage;
            &&& v.alpha.size() <= param.amplitude.size()
            &&& v.beta.size() <= param.amplitude.size()
        }),
{
    lemma_factor_shrinks(param.amplitude, carrier);
    lemma_factor_shrinks(param.amplitude * carrier, axis_cos);
    lemma_factor_shrinks(param.amplitude * carrier, axis_sin);
}

} // verus!
