//! Average voltage that dead time and device drop take from each phase of an inverter.
use vstd::prelude::*;
use crate::arithmetic::fraction_lies_between_zero_and_whole;
use crate::arithmetic::lemma_div_kind;
use crate::arithmetic::lemma_mul_kind;
use crate::arithmetic::multiplication_is_commutative;
use crate::arithmetic::negation_of_dividend_negates_quotient;
use crate::arithmetic::negation_of_factor_negates_product;
use crate::binary32::b32;
use crate::binary32::Binary32;
use crate::binary32::MINUS_ONE;
use crate::binary32::ONE;
use crate::binary32::TWO;
use crate::binary32::ZERO;
use crate::math::clamp;
use crate::math::clamped;
use crate::math::limited;
use crate::rounded_steps::is_amplified;
use crate::rounded_steps::products_are_rounded;
use crate::transform::Abc;

verus! {

/// Encoding of `0.01`.
pub const MAX_DEAD_TIME: u32 = 0x3c23_d70a;

/// Encoding of `100.0`.
pub const MAX_DEVICE_DROP: u32 = 0x42c8_0000;

/// Encoding of `10.0`.
pub const MAX_ZERO_BAND: u32 = 0x4120_0000;

/// Encoding of `1.0 / 12000.0`.
pub const DEFAULT_PWM_PERIOD: u32 = 0x38ae_c33e;

/// Parameters of the loss model.
#[derive(Clone, Copy, Debug, PartialEq)]
pub struct InverterLossParameters {
    /// Dead time of one switching edge.
    pub dead_time_s: Binary32,
    /// Switching period.
    pub pwm_period_s: Binary32,
    /// Voltage drop of a conducting device.
    pub device_drop_v: Binary32,
    /// Current up to which the loss grows linearly.
    pub current_zero_band_a: Binary32,
}

impl InverterLossParameters {
    /// No losses at a switching frequency of 12 kHz.
    pub open spec fn initial() -> InverterLossParameters {
        InverterLossParameters {
            dead_time_s: b32(ZERO),
            pwm_period_s: b32(DEFAULT_PWM_PERIOD),
            device_drop_v: b32(ZERO),
            current_zero_band_a: b32(ZERO),
        }
    }
}

impl Default for InverterLossParameters {
    fn default() -> (r: InverterLossParameters)
        ensures
            r == InverterLossParameters::initial(),
    {
        InverterLossParameters {
            dead_time_s: b32(ZERO),
            pwm_period_s: b32(DEFAULT_PWM_PERIOD),
            device_drop_v: b32(ZERO),
            current_zero_band_a: b32(ZERO),
        }
    }
}

impl InverterLossParameters {
    /// Whether every parameter lies in its range.
    pub open spec fn valid(self) -> bool {
        &&& self.dead_time_s.within(b32(ZERO), b32(MAX_DEAD_TIME))
        &&& self.pwm_period_s > b32(ZERO) && self.pwm_period_s <= b32(ONE)
        &&& self.device_drop_v.within(b32(ZERO), b32(MAX_DEVICE_DROP))
        &&& self.current_zero_band_a.within(b32(ZERO), b32(MAX_ZERO_BAND))
    }

    /// Whether every parameter is finite and in its range.
    pub fn is_valid(self) -> (r: bool)
        ensures
            r == self.valid(),
    {
        self.dead_time_s.is_finite() && b32(ZERO) <= self.dead_time_s && self.dead_time_s <= b32(
            MAX_DEAD_TIME,
        ) && self.pwm_period_s.is_finite() && self.pwm_period_s > b32(ZERO) && self.pwm_period_s
            <= b32(ONE) && self.device_drop_v.is_finite() && b32(ZERO) <= self.device_drop_v
            && self.device_drop_v <= b32(MAX_DEVICE_DROP) && self.current_zero_band_a.is_finite()
            && b32(ZERO) <= self.current_zero_band_a && self.current_zero_band_a <= b32(
            MAX_ZERO_BAND,
        )
    }
}

/// The sign of a current, softened within the band around zero.
pub open spec fn polarity(current_a: Binary32, current_zero_band_a: Binary32) -> Binary32 {
    if current_zero_band_a > b32(ZERO) {
        clamped(current_a / current_zero_band_a, b32(MINUS_ONE), b32(ONE))
    } else if current_a > b32(ZERO) {
        b32(ONE)
    } else if current_a < b32(ZERO) {
        b32(MINUS_ONE)
    } else {
        b32(ZERO)
    }
}

/// The sign of a current, as a number from -1 to 1; linear within the band around zero.
pub fn inverter_current_polarity(
    current_a: Binary32,
    current_zero_band_a: Binary32,
) -> (r: Binary32)
    ensures
        r == polarity(current_a, current_zero_band_a),
{
    if current_zero_band_a > b32(ZERO) {
        clamp(current_a / current_zero_band_a, b32(MINUS_ONE), b32(ONE))
    } else if current_a > b32(ZERO) {
        b32(ONE)
    } else if current_a < b32(ZERO) {
        b32(MINUS_ONE)
    } else {
        b32(ZERO)
    }
}

/// The bus voltage times the share of the period that dead time takes.
pub open spec fn dead_time_loss(
    parameters: InverterLossParameters,
    dc_bus_voltage_v: Binary32,
) -> Binary32 {
    b32(TWO) * parameters.dead_time_s / parameters.pwm_period_s * dc_bus_voltage_v
}

/// The average voltage that dead time takes from a phase.
pub fn inverter_dead_time_voltage_loss_v(
    parameters: InverterLossParameters,
    dc_bus_voltage_v: Binary32,
) -> (r: Binary32)
    ensures
        r == dead_time_loss(parameters, dc_bus_voltage_v),
{
    b32(TWO) * parameters.dead_time_s / parameters.pwm_period_s * dc_bus_voltage_v
}

/// The loss of a phase outside the zero band.
pub open spec fn full_loss(
    parameters: InverterLossParameters,
    dc_bus_voltage_v: Binary32,
) -> Binary32 {
    dead_time_loss(parameters, dc_bus_voltage_v) + parameters.device_drop_v
}

/// The average voltage lost in each phase: dead time and device drop, against the current.
pub fn average_inverter_phase_voltage_loss_v(
    parameters: InverterLossParameters,
    dc_bus_voltage_v: Binary32,
    phase_currents_a: Abc,
) -> (r: Abc)
    ensures
        r.a == full_loss(parameters, dc_bus_voltage_v) * polarity(
            phase_currents_a.a,
            parameters.current_zero_band_a,
        ),
        r.b == full_loss(parameters, dc_bus_voltage_v) * polarity(
            phase_currents_a.b,
            parameters.current_zero_band_a,
        ),
        r.c == full_loss(parameters, dc_bus_voltage_v) * polarity(
            phase_currents_a.c,
            parameters.current_zero_band_a,
        ),
        r.a.finite() ==> is_amplified(
            r.a,
            full_loss(parameters, dc_bus_voltage_v),
            polarity(phase_currents_a.a, parameters.current_zero_band_a),
        ),
        r.b.finite() ==> is_amplified(
            r.b,
            full_loss(parameters, dc_bus_voltage_v),
            polarity(phase_currents_a.b, parameters.current_zero_band_a),
        ),
        r.c.finite() ==> is_amplified(
            r.c,
            full_loss(parameters, dc_bus_voltage_v),
            polarity(phase_currents_a.c, parameters.current_zero_band_a),
        ),
{
    proof {
        let loss = full_loss(parameters, dc_bus_voltage_v);
        let band = parameters.current_zero_band_a;
        products_are_rounded(loss, polarity(phase_currents_a.a, band));
        products_are_rounded(loss, polarity(phase_currents_a.b, band));
        products_are_rounded(loss, polarity(phase_currents_a.c, band));
    }
    let magnitude: Binary32 = inverter_dead_time_voltage_loss_v(parameters, dc_bus_voltage_v)
        + parameters.device_drop_v;
    Abc {
        a: magnitude * inverter_current_polarity(
            phase_currents_a.a,
            parameters.current_zero_band_a,
        ),
        b: magnitude * inverter_current_polarity(
            phase_currents_a.b,
            parameters.current_zero_band_a,
        ),
        c: magnitude * inverter_current_polarity(
            phase_currents_a.c,
            parameters.current_zero_band_a,
        ),
    }
}

/// Valid parameters are finite.
pub proof fn valid_parameters_are_finite(parameters: InverterLossParameters)
    requires
        parameters.valid(),
    ensures
        parameters.dead_time_s.finite(),
        parameters.pwm_period_s.finite(),
        parameters.device_drop_v.finite(),
        parameters.current_zero_band_a.finite(),
{
}

/// A polarity is a NaN or lies between -1 and 1; it is a number for every finite current.
pub proof fn polarity_is_limited(current_a: Binary32, current_zero_band_a: Binary32)
    ensures
        limited(polarity(current_a, current_zero_band_a), b32(MINUS_ONE), b32(ONE)),
        current_a.finite() ==> !polarity(current_a, current_zero_band_a).nan(),
{
    lemma_div_kind(current_a, current_zero_band_a);
}

/// The polarity of the opposite current is the opposite polarity.
pub proof fn polarity_is_odd(current_a: Binary32, current_zero_band_a: Binary32)
    requires
        current_a.finite(),
    ensures
        polarity(-current_a, current_zero_band_a).same(-polarity(current_a, current_zero_band_a)),
{
    lemma_div_kind(current_a, current_zero_band_a);
    if current_zero_band_a > b32(ZERO) {
        negation_of_dividend_negates_quotient(current_a, current_zero_band_a);
    }
}

/// A phase never loses more than dead time and device drop together.
pub proof fn loss_is_at_most_full(loss: Binary32, current_a: Binary32, band: Binary32)
    requires
        loss >= b32(ZERO),
        loss.finite(),
        current_a.finite(),
    ensures
        (loss * polarity(current_a, band)).within(-loss, loss),
{
    let p = polarity(current_a, band);
    polarity_is_limited(current_a, band);
    multiplication_is_commutative(loss, p);
    multiplication_is_commutative(loss, -p);
    if p >= b32(ZERO) {
        fraction_lies_between_zero_and_whole(p, loss);
    } else {
        fraction_lies_between_zero_and_whole(-p, loss);
        lemma_mul_kind(loss, p);
        negation_of_factor_negates_product(loss, p);
    }
}

} // verus!
