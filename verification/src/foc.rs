//! Basic field-oriented current control: currents to rotor frame, one PI per axis, and the
//! voltages back to the bridge.
use vstd::prelude::*;
use crate::binary32::b32;
use crate::binary32::Binary32;
use crate::binary32::ZERO;
use crate::controller::PiParam;
use crate::controller::PiState;
use crate::foc_laws::foc_turns_with_rotor;
use crate::foc_laws::turns_with;
use crate::math::limited;
use crate::modulation::svpwm_of;
use crate::modulation::svpwm_update;
use crate::modulation::SvpwmOutput;
use crate::modulation::SvpwmParam;
use crate::transform::Abc;
use crate::transform::AlphaBeta;
use crate::transform::clarke;
use crate::transform::clarke_of;
use crate::transform::Dq;
use crate::transform::inverse_park;
use crate::transform::inverse_park_of;
use crate::transform::park;
use crate::transform::park_of;

verus! {

/// Parameters of the current controllers and of the modulator.
#[derive(Clone, Copy, Debug, Default, PartialEq)]
pub struct FocBasicParam {
    pub id_pi: PiParam,
    pub iq_pi: PiParam,
    pub svpwm: SvpwmParam,
}

/// Currents, current references and electrical angle of one step.
#[derive(Clone, Copy, Debug, Default, PartialEq)]
pub struct FocBasicInput {
    pub ia: Binary32,
    pub ib: Binary32,
    pub ic: Binary32,
    pub id_ref: Binary32,
    pub iq_ref: Binary32,
    /// Electrical angle in radians.
    pub theta_e_rad: Binary32,
}

/// Current loop with all its intermediate vectors.
#[derive(Clone, Copy, Debug, PartialEq)]
pub struct FocBasicState {
    pub id_pi: PiState,
    pub iq_pi: PiState,
    pub current_alpha_beta: AlphaBeta,
    pub current_dq: Dq,
    pub voltage_dq: Dq,
    pub voltage_alpha_beta: AlphaBeta,
    /// Duties; all zero before the first step.
    pub pwm: SvpwmOutput,
}

impl FocBasicState {
    /// The state before the first step.
    pub open spec fn initial() -> FocBasicState {
        FocBasicState {
            id_pi: PiState::initial(),
            iq_pi: PiState::initial(),
            current_alpha_beta: AlphaBeta::initial(),
            current_dq: Dq::initial(),
            voltage_dq: Dq::initial(),
            voltage_alpha_beta: AlphaBeta::initial(),
            pwm: SvpwmOutput { duty_a: b32(ZERO), duty_b: b32(ZERO), duty_c: b32(ZERO), sector: 0 },
        }
    }

    /// Returns to the state before the first step.
    pub fn reset(&mut self)
        ensures
            *final(self) == FocBasicState::initial(),
    {
        *self = FocBasicState::default();
    }
}

impl Default for FocBasicState {
    fn default() -> (r: FocBasicState)
        ensures
            r == FocBasicState::initial(),
    {
        FocBasicState {
            id_pi: PiState::default(),
            iq_pi: PiState::default(),
            current_alpha_beta: AlphaBeta::default(),
            current_dq: Dq::default(),
            voltage_dq: Dq::default(),
            voltage_alpha_beta: AlphaBeta::default(),
            pwm: SvpwmOutput { duty_a: b32(ZERO), duty_b: b32(ZERO), duty_c: b32(ZERO), sector: 0 },
        }
    }
}

impl FocBasicState {
    /// The state after a step, given the sine and cosine of the electrical angle.
    pub open spec fn updated(
        self,
        param: FocBasicParam,
        input: FocBasicInput,
        sin: Binary32,
        cos: Binary32,
    ) -> FocBasicState {
        let current_alpha_beta = clarke_of(Abc { a: input.ia, b: input.ib, c: input.ic });
        let current_dq = park_of(current_alpha_beta, sin, cos);
        let id_pi = self.id_pi.updated(param.id_pi, input.id_ref, current_dq.d);
        let iq_pi = self.iq_pi.updated(param.iq_pi, input.iq_ref, current_dq.q);
        let voltage_dq = Dq { d: id_pi.output, q: iq_pi.output };
        let voltage_alpha_beta = inverse_park_of(voltage_dq, sin, cos);
        FocBasicState {
            id_pi,
            iq_pi,
            current_alpha_beta,
            current_dq,
            voltage_dq,
            voltage_alpha_beta,
            pwm: svpwm_of(voltage_alpha_beta, param.svpwm),
        }
    }

    /// Makes one step, given the sine and cosine of the electrical angle.
    pub fn update_rotated(
        &mut self,
        param: &FocBasicParam,
        input: &FocBasicInput,
        sin: Binary32,
        cos: Binary32,
    ) -> (r: SvpwmOutput)
        ensures
            *final(self) == old(self).updated(*param, *input, sin, cos),
            r == final(self).pwm,
    {
        self.current_alpha_beta = clarke(Abc { a: input.ia, b: input.ib, c: input.ic });
        self.current_dq = park(self.current_alpha_beta, sin, cos);
        self.voltage_dq.d = self.id_pi.update(&param.id_pi, input.id_ref, self.current_dq.d);
        self.voltage_dq.q = self.iq_pi.update(&param.iq_pi, input.iq_ref, self.current_dq.q);
        self.voltage_alpha_beta = inverse_park(self.voltage_dq, sin, cos);
        self.pwm = svpwm_update(self.voltage_alpha_beta, &param.svpwm);
        self.pwm
    }

    /// Makes one step and returns the duties.
    pub fn update<S: Fn(Binary32) -> Binary32, C: Fn(Binary32) -> Binary32>(
        &mut self,
        param: &FocBasicParam,
        input: &FocBasicInput,
        sin: &S,
        cos: &C,
    ) -> (r: SvpwmOutput)
        requires
            sin.requires((input.theta_e_rad,)),
            cos.requires((input.theta_e_rad,)),
        ensures
            exists|s: Binary32, c: Binary32|
                sin.ensures((input.theta_e_rad,), s) && cos.ensures((input.theta_e_rad,), c)
                    && *final(self) == old(self).updated(*param, *input, s, c),
            exists|s: Binary32, c: Binary32|
                sin.ensures((input.theta_e_rad,), s) && cos.ensures((input.theta_e_rad,), c)
                    && turns_with(*final(self), s, c),
            r == final(self).pwm,
    {
        let s: Binary32 = sin(input.theta_e_rad);
        let c: Binary32 = cos(input.theta_e_rad);
        proof {
            foc_turns_with_rotor(*self, *param, *input, s, c);
        }
        self.update_rotated(param, input, s, c)
    }
}

/// The voltages of the current loop keep the limits of their controllers.
pub proof fn foc_voltages_are_limited(
    state: FocBasicState,
    param: FocBasicParam,
    input: FocBasicInput,
    sin: Binary32,
    cos: Binary32,
)
    requires
        !param.id_pi.out_min.nan(),
        !param.id_pi.out_max.nan(),
        !param.iq_pi.out_min.nan(),
        !param.iq_pi.out_max.nan(),
    ensures
        limited(
            state.updated(param, input, sin, cos).voltage_dq.d,
            param.id_pi.out_min,
            param.id_pi.out_max,
        ),
        limited(
            state.updated(param, input, sin, cos).voltage_dq.q,
            param.iq_pi.out_min,
            param.iq_pi.out_max,
        ),
{
}

} // verus!
