//! Feedback controllers: proportional, PI, PD and PID, the speed and position loops around
//! them, feed-forward, and the cascade down to the bridge.
use vstd::prelude::*;
use crate::arithmetic::addition_is_commutative;
use crate::arithmetic::difference_with_itself_is_zero;
use crate::arithmetic::product_with_zero_is_zero;
use crate::arithmetic::quotient_of_zero_is_zero;
use crate::arithmetic::sum_of_zeros_is_zero;
use crate::arithmetic::zero_is_neutral;
use crate::binary32::b32;
use crate::binary32::Binary32;
use crate::binary32::ONE;
use crate::binary32::ZERO;
use crate::controller_laws::cascade_turns_with_rotor;
use crate::foc::FocBasicInput;
use crate::foc::FocBasicParam;
use crate::foc::FocBasicState;
use crate::foc_laws::turns_with;
use crate::math::centred_angle;
use crate::math::centred_angle_lies_between_minus_pi_and_pi;
use crate::math::clamp;
use crate::math::clamped;
use crate::math::is_wrappable;
use crate::math::limited;
use crate::math::MINUS_PI;
use crate::math::PI;
use crate::math::wrap_angle_minus_pi_to_pi;
use crate::math::wrappable;
use crate::modulation::SvpwmOutput;

verus! {

/// Gain and output limits of a proportional controller.
#[derive(Clone, Copy, Debug, Default, PartialEq)]
pub struct PParam {
    pub kp: Binary32,
    pub out_min: Binary32,
    pub out_max: Binary32,
}

/// Proportional controller.
#[derive(Clone, Copy, Debug, PartialEq)]
pub struct PState {
    /// Last error, reference less feedback.
    pub error: Binary32,
    /// Last limited output.
    pub output: Binary32,
}

impl PState {
    /// The state before the first step.
    pub open spec fn initial() -> PState {
        PState {
            error: b32(ZERO),
            output: b32(ZERO),
        }
    }

    /// Returns to the state before the first step.
    pub fn reset(&mut self)
        ensures
            *final(self) == PState::initial(),
    {
        *self = PState::default();
    }
}

impl Default for PState {
    fn default() -> (r: PState)
        ensures
            r == PState::initial(),
    {
        PState {
            error: b32(ZERO),
            output: b32(ZERO),
        }
    }
}

impl PState {
    /// The state after a step: the amplified error, limited.
    pub open spec fn updated(param: PParam, reference: Binary32, feedback: Binary32) -> PState {
        let error = reference - feedback;
        PState { error, output: clamped(param.kp * error, param.out_min, param.out_max) }
    }

    /// Makes one step and returns the limited output.
    pub fn update(
        &mut self,
        param: &PParam,
        reference: Binary32,
        feedback: Binary32,
    ) -> (r: Binary32)
        ensures
            *final(self) == PState::updated(*param, reference, feedback),
            r == final(self).output,
    {
        self.error = reference - feedback;
        self.output = clamp(param.kp * self.error, param.out_min, param.out_max);
        self.output
    }
}

/// Gains, period and limits of a PI controller.
#[derive(Clone, Copy, Debug, Default, PartialEq)]
pub struct PiParam {
    pub kp: Binary32,
    pub ki: Binary32,
    /// Sample period in seconds.
    pub ts: Binary32,
    pub out_min: Binary32,
    pub out_max: Binary32,
    pub integrator_min: Binary32,
    pub integrator_max: Binary32,
}

/// PI controller whose integrator is limited and follows a saturated output.
#[derive(Clone, Copy, Debug, PartialEq)]
pub struct PiState {
    /// Integral part of the output.
    pub integrator: Binary32,
    /// Last error, reference less feedback.
    pub error: Binary32,
    /// Last limited output.
    pub output: Binary32,
}

impl PiState {
    /// The state before the first step.
    pub open spec fn initial() -> PiState {
        PiState {
            integrator: b32(ZERO),
            error: b32(ZERO),
            output: b32(ZERO),
        }
    }

    /// Returns to the state before the first step.
    pub fn reset(&mut self)
        ensures
            *final(self) == PiState::initial(),
    {
        *self = PiState::default();
    }
}

impl Default for PiState {
    fn default() -> (r: PiState)
        ensures
            r == PiState::initial(),
    {
        PiState {
            integrator: b32(ZERO),
            error: b32(ZERO),
            output: b32(ZERO),
        }
    }
}

impl PiState {
    /// The state after a preload: the integrator that makes the output the desired one, as
    /// far as the limits allow.
    pub open spec fn preloaded(
        param: PiParam,
        reference: Binary32,
        feedback: Binary32,
        desired_output: Binary32,
    ) -> PiState {
        let error = reference - feedback;
        let proportional = param.kp * error;
        let wanted = clamped(desired_output, param.out_min, param.out_max);
        let integrator = clamped(
            wanted - proportional,
            param.integrator_min,
            param.integrator_max,
        );
        PiState {
            integrator,
            error,
            output: clamped(proportional + integrator, param.out_min, param.out_max),
        }
    }

    /// The state after a step: integrate and limit, then limit the output; where that
    /// changed the output, the integrator is what the limited output leaves for it.
    pub open spec fn updated(
        self,
        param: PiParam,
        reference: Binary32,
        feedback: Binary32,
    ) -> PiState {
        let error = reference - feedback;
        let proportional = param.kp * error;
        let integrated = clamped(
            self.integrator + param.ki * param.ts * error,
            param.integrator_min,
            param.integrator_max,
        );
        let unlimited = proportional + integrated;
        let output = clamped(unlimited, param.out_min, param.out_max);
        let integrator = if unlimited.same(output) {
            integrated
        } else {
            clamped(output - proportional, param.integrator_min, param.integrator_max)
        };
        PiState { integrator, error, output }
    }

    /// Sets the integrator so that the controller takes over at `desired_output`; returns
    /// the output reached.
    pub fn preload_output(
        &mut self,
        param: &PiParam,
        reference: Binary32,
        feedback: Binary32,
        desired_output: Binary32,
    ) -> (r: Binary32)
        ensures
            *final(self) == PiState::preloaded(*param, reference, feedback, desired_output),
            r == final(self).output,
    {
        self.error = reference - feedback;
        let proportional: Binary32 = param.kp * self.error;
        self.output = clamp(desired_output, param.out_min, param.out_max);
        self.integrator = clamp(
            self.output - proportional,
            param.integrator_min,
            param.integrator_max,
        );
        self.output = clamp(proportional + self.integrator, param.out_min, param.out_max);
        self.output
    }

    /// Makes one step and returns the limited output.
    pub fn update(
        &mut self,
        param: &PiParam,
        reference: Binary32,
        feedback: Binary32,
    ) -> (r: Binary32)
        ensures
            *final(self) == old(self).updated(*param, reference, feedback),
            r == final(self).output,
    {
        self.error = reference - feedback;
        let proportional: Binary32 = param.kp * self.error;
        self.integrator = self.integrator + param.ki * param.ts * self.error;
        self.integrator = clamp(self.integrator, param.integrator_min, param.integrator_max);
        let unclamped: Binary32 = proportional + self.integrator;
        self.output = clamp(unclamped, param.out_min, param.out_max);
        if unclamped != self.output {
            self.integrator = clamp(
                self.output - proportional,
                param.integrator_min,
                param.integrator_max,
            );
        }
        self.output
    }
}

/// Gains, period and limits of a PD controller.
#[derive(Clone, Copy, Debug, Default, PartialEq)]
pub struct PdParam {
    pub kp: Binary32,
    pub kd: Binary32,
    /// Sample period in seconds.
    pub ts: Binary32,
    /// Share of the newest difference in the derivative, from 0 to 1.
    pub derivative_alpha: Binary32,
    pub out_min: Binary32,
    pub out_max: Binary32,
}

/// PD controller with a filtered derivative of the error.
#[derive(Clone, Copy, Debug, PartialEq)]
pub struct PdState {
    /// Last error, reference less feedback.
    pub error: Binary32,
    /// Error of the step before.
    pub last_error: Binary32,
    /// Filtered rate of the error.
    pub derivative: Binary32,
    /// Last limited output.
    pub output: Binary32,
    /// Not zero once a step has been made.
    pub initialized: i32,
}

impl PdState {
    /// The state before the first step.
    pub open spec fn initial() -> PdState {
        PdState {
            error: b32(ZERO),
            last_error: b32(ZERO),
            derivative: b32(ZERO),
            output: b32(ZERO),
            initialized: 0,
        }
    }

    /// Returns to the state before the first step.
    pub fn reset(&mut self)
        ensures
            *final(self) == PdState::initial(),
    {
        *self = PdState::default();
    }
}

impl Default for PdState {
    fn default() -> (r: PdState)
        ensures
            r == PdState::initial(),
    {
        PdState {
            error: b32(ZERO),
            last_error: b32(ZERO),
            derivative: b32(ZERO),
            output: b32(ZERO),
            initialized: 0,
        }
    }
}

/// A derivative moved by the share `alpha`, limited to the range from 0 to 1, towards the
/// newest difference quotient.
pub open spec fn filtered_rate(
    derivative: Binary32,
    alpha: Binary32,
    difference: Binary32,
    ts: Binary32,
) -> Binary32 {
    derivative + clamped(alpha, b32(ZERO), b32(ONE)) * (difference / ts - derivative)
}

impl PdState {
    /// The error against which the next difference is taken: the first step starts from
    /// its own error.
    pub open spec fn base_error(self, error: Binary32) -> Binary32 {
        if self.initialized == 0 {
            error
        } else {
            self.last_error
        }
    }

    /// The state after a step; a period that is zero or negative changes nothing.
    pub open spec fn updated(
        self,
        param: PdParam,
        reference: Binary32,
        feedback: Binary32,
    ) -> PdState {
        let error = reference - feedback;
        let derivative = filtered_rate(
            self.derivative,
            param.derivative_alpha,
            error - self.base_error(error),
            param.ts,
        );
        if param.ts <= b32(ZERO) {
            self
        } else {
            PdState {
                error,
                last_error: error,
                derivative,
                output: clamped(
                    param.kp * error + param.kd * derivative,
                    param.out_min,
                    param.out_max,
                ),
                initialized: if self.initialized == 0 {
                    1
                } else {
                    self.initialized
                },
            }
        }
    }

    /// Makes one step and returns the limited output, or 0 where the period is not valid.
    pub fn update(
        &mut self,
        param: &PdParam,
        reference: Binary32,
        feedback: Binary32,
    ) -> (r: Binary32)
        ensures
            *final(self) == old(self).updated(*param, reference, feedback),
            r == (if param.ts <= b32(ZERO) {
                b32(ZERO)
            } else {
                final(self).output
            }),
    {
        if param.ts <= b32(ZERO) {
            return b32(ZERO);
        }
        self.error = reference - feedback;
        if self.initialized == 0 {
            self.last_error = self.error;
            self.initialized = 1;
        }
        let raw_derivative: Binary32 = (self.error - self.last_error) / param.ts;
        let alpha: Binary32 = clamp(param.derivative_alpha, b32(ZERO), b32(ONE));
        self.derivative = self.derivative + alpha * (raw_derivative - self.derivative);
        self.last_error = self.error;
        self.output = clamp(
            param.kp * self.error + param.kd * self.derivative,
            param.out_min,
            param.out_max,
        );
        self.output
    }
}

/// Gains, period and limits of a PID controller.
#[derive(Clone, Copy, Debug, Default, PartialEq)]
pub struct PidParam {
    pub kp: Binary32,
    pub ki: Binary32,
    pub kd: Binary32,
    /// Sample period in seconds.
    pub ts: Binary32,
    /// Share of the newest difference in the derivative, from 0 to 1.
    pub derivative_alpha: Binary32,
    pub out_min: Binary32,
    pub out_max: Binary32,
    pub integrator_min: Binary32,
    pub integrator_max: Binary32,
}

/// PID controller with a filtered derivative and a limited integrator that follows a
/// saturated output.
#[derive(Clone, Copy, Debug, PartialEq)]
pub struct PidState {
    /// Last error, reference less feedback.
    pub error: Binary32,
    /// Error of the step before.
    pub last_error: Binary32,
    /// Integral part of the output.
    pub integrator: Binary32,
    /// Filtered rate of the error.
    pub derivative: Binary32,
    /// Last limited output.
    pub output: Binary32,
    /// Not zero once a step has been made.
    pub initialized: i32,
}

impl PidState {
    /// The state before the first step.
    pub open spec fn initial() -> PidState {
        PidState {
            error: b32(ZERO),
            last_error: b32(ZERO),
            integrator: b32(ZERO),
            derivative: b32(ZERO),
            output: b32(ZERO),
            initialized: 0,
        }
    }

    /// Returns to the state before the first step.
    pub fn reset(&mut self)
        ensures
            *final(self) == PidState::initial(),
    {
        *self = PidState::default();
    }
}

impl Default for PidState {
    fn default() -> (r: PidState)
        ensures
            r == PidState::initial(),
    {
        PidState {
            error: b32(ZERO),
            last_error: b32(ZERO),
            integrator: b32(ZERO),
            derivative: b32(ZERO),
            output: b32(ZERO),
            initialized: 0,
        }
    }
}

impl PidState {
    /// The error against which the next difference is taken: the first step starts from
    /// its own error.
    pub open spec fn base_error(self, error: Binary32) -> Binary32 {
        if self.initialized == 0 {
            error
        } else {
            self.last_error
        }
    }

    /// The state after a step; a period that is zero or negative changes nothing.
    pub open spec fn updated(
        self,
        param: PidParam,
        reference: Binary32,
        feedback: Binary32,
    ) -> PidState {
        let error = reference - feedback;
        let proportional = param.kp * error;
        let integrated = clamped(
            self.integrator + param.ki * param.ts * error,
            param.integrator_min,
            param.integrator_max,
        );
        let derivative = filtered_rate(
            self.derivative,
            param.derivative_alpha,
            error - self.base_error(error),
            param.ts,
        );
        let unlimited = proportional + integrated + param.kd * derivative;
        let output = clamped(unlimited, param.out_min, param.out_max);
        let integrator = if unlimited.same(output) {
            integrated
        } else {
            clamped(
                output - proportional - param.kd * derivative,
                param.integrator_min,
                param.integrator_max,
            )
        };
        if param.ts <= b32(ZERO) {
            self
        } else {
            PidState {
                error,
                last_error: error,
                integrator,
                derivative,
                output,
                initialized: if self.initialized == 0 {
                    1
                } else {
                    self.initialized
                },
            }
        }
    }

    /// Makes one step and returns the limited output, or 0 where the period is not valid.
    pub fn update(
        &mut self,
        param: &PidParam,
        reference: Binary32,
        feedback: Binary32,
    ) -> (r: Binary32)
        ensures
            *final(self) == old(self).updated(*param, reference, feedback),
            r == (if param.ts <= b32(ZERO) {
                b32(ZERO)
            } else {
                final(self).output
            }),
    {
        if param.ts <= b32(ZERO) {
            return b32(ZERO);
        }
        self.error = reference - feedback;
        if self.initialized == 0 {
            self.last_error = self.error;
            self.initialized = 1;
        }
        let proportional: Binary32 = param.kp * self.error;
        self.integrator = self.integrator + param.ki * param.ts * self.error;
        self.integrator = clamp(self.integrator, param.integrator_min, param.integrator_max);
        let raw_derivative: Binary32 = (self.error - self.last_error) / param.ts;
        let alpha: Binary32 = clamp(param.derivative_alpha, b32(ZERO), b32(ONE));
        self.derivative = self.derivative + alpha * (raw_derivative - self.derivative);
        self.last_error = self.error;
        let unclamped: Binary32 = proportional + self.integrator + param.kd * self.derivative;
        self.output = clamp(unclamped, param.out_min, param.out_max);
        if unclamped != self.output {
            self.integrator = clamp(
                self.output - proportional - param.kd * self.derivative,
                param.integrator_min,
                param.integrator_max,
            );
        }
        self.output
    }
}

/// Parameters of the speed loop.
#[derive(Clone, Copy, Debug, Default, PartialEq)]
pub struct SpeedLoopParam {
    pub pi: PiParam,
}

/// Speed loop: a PI controller whose output is the torque current reference.
#[derive(Clone, Copy, Debug, PartialEq)]
pub struct SpeedLoopState {
    pub pi: PiState,
    /// Last torque current reference.
    pub iq_ref: Binary32,
}

impl SpeedLoopState {
    /// The state before the first step.
    pub open spec fn initial() -> SpeedLoopState {
        SpeedLoopState {
            pi: PiState::initial(),
            iq_ref: b32(ZERO),
        }
    }

    /// Returns to the state before the first step.
    pub fn reset(&mut self)
        ensures
            *final(self) == SpeedLoopState::initial(),
    {
        *self = SpeedLoopState::default();
    }
}

impl Default for SpeedLoopState {
    fn default() -> (r: SpeedLoopState)
        ensures
            r == SpeedLoopState::initial(),
    {
        SpeedLoopState {
            pi: PiState::default(),
            iq_ref: b32(ZERO),
        }
    }
}

impl SpeedLoopState {
    /// The state after a step of the inner controller.
    pub open spec fn updated(
        self,
        param: SpeedLoopParam,
        speed_ref: Binary32,
        speed_feedback: Binary32,
    ) -> SpeedLoopState {
        let pi = self.pi.updated(param.pi, speed_ref, speed_feedback);
        SpeedLoopState { pi, iq_ref: pi.output }
    }

    /// Makes one step and returns the torque current reference.
    pub fn update(
        &mut self,
        param: &SpeedLoopParam,
        speed_ref: Binary32,
        speed_feedback: Binary32,
    ) -> (r: Binary32)
        ensures
            *final(self) == old(self).updated(*param, speed_ref, speed_feedback),
            r == final(self).iq_ref,
    {
        self.iq_ref = self.pi.update(&param.pi, speed_ref, speed_feedback);
        self.iq_ref
    }
}

/// Parameters of the position loop.
#[derive(Clone, Copy, Debug, Default, PartialEq)]
pub struct PositionLoopParam {
    pub kp: Binary32,
    pub speed_min: Binary32,
    pub speed_max: Binary32,
    /// Not zero where the position is an angle, whose error takes the shorter way round.
    pub wrap_error: i32,
}

/// Position loop: a proportional controller whose output is the speed reference.
#[derive(Clone, Copy, Debug, PartialEq)]
pub struct PositionLoopState {
    /// Last position error.
    pub error: Binary32,
    /// Last speed reference.
    pub speed_ref: Binary32,
}

impl PositionLoopState {
    /// The state before the first step.
    pub open spec fn initial() -> PositionLoopState {
        PositionLoopState {
            error: b32(ZERO),
            speed_ref: b32(ZERO),
        }
    }

    /// Returns to the state before the first step.
    pub fn reset(&mut self)
        ensures
            *final(self) == PositionLoopState::initial(),
    {
        *self = PositionLoopState::default();
    }
}

impl Default for PositionLoopState {
    fn default() -> (r: PositionLoopState)
        ensures
            r == PositionLoopState::initial(),
    {
        PositionLoopState {
            error: b32(ZERO),
            speed_ref: b32(ZERO),
        }
    }
}

impl PositionLoopState {
    /// The position error, on the shorter way round where positions are angles.
    pub open spec fn error_of(
        param: PositionLoopParam,
        position_ref: Binary32,
        position_feedback: Binary32,
    ) -> Binary32 {
        if param.wrap_error != 0 {
            centred_angle(position_ref - position_feedback)
        } else {
            position_ref - position_feedback
        }
    }

    /// Whether the error can be wrapped, where it has to be.
    pub open spec fn accepts(
        param: PositionLoopParam,
        position_ref: Binary32,
        position_feedback: Binary32,
    ) -> bool {
        param.wrap_error != 0 ==> wrappable(position_ref - position_feedback + b32(PI))
    }

    /// The state after a step: the amplified error, limited.
    pub open spec fn updated(
        param: PositionLoopParam,
        position_ref: Binary32,
        position_feedback: Binary32,
    ) -> PositionLoopState {
        let error = PositionLoopState::error_of(param, position_ref, position_feedback);
        PositionLoopState {
            error,
            speed_ref: clamped(param.kp * error, param.speed_min, param.speed_max),
        }
    }

    /// Whether a step for two positions can be made.
    pub fn can_step(
        param: &PositionLoopParam,
        position_ref: Binary32,
        position_feedback: Binary32,
    ) -> (r: bool)
        ensures
            r == PositionLoopState::accepts(*param, position_ref, position_feedback),
    {
        param.wrap_error == 0 || is_wrappable(position_ref - position_feedback + b32(PI))
    }

    /// Makes one step and returns the speed reference.
    pub fn update(
        &mut self,
        param: &PositionLoopParam,
        position_ref: Binary32,
        position_feedback: Binary32,
    ) -> (r: Binary32)
        requires
            PositionLoopState::accepts(*param, position_ref, position_feedback),
        ensures
            *final(self) == PositionLoopState::updated(*param, position_ref, position_feedback),
            r == final(self).speed_ref,
    {
        let mut error: Binary32 = position_ref - position_feedback;
        if param.wrap_error != 0 {
            error = wrap_angle_minus_pi_to_pi(error);
        }
        self.error = error;
        self.speed_ref = clamp(param.kp * error, param.speed_min, param.speed_max);
        self.speed_ref
    }
}

/// Gains, bias and limits of a feed-forward term.
#[derive(Clone, Copy, Debug, Default, PartialEq)]
pub struct FeedForwardParam {
    pub kv: Binary32,
    pub ka: Binary32,
    pub bias: Binary32,
    pub out_min: Binary32,
    pub out_max: Binary32,
}

/// Feed-forward from the velocity and acceleration references.
#[derive(Clone, Copy, Debug, PartialEq)]
pub struct FeedForwardState {
    /// Last limited output.
    pub output: Binary32,
}

impl FeedForwardState {
    /// The state before the first step.
    pub open spec fn initial() -> FeedForwardState {
        FeedForwardState {
            output: b32(ZERO),
        }
    }

    /// Returns to the state before the first step.
    pub fn reset(&mut self)
        ensures
            *final(self) == FeedForwardState::initial(),
    {
        *self = FeedForwardState::default();
    }
}

impl Default for FeedForwardState {
    fn default() -> (r: FeedForwardState)
        ensures
            r == FeedForwardState::initial(),
    {
        FeedForwardState {
            output: b32(ZERO),
        }
    }
}

impl FeedForwardState {
    /// The state after a step: the weighted sum, limited.
    pub open spec fn updated(
        param: FeedForwardParam,
        velocity_ref: Binary32,
        acceleration_ref: Binary32,
    ) -> FeedForwardState {
        FeedForwardState {
            output: clamped(
                param.kv * velocity_ref + param.ka * acceleration_ref + param.bias,
                param.out_min,
                param.out_max,
            ),
        }
    }

    /// Makes one step and returns the limited output.
    pub fn update(
        &mut self,
        param: &FeedForwardParam,
        velocity_ref: Binary32,
        acceleration_ref: Binary32,
    ) -> (r: Binary32)
        ensures
            *final(self) == FeedForwardState::updated(*param, velocity_ref, acceleration_ref),
            r == final(self).output,
    {
        let output: Binary32 = param.kv * velocity_ref + param.ka * acceleration_ref + param.bias;
        self.output = clamp(output, param.out_min, param.out_max);
        self.output
    }
}

/// Parameters of the position, speed and current loops.
#[derive(Clone, Copy, Debug, Default, PartialEq)]
pub struct CascadeParam {
    pub position: PositionLoopParam,
    pub speed: SpeedLoopParam,
    pub foc: FocBasicParam,
    /// Flux current reference.
    pub id_ref: Binary32,
}

/// Measurements and position reference of one step.
#[derive(Clone, Copy, Debug, Default, PartialEq)]
pub struct CascadeInput {
    pub position_ref: Binary32,
    pub position_feedback: Binary32,
    pub speed_feedback: Binary32,
    pub ia: Binary32,
    pub ib: Binary32,
    pub ic: Binary32,
    /// Electrical angle in radians.
    pub theta_e_rad: Binary32,
}

/// Position, speed and current loops in a row.
#[derive(Clone, Copy, Debug, PartialEq)]
pub struct CascadeState {
    pub position: PositionLoopState,
    pub speed: SpeedLoopState,
    pub foc: FocBasicState,
    pub speed_ref: Binary32,
    pub iq_ref: Binary32,
    pub pwm: SvpwmOutput,
}

impl CascadeState {
    /// The state before the first step.
    pub open spec fn initial() -> CascadeState {
        CascadeState {
            position: PositionLoopState::initial(),
            speed: SpeedLoopState::initial(),
            foc: FocBasicState::initial(),
            speed_ref: b32(ZERO),
            iq_ref: b32(ZERO),
            pwm: SvpwmOutput::initial(),
        }
    }

    /// Returns to the state before the first step.
    pub fn reset(&mut self)
        ensures
            *final(self) == CascadeState::initial(),
    {
        *self = CascadeState::default();
    }
}

impl Default for CascadeState {
    fn default() -> (r: CascadeState)
        ensures
            r == CascadeState::initial(),
    {
        CascadeState {
            position: PositionLoopState::default(),
            speed: SpeedLoopState::default(),
            foc: FocBasicState::default(),
            speed_ref: b32(ZERO),
            iq_ref: b32(ZERO),
            pwm: SvpwmOutput::default(),
        }
    }
}

impl CascadeState {
    /// What the current loop is given in a step.
    pub open spec fn current_input(
        param: CascadeParam,
        input: CascadeInput,
        iq_ref: Binary32,
    ) -> FocBasicInput {
        FocBasicInput {
            ia: input.ia,
            ib: input.ib,
            ic: input.ic,
            id_ref: param.id_ref,
            iq_ref,
            theta_e_rad: input.theta_e_rad,
        }
    }

    /// The state after a step in which each loop sets the reference of the next, given the
    /// sine and cosine of the electrical angle.
    pub open spec fn updated(
        self,
        param: CascadeParam,
        input: CascadeInput,
        sin: Binary32,
        cos: Binary32,
    ) -> CascadeState {
        let position = PositionLoopState::updated(
            param.position,
            input.position_ref,
            input.position_feedback,
        );
        let speed = self.speed.updated(param.speed, position.speed_ref, input.speed_feedback);
        let foc = self.foc.updated(
            param.foc,
            CascadeState::current_input(param, input, speed.iq_ref),
            sin,
            cos,
        );
        CascadeState {
            position,
            speed,
            foc,
            speed_ref: position.speed_ref,
            iq_ref: speed.iq_ref,
            pwm: foc.pwm,
        }
    }

    /// Makes one step of all three loops, given the sine and cosine of the electrical angle.
    pub fn update_rotated(
        &mut self,
        param: &CascadeParam,
        input: &CascadeInput,
        sin: Binary32,
        cos: Binary32,
    ) -> (r: SvpwmOutput)
        requires
            PositionLoopState::accepts(
                param.position,
                input.position_ref,
                input.position_feedback,
            ),
        ensures
            *final(self) == old(self).updated(*param, *input, sin, cos),
            r == final(self).pwm,
    {
        self.speed_ref = self.position.update(
            &param.position,
            input.position_ref,
            input.position_feedback,
        );
        self.iq_ref = self.speed.update(&param.speed, self.speed_ref, input.speed_feedback);
        let current_input: FocBasicInput = FocBasicInput {
            ia: input.ia,
            ib: input.ib,
            ic: input.ic,
            id_ref: param.id_ref,
            iq_ref: self.iq_ref,
            theta_e_rad: input.theta_e_rad,
        };
        self.pwm = self.foc.update_rotated(&param.foc, &current_input, sin, cos);
        self.pwm
    }

    /// Makes one step of all three loops and returns the duties.
    pub fn update<S: Fn(Binary32) -> Binary32, C: Fn(Binary32) -> Binary32>(
        &mut self,
        param: &CascadeParam,
        input: &CascadeInput,
        sin: &S,
        cos: &C,
    ) -> (r: SvpwmOutput)
        requires
            PositionLoopState::accepts(
                param.position,
                input.position_ref,
                input.position_feedback,
            ),
            sin.requires((input.theta_e_rad,)),
            cos.requires((input.theta_e_rad,)),
        ensures
            exists|s: Binary32, c: Binary32|
                sin.ensures((input.theta_e_rad,), s) && cos.ensures((input.theta_e_rad,), c)
                    && *final(self) == old(self).updated(*param, *input, s, c),
            exists|s: Binary32, c: Binary32|
                sin.ensures((input.theta_e_rad,), s) && cos.ensures((input.theta_e_rad,), c)
                    && turns_with(final(self).foc, s, c),
            r == final(self).pwm,
    {
        let s: Binary32 = sin(input.theta_e_rad);
        let c: Binary32 = cos(input.theta_e_rad);
        proof {
            cascade_turns_with_rotor(*self, *param, *input, s, c);
        }
        self.update_rotated(param, input, s, c)
    }
}

/// The output of a proportional controller keeps its limits.
pub proof fn p_output_is_limited(param: PParam, reference: Binary32, feedback: Binary32)
    requires
        !param.out_min.nan(),
        !param.out_max.nan(),
    ensures
        limited(
            PState::updated(param, reference, feedback).output,
            param.out_min,
            param.out_max,
        ),
{
}

/// Output and integrator of a PI controller keep their limits, from any state.
pub proof fn pi_output_and_integrator_are_limited(
    state: PiState,
    param: PiParam,
    reference: Binary32,
    feedback: Binary32,
)
    requires
        !param.out_min.nan(),
        !param.out_max.nan(),
        !param.integrator_min.nan(),
        !param.integrator_max.nan(),
    ensures
        limited(
            state.updated(param, reference, feedback).output,
            param.out_min,
            param.out_max,
        ),
        limited(
            state.updated(param, reference, feedback).integrator,
            param.integrator_min,
            param.integrator_max,
        ),
{
}

/// A preload keeps the limits of output and integrator, whatever output is desired.
pub proof fn pi_preload_is_limited(
    param: PiParam,
    reference: Binary32,
    feedback: Binary32,
    desired_output: Binary32,
)
    requires
        !param.out_min.nan(),
        !param.out_max.nan(),
        !param.integrator_min.nan(),
        !param.integrator_max.nan(),
    ensures
        limited(
            PiState::preloaded(param, reference, feedback, desired_output).output,
            param.out_min,
            param.out_max,
        ),
        limited(
            PiState::preloaded(param, reference, feedback, desired_output).integrator,
            param.integrator_min,
            param.integrator_max,
        ),
{
}

/// Bumpless takeover: with no error, a preload reaches a desired output that all limits
/// admit, and the next step keeps it.
pub proof fn pi_preload_is_kept_by_update(
    param: PiParam,
    position: Binary32,
    desired_output: Binary32,
)
    requires
        position.finite(),
        param.kp.finite(),
        (param.ki * param.ts).finite(),
        desired_output.within(param.out_min, param.out_max),
        desired_output.within(param.integrator_min, param.integrator_max),
    ensures
        ({
            let loaded = PiState::preloaded(param, position, position, desired_output);
            &&& loaded.output.same(desired_output)
            &&& loaded.updated(param, position, position).output.same(desired_output)
        }),
{
    let error = position - position;
    let proportional = param.kp * error;
    let step = param.ki * param.ts * error;
    let loaded = PiState::preloaded(param, position, position, desired_output);
    difference_with_itself_is_zero(position);
    product_with_zero_is_zero(param.kp, error);
    product_with_zero_is_zero(param.ki * param.ts, error);
    zero_is_neutral(desired_output, -proportional);
    assert(loaded.integrator.same(desired_output));
    zero_is_neutral(loaded.integrator, proportional);
    addition_is_commutative(loaded.integrator, proportional);
    zero_is_neutral(loaded.integrator, step);
    let integrated = loaded.integrator + step;
    zero_is_neutral(integrated, proportional);
    addition_is_commutative(integrated, proportional);
}

/// A step of a PD controller keeps the output limits.
pub proof fn pd_output_is_limited(
    state: PdState,
    param: PdParam,
    reference: Binary32,
    feedback: Binary32,
)
    requires
        !param.out_min.nan(),
        !param.out_max.nan(),
        limited(state.output, param.out_min, param.out_max),
    ensures
        limited(
            state.updated(param, reference, feedback).output,
            param.out_min,
            param.out_max,
        ),
{
}

/// A step of a PID controller keeps the limits of output and integrator.
pub proof fn pid_output_and_integrator_are_limited(
    state: PidState,
    param: PidParam,
    reference: Binary32,
    feedback: Binary32,
)
    requires
        !param.out_min.nan(),
        !param.out_max.nan(),
        !param.integrator_min.nan(),
        !param.integrator_max.nan(),
        limited(state.output, param.out_min, param.out_max),
        limited(state.integrator, param.integrator_min, param.integrator_max),
    ensures
        limited(
            state.updated(param, reference, feedback).output,
            param.out_min,
            param.out_max,
        ),
        limited(
            state.updated(param, reference, feedback).integrator,
            param.integrator_min,
            param.integrator_max,
        ),
{
}

/// The filtered rate stays zero where there was no change.
proof fn lemma_no_change(alpha: Binary32, ts: Binary32, error: Binary32)
    requires
        error.finite(),
        ts > b32(ZERO),
        !alpha.nan(),
    ensures
        filtered_rate(b32(ZERO), alpha, error - error, ts).zero(),
{
    difference_with_itself_is_zero(error);
    let rate = (error - error) / ts;
    let share = clamped(alpha, b32(ZERO), b32(ONE));
    quotient_of_zero_is_zero(error - error, ts);
    sum_of_zeros_is_zero(rate, -b32(ZERO));
    product_with_zero_is_zero(share, rate - b32(ZERO));
    sum_of_zeros_is_zero(b32(ZERO), share * (rate - b32(ZERO)));
}

/// The first step of a PD controller, however large the error, has no derivative part.
pub proof fn pd_first_step_has_no_derivative(
    param: PdParam,
    reference: Binary32,
    feedback: Binary32,
)
    requires
        param.ts > b32(ZERO),
        !param.derivative_alpha.nan(),
        (reference - feedback).finite(),
    ensures
        PdState::initial().updated(param, reference, feedback).derivative.zero(),
{
    lemma_no_change(param.derivative_alpha, param.ts, reference - feedback);
}

/// The first step of a PID controller, however large the error, has no derivative part.
pub proof fn pid_first_step_has_no_derivative(
    param: PidParam,
    reference: Binary32,
    feedback: Binary32,
)
    requires
        param.ts > b32(ZERO),
        !param.derivative_alpha.nan(),
        (reference - feedback).finite(),
    ensures
        PidState::initial().updated(param, reference, feedback).derivative.zero(),
{
    lemma_no_change(param.derivative_alpha, param.ts, reference - feedback);
}

/// The torque current reference of the speed loop keeps the limits of its controller.
pub proof fn speed_loop_reference_is_limited(
    state: SpeedLoopState,
    param: SpeedLoopParam,
    speed_ref: Binary32,
    speed_feedback: Binary32,
)
    requires
        !param.pi.out_min.nan(),
        !param.pi.out_max.nan(),
    ensures
        limited(
            state.updated(param, speed_ref, speed_feedback).iq_ref,
            param.pi.out_min,
            param.pi.out_max,
        ),
{
}

/// The speed reference of the position loop keeps its limits.
pub proof fn position_loop_reference_is_limited(
    param: PositionLoopParam,
    position_ref: Binary32,
    position_feedback: Binary32,
)
    requires
        !param.speed_min.nan(),
        !param.speed_max.nan(),
    ensures
        limited(
            PositionLoopState::updated(param, position_ref, position_feedback).speed_ref,
            param.speed_min,
            param.speed_max,
        ),
{
}

/// Where positions are angles, the error takes the shorter way round: half a revolution at
/// most, and less than that forwards.
pub proof fn position_error_takes_shorter_way(
    param: PositionLoopParam,
    position_ref: Binary32,
    position_feedback: Binary32,
)
    requires
        param.wrap_error != 0,
        PositionLoopState::accepts(param, position_ref, position_feedback),
        (position_ref - position_feedback + b32(PI)).finite(),
    ensures
        PositionLoopState::updated(param, position_ref, position_feedback).error >= b32(MINUS_PI),
        PositionLoopState::updated(param, position_ref, position_feedback).error < b32(PI),
{
    centred_angle_lies_between_minus_pi_and_pi(position_ref - position_feedback);
}

/// The feed-forward output keeps its limits.
pub proof fn feed_forward_output_is_limited(
    param: FeedForwardParam,
    velocity_ref: Binary32,
    acceleration_ref: Binary32,
)
    requires
        !param.out_min.nan(),
        !param.out_max.nan(),
    ensures
        limited(
            FeedForwardState::updated(param, velocity_ref, acceleration_ref).output,
            param.out_min,
            param.out_max,
        ),
{
}

} // verus!
