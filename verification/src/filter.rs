//! First-order filters: low pass, high pass and filtered differentiation.
use vstd::prelude::*;
use crate::arithmetic::addition_is_commutative;
use crate::arithmetic::addition_keeps_order;
use crate::arithmetic::difference_with_itself_is_zero;
use crate::arithmetic::lemma_mul_kind;
use crate::arithmetic::lemma_sum_kind;
use crate::arithmetic::multiplication_is_commutative;
use crate::arithmetic::product_follows_signs;
use crate::arithmetic::product_with_zero_is_zero;
use crate::arithmetic::quotient_of_zero_is_zero;
use crate::arithmetic::sum_of_zeros_is_zero;
use crate::arithmetic::zero_is_neutral;
use crate::binary32::b32;
use crate::binary32::Binary32;
use crate::binary32::ONE;
use crate::binary32::ZERO;
use crate::controller::filtered_rate;
use crate::math::clamp;
use crate::math::clamped;

verus! {

/// Coefficient of a low pass.
#[derive(Clone, Copy, Debug, Default, PartialEq)]
pub struct LowPassParam {
    /// Share of the newest input in the output, from 0 to 1.
    pub alpha: Binary32,
}

/// Low pass; it starts from its first input unless it was given a start.
#[derive(Clone, Copy, Debug, PartialEq)]
pub struct LowPassState {
    /// Last output.
    pub output: Binary32,
    /// Not zero once there is an output.
    pub initialized: i32,
}

impl LowPassState {
    /// Without a start value.
    pub open spec fn initial() -> LowPassState {
        LowPassState {
            output: b32(ZERO),
            initialized: 0,
        }
    }
}

impl Default for LowPassState {
    fn default() -> (r: LowPassState)
        ensures
            r == LowPassState::initial(),
    {
        LowPassState {
            output: b32(ZERO),
            initialized: 0,
        }
    }
}

impl LowPassState {
    /// The state that starts at an output.
    pub open spec fn started(output: Binary32) -> LowPassState {
        LowPassState { output, initialized: 1 }
    }

    /// The state after an input: the output moves towards it by the limited share.
    pub open spec fn updated(self, param: LowPassParam, input: Binary32) -> LowPassState {
        if self.initialized == 0 {
            LowPassState::started(input)
        } else {
            LowPassState {
                output: self.output + clamped(param.alpha, b32(ZERO), b32(ONE)) * (input
                    - self.output),
                initialized: self.initialized,
            }
        }
    }

    /// A filter that starts at an output.
    pub fn new(initial_output: Binary32) -> (r: LowPassState)
        ensures
            r == LowPassState::started(initial_output),
    {
        LowPassState { output: initial_output, initialized: 1 }
    }

    /// Starts again at an output.
    pub fn reset(&mut self, output: Binary32)
        ensures
            *final(self) == LowPassState::started(output),
    {
        self.output = output;
        self.initialized = 1;
    }

    /// Takes one input and returns the output.
    pub fn update(&mut self, param: &LowPassParam, input: Binary32) -> (r: Binary32)
        ensures
            *final(self) == old(self).updated(*param, input),
            r == final(self).output,
    {
        if self.initialized == 0 {
            self.reset(input);
            return self.output;
        }
        let alpha: Binary32 = clamp(param.alpha, b32(ZERO), b32(ONE));
        self.output = self.output + alpha * (input - self.output);
        self.output
    }
}

/// Coefficient of a high pass.
#[derive(Clone, Copy, Debug, Default, PartialEq)]
pub struct HighPassParam {
    /// How much of the last output is kept, from 0 to 1.
    pub alpha: Binary32,
}

/// High pass; a constant input gives an output of zero.
#[derive(Clone, Copy, Debug, PartialEq)]
pub struct HighPassState {
    /// Last input.
    pub last_input: Binary32,
    /// Last output.
    pub output: Binary32,
    /// Not zero once there is an input.
    pub initialized: i32,
}

impl HighPassState {
    /// Without a start value.
    pub open spec fn initial() -> HighPassState {
        HighPassState {
            last_input: b32(ZERO),
            output: b32(ZERO),
            initialized: 0,
        }
    }
}

impl Default for HighPassState {
    fn default() -> (r: HighPassState)
        ensures
            r == HighPassState::initial(),
    {
        HighPassState {
            last_input: b32(ZERO),
            output: b32(ZERO),
            initialized: 0,
        }
    }
}

impl HighPassState {
    /// The state at rest at an input.
    pub open spec fn started(input: Binary32) -> HighPassState {
        HighPassState { last_input: input, output: b32(ZERO), initialized: 1 }
    }

    /// The state after an input: the last output plus the change of the input, scaled.
    pub open spec fn updated(self, param: HighPassParam, input: Binary32) -> HighPassState {
        if self.initialized == 0 {
            HighPassState::started(input)
        } else {
            HighPassState {
                last_input: input,
                output: clamped(param.alpha, b32(ZERO), b32(ONE)) * (self.output + input
                    - self.last_input),
                initialized: self.initialized,
            }
        }
    }

    /// A filter at rest at an input.
    pub fn new(initial_input: Binary32) -> (r: HighPassState)
        ensures
            r == HighPassState::started(initial_input),
    {
        HighPassState { last_input: initial_input, output: b32(ZERO), initialized: 1 }
    }

    /// Starts again, at rest at an input.
    pub fn reset(&mut self, input: Binary32)
        ensures
            *final(self) == HighPassState::started(input),
    {
        *self = HighPassState::new(input);
    }

    /// Takes one input and returns the output.
    pub fn update(&mut self, param: &HighPassParam, input: Binary32) -> (r: Binary32)
        ensures
            *final(self) == old(self).updated(*param, input),
            r == final(self).output,
    {
        if self.initialized == 0 {
            self.reset(input);
            return self.output;
        }
        let alpha: Binary32 = clamp(param.alpha, b32(ZERO), b32(ONE));
        self.output = alpha * (self.output + input - self.last_input);
        self.last_input = input;
        self.output
    }
}

/// Period and coefficient of a differentiator.
#[derive(Clone, Copy, Debug, Default, PartialEq)]
pub struct DifferentiatorParam {
    /// Sample period in seconds.
    pub ts: Binary32,
    /// Share of the newest difference in the output, from 0 to 1.
    pub alpha: Binary32,
}

/// Filtered rate of change of the input.
#[derive(Clone, Copy, Debug, PartialEq)]
pub struct DifferentiatorState {
    /// Last input.
    pub last_input: Binary32,
    /// Last output.
    pub output: Binary32,
    /// Not zero once there is an input.
    pub initialized: i32,
}

impl DifferentiatorState {
    /// Without a start value.
    pub open spec fn initial() -> DifferentiatorState {
        DifferentiatorState {
            last_input: b32(ZERO),
            output: b32(ZERO),
            initialized: 0,
        }
    }
}

impl Default for DifferentiatorState {
    fn default() -> (r: DifferentiatorState)
        ensures
            r == DifferentiatorState::initial(),
    {
        DifferentiatorState {
            last_input: b32(ZERO),
            output: b32(ZERO),
            initialized: 0,
        }
    }
}

impl DifferentiatorState {
    /// The state at rest at an input.
    pub open spec fn started(input: Binary32) -> DifferentiatorState {
        DifferentiatorState { last_input: input, output: b32(ZERO), initialized: 1 }
    }

    /// The state after an input; a period that is zero or negative changes nothing.
    pub open spec fn updated(
        self,
        param: DifferentiatorParam,
        input: Binary32,
    ) -> DifferentiatorState {
        if param.ts <= b32(ZERO) {
            self
        } else if self.initialized == 0 {
            DifferentiatorState::started(input)
        } else {
            DifferentiatorState {
                last_input: input,
                output: filtered_rate(
                    self.output,
                    param.alpha,
                    input - self.last_input,
                    param.ts,
                ),
                initialized: self.initialized,
            }
        }
    }

    /// A differentiator at rest at an input.
    pub fn new(initial_input: Binary32) -> (r: DifferentiatorState)
        ensures
            r == DifferentiatorState::started(initial_input),
    {
        DifferentiatorState { last_input: initial_input, output: b32(ZERO), initialized: 1 }
    }

    /// Starts again, at rest at an input.
    pub fn reset(&mut self, input: Binary32)
        ensures
            *final(self) == DifferentiatorState::started(input),
    {
        *self = DifferentiatorState::new(input);
    }

    /// Takes one input and returns the rate, or 0 where the period is not valid.
    pub fn update(&mut self, param: &DifferentiatorParam, input: Binary32) -> (r: Binary32)
        ensures
            *final(self) == old(self).updated(*param, input),
            r == (if param.ts <= b32(ZERO) {
                b32(ZERO)
            } else {
                final(self).output
            }),
    {
        if param.ts <= b32(ZERO) {
            return b32(ZERO);
        }
        if self.initialized == 0 {
            self.reset(input);
            return self.output;
        }
        let alpha: Binary32 = clamp(param.alpha, b32(ZERO), b32(ONE));
        let raw: Binary32 = (input - self.last_input) / param.ts;
        self.output = self.output + alpha * (raw - self.output);
        self.last_input = input;
        self.output
    }
}

/// Without a start value, the first input is the first output, whatever the coefficient.
pub proof fn low_pass_adopts_first_input(param: LowPassParam, input: Binary32)
    ensures
        LowPassState::initial().updated(param, input).output == input,
{
}

/// The output of a low pass never moves away from its input.
pub proof fn low_pass_moves_towards_input(
    state: LowPassState,
    param: LowPassParam,
    input: Binary32,
)
    requires
        state.initialized != 0,
        !param.alpha.nan(),
        !state.output.nan(),
        (input - state.output).finite(),
    ensures
        input >= state.output ==> state.updated(param, input).output >= state.output,
        input <= state.output ==> state.updated(param, input).output <= state.output,
{
    let y = state.output;
    let alpha = clamped(param.alpha, b32(ZERO), b32(ONE));
    let difference = input - y;
    let step = alpha * difference;
    lemma_sum_kind(input, -y);
    lemma_mul_kind(alpha, difference);
    product_follows_signs(alpha, difference);
    zero_is_neutral(y, b32(ZERO));
    addition_is_commutative(y, b32(ZERO));
    addition_is_commutative(y, step);
    lemma_sum_kind(y, step);
    difference_with_itself_is_zero(y);
    if input >= y {
        addition_keeps_order(y, input, -y);
        addition_keeps_order(b32(ZERO), step, y);
    }
    if input <= y {
        addition_keeps_order(input, y, -y);
        addition_keeps_order(step, b32(ZERO), y);
    }
}

/// A coefficient of zero or less freezes the output.
pub proof fn low_pass_can_be_frozen(
    state: LowPassState,
    param: LowPassParam,
    input: Binary32,
)
    requires
        state.initialized != 0,
        param.alpha <= b32(ZERO),
        !state.output.nan(),
        (input - state.output).finite(),
    ensures
        state.updated(param, input).output.same(state.output),
{
    let alpha = clamped(param.alpha, b32(ZERO), b32(ONE));
    let difference = input - state.output;
    product_with_zero_is_zero(difference, alpha);
    multiplication_is_commutative(difference, alpha);
    zero_is_neutral(state.output, alpha * difference);
}

/// A high pass at rest stays at zero while the input stays what it was.
pub proof fn high_pass_blocks_constant_input(
    state: HighPassState,
    param: HighPassParam,
    input: Binary32,
)
    requires
        state.initialized != 0,
        state.last_input == input,
        state.output.zero(),
        !param.alpha.nan(),
        input.finite(),
    ensures
        state.updated(param, input).output.zero(),
{
    let alpha = clamped(param.alpha, b32(ZERO), b32(ONE));
    let sum = state.output + input;
    zero_is_neutral(input, state.output);
    addition_is_commutative(input, state.output);
    if input.zero() {
        sum_of_zeros_is_zero(sum, -input);
    } else {
        difference_with_itself_is_zero(input);
    }
    product_with_zero_is_zero(alpha, sum - input);
}

/// A differentiator at rest stays at zero while the input stays what it was.
pub proof fn differentiator_of_constant_input_is_zero(
    state: DifferentiatorState,
    param: DifferentiatorParam,
    input: Binary32,
)
    requires
        state.initialized != 0,
        state.last_input == input,
        state.output.zero(),
        param.ts > b32(ZERO),
        !param.alpha.nan(),
        input.finite(),
    ensures
        state.updated(param, input).output.zero(),
{
    let alpha = clamped(param.alpha, b32(ZERO), b32(ONE));
    let raw = (input - input) / param.ts;
    difference_with_itself_is_zero(input);
    quotient_of_zero_is_zero(input - input, param.ts);
    sum_of_zeros_is_zero(raw, -state.output);
    product_with_zero_is_zero(alpha, raw - state.output);
    sum_of_zeros_is_zero(state.output, alpha * (raw - state.output));
}

} // verus!
