//! What one step of each filter does to exact reals, up to rounding.
use vstd::prelude::*;
use crate::binary32::b32;
use crate::binary32::Binary32;
use crate::binary32::ONE;
use crate::binary32::ZERO;
use crate::controller_laws::difference_of_equals_is_zero;
use crate::equations::is_high_passed;
use crate::equations::lemma_is_high_passed;
use crate::filter::DifferentiatorParam;
use crate::filter::DifferentiatorState;
use crate::filter::HighPassParam;
use crate::filter::HighPassState;
use crate::filter::LowPassParam;
use crate::filter::LowPassState;
use crate::rounded_steps::is_faded;
use crate::rounded_steps::is_filtered_rate;
use crate::rounded_steps::is_smoothed;
use crate::rounded_steps::lemma_filtered_rate;
use crate::rounded_steps::lemma_rate_decays;
use crate::rounded_steps::smoothing_takes_share_of_way;

verus! {

/// A low-pass filter starts with its first input, and then moves by its share of the way to
/// each input.
pub proof fn low_pass_takes_share_of_way(state: LowPassState, param: LowPassParam, input: Binary32)
    requires
        !param.alpha.nan(),
    ensures
        ({
            let next = state.updated(param, input);
            &&& next.initialized != 0
            &&& state.initialized == 0 ==> next.output == input
            &&& state.initialized != 0 && next.output.finite() ==> is_smoothed(
                next.output,
                state.output,
                param.alpha,
                input,
            )
        }),
{
    let next = state.updated(param, input);
    if state.initialized != 0 && next.output.finite() {
        smoothing_takes_share_of_way(state.output, param.alpha, input);
    }
}

/// A high-pass filter starts at zero, and then gives its share of what it gave before and of
/// the change of its input together.
pub proof fn high_pass_follows_changes(
    state: HighPassState,
    param: HighPassParam,
    input: Binary32,
)
    requires
        !param.alpha.nan(),
    ensures
        ({
            let next = state.updated(param, input);
            &&& next.initialized != 0
            &&& next.last_input == input
            &&& state.initialized == 0 ==> next.output.zero()
            &&& state.initialized != 0 && next.output.finite() ==> is_high_passed(
                next.output,
                param.alpha,
                state.output,
                input,
                state.last_input,
            )
        }),
{
    lemma_is_high_passed(param.alpha, state.output, input, state.last_input);
}

/// A differentiator starts at zero, and then moves by its share of the way to the difference
/// quotient of its input.
pub proof fn differentiator_follows_slope(
    state: DifferentiatorState,
    param: DifferentiatorParam,
    input: Binary32,
)
    requires
        param.ts > b32(ZERO),
        param.ts.finite(),
        !param.alpha.nan(),
    ensures
        ({
            let next = state.updated(param, input);
            &&& next.initialized != 0
            &&& next.last_input == input
            &&& state.initialized == 0 ==> next.output.zero()
            &&& state.initialized != 0 && next.output.finite() ==> is_filtered_rate(
                next.output,
                state.output,
                param.alpha,
                input,
                state.last_input,
                param.ts,
            )
        }),
{
    let next = state.updated(param, input);
    if state.initialized != 0 && next.output.finite() {
        lemma_filtered_rate(state.output, param.alpha, input, state.last_input, param.ts);
    }
}

/// While its input does not change, a differentiator moves towards zero and never past it:
/// the share of the step is taken off, and a full share leaves zero.
pub proof fn differentiator_decays(
    state: DifferentiatorState,
    param: DifferentiatorParam,
    input: Binary32,
)
    requires
        param.ts > b32(ZERO),
        !param.alpha.nan(),
        state.initialized != 0,
        state.output.finite(),
        input.finite(),
        state.last_input.same(input),
    ensures
        ({
            let before = state.output;
            let after = state.updated(param, input).output;
            &&& before >= b32(ZERO) ==> after.within(b32(ZERO), before)
            &&& before <= b32(ZERO) ==> after.within(before, b32(ZERO))
            &&& param.alpha >= b32(ONE) ==> after.zero()
            &&& is_faded(after, before, param.alpha)
        }),
{
    difference_of_equals_is_zero(input, state.last_input);
    lemma_rate_decays(state.output, param.alpha, input - state.last_input, param.ts);
}

} // verus!
