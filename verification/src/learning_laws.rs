//! What the learners and the genetic search do to exact reals, up to rounding.
use vstd::prelude::*;
use crate::binary32::b32;
use crate::binary32::Binary32;
use crate::binary32::HALF;
use crate::equations::is_biased_sum_of_three;
use crate::equations::is_biased_sum_of_two;
use crate::equations::is_mutated_mean;
use crate::equations::is_offset_product;
use crate::equations::lemma_is_biased_sum_of_three;
use crate::equations::lemma_is_biased_sum_of_two;
use crate::equations::lemma_is_mutated_mean;
use crate::equations::lemma_is_offset_product;
use crate::genetic::child_of;
use crate::genetic::GeneticAlgorithmParam;
use crate::learning::greedy;
use crate::learning::hidden_sum;
use crate::learning::network_output;
use crate::learning::NeuralNetworkParam;
use crate::learning::ReinforcementLearningParam;
use crate::learning::ReinforcementLearningState;
use crate::running_error::not_limited;
use crate::running_error::strictly_inside;

verus! {

/// Each hidden node sums its weighted inputs and its bias, and the output sums the weighted
/// activations and its bias.
pub proof fn network_sums_weighted_inputs(
    param: NeuralNetworkParam,
    i: int,
    input0: Binary32,
    input1: Binary32,
    h0: Binary32,
    h1: Binary32,
    h2: Binary32,
)
    requires
        0 <= i < 3,
    ensures
        ({
            let sum = hidden_sum(param, i, input0, input1);
            let out = network_output(param, h0, h1, h2);
            &&& sum.finite() ==> is_biased_sum_of_two(
                sum,
                param.w1[i][0],
                input0,
                param.w1[i][1],
                input1,
                param.b1[i],
            )
            &&& strictly_inside(out, param.out_min, param.out_max) ==> is_biased_sum_of_three(
                out,
                param.b2,
                param.w2[0],
                h0,
                param.w2[1],
                h1,
                param.w2[2],
                h2,
            )
        }),
{
    let w = param.w1[i];
    lemma_is_biased_sum_of_two(w[0], input0, w[1], input1, param.b1[i]);
    let v = param.w2;
    lemma_is_biased_sum_of_three(param.b2, v[0], h0, v[1], h1, v[2], h2);
    if strictly_inside(network_output(param, h0, h1, h2), param.out_min, param.out_max) {
        not_limited(
            param.b2 + v[0] * h0 + v[1] * h1 + v[2] * h2,
            param.out_min,
            param.out_max,
        );
    }
}

/// The value that an action is expected to reach is the reward and the discounted value of
/// the best action afterwards.
pub proof fn target_adds_discounted_value(
    state: ReinforcementLearningState,
    param: ReinforcementLearningParam,
    reward: Binary32,
    next_state: int,
    best: int,
)
    requires
        best == greedy(state.row(next_state), param.action_count as int),
        state.target(param, reward, next_state).finite(),
    ensures
        is_offset_product(
            state.target(param, reward, next_state),
            reward,
            param.gamma,
            state.row(next_state)[best],
        ),
{
    lemma_is_offset_product(reward, param.gamma, state.row(next_state)[best]);
}

/// A child that is not at a limit is the mean of its parents, moved by the mutation.
pub proof fn child_is_mutated_mean(
    param: GeneticAlgorithmParam,
    parent_a: Binary32,
    parent_b: Binary32,
    mutation_signal: Binary32,
)
    ensures
        ({
            let child = child_of(param, parent_a, parent_b, mutation_signal);
            strictly_inside(child, param.value_min, param.value_max) ==> is_mutated_mean(
                child,
                parent_a,
                parent_b,
                param.mutation_step,
                mutation_signal,
            )
        }),
{
    lemma_is_mutated_mean(parent_a, parent_b, param.mutation_step, mutation_signal);
    let child = child_of(param, parent_a, parent_b, mutation_signal);
    if strictly_inside(child, param.value_min, param.value_max) {
        not_limited(
            b32(HALF) * (parent_a + parent_b) + param.mutation_step * mutation_signal,
            param.value_min,
            param.value_max,
        );
    }
}

} // verus!
