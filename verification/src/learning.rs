//! A small neural network and a table of action values learned from rewards.
use vstd::prelude::*;
use crate::binary32::b32;
use crate::binary32::Binary32;
use crate::binary32::ZERO;
use crate::equations::is_offset_product;
use crate::equations::lemma_is_offset_product;
use crate::math::clamp;
use crate::math::clamped;
use crate::math::limited;
use crate::rounded_steps::differences_are_rounded;
use crate::rounded_steps::is_difference;

verus! {

/// Weights of a network with two inputs, three hidden nodes and one output.
#[derive(Clone, Copy, Debug, Default, PartialEq)]
pub struct NeuralNetworkParam {
    /// Weight of each input in each hidden node.
    pub w1: [[Binary32; 2]; 3],
    /// Bias of each hidden node.
    pub b1: [Binary32; 3],
    /// Weight of each hidden node in the output.
    pub w2: [Binary32; 3],
    /// Bias of the output.
    pub b2: Binary32,
    pub out_min: Binary32,
    pub out_max: Binary32,
}

/// The last activations and output of a network.
#[derive(Clone, Copy, Debug, PartialEq)]
pub struct NeuralNetworkState {
    pub hidden: [Binary32; 3],
    pub output: Binary32,
}

impl Default for NeuralNetworkState {
    fn default() -> (r: NeuralNetworkState)
        ensures
            r.hidden@ == seq![b32(ZERO), b32(ZERO), b32(ZERO)],
            r.output == b32(ZERO),
    {
        NeuralNetworkState { hidden: [b32(ZERO), b32(ZERO), b32(ZERO)], output: b32(ZERO) }
    }
}

/// The weighted inputs of hidden node `i`.
pub open spec fn hidden_sum(
    param: NeuralNetworkParam,
    i: int,
    input0: Binary32,
    input1: Binary32,
) -> Binary32 {
    param.w1[i][0] * input0 + param.w1[i][1] * input1 + param.b1[i]
}

/// The limited output for given activations of the hidden nodes.
pub open spec fn network_output(
    param: NeuralNetworkParam,
    h0: Binary32,
    h1: Binary32,
    h2: Binary32,
) -> Binary32 {
    clamped(
        param.b2 + param.w2[0] * h0 + param.w2[1] * h1 + param.w2[2] * h2,
        param.out_min,
        param.out_max,
    )
}

impl NeuralNetworkState {
    /// Forgets the last activations and output.
    pub fn reset(&mut self)
        ensures
            final(self).hidden@ == seq![b32(ZERO), b32(ZERO), b32(ZERO)],
            final(self).output == b32(ZERO),
    {
        *self = NeuralNetworkState::default();
    }

    /// Sets the activations of the hidden nodes and returns the output.
    pub fn update_activated(
        &mut self,
        param: &NeuralNetworkParam,
        h0: Binary32,
        h1: Binary32,
        h2: Binary32,
    ) -> (r: Binary32)
        ensures
            final(self).hidden@ == seq![h0, h1, h2],
            final(self).output == network_output(*param, h0, h1, h2),
            r == final(self).output,
    {
        self.hidden = [h0, h1, h2];
        let output: Binary32 = param.b2 + param.w2[0] * h0 + param.w2[1] * h1 + param.w2[2] * h2;
        self.output = clamp(output, param.out_min, param.out_max);
        self.output
    }

    /// Runs the network on two inputs, with `tanh` as activation of the hidden nodes.
    pub fn update<T: Fn(Binary32) -> Binary32>(
        &mut self,
        param: &NeuralNetworkParam,
        input0: Binary32,
        input1: Binary32,
        tanh: &T,
    ) -> (r: Binary32)
        requires
            forall|i: int|
                0 <= i < 3 ==> tanh.requires((#[trigger] hidden_sum(*param, i, input0, input1),)),
        ensures
            forall|i: int|
                0 <= i < 3 ==> tanh.ensures(
                    (#[trigger] hidden_sum(*param, i, input0, input1),),
                    final(self).hidden[i],
                ),
            final(self).output == network_output(
                *param,
                final(self).hidden[0],
                final(self).hidden[1],
                final(self).hidden[2],
            ),
            r == final(self).output,
    {
        let sum0: Binary32 = param.w1[0][0] * input0 + param.w1[0][1] * input1 + param.b1[0];
        let sum1: Binary32 = param.w1[1][0] * input0 + param.w1[1][1] * input1 + param.b1[1];
        let sum2: Binary32 = param.w1[2][0] * input0 + param.w1[2][1] * input1 + param.b1[2];
        assert(sum0 == hidden_sum(*param, 0, input0, input1));
        assert(sum1 == hidden_sum(*param, 1, input0, input1));
        assert(sum2 == hidden_sum(*param, 2, input0, input1));
        let h0: Binary32 = tanh(sum0);
        let h1: Binary32 = tanh(sum1);
        let h2: Binary32 = tanh(sum2);
        self.update_activated(param, h0, h1, h2)
    }
}

/// Number of states that the table has room for.
pub const RL_MAX_STATES: usize = 8;

/// Number of actions that the table has room for.
pub const RL_MAX_ACTIONS: usize = 4;

/// Size of the part of the table in use, and learning rates.
#[derive(Clone, Copy, Debug, Default, PartialEq)]
pub struct ReinforcementLearningParam {
    pub state_count: i32,
    pub action_count: i32,
    /// Share of a new estimate in an entry.
    pub alpha: Binary32,
    /// Weight of the next state in an estimate.
    pub gamma: Binary32,
}

/// Learned values of all actions in all states.
#[derive(Clone, Copy, Debug, PartialEq)]
pub struct ReinforcementLearningState {
    /// Value of each action in each state.
    pub q: [[Binary32; 4]; 8],
    /// Last action selected.
    pub best_action: i32,
    /// Last difference between an estimate and the entry it corrected.
    pub last_td_error: Binary32,
}

impl ReinforcementLearningParam {
    /// Whether an entry lies in the part of the table in use, and that part in the table.
    pub open spec fn valid(self, state: int, action: int) -> bool {
        &&& 0 < self.state_count <= RL_MAX_STATES
        &&& 0 < self.action_count <= RL_MAX_ACTIONS
        &&& 0 <= state < self.state_count
        &&& 0 <= action < self.action_count
    }
}

fn valid_index(param: &ReinforcementLearningParam, state: i32, action: i32) -> (r: bool)
    ensures
        r == param.valid(state as int, action as int),
{
    param.state_count > 0 && param.state_count <= RL_MAX_STATES as i32 && param.action_count > 0
        && param.action_count <= RL_MAX_ACTIONS as i32 && state >= 0 && state < param.state_count
        && action >= 0 && action < param.action_count
}

/// The action that remains after comparing the first `count` actions in order, where only a
/// strictly larger value replaces an earlier one.
pub open spec fn greedy(row: Seq<Binary32>, count: int) -> int
    decreases count,
{
    if count <= 1 {
        0
    } else {
        let best = greedy(row, count - 1);
        if row[count - 1] > row[best] {
            count - 1
        } else {
            best
        }
    }
}

impl ReinforcementLearningState {
    /// The values of the actions in a state.
    pub open spec fn row(self, state: int) -> Seq<Binary32> {
        self.q[state]@
    }

    /// Whether every entry and the notes are zero.
    pub open spec fn blank(self) -> bool {
        &&& forall|s: int, a: int|
            0 <= s < 8 && 0 <= a < 4 ==> #[trigger] self.row(s)[a] == b32(ZERO)
        &&& self.best_action == 0
        &&& self.last_td_error == b32(ZERO)
    }

    /// The estimate for an action that earned `reward` and led to `next_state`.
    pub open spec fn target(
        self,
        param: ReinforcementLearningParam,
        reward: Binary32,
        next_state: int,
    ) -> Binary32 {
        let row = self.row(next_state);
        reward + param.gamma * row[greedy(row, param.action_count as int)]
    }

    /// Whether a step of learning is within the part of the table in use.
    pub open spec fn accepts(
        param: ReinforcementLearningParam,
        state: int,
        action: int,
        next_state: int,
    ) -> bool {
        param.valid(state, action) && 0 <= next_state < param.state_count
    }

    /// Forgets all that was learned.
    pub fn reset(&mut self)
        ensures
            final(self).blank(),
    {
        *self = ReinforcementLearningState::default();
    }

    /// Selects the action with the largest value in a state; 0 where the state is not in use.
    pub fn select_action(
        &mut self,
        param: &ReinforcementLearningParam,
        state_index: i32,
    ) -> (r: i32)
        ensures
            final(self).q == old(self).q,
            final(self).last_td_error == old(self).last_td_error,
            param.valid(state_index as int, 0) ==> r == greedy(
                old(self).row(state_index as int),
                param.action_count as int,
            ) && final(self).best_action == r,
            !param.valid(state_index as int, 0) ==> r == 0 && final(self).best_action == old(
                self,
            ).best_action,
    {
        if !valid_index(param, state_index, 0) {
            return 0;
        }
        let state: usize = state_index as usize;
        let mut best: usize = 0;
        let mut best_value: Binary32 = self.q[state][0];
        let count: usize = param.action_count as usize;
        for action in 1..count
            invariant
                self.q == old(self).q,
                1 <= action <= count <= 4,
                state < 8,
                best == greedy(self.row(state as int), action as int),
                best < action,
                best_value == self.row(state as int)[best as int],
        {
            if self.q[state][action] > best_value {
                best_value = self.q[state][action];
                best = action;
            }
        }
        self.best_action = best as i32;
        self.best_action
    }

    /// Corrects the entry of an action by the reward it earned and the best value of the
    /// state it led to; changes nothing where an index is not in use.
    pub fn update(
        &mut self,
        param: &ReinforcementLearningParam,
        state_index: i32,
        action_index: i32,
        reward: Binary32,
        next_state_index: i32,
    )
        ensures
            !ReinforcementLearningState::accepts(
                *param,
                state_index as int,
                action_index as int,
                next_state_index as int,
            ) ==> *final(self) == *old(self),
            ReinforcementLearningState::accepts(
                *param,
                state_index as int,
                action_index as int,
                next_state_index as int,
            ) ==> {
                let entry = old(self).row(state_index as int)[action_index as int];
                let error = old(self).target(*param, reward, next_state_index as int) - entry;
                &&& final(self).best_action == old(self).best_action
                &&& final(self).last_td_error == error
                &&& final(self).row(state_index as int)[action_index as int] == entry
                    + param.alpha * error
                &&& error.finite() ==> is_difference(
                    final(self).last_td_error,
                    old(self).target(*param, reward, next_state_index as int),
                    entry,
                )
                &&& final(self).row(state_index as int)[action_index as int].finite()
                    ==> is_offset_product(
                    final(self).row(state_index as int)[action_index as int],
                    entry,
                    param.alpha,
                    final(self).last_td_error,
                )
                &&& forall|s: int, a: int|
                    0 <= s < 8 && 0 <= a < 4 && !(s == state_index && a == action_index)
                        ==> #[trigger] final(self).row(s)[a] == old(self).row(s)[a]
            },
    {
        if !valid_index(param, state_index, action_index) || next_state_index < 0
            || next_state_index >= param.state_count {
            return;
        }
        let state: usize = state_index as usize;
        let action: usize = action_index as usize;
        let next_state: usize = next_state_index as usize;
        let mut next_best: Binary32 = self.q[next_state][0];
        let count: usize = param.action_count as usize;
        for next_action in 1..count
            invariant
                *self == *old(self),
                1 <= next_action <= count <= 4,
                next_state < 8,
                0 <= greedy(self.row(next_state as int), next_action as int) < next_action,
                next_best == self.row(next_state as int)[greedy(
                    self.row(next_state as int),
                    next_action as int,
                )],
        {
            if self.q[next_state][next_action] > next_best {
                next_best = self.q[next_state][next_action];
            }
        }
        let target: Binary32 = reward + param.gamma * next_best;
        proof {
            let entry = self.q[state as int][action as int];
            differences_are_rounded(target, entry);
            lemma_is_offset_product(entry, param.alpha, target - entry);
        }
        self.last_td_error = target - self.q[state][action];
        self.q[state][action] = self.q[state][action] + param.alpha * self.last_td_error;
    }
}

proof fn lemma_greedy_index(row: Seq<Binary32>, count: int)
    requires
        count >= 1,
    ensures
        0 <= greedy(row, count) < count,
    decreases count,
{
    if count > 1 {
        lemma_greedy_index(row, count - 1);
    }
}

/// The selected action is the first of those with the largest value.
pub proof fn greedy_action_is_first_best(row: Seq<Binary32>, count: int)
    requires
        1 <= count <= row.len(),
        forall|a: int| 0 <= a < count ==> !(#[trigger] row[a]).nan(),
    ensures
        0 <= greedy(row, count) < count,
        forall|a: int| 0 <= a < count ==> #[trigger] row[a] <= row[greedy(row, count)],
        forall|a: int| 0 <= a < greedy(row, count) ==> #[trigger] row[a] < row[greedy(row, count)],
    decreases count,
{
    lemma_greedy_index(row, count);
    if count > 1 {
        greedy_action_is_first_best(row, count - 1);
    }
}

/// In a state whose values are all equal, the first action is selected.
pub proof fn greedy_action_of_equal_values(row: Seq<Binary32>, count: int)
    requires
        1 <= count <= row.len(),
        forall|a: int| 0 <= a < count ==> #[trigger] row[a] == row[0],
    ensures
        greedy(row, count) == 0,
    decreases count,
{
    if count > 1 {
        greedy_action_of_equal_values(row, count - 1);
    }
}

/// The output of the network is a NaN or keeps its limits.
pub proof fn network_output_is_limited(
    param: NeuralNetworkParam,
    h0: Binary32,
    h1: Binary32,
    h2: Binary32,
)
    requires
        !param.out_min.nan(),
        !param.out_max.nan(),
    ensures
        limited(network_output(param, h0, h1, h2), param.out_min, param.out_max),
{
}

impl Default for ReinforcementLearningState {
    fn default() -> (r: ReinforcementLearningState)
        ensures
            r.blank(),
    {
        ReinforcementLearningState {
            q: [[b32(ZERO); 4]; 8],
            best_action: 0,
            last_td_error: b32(ZERO),
        }
    }
}

} // verus!
