//! Genetic search over one parameter: crossover, mutation, and the best candidate so far.
use vstd::prelude::*;
use crate::arithmetic::addition_is_commutative;
use crate::binary32::b32;
use crate::binary32::Binary32;
use crate::binary32::HALF;
use crate::binary32::ZERO;
use crate::math::clamp;
use crate::math::clamped;
use crate::math::limited;

verus! {

/// Range of the parameter and size of a mutation.
#[derive(Clone, Copy, Debug, Default, PartialEq)]
pub struct GeneticAlgorithmParam {
    pub value_min: Binary32,
    pub value_max: Binary32,
    /// Change of the parameter for a mutation signal of one.
    pub mutation_step: Binary32,
}

/// Best candidate so far.
#[derive(Clone, Copy, Debug, PartialEq)]
pub struct GeneticAlgorithmState {
    pub best_value: Binary32,
    pub best_fitness: Binary32,
}

impl GeneticAlgorithmState {
    /// Value and fitness zero.
    pub open spec fn initial() -> GeneticAlgorithmState {
        GeneticAlgorithmState {
            best_value: b32(ZERO),
            best_fitness: b32(ZERO),
        }
    }
}

impl Default for GeneticAlgorithmState {
    fn default() -> (r: GeneticAlgorithmState)
        ensures
            r == GeneticAlgorithmState::initial(),
    {
        GeneticAlgorithmState {
            best_value: b32(ZERO),
            best_fitness: b32(ZERO),
        }
    }
}

impl GeneticAlgorithmState {
    /// The state after a candidate, which has to be strictly fitter to be taken.
    pub open spec fn updated(
        self,
        candidate_value: Binary32,
        candidate_fitness: Binary32,
    ) -> GeneticAlgorithmState {
        if candidate_fitness > self.best_fitness {
            GeneticAlgorithmState { best_value: candidate_value, best_fitness: candidate_fitness }
        } else {
            self
        }
    }

    /// A search that starts from a known candidate.
    pub fn new(initial_value: Binary32, initial_fitness: Binary32) -> (r: GeneticAlgorithmState)
        ensures
            r == (GeneticAlgorithmState {
                best_value: initial_value,
                best_fitness: initial_fitness,
            }),
    {
        GeneticAlgorithmState { best_value: initial_value, best_fitness: initial_fitness }
    }

    /// Starts again from a known candidate.
    pub fn reset(&mut self, value: Binary32, fitness: Binary32)
        ensures
            *final(self) == (GeneticAlgorithmState { best_value: value, best_fitness: fitness }),
    {
        *self = GeneticAlgorithmState::new(value, fitness);
    }

    /// Takes the candidate if it is fitter than the best so far.
    pub fn apply_candidate(&mut self, candidate_value: Binary32, candidate_fitness: Binary32)
        ensures
            *final(self) == old(self).updated(candidate_value, candidate_fitness),
    {
        if candidate_fitness > self.best_fitness {
            self.best_fitness = candidate_fitness;
            self.best_value = candidate_value;
        }
    }
}

/// The mean of the parents, moved by the mutation and limited to the range.
pub open spec fn child_of(
    param: GeneticAlgorithmParam,
    parent_a: Binary32,
    parent_b: Binary32,
    mutation_signal: Binary32,
) -> Binary32 {
    clamped(
        b32(HALF) * (parent_a + parent_b) + param.mutation_step * mutation_signal,
        param.value_min,
        param.value_max,
    )
}

/// The child of two parents, changed by a mutation signal that the caller draws.
pub fn crossover_mutate(
    param: &GeneticAlgorithmParam,
    parent_a: Binary32,
    parent_b: Binary32,
    mutation_signal: Binary32,
) -> (r: Binary32)
    ensures
        r == child_of(*param, parent_a, parent_b, mutation_signal),
{
    let child: Binary32 = b32(HALF) * (parent_a + parent_b) + param.mutation_step
        * mutation_signal;
    clamp(child, param.value_min, param.value_max)
}

/// The best fitness never falls.
pub proof fn best_fitness_never_falls(
    state: GeneticAlgorithmState,
    candidate_value: Binary32,
    candidate_fitness: Binary32,
)
    requires
        !state.best_fitness.nan(),
    ensures
        state.updated(candidate_value, candidate_fitness).best_fitness >= state.best_fitness,
        !candidate_fitness.nan() ==> state.updated(
            candidate_value,
            candidate_fitness,
        ).best_fitness >= candidate_fitness,
{
}

/// The best pair is always one that was submitted: the new candidate or the one before.
pub proof fn best_pair_was_submitted(
    state: GeneticAlgorithmState,
    candidate_value: Binary32,
    candidate_fitness: Binary32,
)
    ensures
        state.updated(candidate_value, candidate_fitness) == state || state.updated(
            candidate_value,
            candidate_fitness,
        ) == (GeneticAlgorithmState {
            best_value: candidate_value,
            best_fitness: candidate_fitness,
        }),
{
}

/// Submitting a candidate again changes nothing.
pub proof fn repeated_candidate_changes_nothing(
    state: GeneticAlgorithmState,
    candidate_value: Binary32,
    candidate_fitness: Binary32,
)
    ensures
        state.updated(candidate_value, candidate_fitness).updated(
            candidate_value,
            candidate_fitness,
        ) == state.updated(candidate_value, candidate_fitness),
{
}

/// A child is a NaN or lies in the range of the parameter.
pub proof fn child_lies_in_range(
    param: GeneticAlgorithmParam,
    parent_a: Binary32,
    parent_b: Binary32,
    mutation_signal: Binary32,
)
    requires
        !param.value_min.nan(),
        !param.value_max.nan(),
    ensures
        limited(
            child_of(param, parent_a, parent_b, mutation_signal),
            param.value_min,
            param.value_max,
        ),
{
}

/// The parents may be exchanged.
pub proof fn crossover_is_symmetric(
    param: GeneticAlgorithmParam,
    parent_a: Binary32,
    parent_b: Binary32,
    mutation_signal: Binary32,
)
    ensures
        child_of(param, parent_a, parent_b, mutation_signal) == child_of(
            param,
            parent_b,
            parent_a,
            mutation_signal,
        ),
{
    addition_is_commutative(parent_a, parent_b);
}

} // verus!
