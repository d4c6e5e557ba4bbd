//! Further scalar controllers: adaptive, backstepping, fuzzy, robust and optimal state
//! feedback, predictive, model-reference adaptive and sliding mode.
use core::ops::Neg;
use vstd::prelude::*;
use crate::accuracy::lemma_around_one;
use crate::accuracy::lemma_product_of_difference;
use crate::accuracy::lemma_product_of_sum;
use crate::arithmetic::addition_is_commutative;
use crate::arithmetic::addition_keeps_order;
use crate::arithmetic::complement_sums_to_one;
use crate::arithmetic::lemma_mul_kind;
use crate::arithmetic::lemma_one;
use crate::arithmetic::lemma_power_mag;
use crate::arithmetic::lemma_rounded_mag_exact;
use crate::arithmetic::lemma_rounded_mag_order;
use crate::arithmetic::lemma_rounded_sum_exact;
use crate::arithmetic::lemma_sum_kind;
use crate::arithmetic::multiplication_is_commutative;
use crate::arithmetic::one_is_neutral;
use crate::arithmetic::order_is_value_order;
use crate::arithmetic::power_mag;
use crate::arithmetic::product_error_is_at_most_half_spacing;
use crate::arithmetic::product_follows_signs;
use crate::arithmetic::product_with_zero_is_zero;
use crate::arithmetic::quotient_by_larger_is_fraction;
use crate::arithmetic::quotient_by_smaller_is_at_least_one;
use crate::arithmetic::quotient_of_zero_is_zero;
use crate::arithmetic::sum_error_is_at_most_half_spacing;
use crate::arithmetic::sum_of_non_negatives;
use crate::arithmetic::sum_of_zeros_is_zero;
use crate::arithmetic::zero_is_neutral;
use crate::binary32::b32;
use crate::binary32::Binary32;
use crate::binary32::HALF;
use crate::binary32::INFINITY;
use crate::binary32::MAX_FINITE;
use crate::binary32::MINUS_ONE;
use crate::binary32::nearest_to_int;
use crate::binary32::ONE;
use crate::binary32::ZERO;
use crate::math::clamp;
use crate::math::clamped;
use crate::math::limited;
use crate::math::saturate;
use crate::math::saturated;
use crate::math::saturated_sign_is_limited;
use crate::nearest::lemma_mag_units_order;
use crate::nearest::rounding_is_exact;
use crate::nearest::rounding_is_monotone;
use vstd::arithmetic::power2::lemma2_to64;
use vstd::arithmetic::power2::lemma_pow2_adds;
use vstd::arithmetic::power2::lemma_pow2_pos;
use vstd::arithmetic::power2::lemma_pow2_unfold;
use vstd::arithmetic::power2::pow2;
use vstd::math::abs;

verus! {

/// Parameters of the adaptive controller.
#[derive(Clone, Copy, Debug, Default, PartialEq)]
pub struct AdaptiveParam {
    pub learning_rate: Binary32,
    /// Sample period in seconds.
    pub ts: Binary32,
    pub gain_min: Binary32,
    pub gain_max: Binary32,
    pub out_min: Binary32,
    pub out_max: Binary32,
}

/// Proportional controller whose gain follows the error.
#[derive(Clone, Copy, Debug, PartialEq)]
pub struct AdaptiveState {
    pub gain: Binary32,
    /// Last error, reference less feedback.
    pub error: Binary32,
    /// Last limited output.
    pub output: Binary32,
}

impl AdaptiveState {
    /// With gain zero.
    pub open spec fn initial() -> AdaptiveState {
        AdaptiveState {
            gain: b32(ZERO),
            error: b32(ZERO),
            output: b32(ZERO),
        }
    }
}

impl Default for AdaptiveState {
    fn default() -> (r: AdaptiveState)
        ensures
            r == AdaptiveState::initial(),
    {
        AdaptiveState {
            gain: b32(ZERO),
            error: b32(ZERO),
            output: b32(ZERO),
        }
    }
}

impl AdaptiveState {
    /// The state with a gain and nothing else.
    pub open spec fn started(gain: Binary32) -> AdaptiveState {
        AdaptiveState { gain, error: b32(ZERO), output: b32(ZERO) }
    }

    /// The state after a step; a period that is zero or negative changes nothing.
    pub open spec fn updated(
        self,
        param: AdaptiveParam,
        reference: Binary32,
        feedback: Binary32,
    ) -> AdaptiveState {
        let error = reference - feedback;
        let gain = clamped(
            self.gain + param.learning_rate * error * reference * param.ts,
            param.gain_min,
            param.gain_max,
        );
        if param.ts <= b32(ZERO) {
            self
        } else {
            AdaptiveState {
                gain,
                error,
                output: clamped(gain * error, param.out_min, param.out_max),
            }
        }
    }

    /// A controller that starts with a gain.
    pub fn new(initial_gain: Binary32) -> (r: AdaptiveState)
        ensures
            r == AdaptiveState::started(initial_gain),
    {
        AdaptiveState { gain: initial_gain, error: b32(ZERO), output: b32(ZERO) }
    }

    /// Starts again with a gain.
    pub fn reset(&mut self, gain: Binary32)
        ensures
            *final(self) == AdaptiveState::started(gain),
    {
        *self = AdaptiveState::new(gain);
    }

    /// Makes one step and returns the limited output, or 0 where the period is not valid.
    pub fn update(
        &mut self,
        param: &AdaptiveParam,
        reference: Binary32,
        feedback: Binary32,
    ) -> (r: Binary32)
        ensures
            *final(self) == old(self).updated(*param, reference, feedback),
            r == (if param.ts <= b32(ZERO) {
                b32(ZERO)
            } else {
                final(self).output
            }),
    {
        if param.ts <= b32(ZERO) {
            return b32(ZERO);
        }
        self.error = reference - feedback;
        self.gain = self.gain + param.learning_rate * self.error * reference * param.ts;
        self.gain = clamp(self.gain, param.gain_min, param.gain_max);
        self.output = clamp(self.gain * self.error, param.out_min, param.out_max);
        self.output
    }
}

/// Gains and limits of the backstepping controller.
#[derive(Clone, Copy, Debug, Default, PartialEq)]
pub struct BacksteppingParam {
    pub k1: Binary32,
    pub k2: Binary32,
    pub out_min: Binary32,
    pub out_max: Binary32,
}

/// Backstepping controller of a double integrator.
#[derive(Clone, Copy, Debug, PartialEq)]
pub struct BacksteppingState {
    /// Position error.
    pub e1: Binary32,
    /// Error of the rate against the virtual control.
    pub e2: Binary32,
    /// Virtual control: the rate wanted.
    pub alpha: Binary32,
    /// Last limited output.
    pub output: Binary32,
}

impl BacksteppingState {
    /// The state before the first step.
    pub open spec fn initial() -> BacksteppingState {
        BacksteppingState {
            e1: b32(ZERO),
            e2: b32(ZERO),
            alpha: b32(ZERO),
            output: b32(ZERO),
        }
    }

    /// Returns to the state before the first step.
    pub fn reset(&mut self)
        ensures
            *final(self) == BacksteppingState::initial(),
    {
        *self = BacksteppingState::default();
    }
}

impl Default for BacksteppingState {
    fn default() -> (r: BacksteppingState)
        ensures
            r == BacksteppingState::initial(),
    {
        BacksteppingState {
            e1: b32(ZERO),
            e2: b32(ZERO),
            alpha: b32(ZERO),
            output: b32(ZERO),
        }
    }
}

impl BacksteppingState {
    /// The state after a step.
    pub open spec fn updated(
        param: BacksteppingParam,
        x1: Binary32,
        x2: Binary32,
        reference: Binary32,
        reference_dot: Binary32,
        reference_ddot: Binary32,
    ) -> BacksteppingState {
        let e1 = x1 - reference;
        let alpha = reference_dot - param.k1 * e1;
        let e2 = x2 - alpha;
        BacksteppingState {
            e1,
            e2,
            alpha,
            output: clamped(
                reference_ddot - param.k1 * (x2 - reference_dot) - param.k2 * e2,
                param.out_min,
                param.out_max,
            ),
        }
    }

    /// Makes one step and returns the limited output.
    pub fn update(
        &mut self,
        param: &BacksteppingParam,
        x1: Binary32,
        x2: Binary32,
        reference: Binary32,
        reference_dot: Binary32,
        reference_ddot: Binary32,
    ) -> (r: Binary32)
        ensures
            *final(self) == BacksteppingState::updated(
                *param,
                x1,
                x2,
                reference,
                reference_dot,
                reference_ddot,
            ),
            r == final(self).output,
    {
        self.e1 = x1 - reference;
        self.alpha = reference_dot - param.k1 * self.e1;
        self.e2 = x2 - self.alpha;
        let output: Binary32 = reference_ddot - param.k1 * (x2 - reference_dot) - param.k2
            * self.e2;
        self.output = clamp(output, param.out_min, param.out_max);
        self.output
    }
}

/// Scales, rules and limits of the fuzzy controller.
#[derive(Clone, Copy, Debug, Default, PartialEq)]
pub struct FuzzyParam {
    /// Error that counts as fully positive; zero stands for one.
    pub e_scale: Binary32,
    /// Change of the error that counts as fully positive; zero stands for one.
    pub de_scale: Binary32,
    /// Output for a rule value of one.
    pub out_scale: Binary32,
    /// Rule values by tier of the error and tier of its change.
    pub rules: [[Binary32; 3]; 3],
    pub out_min: Binary32,
    pub out_max: Binary32,
}

/// Fuzzy controller with three tiers for each input.
#[derive(Clone, Copy, Debug, PartialEq)]
pub struct FuzzyState {
    /// Last limited output.
    pub output: Binary32,
    /// Sum of the weights of all rules.
    pub weight_sum: Binary32,
}

impl FuzzyState {
    /// The state before the first step.
    pub open spec fn initial() -> FuzzyState {
        FuzzyState {
            output: b32(ZERO),
            weight_sum: b32(ZERO),
        }
    }

    /// Returns to the state before the first step.
    pub fn reset(&mut self)
        ensures
            *final(self) == FuzzyState::initial(),
    {
        *self = FuzzyState::default();
    }
}

impl Default for FuzzyState {
    fn default() -> (r: FuzzyState)
        ensures
            r == FuzzyState::initial(),
    {
        FuzzyState {
            output: b32(ZERO),
            weight_sum: b32(ZERO),
        }
    }
}

/// How much an input belongs to the negative, the middle and the positive tier.
pub open spec fn membership(x: Binary32) -> Seq<Binary32> {
    let value = clamped(x, b32(MINUS_ONE), b32(ONE));
    seq![
        if value < b32(ZERO) {
            -value
        } else {
            b32(ZERO)
        },
        b32(ONE) - value.size(),
        if value > b32(ZERO) {
            value
        } else {
            b32(ZERO)
        },
    ]
}

fn fuzzy_membership(x: Binary32) -> (r: [Binary32; 3])
    ensures
        r@ == membership(x),
{
    let value: Binary32 = clamp(x, b32(MINUS_ONE), b32(ONE));
    [
        if value < b32(ZERO) {
            value.neg()
        } else {
            b32(ZERO)
        },
        b32(ONE) - value.abs(),
        if value > b32(ZERO) {
            value
        } else {
            b32(ZERO)
        },
    ]
}

/// A scale, one in place of zero.
pub open spec fn scale_or_one(scale: Binary32) -> Binary32 {
    if scale.zero() {
        b32(ONE)
    } else {
        scale
    }
}

/// The weight of rule `n`, counted row by row.
pub open spec fn rule_weight(e_mu: Seq<Binary32>, de_mu: Seq<Binary32>, n: int) -> Binary32 {
    e_mu[n / 3] * de_mu[n % 3]
}

/// The sum of the first `n` rule values, each times its weight.
pub open spec fn weighted_rules(
    e_mu: Seq<Binary32>,
    de_mu: Seq<Binary32>,
    rules: [[Binary32; 3]; 3],
    n: int,
) -> Binary32
    decreases n,
{
    if n <= 0 {
        b32(ZERO)
    } else {
        weighted_rules(e_mu, de_mu, rules, n - 1) + rule_weight(e_mu, de_mu, n - 1) * rules[(n - 1)
            / 3][(n - 1) % 3]
    }
}

/// The sum of the weights of the first `n` rules.
pub open spec fn rule_weights(e_mu: Seq<Binary32>, de_mu: Seq<Binary32>, n: int) -> Binary32
    decreases n,
{
    if n <= 0 {
        b32(ZERO)
    } else {
        rule_weights(e_mu, de_mu, n - 1) + rule_weight(e_mu, de_mu, n - 1)
    }
}

impl FuzzyState {
    /// The state after a step: the weighted mean of all rules, scaled and limited; zero
    /// where the weights do not sum to a positive number.
    pub open spec fn updated(
        param: FuzzyParam,
        error: Binary32,
        error_delta: Binary32,
    ) -> FuzzyState {
        let e_mu = membership(error / scale_or_one(param.e_scale));
        let de_mu = membership(error_delta / scale_or_one(param.de_scale));
        let weight_sum = rule_weights(e_mu, de_mu, 9);
        FuzzyState {
            output: if weight_sum > b32(ZERO) {
                clamped(
                    weighted_rules(e_mu, de_mu, param.rules, 9) / weight_sum * param.out_scale,
                    param.out_min,
                    param.out_max,
                )
            } else {
                b32(ZERO)
            },
            weight_sum,
        }
    }

    /// Makes one step and returns the limited output.
    pub fn update(
        &mut self,
        param: &FuzzyParam,
        error: Binary32,
        error_delta: Binary32,
    ) -> (r: Binary32)
        ensures
            *final(self) == FuzzyState::updated(*param, error, error_delta),
            r == final(self).output,
    {
        let e_scale: Binary32 = if param.e_scale == b32(ZERO) {
            b32(ONE)
        } else {
            param.e_scale
        };
        let de_scale: Binary32 = if param.de_scale == b32(ZERO) {
            b32(ONE)
        } else {
            param.de_scale
        };
        let e_mu: [Binary32; 3] = fuzzy_membership(error / e_scale);
        let de_mu: [Binary32; 3] = fuzzy_membership(error_delta / de_scale);
        let mut numerator: Binary32 = b32(ZERO);
        let mut denominator: Binary32 = b32(ZERO);
        for i in 0..3usize
            invariant
                numerator == weighted_rules(e_mu@, de_mu@, param.rules, 3 * i),
                denominator == rule_weights(e_mu@, de_mu@, 3 * i),
        {
            for j in 0..3usize
                invariant
                    0 <= i < 3,
                    numerator == weighted_rules(e_mu@, de_mu@, param.rules, 3 * i + j),
                    denominator == rule_weights(e_mu@, de_mu@, 3 * i + j),
            {
                let weight: Binary32 = e_mu[i] * de_mu[j];
                numerator = numerator + weight * param.rules[i][j];
                denominator = denominator + weight;
                assert((3 * i + j) / 3 == i && (3 * i + j) % 3 == j);
            }
        }
        self.weight_sum = denominator;
        self.output = if denominator > b32(ZERO) {
            clamp(numerator / denominator * param.out_scale, param.out_min, param.out_max)
        } else {
            b32(ZERO)
        };
        self.output
    }
}

/// Gains, attenuation level and limits of the robust controller.
#[derive(Clone, Copy, Debug, Default, PartialEq)]
pub struct HinfParam {
    pub kx: Binary32,
    pub kw: Binary32,
    /// Attenuation level; one that is zero or negative stands for one.
    pub gamma: Binary32,
    pub out_min: Binary32,
    pub out_max: Binary32,
}

/// State feedback with compensation of an estimated disturbance.
#[derive(Clone, Copy, Debug, PartialEq)]
pub struct HinfState {
    /// Last limited output.
    pub u: Binary32,
    /// Last compensation.
    pub robust_term: Binary32,
}

impl HinfState {
    /// The state before the first step.
    pub open spec fn initial() -> HinfState {
        HinfState {
            u: b32(ZERO),
            robust_term: b32(ZERO),
        }
    }

    /// Returns to the state before the first step.
    pub fn reset(&mut self)
        ensures
            *final(self) == HinfState::initial(),
    {
        *self = HinfState::default();
    }
}

impl Default for HinfState {
    fn default() -> (r: HinfState)
        ensures
            r == HinfState::initial(),
    {
        HinfState {
            u: b32(ZERO),
            robust_term: b32(ZERO),
        }
    }
}

impl HinfState {
    /// The state after a step.
    pub open spec fn updated(
        param: HinfParam,
        x: Binary32,
        disturbance: Binary32,
        feedforward: Binary32,
    ) -> HinfState {
        let gamma = if param.gamma <= b32(ZERO) {
            b32(ONE)
        } else {
            param.gamma
        };
        let robust_term = -(param.kw / gamma) * disturbance;
        HinfState {
            u: clamped(feedforward - param.kx * x + robust_term, param.out_min, param.out_max),
            robust_term,
        }
    }

    /// Makes one step and returns the limited output.
    pub fn update(
        &mut self,
        param: &HinfParam,
        x: Binary32,
        disturbance: Binary32,
        feedforward: Binary32,
    ) -> (r: Binary32)
        ensures
            *final(self) == HinfState::updated(*param, x, disturbance, feedforward),
            r == final(self).u,
    {
        let gamma: Binary32 = if param.gamma <= b32(ZERO) {
            b32(ONE)
        } else {
            param.gamma
        };
        self.robust_term = (param.kw / gamma).neg() * disturbance;
        self.u = clamp(
            feedforward - param.kx * x + self.robust_term,
            param.out_min,
            param.out_max,
        );
        self.u
    }
}

/// Gains and limits of the optimal state feedback.
#[derive(Clone, Copy, Debug, Default, PartialEq)]
pub struct LqrParam {
    pub k0: Binary32,
    pub k1: Binary32,
    pub out_min: Binary32,
    pub out_max: Binary32,
}

/// Optimal feedback of two states.
#[derive(Clone, Copy, Debug, PartialEq)]
pub struct LqrState {
    /// Last limited output.
    pub u: Binary32,
}

impl LqrState {
    /// The state before the first step.
    pub open spec fn initial() -> LqrState {
        LqrState {
            u: b32(ZERO),
        }
    }

    /// Returns to the state before the first step.
    pub fn reset(&mut self)
        ensures
            *final(self) == LqrState::initial(),
    {
        *self = LqrState::default();
    }
}

impl Default for LqrState {
    fn default() -> (r: LqrState)
        ensures
            r == LqrState::initial(),
    {
        LqrState {
            u: b32(ZERO),
        }
    }
}

impl LqrState {
    /// The state after a step.
    pub open spec fn updated(
        param: LqrParam,
        x0: Binary32,
        x1: Binary32,
        feedforward: Binary32,
    ) -> LqrState {
        LqrState {
            u: clamped(
                feedforward - param.k0 * x0 - param.k1 * x1,
                param.out_min,
                param.out_max,
            ),
        }
    }

    /// Makes one step and returns the limited output.
    pub fn update(
        &mut self,
        param: &LqrParam,
        x0: Binary32,
        x1: Binary32,
        feedforward: Binary32,
    ) -> (r: Binary32)
        ensures
            *final(self) == LqrState::updated(*param, x0, x1, feedforward),
            r == final(self).u,
    {
        self.u = clamp(
            feedforward - param.k0 * x0 - param.k1 * x1,
            param.out_min,
            param.out_max,
        );
        self.u
    }
}

/// Model, weights and grid of the predictive controller.
#[derive(Clone, Copy, Debug, Default, PartialEq)]
pub struct MpcParam {
    /// Weight of the state in the next state.
    pub a: Binary32,
    /// Weight of the output in the next state.
    pub b: Binary32,
    /// Weight of the squared error in the cost.
    pub q: Binary32,
    /// Weight of the squared output in the cost.
    pub r: Binary32,
    pub u_min: Binary32,
    pub u_max: Binary32,
    /// Number of outputs tried; fewer than two stand for two.
    pub candidates: i32,
}

/// Best output of the last search.
#[derive(Clone, Copy, Debug, PartialEq)]
pub struct MpcState {
    /// Output with the least cost.
    pub u: Binary32,
    /// Next state that it leads to.
    pub predicted_x: Binary32,
    /// Its cost.
    pub cost: Binary32,
}

impl MpcState {
    /// The state before the first step.
    pub open spec fn initial() -> MpcState {
        MpcState {
            u: b32(ZERO),
            predicted_x: b32(ZERO),
            cost: b32(ZERO),
        }
    }

    /// Returns to the state before the first step.
    pub fn reset(&mut self)
        ensures
            *final(self) == MpcState::initial(),
    {
        *self = MpcState::default();
    }
}

impl Default for MpcState {
    fn default() -> (r: MpcState)
        ensures
            r == MpcState::initial(),
    {
        MpcState {
            u: b32(ZERO),
            predicted_x: b32(ZERO),
            cost: b32(ZERO),
        }
    }
}

impl MpcParam {
    /// The number of candidates tried.
    pub open spec fn count(self) -> int {
        if self.candidates < 2 {
            2
        } else {
            self.candidates as int
        }
    }

    /// Candidate `i` of the evenly spaced grid.
    pub open spec fn candidate(self, i: int) -> Binary32 {
        self.u_min + nearest_to_int(i) / nearest_to_int(self.count() - 1) * (self.u_max
            - self.u_min)
    }

    /// The next state under an output.
    pub open spec fn prediction(self, x: Binary32, u: Binary32) -> Binary32 {
        self.a * x + self.b * u
    }

    /// The cost of an output.
    pub open spec fn cost_of(self, x: Binary32, reference: Binary32, u: Binary32) -> Binary32 {
        let error = self.prediction(x, u) - reference;
        self.q * error * error + self.r * u * u
    }
}

impl MpcState {
    /// The search before any candidate was tried.
    pub open spec fn nothing_found() -> MpcState {
        MpcState { u: b32(ZERO), predicted_x: b32(ZERO), cost: b32(MAX_FINITE) }
    }

    /// The best of the first `n` candidates, where only a strictly cheaper one replaces an
    /// earlier one.
    pub open spec fn best_of(param: MpcParam, x: Binary32, reference: Binary32, n: int) -> MpcState
        decreases n,
    {
        if n <= 0 {
            MpcState::nothing_found()
        } else {
            let best = MpcState::best_of(param, x, reference, n - 1);
            let u = param.candidate(n - 1);
            let cost = param.cost_of(x, reference, u);
            if cost < best.cost {
                MpcState { u, predicted_x: param.prediction(x, u), cost }
            } else {
                best
            }
        }
    }

    /// Whether `best` is candidate `k`, and cheaper than every candidate before it.
    pub open spec fn first_cheapest(
        param: MpcParam,
        x: Binary32,
        reference: Binary32,
        k: int,
        best: MpcState,
    ) -> bool {
        &&& best.u == param.candidate(k)
        &&& best.predicted_x == param.prediction(x, best.u)
        &&& best.cost == param.cost_of(x, reference, best.u)
        &&& forall|i: int|
            0 <= i < k ==> !(param.cost_of(x, reference, #[trigger] param.candidate(i))
                <= best.cost)
    }

    /// A search that failed: output zero, at infinite cost.
    pub open spec fn failed() -> MpcState {
        MpcState { u: b32(ZERO), predicted_x: b32(ZERO), cost: b32(INFINITY) }
    }

    /// The state after a search: its best candidate, if one was found.
    pub open spec fn updated(param: MpcParam, x: Binary32, reference: Binary32) -> MpcState {
        let best = MpcState::best_of(param, x, reference, param.count());
        if best.cost < b32(MAX_FINITE) {
            best
        } else {
            MpcState::failed()
        }
    }

    /// Tries all candidates and returns the one with the least cost. If no cost is below
    /// the largest finite number, the result is zero and the cost infinite.
    pub fn update(&mut self, param: &MpcParam, x: Binary32, reference: Binary32) -> (r: Binary32)
        ensures
            *final(self) == MpcState::updated(*param, x, reference),
            r == final(self).u,
    {
        let candidates: i32 = if param.candidates < 2 {
            2
        } else {
            param.candidates
        };
        let mut best_cost: Binary32 = b32(MAX_FINITE);
        let mut best_u: Binary32 = b32(ZERO);
        let mut best_x: Binary32 = b32(ZERO);
        for i in 0..candidates
            invariant
                candidates == param.count(),
                (MpcState { u: best_u, predicted_x: best_x, cost: best_cost })
                    == MpcState::best_of(*param, x, reference, i as int),
        {
            let ratio: Binary32 = Binary32::from_i32(i) / Binary32::from_i32(candidates - 1);
            let u: Binary32 = param.u_min + ratio * (param.u_max - param.u_min);
            let predicted: Binary32 = param.a * x + param.b * u;
            let error: Binary32 = predicted - reference;
            let cost: Binary32 = param.q * error * error + param.r * u * u;
            if cost < best_cost {
                best_cost = cost;
                best_u = u;
                best_x = predicted;
            }
        }
        proof {
            lemma_first_cheapest(*param, x, reference, param.count());
        }
        self.u = best_u;
        self.predicted_x = best_x;
        self.cost = if best_cost < b32(MAX_FINITE) {
            best_cost
        } else {
            b32(INFINITY)
        };
        self.u
    }
}

/// Parameters of the model-reference adaptive controller.
#[derive(Clone, Copy, Debug, Default, PartialEq)]
pub struct MracParam {
    /// Sample period in seconds.
    pub ts: Binary32,
    pub model_a: Binary32,
    pub model_b: Binary32,
    /// Adaptation rate.
    pub gamma: Binary32,
    pub theta_min: Binary32,
    pub theta_max: Binary32,
    pub out_min: Binary32,
    pub out_max: Binary32,
}

/// Controller whose gain makes the plant follow a model.
#[derive(Clone, Copy, Debug, PartialEq)]
pub struct MracState {
    pub model_output: Binary32,
    /// Adapted gain.
    pub theta: Binary32,
    /// Model output less feedback.
    pub error: Binary32,
    /// Last limited output.
    pub output: Binary32,
}

impl MracState {
    /// With gain zero.
    pub open spec fn initial() -> MracState {
        MracState {
            model_output: b32(ZERO),
            theta: b32(ZERO),
            error: b32(ZERO),
            output: b32(ZERO),
        }
    }
}

impl Default for MracState {
    fn default() -> (r: MracState)
        ensures
            r == MracState::initial(),
    {
        MracState {
            model_output: b32(ZERO),
            theta: b32(ZERO),
            error: b32(ZERO),
            output: b32(ZERO),
        }
    }
}

impl MracState {
    /// The state with a gain and nothing else.
    pub open spec fn started(theta: Binary32) -> MracState {
        MracState { model_output: b32(ZERO), theta, error: b32(ZERO), output: b32(ZERO) }
    }

    /// The state after a step; a period that is zero or negative changes nothing.
    pub open spec fn updated(
        self,
        param: MracParam,
        reference: Binary32,
        feedback: Binary32,
    ) -> MracState {
        let model_output = self.model_output + param.ts * (-param.model_a * self.model_output
            + param.model_b * reference);
        let error = model_output - feedback;
        let theta = clamped(
            self.theta + param.gamma * error * reference * param.ts,
            param.theta_min,
            param.theta_max,
        );
        if param.ts <= b32(ZERO) {
            self
        } else {
            MracState {
                model_output,
                theta,
                error,
                output: clamped(theta * reference, param.out_min, param.out_max),
            }
        }
    }

    /// A controller that starts with a gain.
    pub fn new(initial_theta: Binary32) -> (r: MracState)
        ensures
            r == MracState::started(initial_theta),
    {
        MracState {
            model_output: b32(ZERO),
            theta: initial_theta,
            error: b32(ZERO),
            output: b32(ZERO),
        }
    }

    /// Starts again with a gain.
    pub fn reset(&mut self, theta: Binary32)
        ensures
            *final(self) == MracState::started(theta),
    {
        *self = MracState::new(theta);
    }

    /// Makes one step and returns the limited output, or 0 where the period is not valid.
    pub fn update(
        &mut self,
        param: &MracParam,
        reference: Binary32,
        feedback: Binary32,
    ) -> (r: Binary32)
        ensures
            *final(self) == old(self).updated(*param, reference, feedback),
            r == (if param.ts <= b32(ZERO) {
                b32(ZERO)
            } else {
                final(self).output
            }),
    {
        if param.ts <= b32(ZERO) {
            return b32(ZERO);
        }
        self.model_output = self.model_output + param.ts * (param.model_a.neg() * self.model_output
            + param.model_b * reference);
        self.error = self.model_output - feedback;
        self.theta = self.theta + param.gamma * self.error * reference * param.ts;
        self.theta = clamp(self.theta, param.theta_min, param.theta_max);
        self.output = clamp(self.theta * reference, param.out_min, param.out_max);
        self.output
    }
}

/// Parameters of the sliding-mode controller.
#[derive(Clone, Copy, Debug, Default, PartialEq)]
pub struct SmcParam {
    /// Weight of the error in the surface.
    pub c: Binary32,
    /// Switching gain.
    pub k: Binary32,
    /// Half width of the layer in which switching is linear.
    pub boundary: Binary32,
    pub out_min: Binary32,
    pub out_max: Binary32,
}

/// Sliding-mode controller.
#[derive(Clone, Copy, Debug, PartialEq)]
pub struct SmcState {
    /// Last distance from the sliding surface.
    pub surface: Binary32,
    /// Last switching term.
    pub switching: Binary32,
    /// Last limited output.
    pub output: Binary32,
}

impl SmcState {
    /// The state before the first step.
    pub open spec fn initial() -> SmcState {
        SmcState {
            surface: b32(ZERO),
            switching: b32(ZERO),
            output: b32(ZERO),
        }
    }

    /// Returns to the state before the first step.
    pub fn reset(&mut self)
        ensures
            *final(self) == SmcState::initial(),
    {
        *self = SmcState::default();
    }
}

impl Default for SmcState {
    fn default() -> (r: SmcState)
        ensures
            r == SmcState::initial(),
    {
        SmcState {
            surface: b32(ZERO),
            switching: b32(ZERO),
            output: b32(ZERO),
        }
    }
}

impl SmcState {
    /// The state after a step.
    pub open spec fn updated(
        param: SmcParam,
        error: Binary32,
        error_dot: Binary32,
        equivalent: Binary32,
    ) -> SmcState {
        let surface = param.c * error + error_dot;
        let switching = -param.k * saturated(surface, param.boundary);
        SmcState {
            surface,
            switching,
            output: clamped(equivalent + switching, param.out_min, param.out_max),
        }
    }

    /// Makes one step and returns the limited output.
    pub fn update(
        &mut self,
        param: &SmcParam,
        error: Binary32,
        error_dot: Binary32,
        equivalent: Binary32,
    ) -> (r: Binary32)
        ensures
            *final(self) == SmcState::updated(*param, error, error_dot, equivalent),
            r == final(self).output,
    {
        self.surface = param.c * error + error_dot;
        self.switching = param.k.neg() * saturate(self.surface, param.boundary);
        self.output = clamp(equivalent + self.switching, param.out_min, param.out_max);
        self.output
    }
}

/// Output and gain of the adaptive controller keep their limits.
pub proof fn adaptive_output_and_gain_are_limited(
    state: AdaptiveState,
    param: AdaptiveParam,
    reference: Binary32,
    feedback: Binary32,
)
    requires
        !param.out_min.nan(),
        !param.out_max.nan(),
        !param.gain_min.nan(),
        !param.gain_max.nan(),
        !(param.ts <= b32(ZERO)),
    ensures
        limited(state.updated(param, reference, feedback).output, param.out_min, param.out_max),
        limited(state.updated(param, reference, feedback).gain, param.gain_min, param.gain_max),
{
}

/// The output of the backstepping controller keeps its limits.
pub proof fn backstepping_output_is_limited(
    param: BacksteppingParam,
    x1: Binary32,
    x2: Binary32,
    reference: Binary32,
    reference_dot: Binary32,
    reference_ddot: Binary32,
)
    requires
        !param.out_min.nan(),
        !param.out_max.nan(),
    ensures
        limited(
            BacksteppingState::updated(
                param,
                x1,
                x2,
                reference,
                reference_dot,
                reference_ddot,
            ).output,
            param.out_min,
            param.out_max,
        ),
{
}

/// Every membership is a number from 0 to 1.
pub proof fn membership_lies_between_zero_and_one(x: Binary32, tier: int)
    requires
        !x.nan(),
        0 <= tier < 3,
    ensures
        membership(x)[tier].within(b32(ZERO), b32(ONE)),
{
    let value = clamped(x, b32(MINUS_ONE), b32(ONE));
    complement_sums_to_one(value.size());
}

/// The memberships of an input in the three tiers sum to exactly one.
pub proof fn memberships_sum_to_one(x: Binary32)
    requires
        !x.nan(),
    ensures
        membership(x)[0] + membership(x)[1] + membership(x)[2] == b32(ONE),
{
    let value = clamped(x, b32(MINUS_ONE), b32(ONE));
    let size = value.size();
    let mu = membership(x);
    let middle = b32(ONE) - size;
    complement_sums_to_one(size);
    if value < b32(ZERO) {
        assert(mu[0] == size);
        zero_is_neutral(size + middle, b32(ZERO));
    } else if value > b32(ZERO) {
        assert(mu[2] == size);
        if middle.zero() {
            sum_of_zeros_is_zero(b32(ZERO), middle);
            zero_is_neutral(size, middle);
            zero_is_neutral(size, b32(ZERO) + middle);
            addition_is_commutative(size, b32(ZERO) + middle);
        } else {
            zero_is_neutral(middle, b32(ZERO));
            addition_is_commutative(middle, b32(ZERO));
            addition_is_commutative(size, middle);
        }
    } else {
        zero_is_neutral(b32(ONE), -size);
        zero_is_neutral(b32(ONE), b32(ZERO));
        addition_is_commutative(b32(ONE), b32(ZERO));
    }
}

/// Some tier holds at least half of an input.
proof fn lemma_main_tier(x: Binary32) -> (tier: int)
    requires
        !x.nan(),
    ensures
        0 <= tier < 3,
        membership(x)[tier] >= b32(HALF),
{
    let one = b32(ONE);
    let half = b32(HALF);
    let value = clamped(x, b32(MINUS_ONE), one);
    let size = value.size();
    if size >= half {
        if value < b32(ZERO) {
            0
        } else {
            2
        }
    } else {
        lemma_power_mag(0);
        lemma_power_mag(-1);
        lemma_pow2_unfold(149);
        lemma_sum_kind(one, -half);
        lemma_sum_kind(one, -size);
        lemma_rounded_sum_exact(half, false);
        addition_is_commutative(one, -half);
        addition_is_commutative(one, -size);
        addition_keeps_order(-half, -size, one);
        1
    }
}

/// The product of two numbers of at least one half is positive.
proof fn lemma_product_of_halves(a: Binary32, b: Binary32)
    requires
        a.finite(),
        b.finite(),
        a >= b32(HALF),
        b >= b32(HALF),
    ensures
        a * b > b32(ZERO),
{
    reveal(Binary32::spec_mul);
    let den = pow2(149);
    lemma_power_mag(-1);
    lemma_power_mag(-2);
    lemma_pow2_pos(149);
    lemma_pow2_adds(148, 148);
    lemma_pow2_adds(147, 149);
    lemma_mag_units_order(power_mag(-1), a.mag());
    lemma_mag_units_order(power_mag(-1), b.mag());
    assert((pow2(147) * den) * den <= (a.units() * b.units()) * den) by (nonlinear_arith)
        requires
            pow2(147) * den == pow2(148) * pow2(148),
            pow2(148) <= a.units(),
            pow2(148) <= b.units(),
    ;
    rounding_is_monotone(pow2(147) * den, den, a.units() * b.units(), den);
    rounding_is_exact(power_mag(-2), den);
}

/// Sums of weights that are not negative never fall, and are at least each weight.
proof fn lemma_weights_grow(e_mu: Seq<Binary32>, de_mu: Seq<Binary32>, k: int, n: int)
    requires
        e_mu.len() == 3,
        de_mu.len() == 3,
        forall|i: int| 0 <= i < 3 ==> (#[trigger] e_mu[i]).within(b32(ZERO), b32(ONE)),
        forall|i: int| 0 <= i < 3 ==> (#[trigger] de_mu[i]).within(b32(ZERO), b32(ONE)),
        0 <= k < n <= 9,
    ensures
        rule_weights(e_mu, de_mu, n) >= b32(ZERO),
        rule_weights(e_mu, de_mu, n) >= rule_weight(e_mu, de_mu, k),
    decreases n,
{
    let last = rule_weight(e_mu, de_mu, n - 1);
    let before = rule_weights(e_mu, de_mu, n - 1);
    assert(e_mu[(n - 1) / 3].within(b32(ZERO), b32(ONE)));
    assert(de_mu[(n - 1) % 3].within(b32(ZERO), b32(ONE)));
    lemma_mul_kind(e_mu[(n - 1) / 3], de_mu[(n - 1) % 3]);
    product_follows_signs(e_mu[(n - 1) / 3], de_mu[(n - 1) % 3]);
    if n > 1 {
        lemma_weights_grow(e_mu, de_mu, if k < n - 1 {
            k
        } else {
            0
        }, n - 1);
    }
    sum_of_non_negatives(before, last);
}

/// For inputs that are numbers the weights of the rules sum to a positive number.
pub proof fn fuzzy_weights_are_positive(param: FuzzyParam, error: Binary32, error_delta: Binary32)
    requires
        !(error / scale_or_one(param.e_scale)).nan(),
        !(error_delta / scale_or_one(param.de_scale)).nan(),
    ensures
        FuzzyState::updated(param, error, error_delta).weight_sum > b32(ZERO),
{
    let e = error / scale_or_one(param.e_scale);
    let de = error_delta / scale_or_one(param.de_scale);
    let i = lemma_main_tier(e);
    let j = lemma_main_tier(de);
    assert forall|k: int| 0 <= k < 3 implies (#[trigger] membership(e)[k]).within(
        b32(ZERO),
        b32(ONE),
    ) by {
        membership_lies_between_zero_and_one(e, k);
    }
    assert forall|k: int| 0 <= k < 3 implies (#[trigger] membership(de)[k]).within(
        b32(ZERO),
        b32(ONE),
    ) by {
        membership_lies_between_zero_and_one(de, k);
    }
    assert((3 * i + j) / 3 == i && (3 * i + j) % 3 == j);
    assert(membership(e)[i].within(b32(ZERO), b32(ONE)));
    assert(membership(de)[j].within(b32(ZERO), b32(ONE)));
    lemma_product_of_halves(membership(e)[i], membership(de)[j]);
    lemma_weights_grow(membership(e), membership(de), 3 * i + j, 9);
}

/// The exact sum of the weights of the first `n` rules, in units of `2^-298`.
spec fn exact_weights(e_mu: Seq<Binary32>, de_mu: Seq<Binary32>, n: int) -> int
    decreases n,
{
    if n <= 0 {
        0
    } else {
        exact_weights(e_mu, de_mu, n - 1) + e_mu[(n - 1) / 3].value() * de_mu[(n - 1) % 3].value()
    }
}

/// Three memberships between 0 and 1.
spec fn tiers(mu: Seq<Binary32>) -> bool {
    forall|k: int| 0 <= k < 3 ==> (#[trigger] mu[k]).within(b32(ZERO), b32(ONE))
}

/// The exact weight of a rule lies between 0 and 1, and the rounded one is off by at most
/// one part in `2^24`.
proof fn lemma_weight_error(e: Binary32, de: Binary32)
    requires
        e.within(b32(ZERO), b32(ONE)),
        de.within(b32(ZERO), b32(ONE)),
    ensures
        (e * de).finite(),
        0 <= e.value() * de.value(),
        abs((e * de).value() * pow2(149) - e.value() * de.value()) <= pow2(125) * pow2(149),
        (e * de).value() >= 0,
{
    let u = pow2(149);
    lemma_around_one();
    lemma_mag_units_order(0, 0);
    order_is_value_order(b32(ZERO), e);
    order_is_value_order(e, b32(ONE));
    order_is_value_order(b32(ZERO), de);
    order_is_value_order(de, b32(ONE));
    assert(0 <= e.value() * de.value() <= u * u) by (nonlinear_arith)
        requires
            0 <= e.value() <= u,
            0 <= de.value() <= u,
    ;
    product_error_is_at_most_half_spacing(e, de, ONE as nat);
    assert(2 * abs((e * de).value() * u - e.value() * de.value()) <= 2 * (pow2(125) * u))
        by (nonlinear_arith)
        requires
            2 * abs((e * de).value() * u - e.value() * de.value()) <= (2 * pow2(125)) * u,
    ;
    product_follows_signs(e, de);
    order_is_value_order(b32(ZERO), e * de);
}

/// Exact weights only add up.
proof fn lemma_exact_weights_grow(e_mu: Seq<Binary32>, de_mu: Seq<Binary32>, n: int, m: int)
    requires
        0 <= n <= m <= 9,
        tiers(e_mu),
        tiers(de_mu),
    ensures
        exact_weights(e_mu, de_mu, n) <= exact_weights(e_mu, de_mu, m),
    decreases m,
{
    if n < m {
        let k = m - 1;
        assert(e_mu[k / 3].within(b32(ZERO), b32(ONE)));
        assert(de_mu[k % 3].within(b32(ZERO), b32(ONE)));
        lemma_weight_error(e_mu[k / 3], de_mu[k % 3]);
        lemma_exact_weights_grow(e_mu, de_mu, n, k);
    }
}

/// The memberships of an input sum to one also exactly, up to one part in `2^24`.
proof fn lemma_exact_memberships(x: Binary32)
    requires
        !x.nan(),
    ensures
        ({
            let mu = membership(x);
            abs(mu[0].value() + mu[1].value() + mu[2].value() - pow2(149)) <= pow2(125)
        }),
{
    let value = clamped(x, b32(MINUS_ONE), b32(ONE));
    let size = value.size();
    let mu = membership(x);
    lemma_around_one();
    lemma_mag_units_order(0, 0);
    lemma_mag_units_order(size.mag(), 0);
    order_is_value_order(size, b32(ONE));
    order_is_value_order(b32(ZERO), size);
    sum_error_is_at_most_half_spacing(b32(ONE), -size, ONE as nat);
    if value < b32(ZERO) {
        assert(mu[0] == size);
    } else if value > b32(ZERO) {
        assert(mu[2] == size);
    }
}

/// The sum of the first weights, and what it is off from the exact one.
proof fn lemma_weights_error(e_mu: Seq<Binary32>, de_mu: Seq<Binary32>, n: int)
    requires
        0 <= n <= 9,
        tiers(e_mu),
        tiers(de_mu),
        8 * exact_weights(e_mu, de_mu, 9) <= 9 * (pow2(149) * pow2(149)),
    ensures
        rule_weights(e_mu, de_mu, n).finite(),
        rule_weights(e_mu, de_mu, n).value() >= 0,
        abs(
            rule_weights(e_mu, de_mu, n).value() * pow2(149) - exact_weights(e_mu, de_mu, n),
        ) <= (2 * n) * (pow2(125) * pow2(149)),
    decreases n,
{
    let u = pow2(149);
    let e = pow2(125);
    lemma_around_one();
    lemma_mag_units_order(0, 0);
    if n > 0 {
        let k = n - 1;
        let sum = rule_weights(e_mu, de_mu, k);
        let w = rule_weight(e_mu, de_mu, k);
        let next = rule_weights(e_mu, de_mu, n);
        let g = e * u;
        assert(e_mu[k / 3].within(b32(ZERO), b32(ONE)));
        assert(de_mu[k % 3].within(b32(ZERO), b32(ONE)));
        lemma_weight_error(e_mu[k / 3], de_mu[k % 3]);
        lemma_weights_error(e_mu, de_mu, k);
        lemma_exact_weights_grow(e_mu, de_mu, n, 9);
        assert((2 * k) * g + g <= 17 * g) by (nonlinear_arith)
            requires
                0 <= k <= 8,
                g >= 0,
        ;
        lemma_product_of_sum(sum.value(), w.value(), u as int);
        assert(2 * (sum.value() + w.value()) <= 3 * u) by (nonlinear_arith)
            requires
                8 * ((sum.value() + w.value()) * u) <= 9 * (u * u) + 8 * (17 * (e * u)),
                u == 0x100_0000 * e,
                e > 0,
        ;
        sum_error_is_at_most_half_spacing(sum, w, 0x3fff_ffff);
        let rest = next.value() - (sum.value() + w.value());
        assert(abs(rest * u) <= g) by (nonlinear_arith)
            requires
                2 * abs(rest) <= 2 * e,
                g == e * u,
        ;
        lemma_product_of_difference(next.value(), sum.value() + w.value(), u as int);
        assert((2 * n) * g == (2 * k) * g + 2 * g) by (nonlinear_arith)
            requires
                n == k + 1,
        ;
        order_is_value_order(b32(ZERO), sum);
        order_is_value_order(b32(ZERO), w);
        sum_of_non_negatives(sum, w);
        order_is_value_order(b32(ZERO), next);
    } else {
        assert(0 * u == 0);
        assert(0 * (e * u) == 0);
    }
}

/// The sum of the weights of all rules is finite.
pub proof fn fuzzy_weights_are_finite(param: FuzzyParam, error: Binary32, error_delta: Binary32)
    requires
        !(error / scale_or_one(param.e_scale)).nan(),
        !(error_delta / scale_or_one(param.de_scale)).nan(),
    ensures
        FuzzyState::updated(param, error, error_delta).weight_sum.finite(),
{
    let e_mu = membership(error / scale_or_one(param.e_scale));
    let de_mu = membership(error_delta / scale_or_one(param.de_scale));
    lemma_around_one();
    lemma_tiers(error / scale_or_one(param.e_scale));
    lemma_tiers(error_delta / scale_or_one(param.de_scale));
    lemma_exact_memberships(error / scale_or_one(param.e_scale));
    lemma_exact_memberships(error_delta / scale_or_one(param.de_scale));
    lemma_exact_total(e_mu, de_mu);
    lemma_near_square(
        e_mu[0].value() + e_mu[1].value() + e_mu[2].value(),
        de_mu[0].value() + de_mu[1].value() + de_mu[2].value(),
        pow2(125) as int,
        pow2(149) as int,
    );
    lemma_weights_error(e_mu, de_mu, 9);
}

/// The weights of all rules sum to one, up to one part in `2^19`.
pub proof fn fuzzy_weights_sum_to_one(param: FuzzyParam, error: Binary32, error_delta: Binary32)
    requires
        !(error / scale_or_one(param.e_scale)).nan(),
        !(error_delta / scale_or_one(param.de_scale)).nan(),
    ensures
        0x8_0000 * abs(
            FuzzyState::updated(param, error, error_delta).weight_sum.value() - pow2(149),
        ) <= pow2(149),
{
    let e_mu = membership(error / scale_or_one(param.e_scale));
    let de_mu = membership(error_delta / scale_or_one(param.de_scale));
    let u = pow2(149);
    let unit = pow2(125);
    let total = exact_weights(e_mu, de_mu, 9);
    let weights = rule_weights(e_mu, de_mu, 9);
    lemma_around_one();
    lemma_tiers(error / scale_or_one(param.e_scale));
    lemma_tiers(error_delta / scale_or_one(param.de_scale));
    lemma_exact_memberships(error / scale_or_one(param.e_scale));
    lemma_exact_memberships(error_delta / scale_or_one(param.de_scale));
    lemma_exact_total(e_mu, de_mu);
    lemma_near_square(
        e_mu[0].value() + e_mu[1].value() + e_mu[2].value(),
        de_mu[0].value() + de_mu[1].value() + de_mu[2].value(),
        unit as int,
        u as int,
    );
    lemma_weights_error(e_mu, de_mu, 9);
    assert(abs(weights.value() - u) <= 21 * unit) by (nonlinear_arith)
        requires
            abs(weights.value() * u - total) <= 18 * (unit * u),
            abs(total - u * u) <= 3 * (unit * u),
            u > 0,
    ;
}

proof fn lemma_tiers(x: Binary32)
    requires
        !x.nan(),
    ensures
        tiers(membership(x)),
{
    assert forall|k: int| 0 <= k < 3 implies (#[trigger] membership(x)[k]).within(
        b32(ZERO),
        b32(ONE),
    ) by {
        membership_lies_between_zero_and_one(x, k);
    }
}

/// The exact weights of all rules are the product of two sums.
proof fn lemma_exact_total(e_mu: Seq<Binary32>, de_mu: Seq<Binary32>)
    ensures
        exact_weights(e_mu, de_mu, 9) == (e_mu[0].value() + e_mu[1].value() + e_mu[2].value()) * (
        de_mu[0].value() + de_mu[1].value() + de_mu[2].value()),
{
    reveal_with_fuel(exact_weights, 10);
    let a = e_mu[0].value();
    let b = e_mu[1].value();
    let c = e_mu[2].value();
    let sum = de_mu[0].value() + de_mu[1].value() + de_mu[2].value();
    lemma_product_of_sum(a + b, c, sum);
    lemma_product_of_sum(a, b, sum);
    lemma_three_products(a, de_mu[0].value(), de_mu[1].value(), de_mu[2].value());
    lemma_three_products(b, de_mu[0].value(), de_mu[1].value(), de_mu[2].value());
    lemma_three_products(c, de_mu[0].value(), de_mu[1].value(), de_mu[2].value());
}

proof fn lemma_three_products(factor: int, a: int, b: int, c: int)
    ensures
        factor * (a + b + c) == factor * a + factor * b + factor * c,
{
    assert(factor * (a + b + c) == factor * a + factor * b + factor * c) by (nonlinear_arith);
}

/// The product of two numbers near `u` is near its square.
proof fn lemma_near_square(x: int, y: int, e: int, u: int)
    requires
        abs(x - u) <= e,
        abs(y - u) <= e,
        0 < e,
        u == 0x100_0000 * e,
    ensures
        abs(x * y - u * u) <= 3 * (e * u),
        8 * (x * y) <= 9 * (u * u),
{
    let dx = x - u;
    let dy = y - u;
    assert(x * y - u * u == dx * u + dy * u + dx * dy) by (nonlinear_arith)
        requires
            dx == x - u,
            dy == y - u,
    ;
    assert(abs(dx * u) <= e * u) by (nonlinear_arith)
        requires
            abs(dx) <= e,
            u > 0,
    ;
    assert(abs(dy * u) <= e * u) by (nonlinear_arith)
        requires
            abs(dy) <= e,
            u > 0,
    ;
    assert(abs(dx * dy) <= e * u) by (nonlinear_arith)
        requires
            abs(dx) <= e,
            abs(dy) <= u,
    ;
    assert(0x100_0000 * (e * u) == u * u) by (nonlinear_arith)
        requires
            u == 0x100_0000 * e,
    ;
    assert(e * u > 0) by (nonlinear_arith)
        requires
            e > 0,
            u > 0,
    ;
}

/// The output of the fuzzy controller keeps its limits.
pub proof fn fuzzy_output_is_limited(param: FuzzyParam, error: Binary32, error_delta: Binary32)
    requires
        !param.out_min.nan(),
        !param.out_max.nan(),
        !(error / scale_or_one(param.e_scale)).nan(),
        !(error_delta / scale_or_one(param.de_scale)).nan(),
    ensures
        limited(
            FuzzyState::updated(param, error, error_delta).output,
            param.out_min,
            param.out_max,
        ),
{
    fuzzy_weights_are_positive(param, error, error_delta);
}

/// An input that is a NaN makes the sum of the weights a NaN and the output zero.
pub proof fn fuzzy_output_of_nan_is_zero(param: FuzzyParam, error: Binary32, error_delta: Binary32)
    requires
        (error / scale_or_one(param.e_scale)).nan() || (error_delta / scale_or_one(
            param.de_scale,
        )).nan(),
    ensures
        FuzzyState::updated(param, error, error_delta).weight_sum.nan(),
        FuzzyState::updated(param, error, error_delta).output == b32(ZERO),
{
    let e = error / scale_or_one(param.e_scale);
    let de = error_delta / scale_or_one(param.de_scale);
    let e_mu = membership(e);
    let de_mu = membership(de);
    let weights = rule_weights(e_mu, de_mu, 9);
    assert(weights.nan()) by {
        if e.nan() {
            lemma_nan_membership(e);
            lemma_mul_kind(e_mu[1], de_mu[0]);
            assert(rule_weight(e_mu, de_mu, 3) == e_mu[1] * de_mu[0]);
            lemma_nan_weight(e_mu, de_mu, 3, 9);
        } else {
            lemma_nan_membership(de);
            lemma_mul_kind(e_mu[0], de_mu[1]);
            assert(rule_weight(e_mu, de_mu, 1) == e_mu[0] * de_mu[1]);
            lemma_nan_weight(e_mu, de_mu, 1, 9);
        }
    }
    assert(FuzzyState::updated(param, error, error_delta).weight_sum == weights);
}

/// The middle membership of a NaN is a NaN.
proof fn lemma_nan_membership(x: Binary32)
    requires
        x.nan(),
    ensures
        membership(x)[1].nan(),
{
    lemma_sum_kind(b32(ONE), -x.size());
}

/// A weight that is a NaN makes every sum with it a NaN.
proof fn lemma_nan_weight(e_mu: Seq<Binary32>, de_mu: Seq<Binary32>, k: int, n: int)
    requires
        0 <= k < n,
        rule_weight(e_mu, de_mu, k).nan(),
    ensures
        rule_weights(e_mu, de_mu, n).nan(),
    decreases n,
{
    lemma_sum_kind(rule_weights(e_mu, de_mu, n - 1), rule_weight(e_mu, de_mu, n - 1));
    if k < n - 1 {
        lemma_nan_weight(e_mu, de_mu, k, n - 1);
    }
}

/// The output of the robust controller keeps its limits.
pub proof fn hinf_output_is_limited(
    param: HinfParam,
    x: Binary32,
    disturbance: Binary32,
    feedforward: Binary32,
)
    requires
        !param.out_min.nan(),
        !param.out_max.nan(),
    ensures
        limited(
            HinfState::updated(param, x, disturbance, feedforward).u,
            param.out_min,
            param.out_max,
        ),
{
}

/// The output of the optimal state feedback keeps its limits.
pub proof fn lqr_output_is_limited(
    param: LqrParam,
    x0: Binary32,
    x1: Binary32,
    feedforward: Binary32,
)
    requires
        !param.out_min.nan(),
        !param.out_max.nan(),
    ensures
        limited(LqrState::updated(param, x0, x1, feedforward).u, param.out_min, param.out_max),
{
}

/// Among the first `n` candidates none is cheaper than the best one, and the best one is
/// the first of its cost.
proof fn lemma_first_cheapest(param: MpcParam, x: Binary32, reference: Binary32, n: int)
    requires
        n >= 0,
    ensures
        ({
            let best = MpcState::best_of(param, x, reference, n);
            &&& forall|i: int|
                0 <= i < n ==> !(param.cost_of(x, reference, #[trigger] param.candidate(i))
                    < best.cost)
            &&& best == MpcState::nothing_found() || best.cost < b32(MAX_FINITE) && exists|k: int|
                0 <= k < n && MpcState::first_cheapest(param, x, reference, k, best)
        }),
    decreases n,
{
    if n > 0 {
        lemma_first_cheapest(param, x, reference, n - 1);
        let before = MpcState::best_of(param, x, reference, n - 1);
        let cost = param.cost_of(x, reference, param.candidate(n - 1));
        let best = MpcState::best_of(param, x, reference, n);
        if cost < before.cost {
            assert forall|i: int| 0 <= i < n - 1 implies !(param.cost_of(
                x,
                reference,
                #[trigger] param.candidate(i),
            ) <= best.cost) by {
                assert(!(param.cost_of(x, reference, param.candidate(i)) < before.cost));
            }
            assert(MpcState::first_cheapest(param, x, reference, n - 1, best));
        } else if before != MpcState::nothing_found() {
            let k = choose|k: int|
                0 <= k < n - 1 && MpcState::first_cheapest(param, x, reference, k, before);
            assert(MpcState::first_cheapest(param, x, reference, k, best));
        }
    }
}

/// If some candidate costs less than the largest finite number, the search selects the
/// first of the cheapest candidates.
pub proof fn mpc_selects_first_cheapest_candidate(param: MpcParam, x: Binary32, reference: Binary32)
    requires
        exists|i: int|
            0 <= i < param.count() && param.cost_of(x, reference, #[trigger] param.candidate(i))
                < b32(MAX_FINITE),
    ensures
        ({
            let best = MpcState::updated(param, x, reference);
            &&& best.cost < b32(MAX_FINITE)
            &&& forall|i: int|
                0 <= i < param.count() ==> !(param.cost_of(
                    x,
                    reference,
                    #[trigger] param.candidate(i),
                ) < best.cost)
            &&& exists|k: int|
                0 <= k < param.count() && MpcState::first_cheapest(param, x, reference, k, best)
        }),
{
    lemma_first_cheapest(param, x, reference, param.count());
}

/// If no candidate costs less than the largest finite number, the search fails: it returns
/// zero, at a cost that is not finite.
pub proof fn mpc_failure_is_not_finite(param: MpcParam, x: Binary32, reference: Binary32)
    requires
        forall|i: int|
            0 <= i < param.count() ==> !(param.cost_of(x, reference, #[trigger] param.candidate(i))
                < b32(MAX_FINITE)),
    ensures
        MpcState::updated(param, x, reference) == MpcState::failed(),
        !MpcState::updated(param, x, reference).cost.finite(),
{
    lemma_first_cheapest(param, x, reference, param.count());
    let best = MpcState::best_of(param, x, reference, param.count());
    if best != MpcState::nothing_found() {
        let k = choose|k: int|
            0 <= k < param.count() && MpcState::first_cheapest(param, x, reference, k, best);
        assert(!(param.cost_of(x, reference, param.candidate(k)) < b32(MAX_FINITE)));
    }
}

/// A positive integer that fits 32 bits has a finite nearest number of at least one.
proof fn lemma_nearest_to_positive(i: int)
    requires
        1 <= i <= 0x7fff_ffff,
    ensures
        nearest_to_int(i).finite(),
        nearest_to_int(i) >= b32(ONE),
        !nearest_to_int(i).negative(),
{
    let n = i as nat * pow2(149);
    lemma_one();
    lemma_power_mag(31);
    lemma2_to64();
    lemma_pow2_adds(31, 149);
    assert(pow2(149) <= n <= 0x8000_0000 * pow2(149)) by (nonlinear_arith)
        requires
            n == i * pow2(149),
            1 <= i <= 0x8000_0000,
            pow2(149) > 0,
    ;
    lemma_rounded_mag_exact(b32(ONE).mag());
    lemma_rounded_mag_exact(power_mag(31));
    lemma_rounded_mag_order(pow2(149), n);
    lemma_rounded_mag_order(n, pow2(180));
}

/// The grid starts at the lower limit; it ends at the upper one wherever the distance of
/// the limits is an exact number.
pub proof fn mpc_grid_includes_both_ends(param: MpcParam)
    requires
        param.u_min.finite(),
        param.u_max.finite(),
        (param.u_max - param.u_min).finite(),
    ensures
        param.candidate(0).same(param.u_min),
        (param.u_max - param.u_min).value() == param.u_max.value() - param.u_min.value()
            ==> param.candidate(param.count() - 1).same(param.u_max),
{
    let span = param.u_max - param.u_min;
    let last = nearest_to_int(param.count() - 1);
    let zero = nearest_to_int(0);
    lemma_nearest_to_positive(param.count() - 1);
    assert(0 * pow2(149) == 0);
    lemma_mag_units_order(0, 0);
    lemma_rounded_mag_exact(0);
    quotient_of_zero_is_zero(zero, last);
    product_with_zero_is_zero(span, zero / last);
    multiplication_is_commutative(span, zero / last);
    zero_is_neutral(param.u_min, zero / last * span);
    quotient_by_larger_is_fraction(last, last);
    quotient_by_smaller_is_at_least_one(last, last);
    assert(last / last == b32(ONE));
    one_is_neutral(span);
    multiplication_is_commutative(span, b32(ONE));
    lemma_sum_kind(param.u_min, span);
    lemma_rounded_sum_exact(param.u_max, param.u_min.negative() && span.negative());
}

/// Output and gain of the model-reference adaptive controller keep their limits.
pub proof fn mrac_output_and_gain_are_limited(
    state: MracState,
    param: MracParam,
    reference: Binary32,
    feedback: Binary32,
)
    requires
        !param.out_min.nan(),
        !param.out_max.nan(),
        !param.theta_min.nan(),
        !param.theta_max.nan(),
        !(param.ts <= b32(ZERO)),
    ensures
        limited(state.updated(param, reference, feedback).output, param.out_min, param.out_max),
        limited(state.updated(param, reference, feedback).theta, param.theta_min, param.theta_max),
{
}

/// With reference zero adaptation stops: the gain stays, and the output is zero.
pub proof fn mrac_rests_without_reference(
    state: MracState,
    param: MracParam,
    reference: Binary32,
    feedback: Binary32,
)
    requires
        reference.zero(),
        param.ts > b32(ZERO),
        param.ts.finite(),
        state.theta.finite(),
        state.theta.within(param.theta_min, param.theta_max),
        b32(ZERO).within(param.out_min, param.out_max),
        (param.gamma * state.updated(param, reference, feedback).error).finite(),
    ensures
        state.updated(param, reference, feedback).theta.same(state.theta),
        state.updated(param, reference, feedback).output.zero(),
{
    let next = state.updated(param, reference, feedback);
    let drive = param.gamma * next.error;
    product_with_zero_is_zero(drive, reference);
    product_with_zero_is_zero(param.ts, drive * reference);
    multiplication_is_commutative(param.ts, drive * reference);
    zero_is_neutral(state.theta, drive * reference * param.ts);
    product_with_zero_is_zero(next.theta, reference);
}

/// The switching term never drives the state further from the sliding surface.
pub proof fn switching_opposes_surface(
    param: SmcParam,
    error: Binary32,
    error_dot: Binary32,
    equivalent: Binary32,
)
    requires
        param.k >= b32(ZERO),
        param.k.finite(),
        !param.boundary.nan(),
        SmcState::updated(param, error, error_dot, equivalent).surface.finite(),
    ensures
        ({
            let s = SmcState::updated(param, error, error_dot, equivalent);
            &&& s.surface >= b32(ZERO) ==> s.switching <= b32(ZERO)
            &&& s.surface <= b32(ZERO) ==> s.switching >= b32(ZERO)
        }),
{
    let surface = param.c * error + error_dot;
    let sat = saturated(surface, param.boundary);
    saturated_sign_is_limited(surface, param.boundary);
    lemma_mul_kind(-param.k, sat);
    product_follows_signs(-param.k, sat);
}

/// The output of the sliding-mode controller keeps its limits.
pub proof fn smc_output_is_limited(
    param: SmcParam,
    error: Binary32,
    error_dot: Binary32,
    equivalent: Binary32,
)
    requires
        !param.out_min.nan(),
        !param.out_max.nan(),
    ensures
        limited(
            SmcState::updated(param, error, error_dot, equivalent).output,
            param.out_min,
            param.out_max,
        ),
{
}

} // verus!
