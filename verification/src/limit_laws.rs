//! Limits can be given in either order, wherever there are limits.
use vstd::prelude::*;
use crate::adrc::AdrcParam;
use crate::adrc::AdrcState;
use crate::advanced_control::AdaptiveParam;
use crate::advanced_control::AdaptiveState;
use crate::advanced_control::BacksteppingParam;
use crate::advanced_control::BacksteppingState;
use crate::advanced_control::FuzzyParam;
use crate::advanced_control::FuzzyState;
use crate::advanced_control::HinfParam;
use crate::advanced_control::HinfState;
use crate::advanced_control::LqrParam;
use crate::advanced_control::LqrState;
use crate::advanced_control::MracParam;
use crate::advanced_control::MracState;
use crate::advanced_control::SmcParam;
use crate::advanced_control::SmcState;
use crate::binary32::Binary32;
use crate::controller::FeedForwardParam;
use crate::controller::FeedForwardState;
use crate::controller::PdParam;
use crate::controller::PdState;
use crate::controller::PidParam;
use crate::controller::PidState;
use crate::controller::PiParam;
use crate::controller::PiState;
use crate::controller::PositionLoopParam;
use crate::controller::PositionLoopState;
use crate::controller::PParam;
use crate::controller::PState;
use crate::genetic::child_of;
use crate::genetic::GeneticAlgorithmParam;
use crate::learning::network_output;
use crate::learning::NeuralNetworkParam;
use crate::math::clamped;
use crate::observer::advanced_smo::AdaptiveSmoInput;
use crate::observer::advanced_smo::AdaptiveSmoParam;
use crate::observer::advanced_smo::AdaptiveSmoState;
use crate::observer::flux::FluxCurrentParam;
use crate::observer::flux::FluxCurrentState;
use crate::observer::flux::FluxInput;
use crate::observer::flux::FluxParam;
use crate::observer::flux::FluxState;
use crate::observer::PllParam;
use crate::observer::PllState;
use crate::transform::Dq;

verus! {

/// Limiting does not depend on the order of the limits.
proof fn lemma_either_order(a: Binary32, b: Binary32)
    requires
        !a.nan(),
        !b.nan(),
        !a.same(b),
    ensures
        forall|x: Binary32| #[trigger] clamped(x, a, b) == clamped(x, b, a),
{
}

/// The limits of a proportional controller can be given in either order.
pub proof fn p_limits_have_no_order(
    param: PParam,
    reference: Binary32,
    feedback: Binary32,
)
    requires
        !param.out_min.nan(),
        !param.out_max.nan(),
        !param.out_min.same(param.out_max),
    ensures
        ({
            let exchanged = PParam {
                out_min: param.out_max,
                out_max: param.out_min,
                ..param
            };
            PState::updated(exchanged, reference, feedback)
                == PState::updated(param, reference, feedback)
        }),
{
    lemma_either_order(param.out_min, param.out_max);
}

/// The limits of a PI controller can be given in either order.
pub proof fn pi_limits_have_no_order(
    param: PiParam,
    state: PiState,
    reference: Binary32,
    feedback: Binary32,
)
    requires
        !param.out_min.nan(),
        !param.out_max.nan(),
        !param.out_min.same(param.out_max),
    ensures
        ({
            let exchanged = PiParam {
                out_min: param.out_max,
                out_max: param.out_min,
                ..param
            };
            state.updated(exchanged, reference, feedback)
                == state.updated(param, reference, feedback)
        }),
{
    lemma_either_order(param.out_min, param.out_max);
}

/// The limits of the integral part of a PI controller can be given in either order.
pub proof fn pi_integrator_limits_have_no_order(
    param: PiParam,
    state: PiState,
    reference: Binary32,
    feedback: Binary32,
)
    requires
        !param.integrator_min.nan(),
        !param.integrator_max.nan(),
        !param.integrator_min.same(param.integrator_max),
    ensures
        ({
            let exchanged = PiParam {
                integrator_min: param.integrator_max,
                integrator_max: param.integrator_min,
                ..param
            };
            state.updated(exchanged, reference, feedback)
                == state.updated(param, reference, feedback)
        }),
{
    lemma_either_order(param.integrator_min, param.integrator_max);
}

/// The limits of a PD controller can be given in either order.
pub proof fn pd_limits_have_no_order(
    param: PdParam,
    state: PdState,
    reference: Binary32,
    feedback: Binary32,
)
    requires
        !param.out_min.nan(),
        !param.out_max.nan(),
        !param.out_min.same(param.out_max),
    ensures
        ({
            let exchanged = PdParam {
                out_min: param.out_max,
                out_max: param.out_min,
                ..param
            };
            state.updated(exchanged, reference, feedback)
                == state.updated(param, reference, feedback)
        }),
{
    lemma_either_order(param.out_min, param.out_max);
}

/// The limits of a PID controller can be given in either order.
pub proof fn pid_limits_have_no_order(
    param: PidParam,
    state: PidState,
    reference: Binary32,
    feedback: Binary32,
)
    requires
        !param.out_min.nan(),
        !param.out_max.nan(),
        !param.out_min.same(param.out_max),
    ensures
        ({
            let exchanged = PidParam {
                out_min: param.out_max,
                out_max: param.out_min,
                ..param
            };
            state.updated(exchanged, reference, feedback)
                == state.updated(param, reference, feedback)
        }),
{
    lemma_either_order(param.out_min, param.out_max);
}

/// The limits of the integral part of a PID controller can be given in either order.
pub proof fn pid_integrator_limits_have_no_order(
    param: PidParam,
    state: PidState,
    reference: Binary32,
    feedback: Binary32,
)
    requires
        !param.integrator_min.nan(),
        !param.integrator_max.nan(),
        !param.integrator_min.same(param.integrator_max),
    ensures
        ({
            let exchanged = PidParam {
                integrator_min: param.integrator_max,
                integrator_max: param.integrator_min,
                ..param
            };
            state.updated(exchanged, reference, feedback)
                == state.updated(param, reference, feedback)
        }),
{
    lemma_either_order(param.integrator_min, param.integrator_max);
}

/// The limits of a feed-forward term can be given in either order.
pub proof fn feed_forward_limits_have_no_order(
    param: FeedForwardParam,
    velocity_ref: Binary32,
    acceleration_ref: Binary32,
)
    requires
        !param.out_min.nan(),
        !param.out_max.nan(),
        !param.out_min.same(param.out_max),
    ensures
        ({
            let exchanged = FeedForwardParam {
                out_min: param.out_max,
                out_max: param.out_min,
                ..param
            };
            FeedForwardState::updated(exchanged, velocity_ref, acceleration_ref)
                == FeedForwardState::updated(param, velocity_ref, acceleration_ref)
        }),
{
    lemma_either_order(param.out_min, param.out_max);
}

/// The limits of the position loop can be given in either order.
pub proof fn position_limits_have_no_order(
    param: PositionLoopParam,
    position_ref: Binary32,
    position_feedback: Binary32,
)
    requires
        !param.speed_min.nan(),
        !param.speed_max.nan(),
        !param.speed_min.same(param.speed_max),
    ensures
        ({
            let exchanged = PositionLoopParam {
                speed_min: param.speed_max,
                speed_max: param.speed_min,
                ..param
            };
            PositionLoopState::updated(exchanged, position_ref, position_feedback)
                == PositionLoopState::updated(param, position_ref, position_feedback)
        }),
{
    lemma_either_order(param.speed_min, param.speed_max);
}

/// The limits of disturbance rejection can be given in either order.
pub proof fn adrc_limits_have_no_order(
    param: AdrcParam,
    state: AdrcState,
    reference: Binary32,
    feedback: Binary32,
)
    requires
        !param.out_min.nan(),
        !param.out_max.nan(),
        !param.out_min.same(param.out_max),
    ensures
        ({
            let exchanged = AdrcParam {
                out_min: param.out_max,
                out_max: param.out_min,
                ..param
            };
            state.updated(exchanged, reference, feedback)
                == state.updated(param, reference, feedback)
        }),
{
    lemma_either_order(param.out_min, param.out_max);
}

/// The limits of the adaptive controller can be given in either order.
pub proof fn adaptive_limits_have_no_order(
    param: AdaptiveParam,
    state: AdaptiveState,
    reference: Binary32,
    feedback: Binary32,
)
    requires
        !param.out_min.nan(),
        !param.out_max.nan(),
        !param.out_min.same(param.out_max),
    ensures
        ({
            let exchanged = AdaptiveParam {
                out_min: param.out_max,
                out_max: param.out_min,
                ..param
            };
            state.updated(exchanged, reference, feedback)
                == state.updated(param, reference, feedback)
        }),
{
    lemma_either_order(param.out_min, param.out_max);
}

/// The limits of the gain of the adaptive controller can be given in either order.
pub proof fn adaptive_gain_limits_have_no_order(
    param: AdaptiveParam,
    state: AdaptiveState,
    reference: Binary32,
    feedback: Binary32,
)
    requires
        !param.gain_min.nan(),
        !param.gain_max.nan(),
        !param.gain_min.same(param.gain_max),
    ensures
        ({
            let exchanged = AdaptiveParam {
                gain_min: param.gain_max,
                gain_max: param.gain_min,
                ..param
            };
            state.updated(exchanged, reference, feedback)
                == state.updated(param, reference, feedback)
        }),
{
    lemma_either_order(param.gain_min, param.gain_max);
}

/// The limits of backstepping can be given in either order.
pub proof fn backstepping_limits_have_no_order(
    param: BacksteppingParam,
    x1: Binary32,
    x2: Binary32,
    reference: Binary32,
    rate: Binary32,
    acceleration: Binary32,
)
    requires
        !param.out_min.nan(),
        !param.out_max.nan(),
        !param.out_min.same(param.out_max),
    ensures
        ({
            let exchanged = BacksteppingParam {
                out_min: param.out_max,
                out_max: param.out_min,
                ..param
            };
            BacksteppingState::updated(exchanged, x1, x2, reference, rate, acceleration)
                == BacksteppingState::updated(param, x1, x2, reference, rate, acceleration)
        }),
{
    lemma_either_order(param.out_min, param.out_max);
}

/// The limits of the fuzzy controller can be given in either order.
pub proof fn fuzzy_limits_have_no_order(
    param: FuzzyParam,
    error: Binary32,
    error_delta: Binary32,
)
    requires
        !param.out_min.nan(),
        !param.out_max.nan(),
        !param.out_min.same(param.out_max),
    ensures
        ({
            let exchanged = FuzzyParam {
                out_min: param.out_max,
                out_max: param.out_min,
                ..param
            };
            FuzzyState::updated(exchanged, error, error_delta)
                == FuzzyState::updated(param, error, error_delta)
        }),
{
    lemma_either_order(param.out_min, param.out_max);
}

/// The limits of the robust controller can be given in either order.
pub proof fn hinf_limits_have_no_order(
    param: HinfParam,
    x: Binary32,
    disturbance: Binary32,
    feedforward: Binary32,
)
    requires
        !param.out_min.nan(),
        !param.out_max.nan(),
        !param.out_min.same(param.out_max),
    ensures
        ({
            let exchanged = HinfParam {
                out_min: param.out_max,
                out_max: param.out_min,
                ..param
            };
            HinfState::updated(exchanged, x, disturbance, feedforward)
                == HinfState::updated(param, x, disturbance, feedforward)
        }),
{
    lemma_either_order(param.out_min, param.out_max);
}

/// The limits of the state feedback can be given in either order.
pub proof fn lqr_limits_have_no_order(
    param: LqrParam,
    x0: Binary32,
    x1: Binary32,
    feedforward: Binary32,
)
    requires
        !param.out_min.nan(),
        !param.out_max.nan(),
        !param.out_min.same(param.out_max),
    ensures
        ({
            let exchanged = LqrParam {
                out_min: param.out_max,
                out_max: param.out_min,
                ..param
            };
            LqrState::updated(exchanged, x0, x1, feedforward)
                == LqrState::updated(param, x0, x1, feedforward)
        }),
{
    lemma_either_order(param.out_min, param.out_max);
}

/// The limits of the model reference controller can be given in either order.
pub proof fn mrac_limits_have_no_order(
    param: MracParam,
    state: MracState,
    reference: Binary32,
    feedback: Binary32,
)
    requires
        !param.out_min.nan(),
        !param.out_max.nan(),
        !param.out_min.same(param.out_max),
    ensures
        ({
            let exchanged = MracParam {
                out_min: param.out_max,
                out_max: param.out_min,
                ..param
            };
            state.updated(exchanged, reference, feedback)
                == state.updated(param, reference, feedback)
        }),
{
    lemma_either_order(param.out_min, param.out_max);
}

/// The limits of what the model reference controller learnt can be given in either order.
pub proof fn mrac_theta_limits_have_no_order(
    param: MracParam,
    state: MracState,
    reference: Binary32,
    feedback: Binary32,
)
    requires
        !param.theta_min.nan(),
        !param.theta_max.nan(),
        !param.theta_min.same(param.theta_max),
    ensures
        ({
            let exchanged = MracParam {
                theta_min: param.theta_max,
                theta_max: param.theta_min,
                ..param
            };
            state.updated(exchanged, reference, feedback)
                == state.updated(param, reference, feedback)
        }),
{
    lemma_either_order(param.theta_min, param.theta_max);
}

/// The limits of sliding-mode control can be given in either order.
pub proof fn smc_limits_have_no_order(
    param: SmcParam,
    error: Binary32,
    error_dot: Binary32,
    equivalent: Binary32,
)
    requires
        !param.out_min.nan(),
        !param.out_max.nan(),
        !param.out_min.same(param.out_max),
    ensures
        ({
            let exchanged = SmcParam {
                out_min: param.out_max,
                out_max: param.out_min,
                ..param
            };
            SmcState::updated(exchanged, error, error_dot, equivalent)
                == SmcState::updated(param, error, error_dot, equivalent)
        }),
{
    lemma_either_order(param.out_min, param.out_max);
}

/// The limits of the phase-locked loop can be given in either order.
pub proof fn pll_limits_have_no_order(
    param: PllParam,
    state: PllState,
    phase_error: Binary32,
)
    requires
        !param.omega_min.nan(),
        !param.omega_max.nan(),
        !param.omega_min.same(param.omega_max),
    ensures
        ({
            let exchanged = PllParam {
                omega_min: param.omega_max,
                omega_max: param.omega_min,
                ..param
            };
            state.updated(exchanged, phase_error) == state.updated(param, phase_error)
        }),
{
    lemma_either_order(param.omega_min, param.omega_max);
}

/// The limits of the voltage model can be given in either order.
pub proof fn flux_limits_have_no_order(
    param: FluxParam,
    state: FluxState,
    input: FluxInput,
)
    requires
        !param.flux_min.nan(),
        !param.flux_max.nan(),
        !param.flux_min.same(param.flux_max),
    ensures
        ({
            let exchanged = FluxParam {
                flux_min: param.flux_max,
                flux_max: param.flux_min,
                ..param
            };
            state.vector_updated(exchanged, input) == state.vector_updated(param, input)
        }),
{
    lemma_either_order(param.flux_min, param.flux_max);
}

/// The limits of the current model can be given in either order.
pub proof fn current_model_limits_have_no_order(
    param: FluxCurrentParam,
    current_dq: Dq,
)
    requires
        !param.flux_min.nan(),
        !param.flux_max.nan(),
        !param.flux_min.same(param.flux_max),
    ensures
        ({
            let exchanged = FluxCurrentParam {
                flux_min: param.flux_max,
                flux_max: param.flux_min,
                ..param
            };
            FluxCurrentState::flux_of(exchanged, current_dq)
                == FluxCurrentState::flux_of(param, current_dq)
        }),
{
    lemma_either_order(param.flux_min, param.flux_max);
}

/// The limits of the gain of the adaptive observer can be given in either order.
pub proof fn adaptive_smo_limits_have_no_order(
    param: AdaptiveSmoParam,
    state: AdaptiveSmoState,
    input: AdaptiveSmoInput,
)
    requires
        !param.k_min.nan(),
        !param.k_max.nan(),
        !param.k_min.same(param.k_max),
    ensures
        ({
            let exchanged = AdaptiveSmoParam {
                k_min: param.k_max,
                k_max: param.k_min,
                ..param
            };
            state.vector_updated(exchanged, input) == state.vector_updated(param, input)
        }),
{
    lemma_either_order(param.k_min, param.k_max);
}

/// The limits of the network can be given in either order.
pub proof fn network_limits_have_no_order(
    param: NeuralNetworkParam,
    h0: Binary32,
    h1: Binary32,
    h2: Binary32,
)
    requires
        !param.out_min.nan(),
        !param.out_max.nan(),
        !param.out_min.same(param.out_max),
    ensures
        ({
            let exchanged = NeuralNetworkParam {
                out_min: param.out_max,
                out_max: param.out_min,
                ..param
            };
            network_output(exchanged, h0, h1, h2) == network_output(param, h0, h1, h2)
        }),
{
    lemma_either_order(param.out_min, param.out_max);
}

/// The limits of a child can be given in either order.
pub proof fn child_limits_have_no_order(
    param: GeneticAlgorithmParam,
    parent_a: Binary32,
    parent_b: Binary32,
    signal: Binary32,
)
    requires
        !param.value_min.nan(),
        !param.value_max.nan(),
        !param.value_min.same(param.value_max),
    ensures
        ({
            let exchanged = GeneticAlgorithmParam {
                value_min: param.value_max,
                value_max: param.value_min,
                ..param
            };
            child_of(exchanged, parent_a, parent_b, signal)
                == child_of(param, parent_a, parent_b, signal)
        }),
{
    lemma_either_order(param.value_min, param.value_max);
}

} // verus!
