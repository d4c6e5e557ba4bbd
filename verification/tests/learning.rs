use foc_algorithm::Binary32;
use foc_algorithm::NeuralNetworkParam;
use foc_algorithm::NeuralNetworkState;
use foc_algorithm::ReinforcementLearningParam;
use foc_algorithm::ReinforcementLearningState;

fn b(x: f32) -> Binary32 {
    Binary32::from_bits(x.to_bits())
}

fn f(x: Binary32) -> f32 {
    f32::from_bits(x.to_bits())
}

fn near(actual: Binary32, expected: f32, tolerance: f32) {
    let actual = f(actual);
    assert!((actual - expected).abs() <= tolerance, "{actual} != {expected}");
}

fn tanh(x: Binary32) -> Binary32 {
    b(libm::tanhf(f(x)))
}

#[test]
fn neural_network_matches_c_reference() {
    let mut param = NeuralNetworkParam {
        w1: [[b(1.0), b(0.0)], [b(0.0), b(1.0)], [b(1.0), b(1.0)]],
        b1: [b(0.0); 3],
        w2: [b(1.0), b(-1.0), b(0.5)],
        b2: b(0.1),
        out_min: b(-10.0),
        out_max: b(10.0),
    };
    let expected = libm::tanhf(1.0) - libm::tanhf(2.0) + 0.5 * libm::tanhf(3.0) + 0.1;
    let mut state = NeuralNetworkState::default();
    near(state.update(&param, b(1.0), b(2.0), &tanh), expected, 1e-6);
    param.out_max = b(0.0);
    near(state.update(&param, b(1.0), b(2.0), &tanh), 0.0, 1e-6);
}

#[test]
fn reinforcement_learning_matches_c_reference() {
    let param = ReinforcementLearningParam {
        state_count: 3,
        action_count: 3,
        alpha: b(0.5),
        gamma: b(0.9),
    };
    let mut state = ReinforcementLearningState::default();
    state.q[1][2] = b(4.0);
    state.update(&param, 0, 1, b(1.0), 1);
    near(state.q[0][1], 2.3, 1e-6);
    near(state.last_td_error, 4.6, 1e-6);
    state.q[0][2] = b(3.0);
    assert_eq!(state.select_action(&param, 0), 2);
}

#[test]
fn reinforcement_learning_rejects_out_of_capacity_indices() {
    let invalid = ReinforcementLearningParam {
        state_count: 9,
        action_count: 4,
        alpha: b(1.0),
        gamma: b(1.0),
    };
    let mut state = ReinforcementLearningState::default();
    state.update(&invalid, 0, 0, b(10.0), 0);
    assert_eq!(state, ReinforcementLearningState::default());
    assert_eq!(state.select_action(&invalid, 0), 0);
}
