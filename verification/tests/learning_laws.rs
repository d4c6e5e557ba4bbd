use foc_algorithm::Binary32;
use foc_algorithm::NeuralNetworkParam;
use foc_algorithm::NeuralNetworkState;
use foc_algorithm::ReinforcementLearningParam;
use foc_algorithm::ReinforcementLearningState;

fn b(x: f32) -> Binary32 {
    Binary32::from_bits(x.to_bits())
}

fn f(x: Binary32) -> f32 {
    f32::from_bits(x.to_bits())
}

fn tanh(x: Binary32) -> Binary32 {
    b(libm::tanhf(f(x)))
}

fn param() -> ReinforcementLearningParam {
    ReinforcementLearningParam { state_count: 8, action_count: 4, alpha: b(0.5), gamma: b(0.5) }
}

#[test]
fn selected_action_is_the_first_of_the_best() {
    let mut state = ReinforcementLearningState::default();
    assert_eq!(state.select_action(&param(), 3), 0);
    state.q[3] = [b(1.0), b(4.0), b(-2.0), b(4.0)];
    assert_eq!(state.select_action(&param(), 3), 1);
    assert_eq!(state.best_action, 1);
    assert_eq!(state.select_action(&param(), 8), 0);
    assert_eq!(state.select_action(&param(), -1), 0);
    assert_eq!(state.best_action, 1);
}

#[test]
fn learning_changes_one_entry() {
    let mut state = ReinforcementLearningState::default();
    state.q[5] = [b(1.0), b(8.0), b(2.0), b(0.0)];
    let before = state;
    state.update(&param(), 2, 3, b(1.0), 5);
    assert_eq!(f(state.last_td_error), 1.0 + 0.5 * 8.0);
    assert_eq!(f(state.q[2][3]), 2.5);
    for s in 0..8 {
        for a in 0..4 {
            if s != 2 || a != 3 {
                assert_eq!(state.q[s][a], before.q[s][a]);
            }
        }
    }
}

#[test]
fn learning_rejects_indices_outside_the_table() {
    let mut state = ReinforcementLearningState::default();
    state.q[0][0] = b(3.0);
    let before = state;
    for (s, a, next) in [(-1, 0, 0), (8, 0, 0), (0, -1, 0), (0, 4, 0), (0, 0, -1), (0, 0, 8)] {
        state.update(&param(), s, a, b(1.0), next);
        assert_eq!(state, before);
    }
    for (states, actions) in [(0, 4), (9, 4), (8, 0), (8, 5)] {
        let wrong = ReinforcementLearningParam { state_count: states, action_count: actions, ..param() };
        state.update(&wrong, 0, 0, b(1.0), 0);
        assert_eq!(state, before);
    }
    state.reset();
    assert_eq!(state, ReinforcementLearningState::default());
}

#[test]
fn network_output_keeps_its_limits() {
    let param = NeuralNetworkParam {
        w1: [[b(1.0), b(2.0)], [b(-1.0), b(0.5)], [b(0.0), b(1.0)]],
        b1: [b(0.1), b(0.2), b(0.3)],
        w2: [b(5.0), b(-5.0), b(2.0)],
        b2: b(0.5),
        out_min: b(-1.0),
        out_max: b(1.0),
    };
    let mut state = NeuralNetworkState::default();
    for i in -20..=20 {
        let out = state.update(&param, b(i as f32 * 0.3), b(1.0 - i as f32 * 0.1), &tanh);
        assert!(out >= b(-1.0) && out <= b(1.0));
    }
    assert_eq!(f(state.update_activated(&param, b(0.1), b(0.2), b(0.3))), 0.5_f32 + 5.0 * 0.1 - 5.0 * 0.2 + 2.0 * 0.3);
    assert_eq!(f(state.hidden[1]), 0.2);
    state.update(&param, b(0.5), b(0.25), &tanh);
    assert_eq!(f(state.hidden[0]), libm::tanhf(1.0_f32 * 0.5 + 2.0 * 0.25 + 0.1));
    state.reset();
    assert_eq!(state, NeuralNetworkState::default());
}
