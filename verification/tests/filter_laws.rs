use foc_algorithm::Binary32;
use foc_algorithm::DifferentiatorParam;
use foc_algorithm::DifferentiatorState;
use foc_algorithm::HighPassParam;
use foc_algorithm::HighPassState;
use foc_algorithm::LowPassParam;
use foc_algorithm::LowPassState;

fn b(x: f32) -> Binary32 {
    Binary32::from_bits(x.to_bits())
}

fn f(x: Binary32) -> f32 {
    f32::from_bits(x.to_bits())
}

#[test]
fn low_pass_adopts_its_first_input() {
    for alpha in [-1.0, 0.0, 0.3, 5.0] {
        let mut state = LowPassState::default();
        assert_eq!(f(state.update(&LowPassParam { alpha: b(alpha) }, b(7.5))), 7.5);
    }
}

#[test]
fn low_pass_never_moves_away() {
    let param = LowPassParam { alpha: b(0.3) };
    for i in -20..=20 {
        let input = i as f32 * 0.7;
        let mut state = LowPassState::new(b(1.0));
        let output = f(state.update(&param, b(input)));
        assert_eq!(output, 1.0 + 0.3 * (input - 1.0));
        if input >= 1.0 {
            assert!(output >= 1.0);
        } else {
            assert!(output <= 1.0);
        }
    }
}

#[test]
fn low_pass_can_be_frozen_and_restarted() {
    let mut state = LowPassState::new(b(2.0));
    assert_eq!(f(state.update(&LowPassParam { alpha: b(-0.5) }, b(100.0))), 2.0);
    assert_eq!(f(state.update(&LowPassParam { alpha: b(4.0) }, b(100.0))), 100.0);
    state.reset(b(-1.0));
    assert_eq!(state, LowPassState::new(b(-1.0)));
}

#[test]
fn high_pass_blocks_a_constant_input() {
    let param = HighPassParam { alpha: b(0.9) };
    let mut state = HighPassState::new(b(5.0));
    for _ in 0..10 {
        assert_eq!(f(state.update(&param, b(5.0))), 0.0);
    }
    assert_eq!(f(state.update(&param, b(6.0))), 0.9);
    assert_eq!(f(HighPassState::default().update(&param, b(3.0))), 0.0);
    state.reset(b(1.0));
    assert_eq!(state, HighPassState::new(b(1.0)));
}

#[test]
fn differentiator_of_a_constant_input_is_zero() {
    let param = DifferentiatorParam { ts: b(0.01), alpha: b(0.5) };
    let mut state = DifferentiatorState::new(b(5.0));
    assert_eq!(f(state.update(&param, b(5.0))), 0.0);
    assert_eq!(f(state.update(&param, b(5.5))), 0.5 * (0.5_f32 / 0.01));
    let before = state;
    assert_eq!(f(state.update(&DifferentiatorParam { ts: b(0.0), alpha: b(0.5) }, b(9.0))), 0.0);
    assert_eq!(state, before);
    assert_eq!(f(DifferentiatorState::default().update(&param, b(3.0))), 0.0);
    state.reset(b(1.0));
    assert_eq!(state, DifferentiatorState::new(b(1.0)));
}
