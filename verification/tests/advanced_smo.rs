use foc_algorithm::AdaptiveSmoInput;
use foc_algorithm::AdaptiveSmoParam;
use foc_algorithm::AdaptiveSmoState;
use foc_algorithm::AlphaBeta;
use foc_algorithm::Binary32;
use foc_algorithm::HigherOrderSmoInput;
use foc_algorithm::HigherOrderSmoParam;
use foc_algorithm::HigherOrderSmoState;
use foc_algorithm::SuperTwistingSmoInput;
use foc_algorithm::SuperTwistingSmoParam;
use foc_algorithm::SuperTwistingSmoState;

fn b(x: f32) -> Binary32 {
    Binary32::from_bits(x.to_bits())
}

fn f(x: Binary32) -> f32 {
    f32::from_bits(x.to_bits())
}

fn near(actual: Binary32, expected: f32, tolerance: f32) {
    let actual = f(actual);
    assert!((actual - expected).abs() <= tolerance, "{actual} != {expected}");
}

fn atan2(y: Binary32, x: Binary32) -> Binary32 {
    b(libm::atan2f(f(y), f(x)))
}

#[test]
fn adaptive_smo_matches_c_reference() {
    let mut param = AdaptiveSmoParam {
        rs: b(0.5),
        ls: b(0.001),
        ts: b(0.0001),
        k_initial: b(2.0),
        k_min: b(1.0),
        k_max: b(5.0),
        adapt_rate: b(100.0),
        target_error: b(0.5),
        boundary: b(0.1),
        emf_filter_alpha: b(1.0),
    };
    let input = AdaptiveSmoInput {
        voltage: AlphaBeta::default(),
        current: AlphaBeta {
            alpha: b(1.0),
            beta: b(-1.0),
        },
    };
    let mut state = AdaptiveSmoState::new(&param);
    let emf = state.update(&param, &input, &atan2);
    near(state.k_slide, 2.009_142, 1e-5);
    near(emf.alpha, -2.009_142, 1e-5);
    near(emf.beta, 2.009_142, 1e-5);
    assert!((0.0..core::f32::consts::TAU).contains(&f(state.theta_emf_rad)));
    param.adapt_rate = b(100_000.0);
    state.update(&param, &input, &atan2);
    near(state.k_slide, 5.0, 1e-6);
}

#[test]
fn higher_order_smo_matches_c_reference() {
    let param = HigherOrderSmoParam {
        rs: b(0.5),
        ls: b(0.001),
        ts: b(0.0001),
        k_slide: b(4.0),
        k_dot: b(1.0),
        boundary: b(0.1),
        dot_boundary: b(10.0),
        emf_filter_alpha: b(1.0),
    };
    let input = HigherOrderSmoInput {
        voltage: AlphaBeta::default(),
        current: AlphaBeta {
            alpha: b(1.0),
            beta: b(-1.0),
        },
    };
    let mut state = HigherOrderSmoState::default();
    let emf = state.update(&param, &input, &atan2);
    near(emf.alpha, -5.0, 1e-6);
    near(emf.beta, 5.0, 1e-6);
    near(state.error_dot.alpha, -10_000.0, 1e-3);
}

#[test]
fn super_twisting_smo_matches_c_reference() {
    let param = SuperTwistingSmoParam {
        rs: b(0.5),
        ls: b(0.001),
        ts: b(0.0001),
        k1: b(2.0),
        k2: b(10.0),
        emf_filter_alpha: b(1.0),
    };
    let input = SuperTwistingSmoInput {
        voltage: AlphaBeta::default(),
        current: AlphaBeta {
            alpha: b(1.0),
            beta: b(-1.0),
        },
    };
    let mut state = SuperTwistingSmoState::default();
    let emf = state.update(&param, &input, &atan2);
    near(emf.alpha, -2.001, 1e-6);
    near(emf.beta, 2.001, 1e-6);
}
