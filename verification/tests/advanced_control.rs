use foc_algorithm::AdaptiveParam;
use foc_algorithm::AdaptiveState;
use foc_algorithm::BacksteppingParam;
use foc_algorithm::BacksteppingState;
use foc_algorithm::Binary32;
use foc_algorithm::FuzzyParam;
use foc_algorithm::FuzzyState;
use foc_algorithm::HinfParam;
use foc_algorithm::HinfState;
use foc_algorithm::LqrParam;
use foc_algorithm::LqrState;
use foc_algorithm::MpcParam;
use foc_algorithm::MpcState;
use foc_algorithm::MracParam;
use foc_algorithm::MracState;
use foc_algorithm::SmcParam;
use foc_algorithm::SmcState;

fn b(x: f32) -> Binary32 {
    Binary32::from_bits(x.to_bits())
}

fn f(x: Binary32) -> f32 {
    f32::from_bits(x.to_bits())
}

fn near(actual: Binary32, expected: f32, tolerance: f32) {
    let actual = f(actual);
    assert!((actual - expected).abs() <= tolerance, "{actual} != {expected}");
}

#[test]
fn adaptive_matches_c_reference() {
    let mut param = AdaptiveParam {
        learning_rate: b(1.0),
        ts: b(0.1),
        gain_min: b(0.0),
        gain_max: b(2.0),
        out_min: b(-10.0),
        out_max: b(10.0),
    };
    let mut state = AdaptiveState::new(b(1.0));
    near(state.update(&param, b(2.0), b(1.0)), 1.2, 1e-6);
    near(state.gain, 1.2, 1e-6);
    param.learning_rate = b(100.0);
    state.update(&param, b(2.0), b(0.0));
    near(state.gain, 2.0, 1e-6);
}

#[test]
fn backstepping_matches_c_reference() {
    let p = BacksteppingParam {
        k1: b(2.0),
        k2: b(3.0),
        out_min: b(-10.0),
        out_max: b(10.0),
    };
    let mut state = BacksteppingState::default();
    near(state.update(&p, b(1.0), b(0.0), b(0.0), b(0.0), b(0.0)), -6.0, 1e-6);
    near(state.alpha, -2.0, 1e-6);
    near(state.e2, 2.0, 1e-6);
    near(state.update(&p, b(10.0), b(0.0), b(0.0), b(0.0), b(0.0)), -10.0, 1e-6);
}

#[test]
fn fuzzy_matches_c_reference() {
    let p = FuzzyParam {
        e_scale: b(1.0),
        de_scale: b(1.0),
        out_scale: b(2.0),
        rules: [[b(-1.0), b(-0.5), b(0.0)], [b(-0.5), b(0.0), b(0.5)], [b(0.0), b(0.5), b(1.0)]],
        out_min: b(-2.0),
        out_max: b(2.0),
    };
    let mut state = FuzzyState::default();
    near(state.update(&p, b(1.0), b(1.0)), 2.0, 1e-6);
    near(state.update(&p, b(0.0), b(0.0)), 0.0, 1e-6);
    near(state.update(&p, b(-1.0), b(-1.0)), -2.0, 1e-6);
}

#[test]
fn hinf_matches_c_reference() {
    let p = HinfParam {
        kx: b(2.0),
        kw: b(4.0),
        gamma: b(2.0),
        out_min: b(-5.0),
        out_max: b(5.0),
    };
    let mut state = HinfState::default();
    near(state.update(&p, b(1.0), b(0.5), b(1.0)), -2.0, 1e-6);
    near(state.robust_term, -1.0, 1e-6);
    near(state.update(&p, b(10.0), b(0.0), b(0.0)), -5.0, 1e-6);
}

#[test]
fn lqr_matches_c_reference() {
    let p = LqrParam {
        k0: b(2.0),
        k1: b(0.5),
        out_min: b(-5.0),
        out_max: b(5.0),
    };
    let mut state = LqrState::default();
    near(state.update(&p, b(1.0), b(2.0), b(0.5)), -2.5, 1e-6);
    near(state.update(&p, b(10.0), b(0.0), b(0.0)), -5.0, 1e-6);
}

#[test]
fn mpc_matches_c_reference_and_has_two_candidate_floor() {
    let mut p = MpcParam {
        a: b(1.0),
        b: b(1.0),
        q: b(1.0),
        r: b(0.0),
        u_min: b(-2.0),
        u_max: b(2.0),
        candidates: 5,
    };
    let mut state = MpcState::default();
    near(state.update(&p, b(0.0), b(1.0)), 1.0, 1e-6);
    near(state.predicted_x, 1.0, 1e-6);
    p.r = b(10.0);
    near(state.update(&p, b(0.0), b(1.0)), 0.0, 1e-6);
    p.candidates = 0;
    assert!(state.update(&p, b(0.0), b(1.0)).is_finite());
}

#[test]
fn mrac_matches_c_reference() {
    let mut p = MracParam {
        ts: b(0.1),
        model_a: b(1.0),
        model_b: b(2.0),
        gamma: b(1.0),
        theta_min: b(0.0),
        theta_max: b(5.0),
        out_min: b(-10.0),
        out_max: b(10.0),
    };
    let mut state = MracState::new(b(1.0));
    near(state.update(&p, b(1.0), b(0.0)), 1.02, 1e-6);
    near(state.model_output, 0.2, 1e-6);
    near(state.theta, 1.02, 1e-6);
    p.gamma = b(100.0);
    state.update(&p, b(10.0), b(0.0));
    near(state.theta, 5.0, 1e-6);
}

#[test]
fn smc_matches_c_reference() {
    let mut p = SmcParam {
        c: b(2.0),
        k: b(3.0),
        boundary: b(2.0),
        out_min: b(-5.0),
        out_max: b(5.0),
    };
    let mut state = SmcState::default();
    near(state.update(&p, b(0.5), b(0.0), b(1.0)), -0.5, 1e-6);
    near(state.surface, 1.0, 1e-6);
    near(state.update(&p, b(10.0), b(0.0), b(0.0)), -3.0, 1e-6);
    p.out_min = b(-2.0);
    near(state.update(&p, b(10.0), b(0.0), b(0.0)), -2.0, 1e-6);
}
