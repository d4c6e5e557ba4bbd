use foc_algorithm::AlphaBeta;
use foc_algorithm::BemfInput;
use foc_algorithm::BemfIntegralInput;
use foc_algorithm::BemfIntegralParam;
use foc_algorithm::BemfIntegralState;
use foc_algorithm::BemfParam;
use foc_algorithm::BemfPllParam;
use foc_algorithm::BemfPllState;
use foc_algorithm::BemfState;
use foc_algorithm::BemfZeroCrossParam;
use foc_algorithm::BemfZeroCrossState;
use foc_algorithm::Binary32;
use foc_algorithm::PllParam;
use foc_algorithm::PllState;

fn b(x: f32) -> Binary32 {
    Binary32::from_bits(x.to_bits())
}

fn f(x: Binary32) -> f32 {
    f32::from_bits(x.to_bits())
}

fn near(actual: Binary32, expected: f32, tolerance: f32) {
    let actual = f(actual);
    assert!((actual - expected).abs() <= tolerance, "{actual} != {expected}");
}

fn sin(x: Binary32) -> Binary32 {
    b(libm::sinf(f(x)))
}

fn atan2(y: Binary32, x: Binary32) -> Binary32 {
    b(libm::atan2f(f(y), f(x)))
}

const TAU: f32 = core::f32::consts::TAU;

fn pll_param() -> PllParam {
    PllParam { kp: b(40.0), ki: b(400.0), ts: b(0.001), omega_min: b(-50.0), omega_max: b(50.0) }
}

#[test]
fn loop_keeps_speed_and_angle_in_range() {
    let mut state = PllState::new(b(1.0));
    for i in 0..500 {
        let angle = state.update(&pll_param(), b(i as f32 * 0.7), &sin);
        assert!(angle >= b(0.0) && angle < b(TAU));
        assert!(state.omega_rad_s >= b(-50.0) && state.omega_rad_s <= b(50.0));
    }
}

#[test]
fn loop_step_follows_its_formula() {
    let mut state = PllState::new(b(1.0));
    state.update_with_error(&pll_param(), b(0.25));
    let integrator = 400.0_f32 * 0.001 * 0.25;
    let omega = 40.0 * 0.25 + integrator;
    assert_eq!(f(state.integrator), integrator);
    assert_eq!(f(state.omega_rad_s), omega);
    assert_eq!(f(state.theta_rad), 1.0 + omega * 0.001);
    assert_eq!(f(state.phase_error), 0.25);
}

#[test]
fn loop_integrator_follows_the_limit() {
    let mut state = PllState { integrator: b(200.0), ..PllState::new(b(0.0)) };
    state.update_with_error(&pll_param(), b(0.5));
    assert_eq!(f(state.omega_rad_s), 50.0);
    assert_eq!(f(state.integrator), 50.0 - 40.0 * 0.5);
}

#[test]
fn loop_starts_at_a_wrapped_angle() {
    let mut state = PllState::new(b(-0.5));
    assert_eq!(f(state.theta_rad), TAU - 0.5);
    state.update(&pll_param(), b(2.0), &sin);
    state.reset(b(TAU));
    assert_eq!(f(state.theta_rad), 0.0);
    assert_eq!((f(state.omega_rad_s), f(state.integrator), f(state.phase_error)), (0.0, 0.0, 0.0));
}

fn bemf_param() -> BemfParam {
    BemfParam { rs: b(0.5), ls: b(0.01), ts: b(0.001), emf_filter_alpha: b(1.0) }
}

fn vector(alpha: f32, beta: f32) -> AlphaBeta {
    AlphaBeta { alpha: b(alpha), beta: b(beta) }
}

#[test]
fn first_voltage_has_no_inductive_part() {
    let mut state = BemfState::default();
    let emf = state.update(&bemf_param(), &BemfInput { voltage: vector(3.0, 1.0), current: vector(2.0, -1.0) }, &atan2);
    assert_eq!((f(emf.alpha), f(emf.beta)), (3.0 - 0.5 * 2.0, 1.0 + 0.5));
    let emf = state.update(&bemf_param(), &BemfInput { voltage: vector(3.0, 1.0), current: vector(2.5, -1.0) }, &atan2);
    let raw = 3.0_f32 - 0.5 * 2.5 - 0.01 * ((2.5 - 2.0) / 0.001);
    assert_eq!(f(emf.alpha), 2.0 + (raw - 2.0));
    let before = state;
    let zero = state.update(&BemfParam { ts: b(0.0), ..bemf_param() }, &BemfInput::default(), &atan2);
    assert_eq!(zero, AlphaBeta::default());
    assert_eq!(state, before);
}

#[test]
fn angle_of_the_voltage_lags_a_quarter_turn() {
    let mut state = BemfState::default();
    state.update(&bemf_param(), &BemfInput { voltage: vector(-2.0, 0.0), current: vector(0.0, 0.0) }, &atan2);
    near(state.theta_emf_rad, core::f32::consts::FRAC_PI_2, 1.0e-6);
    let mut other = BemfState::default();
    let emf = other.update_vector(&bemf_param(), &BemfInput { voltage: vector(-2.0, 0.0), current: vector(0.0, 0.0) });
    other.update_angle(b(libm::atan2f(-f(emf.alpha), f(emf.beta))));
    assert_eq!(other, state);
}

#[test]
fn integrated_flux_keeps_its_limits() {
    let param = BemfIntegralParam { rs: b(0.1), ts: b(0.01), leakage: b(0.5), flux_min: b(-0.2), flux_max: b(0.3) };
    let mut state = BemfIntegralState::default();
    let input = BemfIntegralInput { voltage: vector(2.0, -1.0), current: vector(0.5, 0.25) };
    state.update(&param, &input, &atan2);
    assert_eq!(f(state.flux.alpha), 0.0 + 0.01 * (2.0_f32 - 0.1 * 0.5 - 0.5 * 0.0));
    for _ in 0..100 {
        let flux = state.update(&param, &input, &atan2);
        assert!(flux.alpha >= b(-0.2) && flux.alpha <= b(0.3));
        assert!(flux.beta >= b(-0.2) && flux.beta <= b(0.3));
    }
    assert_eq!((f(state.flux.alpha), f(state.flux.beta)), (0.3, -0.2));
}

#[test]
fn crossings_are_changes_of_sign_outside_the_band() {
    let param = BemfZeroCrossParam { threshold: b(-0.1) };
    let mut state = BemfZeroCrossState::default();
    let samples = [0.05, 0.5, 0.05, -0.05, -0.5, f32::NAN, 0.1, 0.2, 0.3, -1.0];
    let crossings = [0, 0, 0, 0, 1, 0, 0, 1, 0, 1];
    let directions = [0, 0, 0, 0, -1, 0, 0, 1, 0, -1];
    for i in 0..samples.len() {
        assert_eq!(state.update(&param, b(samples[i])), crossings[i], "{i}");
        assert_eq!(state.direction, directions[i], "{i}");
        assert!((-1..=1).contains(&state.last_sign));
    }
    state.reset();
    assert_eq!(state, BemfZeroCrossState::default());
}

#[test]
fn observer_with_loop_is_observer_then_loop() {
    let param = BemfPllParam { bemf: bemf_param(), pll: pll_param() };
    let input = BemfInput { voltage: vector(-3.0, 2.0), current: vector(0.1, 0.2) };
    let mut joint = BemfPllState::default();
    let mut bemf = BemfState::default();
    let mut pll = PllState::default();
    for _ in 0..5 {
        let angle = joint.update(&param, &input, &atan2, &sin);
        bemf.update(&param.bemf, &input, &atan2);
        assert_eq!(angle, pll.update(&param.pll, bemf.theta_emf_rad, &sin));
        assert_eq!((joint.bemf, joint.pll), (bemf, pll));
        assert_eq!(joint.omega_rad_s, pll.omega_rad_s);
    }
    joint.reset();
    assert_eq!(joint, BemfPllState::default());
}

#[test]
fn loop_tells_whether_it_can_step() {
    let mut param = PllParam {
        kp: b(100.0),
        ki: b(2000.0),
        ts: b(0.0001),
        omega_min: b(-500.0),
        omega_max: b(500.0),
    };
    let state = PllState::new(b(1.0));
    assert!(state.can_step(&param, b(0.5)));
    assert!(state.can_step(&param, b(f32::NAN)));
    param.omega_max = b(1.0e30);
    param.kp = b(1.0e30);
    param.ts = b(1.0);
    assert!(!state.can_step(&param, b(0.5)));
}
