use foc_algorithm::AdaptiveSmoInput;
use foc_algorithm::AdaptiveSmoParam;
use foc_algorithm::AdaptiveSmoState;
use foc_algorithm::AlphaBeta;
use foc_algorithm::Binary32;
use foc_algorithm::FluxParam;
use foc_algorithm::FluxSmoParam;
use foc_algorithm::FluxSmoState;
use foc_algorithm::HigherOrderSmoInput;
use foc_algorithm::HigherOrderSmoParam;
use foc_algorithm::HigherOrderSmoState;
use foc_algorithm::PllParam;
use foc_algorithm::PllState;
use foc_algorithm::SmoInput;
use foc_algorithm::SmoParam;
use foc_algorithm::SmoPllParam;
use foc_algorithm::SmoPllState;
use foc_algorithm::SmoState;
use foc_algorithm::SuperTwistingSmoInput;
use foc_algorithm::SuperTwistingSmoParam;
use foc_algorithm::SuperTwistingSmoState;

fn b(x: f32) -> Binary32 {
    Binary32::from_bits(x.to_bits())
}

fn f(x: Binary32) -> f32 {
    f32::from_bits(x.to_bits())
}

fn near(actual: Binary32, expected: f32, tolerance: f32) {
    let actual = f(actual);
    assert!((actual - expected).abs() <= tolerance, "{actual} != {expected}");
}

fn sin(x: Binary32) -> Binary32 {
    b(libm::sinf(f(x)))
}

fn atan2(y: Binary32, x: Binary32) -> Binary32 {
    b(libm::atan2f(f(y), f(x)))
}

const TAU: f32 = core::f32::consts::TAU;

fn vector(alpha: f32, beta: f32) -> AlphaBeta {
    AlphaBeta { alpha: b(alpha), beta: b(beta) }
}

fn smo_param() -> SmoParam {
    SmoParam {
        rs: b(0.5),
        ls: b(0.001),
        ts: b(0.0001),
        k_slide: b(4.0),
        boundary: b(0.2),
        emf_filter_alpha: b(0.3),
    }
}

fn smo_input(i: i32) -> SmoInput {
    SmoInput {
        voltage: vector(3.0 * libm::cosf(i as f32 * 0.1), 3.0 * libm::sinf(i as f32 * 0.1)),
        current: vector(libm::sinf(i as f32 * 0.1), -libm::cosf(i as f32 * 0.1)),
    }
}

#[test]
fn sliding_force_never_exceeds_its_gain() {
    let mut state = SmoState::default();
    for i in 0..200 {
        state.update(&smo_param(), &smo_input(i), &atan2);
        assert!(state.sliding.alpha.abs() <= b(4.0) && state.sliding.beta.abs() <= b(4.0));
        assert!(state.theta_emf_rad >= b(0.0) && state.theta_emf_rad < b(TAU));
    }
}

#[test]
fn sliding_step_follows_its_formula() {
    let mut state = SmoState { current_est: vector(0.5, -0.25), emf: vector(1.0, 2.0), ..SmoState::default() };
    let input = SmoInput { voltage: vector(2.0, 1.0), current: vector(0.45, 0.5) };
    state.update_vector(&smo_param(), &input);
    let sliding = 4.0_f32 * ((0.5_f32 - 0.45) / 0.2);
    let inv_l = 1.0_f32 / 0.001;
    assert_eq!(f(state.sliding.alpha), sliding);
    assert_eq!(f(state.sliding.beta), -4.0);
    assert_eq!(f(state.current_est.alpha), 0.5 + 0.0001 * inv_l * (2.0 - 0.5 * 0.5 - sliding));
    assert_eq!(f(state.emf.alpha), 1.0 + 0.3 * (sliding - 1.0));
    assert_eq!(f(state.theta_emf_rad), 0.0);
}

#[test]
fn invalid_inductance_changes_no_estimate() {
    let mut state = SmoState::default();
    state.update(&smo_param(), &smo_input(3), &atan2);
    let before = state;
    let param = SmoParam { ls: b(0.0), ..smo_param() };
    assert_eq!(state.update_vector(&param, &smo_input(4)), AlphaBeta::default());
    assert_eq!(state, before);
    assert_eq!(state.update(&param, &smo_input(4), &atan2), AlphaBeta::default());
    assert_eq!(state, before);
}

#[test]
fn sliding_observer_with_loop_is_observer_then_loop() {
    let pll = PllParam { kp: b(20.0), ki: b(50.0), ts: b(0.001), omega_min: b(-200.0), omega_max: b(200.0) };
    let param = SmoPllParam { smo: smo_param(), pll };
    let mut joint = SmoPllState::default();
    let mut smo = SmoState::default();
    let mut lock = PllState::default();
    for i in 0..20 {
        let angle = joint.update(&param, &smo_input(i), &atan2, &sin);
        assert_eq!(joint.emf, smo.update(&param.smo, &smo_input(i), &atan2));
        assert_eq!(angle, lock.update(&pll, smo.theta_emf_rad, &sin));
        assert_eq!((joint.smo, joint.pll), (smo, lock));
    }
    joint.reset();
    assert_eq!(joint, SmoPllState::default());
}

fn joint_param(weight: f32) -> FluxSmoParam {
    FluxSmoParam {
        flux: FluxParam { rs: b(0.0), ts: b(0.01), leakage: b(0.0), flux_min: b(-1.0), flux_max: b(1.0) },
        smo: smo_param(),
        smo_weight: b(weight),
    }
}

#[test]
fn joint_angle_without_weight_is_the_flux_angle() {
    for weight in [0.0, -3.0] {
        let mut state = FluxSmoState::default();
        for i in 0..20 {
            let angle = state.update(&joint_param(weight), &smo_input(i), &atan2);
            assert_eq!(angle, state.theta_flux_rad);
            assert_eq!(state.theta_flux_rad, state.flux.theta_flux_rad);
            assert_eq!(state.theta_smo_rad, state.smo.theta_emf_rad);
        }
    }
}

#[test]
fn joint_angle_takes_the_shorter_way() {
    let mut state = FluxSmoState::default();
    state.flux.theta_flux_rad = b(TAU - 0.2);
    state.smo.theta_emf_rad = b(0.2);
    let angle = state.update_joint_angle(&joint_param(0.25), AlphaBeta::default(), AlphaBeta::default());
    near(angle, TAU - 0.1, 1.0e-5);
    for i in 0..63 {
        state.smo.theta_emf_rad = b(i as f32 * 0.1);
        let angle = state.update_joint_angle(&joint_param(0.6), AlphaBeta::default(), AlphaBeta::default());
        assert!(angle >= b(0.0) && angle < b(TAU));
    }
}

fn adaptive_param() -> AdaptiveSmoParam {
    AdaptiveSmoParam {
        rs: b(0.5),
        ls: b(0.001),
        ts: b(0.0001),
        k_initial: b(99.0),
        k_min: b(1.0),
        k_max: b(8.0),
        adapt_rate: b(100.0),
        target_error: b(0.05),
        boundary: b(0.1),
        emf_filter_alpha: b(0.5),
    }
}

fn adaptive_input(i: i32) -> AdaptiveSmoInput {
    AdaptiveSmoInput { voltage: smo_input(i).voltage, current: smo_input(i).current }
}

#[test]
fn adaptive_gain_keeps_its_limits() {
    assert_eq!(f(AdaptiveSmoState::new(&adaptive_param()).k_slide), 8.0);
    let mut state = AdaptiveSmoState::default();
    let mut started = AdaptiveSmoState::new(&adaptive_param());
    for i in 0..100 {
        let emf = state.update(&adaptive_param(), &adaptive_input(i), &atan2);
        assert_eq!(emf, started.update(&adaptive_param(), &adaptive_input(i), &atan2));
        assert_eq!(state, started);
        assert!(state.k_slide >= b(1.0) && state.k_slide <= b(8.0));
    }
    let before = state;
    let wrong = AdaptiveSmoParam { ls: b(-1.0), ..adaptive_param() };
    assert_eq!(state.update(&wrong, &adaptive_input(0), &atan2), AlphaBeta::default());
    assert_eq!(state, before);
}

#[test]
fn adaptive_step_follows_its_formula() {
    let mut state = AdaptiveSmoState { k_slide: b(2.0), initialized: 1, ..AdaptiveSmoState::default() };
    state.update(&adaptive_param(), &AdaptiveSmoInput { voltage: vector(1.0, 0.0), current: vector(0.3, -0.4) }, &atan2);
    let error = libm::sqrtf(0.3_f32 * 0.3 + 0.4_f32 * 0.4);
    let gain = 2.0 + 100.0 * (error - 0.05) * 0.0001;
    assert_eq!(f(state.error_abs), error);
    assert_eq!(f(state.k_slide), gain);
    assert_eq!(f(state.sliding.alpha), -gain);
    assert_eq!(f(state.emf.beta), 0.5 * gain);
    let inv_l = 1.0_f32 / 0.001;
    assert_eq!(f(state.current_est.alpha), 0.0 + 0.0001 * inv_l * (1.0 - 0.5 * 0.0 - 0.0 + gain));
}

#[test]
fn higher_order_step_follows_its_formula() {
    let param = HigherOrderSmoParam {
        rs: b(0.5),
        ls: b(0.001),
        ts: b(0.0001),
        k_slide: b(3.0),
        k_dot: b(0.5),
        boundary: b(1.0),
        dot_boundary: b(10_000.0),
        emf_filter_alpha: b(0.5),
    };
    let mut state = HigherOrderSmoState { current_est: vector(0.5, 0.0), ..HigherOrderSmoState::default() };
    let input = HigherOrderSmoInput { voltage: vector(1.0, 0.0), current: vector(0.25, 0.0) };
    state.update(&param, &input, &atan2);
    let rate = 0.25_f32 / 0.0001;
    let sliding = 3.0 * (0.25_f32 / 1.0) + 0.5 * (rate / 10_000.0);
    assert_eq!(f(state.error_dot.alpha), rate);
    assert_eq!(f(state.sliding.alpha), sliding);
    assert_eq!(f(state.last_error.alpha), 0.25);
    assert_eq!(f(state.emf.alpha), 0.5 * sliding);
    for wrong in [HigherOrderSmoParam { ts: b(0.0), ..param }, HigherOrderSmoParam { ls: b(0.0), ..param }] {
        let before = state;
        assert_eq!(state.update(&wrong, &input, &atan2), AlphaBeta::default());
        assert_eq!(state, before);
    }
}

#[test]
fn super_twisting_step_follows_its_formula() {
    let param = SuperTwistingSmoParam {
        rs: b(0.5),
        ls: b(0.001),
        ts: b(0.0001),
        k1: b(2.0),
        k2: b(30.0),
        emf_filter_alpha: b(0.5),
    };
    let mut state = SuperTwistingSmoState { current_est: vector(0.75, 0.0), ..SuperTwistingSmoState::default() };
    let input = SuperTwistingSmoInput { voltage: vector(1.0, 0.0), current: vector(0.25, 0.0) };
    state.update(&param, &input, &atan2);
    let integral = 30.0_f32 * 1.0 * 0.0001;
    assert_eq!(f(state.integral.alpha), integral);
    assert_eq!(f(state.integral.beta), 0.0);
    assert_eq!(f(state.sliding.alpha), 2.0 * libm::sqrtf(0.5) * 1.0 + integral);
    let before = state;
    assert_eq!(state.update(&SuperTwistingSmoParam { ls: b(0.0), ..param }, &input, &atan2), AlphaBeta::default());
    assert_eq!(state, before);
    state.reset();
    assert_eq!(state, SuperTwistingSmoState::default());
}

#[test]
fn first_rate_after_a_reset_is_the_whole_error() {
    let param = HigherOrderSmoParam {
        rs: b(0.5),
        ls: b(0.001),
        ts: b(0.0001),
        k_slide: b(2.0),
        k_dot: b(0.1),
        boundary: b(1.0),
        dot_boundary: b(100.0),
        emf_filter_alpha: b(0.5),
    };
    let mut state = HigherOrderSmoState::default();
    state.update(&param, &HigherOrderSmoInput { voltage: vector(1.0, 0.0), current: vector(0.3, -0.7) }, &atan2);
    assert_eq!(f(state.error_dot.alpha), -0.3 / 0.0001);
    assert_eq!(f(state.error_dot.beta), 0.7 / 0.0001);
    state.reset();
    state.update(&param, &HigherOrderSmoInput { voltage: vector(1.0, 0.0), current: vector(0.0, 0.25) }, &atan2);
    assert_eq!(f(state.error_dot.alpha), 0.0);
    assert_eq!(f(state.error_dot.beta), -0.25 / 0.0001);
}

#[test]
fn adaptive_force_never_exceeds_the_gain_of_the_step() {
    let mut state = AdaptiveSmoState::default();
    for i in 0..200 {
        let input = smo_input(i);
        let input = AdaptiveSmoInput { voltage: input.voltage, current: input.current };
        state.update(&adaptive_param(), &input, &atan2);
        assert!(state.sliding.alpha.abs() <= state.k_slide);
        assert!(state.sliding.beta.abs() <= state.k_slide);
    }
}

#[test]
fn full_weight_takes_the_second_angle() {
    for i in 0..400 {
        let mut state = FluxSmoState::default();
        state.flux.theta_flux_rad = b(TAU * (i as f32 / 400.0));
        state.smo.theta_emf_rad = b(TAU * ((i * 37 % 400) as f32 / 400.0));
        for weight in [1.0, 3.0] {
            let angle = state.update_joint_angle(&joint_param(weight), AlphaBeta::default(), AlphaBeta::default());
            let away = (f(angle) as f64 - f(state.smo.theta_emf_rad) as f64).abs();
            let away = away.min(core::f64::consts::TAU - away);
            assert!(away < 1.0 / 131_072.0, "{i} {away}");
        }
        for weight in [0.0, -2.0] {
            let angle = state.update_joint_angle(&joint_param(weight), AlphaBeta::default(), AlphaBeta::default());
            assert_eq!(angle, state.flux.theta_flux_rad);
        }
    }
}
