use foc_algorithm::AlphaBeta;
use foc_algorithm::BemfInput;
use foc_algorithm::BemfParam;
use foc_algorithm::Binary32;
use foc_algorithm::HfBemfInput;
use foc_algorithm::HfBemfParam;
use foc_algorithm::HfBemfState;
use foc_algorithm::HfInjectionParam;
use foc_algorithm::HfInjectionState;
use foc_algorithm::PI;
use foc_algorithm::PulseInjectionParam;
use foc_algorithm::PulseInjectionState;
use foc_algorithm::RotatingHfParam;
use foc_algorithm::RotatingHfState;
use foc_algorithm::is_joinable;

fn b(x: f32) -> Binary32 {
    Binary32::from_bits(x.to_bits())
}

fn f(x: Binary32) -> f32 {
    f32::from_bits(x.to_bits())
}

fn sin(x: Binary32) -> Binary32 {
    b(libm::sinf(f(x)))
}

fn cos(x: Binary32) -> Binary32 {
    b(libm::cosf(f(x)))
}

fn atan2(y: Binary32, x: Binary32) -> Binary32 {
    b(libm::atan2f(f(y), f(x)))
}

const TAU: f32 = core::f32::consts::TAU;

fn hf_param() -> HfInjectionParam {
    HfInjectionParam { amplitude: b(-3.0), freq_hz: b(500.0), ts: b(0.0001), axis_angle_rad: b(0.7), demod_alpha: b(0.2) }
}

#[test]
fn injected_voltage_never_exceeds_its_amplitude() {
    let mut state = HfInjectionState::default();
    for i in 0..200 {
        let voltage = state.update(&hf_param(), b(i as f32 * 0.01), &sin, &cos);
        assert!(voltage.alpha.abs() <= b(3.0) && voltage.beta.abs() <= b(3.0));
        assert!(state.carrier_angle_rad >= b(0.0) && state.carrier_angle_rad < b(TAU));
    }
    let before = state;
    let stopped = HfInjectionParam { ts: b(0.0), ..hf_param() };
    assert_eq!(state.update(&stopped, b(1.0), &sin, &cos), AlphaBeta::default());
    assert_eq!(state, before);
}

#[test]
fn injection_step_follows_its_formula() {
    let mut state = HfInjectionState::default();
    state.update(&hf_param(), b(0.4), &sin, &cos);
    let angle = TAU * 500.0 * 0.0001;
    let carrier = libm::sinf(angle);
    assert_eq!(f(state.carrier_angle_rad), angle);
    assert_eq!(f(state.carrier), carrier);
    assert_eq!(f(state.voltage.alpha), -3.0 * carrier * libm::cosf(0.7));
    assert_eq!(f(state.voltage.beta), -3.0 * carrier * libm::sinf(0.7));
    assert_eq!(f(state.demod_response), 0.2 * (0.4 * carrier));
}

#[test]
fn rotating_angle_lies_in_half_a_revolution() {
    let param = RotatingHfParam { amplitude: b(2.0), freq_hz: b(500.0), ts: b(0.0001), demod_alpha: b(0.5) };
    let mut state = RotatingHfState::default();
    for i in 0..200 {
        let response = AlphaBeta { alpha: b(libm::cosf(i as f32 * 0.4)), beta: b(libm::sinf(i as f32 * 0.3)) };
        state.update(&param, response, &sin, &cos, &atan2);
        assert!(state.theta_est_rad >= b(0.0) && state.theta_est_rad < b(core::f32::consts::PI));
    }
    let mut edge = RotatingHfState::default();
    edge.update_angle(b(-1.0e-9));
    assert_eq!(f(edge.theta_est_rad), 0.0);
    edge.update_angle(b(1.0));
    assert_eq!(f(edge.theta_est_rad), 0.5);
}

#[test]
fn pulses_alternate_and_renew_their_responses() {
    let param = PulseInjectionParam { amplitude: b(2.0), axis_angle_rad: b(0.3) };
    let mut state = PulseInjectionState::default();
    assert_eq!(state.polarity, 1);
    for i in 0..20 {
        let before = state.polarity;
        let voltage = state.update(&param, b(i as f32), &sin, &cos);
        assert_eq!(state.polarity, -before);
        assert_eq!(f(voltage.alpha), 2.0 * state.polarity as f32 * libm::cosf(0.3));
        if i > 0 {
            let (first, second) = (i as f32 - 1.0, i as f32);
            if before == -1 {
                assert_eq!((f(state.positive_response), f(state.negative_response)), (first, second));
                assert_eq!(f(state.saliency), first - second);
            } else {
                assert_eq!((f(state.negative_response), f(state.positive_response)), (first, second));
                assert_eq!(f(state.saliency), second - first);
            }
        }
    }
    state.reset();
    assert_eq!(state, PulseInjectionState::default());
}

#[test]
fn low_speed_uses_the_injection_angle() {
    let param = HfBemfParam {
        hf: RotatingHfParam { amplitude: b(2.0), freq_hz: b(100.0), ts: b(0.001), demod_alpha: b(1.0) },
        bemf: BemfParam { rs: b(0.1), ls: b(0.001), ts: b(0.001), emf_filter_alpha: b(0.5) },
        speed_low_abs: b(10.0),
        speed_high_abs: b(100.0),
    };
    let mut state = HfBemfState::default();
    for i in 0..20 {
        let input = HfBemfInput {
            bemf: BemfInput {
                voltage: AlphaBeta { alpha: b(-4.0), beta: b(i as f32 * 0.1) },
                current: AlphaBeta::default(),
            },
            hf_current_response: AlphaBeta { alpha: b(1.0), beta: b(0.5) },
            speed_abs: b(5.0),
        };
        let angle = state.update(&param, &input, &sin, &cos, &atan2);
        assert_eq!(angle, state.theta_hf_rad);
        assert_eq!(f(state.bemf_weight), 0.0);
        let middle = HfBemfInput { speed_abs: b(55.0), ..input };
        let angle = state.update(&param, &middle, &sin, &cos, &atan2);
        assert_eq!(f(state.bemf_weight), 0.5);
        assert!(angle >= b(0.0) && angle < b(TAU));
    }
    state.reset();
    assert_eq!(state, HfBemfState::default());
}

#[test]
fn injections_tell_whether_they_can_step() {
    let mut hf = HfInjectionState::default();
    let mut param = HfInjectionParam { freq_hz: b(1000.0), ts: b(0.0001), ..HfInjectionParam::default() };
    assert!(hf.can_step(&param));
    param.freq_hz = b(1.0e20);
    assert!(!hf.can_step(&param));
    param.ts = b(-1.0);
    assert!(hf.can_step(&param));
    assert_eq!(hf.update(&param, b(1.0), &sin, &cos), AlphaBeta::default());
    let rotating = RotatingHfState::default();
    let mut param = RotatingHfParam { freq_hz: b(500.0), ts: b(0.0001), ..RotatingHfParam::default() };
    assert!(rotating.can_step(&param));
    param.freq_hz = b(1.0e20);
    assert!(!rotating.can_step(&param));
}

#[test]
fn joint_states_tell_whether_they_can_join() {
    let param = HfBemfParam { speed_low_abs: b(10.0), speed_high_abs: b(100.0), ..HfBemfParam::default() };
    let mut state = HfBemfState::default();
    for speed in [0.0, 55.0, 1000.0] {
        assert!(state.can_join_at(&param, b(speed)));
    }
    state.hf.theta_est_rad = b(f32::NAN);
    assert!(state.can_join_at(&param, b(5.0)));
    state.hf.theta_est_rad = b(1.0e9);
    assert!(!state.can_join_at(&param, b(5.0)));
    state.hf.theta_est_rad = b(134_217_728.0);
    assert!(state.can_join_at(&param, b(5.0)));
    state.bemf.theta_emf_rad = b(-67_108_864.0);
    assert!(!state.can_join_at(&param, b(5.0)));
    state.hf.theta_est_rad = b(67_108_864.0 - 64.0);
    assert!(state.can_join_at(&param, b(5.0)));
    let angle = state.update_joint_angle(&param, b(5.0), AlphaBeta::default(), AlphaBeta::default());
    assert!(angle >= b(0.0) && angle < b(TAU));
    assert!(is_joinable(b(1.0), b(2.0), b(f32::NAN)));
    assert!(is_joinable(b(f32::INFINITY), b(2.0), b(0.5)));
    assert!(!is_joinable(b(-1.0e20), b(2.0), b(0.5)));
}

#[test]
fn high_speed_uses_the_induced_angle() {
    let param = HfBemfParam { speed_low_abs: b(10.0), speed_high_abs: b(100.0), ..HfBemfParam::default() };
    for i in 0..400 {
        let mut state = HfBemfState::default();
        state.hf.theta_est_rad = b(core::f32::consts::PI * (i as f32 / 400.0));
        state.bemf.theta_emf_rad = b(TAU * ((i * 37 % 400) as f32 / 400.0));
        let angle = state.update_joint_angle(&param, b(100.0), AlphaBeta::default(), AlphaBeta::default());
        let away = (f(angle) as f64 - f(state.theta_bemf_rad) as f64).abs();
        let away = away.min(core::f64::consts::TAU - away);
        assert!(away < 1.0 / 131_072.0, "{i} {away}");
        let angle = state.update_joint_angle(&param, b(9.0), AlphaBeta::default(), AlphaBeta::default());
        assert_eq!(angle, state.theta_hf_rad);
    }
}
