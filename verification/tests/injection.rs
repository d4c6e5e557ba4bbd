use foc_algorithm::AlphaBeta;
use foc_algorithm::BemfInput;
use foc_algorithm::BemfParam;
use foc_algorithm::Binary32;
use foc_algorithm::HfBemfInput;
use foc_algorithm::HfBemfParam;
use foc_algorithm::HfBemfState;
use foc_algorithm::HfInjectionParam;
use foc_algorithm::HfInjectionState;
use foc_algorithm::PulseInjectionParam;
use foc_algorithm::PulseInjectionState;
use foc_algorithm::RotatingHfParam;
use foc_algorithm::RotatingHfState;

fn b(x: f32) -> Binary32 {
    Binary32::from_bits(x.to_bits())
}

fn f(x: Binary32) -> f32 {
    f32::from_bits(x.to_bits())
}

fn near(actual: Binary32, expected: f32, tolerance: f32) {
    let actual = f(actual);
    assert!((actual - expected).abs() <= tolerance, "{actual} != {expected}");
}

fn sin(x: Binary32) -> Binary32 {
    b(libm::sinf(f(x)))
}

fn cos(x: Binary32) -> Binary32 {
    b(libm::cosf(f(x)))
}

fn atan2(y: Binary32, x: Binary32) -> Binary32 {
    b(libm::atan2f(f(y), f(x)))
}

#[test]
fn hf_injection_matches_c_reference() {
    let mut param = HfInjectionParam {
        amplitude: b(2.0),
        freq_hz: b(25.0),
        ts: b(0.01),
        axis_angle_rad: b(0.0),
        demod_alpha: b(1.0),
    };
    let mut state = HfInjectionState::default();
    let voltage = state.update(&param, b(3.0), &sin, &cos);
    near(state.carrier_angle_rad, core::f32::consts::PI * 0.5, 1e-5);
    near(voltage.alpha, 2.0, 1e-5);
    near(voltage.beta, 0.0, 1e-5);
    near(state.demod_response, 3.0, 1e-5);
    param.axis_angle_rad = b(core::f32::consts::PI * 0.5);
    let voltage = state.update(&param, b(1.0), &sin, &cos);
    near(state.carrier, 0.0, 1e-5);
    near(voltage.alpha, 0.0, 1e-5);
}

#[test]
fn rotating_hf_matches_c_reference() {
    let param = RotatingHfParam {
        amplitude: b(3.0),
        freq_hz: b(25.0),
        ts: b(0.01),
        demod_alpha: b(1.0),
    };
    let mut state = RotatingHfState::default();
    let voltage = state.update(
        &param,
        AlphaBeta {
            alpha: b(4.0),
            beta: b(2.0),
        },
        &sin,
        &cos,
        &atan2,
    );
    near(state.carrier_angle_rad, core::f32::consts::PI * 0.5, 1e-5);
    near(voltage.alpha, 0.0, 1e-5);
    near(voltage.beta, 3.0, 1e-5);
    near(state.demod.alpha, 0.0, 1e-5);
    near(state.demod.beta, 2.0, 1e-5);
    near(state.theta_est_rad, core::f32::consts::PI * 0.25, 1e-5);
}

#[test]
fn pulse_injection_matches_c_reference() {
    let param = PulseInjectionParam {
        amplitude: b(2.0),
        axis_angle_rad: b(0.0),
    };
    let mut state = PulseInjectionState::default();
    let voltage = state.update(&param, b(5.0), &sin, &cos);
    assert_eq!(state.polarity, -1);
    near(state.positive_response, 5.0, 1e-6);
    near(voltage.alpha, -2.0, 1e-6);
    let voltage = state.update(&param, b(3.0), &sin, &cos);
    assert_eq!(state.polarity, 1);
    near(state.negative_response, 3.0, 1e-6);
    near(state.saliency, 2.0, 1e-6);
    near(voltage.alpha, 2.0, 1e-6);
}

#[test]
fn hf_bemf_matches_c_reference() {
    let param = HfBemfParam {
        hf: RotatingHfParam {
            amplitude: b(2.0),
            freq_hz: b(100.0),
            ts: b(0.001),
            demod_alpha: b(1.0),
        },
        bemf: BemfParam {
            rs: b(0.0),
            ls: b(0.0),
            ts: b(0.001),
            emf_filter_alpha: b(1.0),
        },
        speed_low_abs: b(10.0),
        speed_high_abs: b(100.0),
    };
    let mut input = HfBemfInput {
        bemf: BemfInput {
            voltage: AlphaBeta {
                alpha: b(-10.0),
                beta: b(0.0),
            },
            current: AlphaBeta::default(),
        },
        hf_current_response: AlphaBeta {
            alpha: b(1.0),
            beta: b(0.5),
        },
        speed_abs: b(0.0),
    };
    let mut state = HfBemfState::default();
    let low = state.update(&param, &input, &sin, &cos, &atan2);
    near(state.bemf_weight, 0.0, 1e-6);
    near(low, f(state.theta_hf_rad), 1e-6);
    assert!(state.hf_voltage.alpha.abs() > b(0.0) || state.hf_voltage.beta.abs() > b(0.0));
    input.speed_abs = b(150.0);
    let high = state.update(&param, &input, &sin, &cos, &atan2);
    near(state.bemf_weight, 1.0, 1e-6);
    near(high, f(state.theta_bemf_rad), 1e-6);
}
