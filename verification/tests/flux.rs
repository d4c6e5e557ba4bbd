use foc_algorithm::AlphaBeta;
use foc_algorithm::Binary32;
use foc_algorithm::Dq;
use foc_algorithm::FluxCurrentParam;
use foc_algorithm::FluxCurrentState;
use foc_algorithm::FluxHybridParam;
use foc_algorithm::FluxHybridState;
use foc_algorithm::FluxImprovedInput;
use foc_algorithm::FluxImprovedParam;
use foc_algorithm::FluxImprovedState;
use foc_algorithm::FluxInput;
use foc_algorithm::FluxParam;
use foc_algorithm::FluxState;

fn b(x: f32) -> Binary32 {
    Binary32::from_bits(x.to_bits())
}

fn f(x: Binary32) -> f32 {
    f32::from_bits(x.to_bits())
}

fn near(actual: Binary32, expected: f32, tolerance: f32) {
    let actual = f(actual);
    assert!((actual - expected).abs() <= tolerance, "{actual} != {expected}");
}

fn atan2(y: Binary32, x: Binary32) -> Binary32 {
    b(libm::atan2f(f(y), f(x)))
}

#[test]
fn flux_matches_c_reference() {
    let p = FluxParam {
        rs: b(0.5),
        ts: b(0.01),
        leakage: b(0.0),
        flux_min: b(-1.0),
        flux_max: b(1.0),
    };
    let mut input = FluxInput {
        voltage: AlphaBeta {
            alpha: b(2.0),
            beta: b(1.0),
        },
        current: AlphaBeta {
            alpha: b(1.0),
            beta: b(0.0),
        },
    };
    let mut state = FluxState::default();
    let out = state.update(&p, &input, &atan2);
    near(out.alpha, 0.015, 1e-6);
    near(out.beta, 0.01, 1e-6);
    input.voltage.alpha = b(1000.0);
    near(state.update(&p, &input, &atan2).alpha, 1.0, 1e-6);
}

#[test]
fn current_model_matches_c_reference() {
    let p = FluxCurrentParam {
        ld: b(0.001),
        lq: b(0.002),
        flux_pm: b(0.05),
        flux_min: b(-0.1),
        flux_max: b(0.1),
    };
    let mut state = FluxCurrentState::default();
    let out = state.update(&p, Dq { d: b(10.0), q: b(20.0) }, &atan2);
    near(out.d, 0.06, 1e-6);
    near(out.q, 0.04, 1e-6);
    near(state.update(&p, Dq { d: b(1000.0), q: b(20.0) }, &atan2).d, 0.1, 1e-6);
}

#[test]
fn hybrid_matches_c_reference() {
    let p = FluxHybridParam {
        speed_low: b(100.0),
        speed_high: b(300.0),
    };
    let voltage = AlphaBeta {
        alpha: b(1.0),
        beta: b(0.0),
    };
    let current = AlphaBeta {
        alpha: b(0.0),
        beta: b(1.0),
    };
    let mut state = FluxHybridState::default();
    assert_eq!(state.update(&p, voltage, current, b(50.0), &atan2), current);
    let mid = state.update(&p, voltage, current, b(200.0), &atan2);
    near(mid.alpha, 0.5, 1e-6);
    near(mid.beta, 0.5, 1e-6);
    near(state.theta_flux_rad, core::f32::consts::PI * 0.25, 1e-6);
    assert_eq!(state.update(&p, voltage, current, b(400.0), &atan2), voltage);
}

#[test]
fn improved_integrator_matches_c_reference() {
    let p = FluxImprovedParam {
        rs: b(0.5),
        ts: b(0.01),
        leakage: b(0.0),
        flux_mag_min: b(0.0),
        flux_mag_max: b(0.02),
        output_alpha: b(0.5),
    };
    let mut input = FluxImprovedInput {
        voltage: AlphaBeta {
            alpha: b(2.0),
            beta: b(0.0),
        },
        current: AlphaBeta::default(),
    };
    let mut state = FluxImprovedState::default();
    let out = state.update(&p, &input, &atan2);
    near(state.raw_flux.alpha, 0.02, 1e-6);
    near(out.alpha, 0.01, 1e-6);
    input.voltage.alpha = b(100.0);
    let out = state.update(&p, &input, &atan2);
    near(state.raw_flux.alpha, 0.02, 1e-6);
    near(out.alpha, 0.015, 1e-6);
}
