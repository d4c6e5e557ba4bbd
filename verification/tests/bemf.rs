use foc_algorithm::AlphaBeta;
use foc_algorithm::BemfInput;
use foc_algorithm::BemfIntegralInput;
use foc_algorithm::BemfIntegralParam;
use foc_algorithm::BemfIntegralState;
use foc_algorithm::BemfParam;
use foc_algorithm::BemfPllParam;
use foc_algorithm::BemfPllState;
use foc_algorithm::BemfState;
use foc_algorithm::BemfZeroCrossParam;
use foc_algorithm::BemfZeroCrossState;
use foc_algorithm::Binary32;
use foc_algorithm::PllParam;

fn b(x: f32) -> Binary32 {
    Binary32::from_bits(x.to_bits())
}

fn f(x: Binary32) -> f32 {
    f32::from_bits(x.to_bits())
}

fn near(actual: Binary32, expected: f32, tolerance: f32) {
    let actual = f(actual);
    assert!((actual - expected).abs() <= tolerance, "{actual} != {expected}");
}

fn sin(x: Binary32) -> Binary32 {
    b(libm::sinf(f(x)))
}

fn atan2(y: Binary32, x: Binary32) -> Binary32 {
    b(libm::atan2f(f(y), f(x)))
}

#[test]
fn bemf_matches_c_reference() {
    let param = BemfParam {
        rs: b(0.5),
        ls: b(0.001),
        ts: b(0.001),
        emf_filter_alpha: b(1.0),
    };
    let mut input = BemfInput {
        voltage: AlphaBeta {
            alpha: b(10.0),
            beta: b(-4.0),
        },
        current: AlphaBeta {
            alpha: b(2.0),
            beta: b(-2.0),
        },
    };
    let mut state = BemfState::default();
    let emf = state.update(&param, &input, &atan2);
    near(emf.alpha, 9.0, 1e-6);
    near(emf.beta, -3.0, 1e-6);
    input.current = AlphaBeta {
        alpha: b(3.0),
        beta: b(-3.0),
    };
    let emf = state.update(&param, &input, &atan2);
    near(emf.alpha, 7.5, 1e-6);
    near(emf.beta, -1.5, 1e-6);
}

#[test]
fn integral_matches_c_reference() {
    let param = BemfIntegralParam {
        rs: b(0.5),
        ts: b(0.01),
        leakage: b(0.0),
        flux_min: b(-1.0),
        flux_max: b(1.0),
    };
    let mut input = BemfIntegralInput {
        voltage: AlphaBeta {
            alpha: b(2.0),
            beta: b(1.0),
        },
        current: AlphaBeta {
            alpha: b(1.0),
            beta: b(0.0),
        },
    };
    let mut state = BemfIntegralState::default();
    let flux = state.update(&param, &input, &atan2);
    near(flux.alpha, 0.015, 1e-6);
    near(flux.beta, 0.01, 1e-6);
    input.voltage.alpha = b(1000.0);
    near(state.update(&param, &input, &atan2).alpha, 1.0, 1e-6);
}

#[test]
fn zero_cross_matches_c_reference() {
    let param = BemfZeroCrossParam { threshold: b(0.1) };
    let mut state = BemfZeroCrossState::default();
    assert_eq!(state.update(&param, b(-1.0)), 0);
    assert_eq!(state.update(&param, b(0.05)), 0);
    assert_eq!(state.update(&param, b(1.0)), 1);
    assert_eq!(state.direction, 1);
    assert_eq!(state.update(&param, b(-1.0)), 1);
    assert_eq!(state.direction, -1);
}

#[test]
fn bemf_pll_matches_c_reference() {
    let param = BemfPllParam {
        bemf: BemfParam {
            rs: b(0.5),
            ls: b(0.001),
            ts: b(0.001),
            emf_filter_alpha: b(1.0),
        },
        pll: PllParam {
            kp: b(10.0),
            ki: b(0.0),
            ts: b(0.001),
            omega_min: b(-100.0),
            omega_max: b(100.0),
        },
    };
    let mut input = BemfInput {
        voltage: AlphaBeta {
            alpha: b(0.0),
            beta: b(10.0),
        },
        current: AlphaBeta::default(),
    };
    let mut state = BemfPllState::default();
    near(state.update(&param, &input, &atan2, &sin), 0.0, 1e-6);
    near(state.emf.beta, 10.0, 1e-6);
    input.voltage = AlphaBeta {
        alpha: b(-10.0),
        beta: b(0.0),
    };
    assert!(state.update(&param, &input, &atan2, &sin) > b(0.0));
    assert!(state.omega_rad_s > b(0.0));
}
