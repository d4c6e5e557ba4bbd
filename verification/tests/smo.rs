use foc_algorithm::AlphaBeta;
use foc_algorithm::Binary32;
use foc_algorithm::FluxParam;
use foc_algorithm::FluxSmoParam;
use foc_algorithm::FluxSmoState;
use foc_algorithm::PllParam;
use foc_algorithm::SmoInput;
use foc_algorithm::SmoParam;
use foc_algorithm::SmoPllParam;
use foc_algorithm::SmoPllState;
use foc_algorithm::SmoState;

fn b(x: f32) -> Binary32 {
    Binary32::from_bits(x.to_bits())
}

fn f(x: Binary32) -> f32 {
    f32::from_bits(x.to_bits())
}

fn near(actual: Binary32, expected: f32, tolerance: f32) {
    let actual = f(actual);
    assert!((actual - expected).abs() <= tolerance, "{actual} != {expected}");
}

fn sin(x: Binary32) -> Binary32 {
    b(libm::sinf(f(x)))
}

fn atan2(y: Binary32, x: Binary32) -> Binary32 {
    b(libm::atan2f(f(y), f(x)))
}

#[test]
fn smo_matches_c_reference() {
    let param = SmoParam {
        rs: b(0.5),
        ls: b(0.001),
        ts: b(0.0001),
        k_slide: b(4.0),
        boundary: b(0.1),
        emf_filter_alpha: b(0.5),
    };
    let input = SmoInput {
        voltage: AlphaBeta::default(),
        current: AlphaBeta {
            alpha: b(1.0),
            beta: b(-1.0),
        },
    };
    let mut state = SmoState::default();
    let emf = state.update(&param, &input, &atan2);
    near(emf.alpha, -2.0, 1e-6);
    near(emf.beta, 2.0, 1e-6);
    assert!((0.0..core::f32::consts::TAU).contains(&f(state.theta_emf_rad)));

    let _ = state.update(&param, &input, &atan2);
    near(state.current_est.alpha, 0.78, 1e-6);
    near(state.current_est.beta, -0.78, 1e-6);
    near(state.emf.alpha, -3.0, 1e-6);
    near(state.emf.beta, 3.0, 1e-6);
}

#[test]
fn smo_pll_matches_c_reference() {
    let param = SmoPllParam {
        smo: SmoParam {
            rs: b(0.5),
            ls: b(0.001),
            ts: b(0.0001),
            k_slide: b(4.0),
            boundary: b(0.1),
            emf_filter_alpha: b(1.0),
        },
        pll: PllParam {
            kp: b(20.0),
            ki: b(0.0),
            ts: b(0.001),
            omega_min: b(-200.0),
            omega_max: b(200.0),
        },
    };
    let input = SmoInput {
        voltage: AlphaBeta::default(),
        current: AlphaBeta {
            alpha: b(1.0),
            beta: b(-1.0),
        },
    };
    let mut state = SmoPllState::default();
    assert!(state.update(&param, &input, &atan2, &sin) > b(0.0));
    near(state.emf.alpha, -4.0, 1e-6);
    near(state.emf.beta, 4.0, 1e-6);
    assert!(state.omega_rad_s > b(0.0));
}

#[test]
fn flux_smo_matches_c_reference() {
    let param = FluxSmoParam {
        flux: FluxParam {
            rs: b(0.0),
            ts: b(0.01),
            leakage: b(0.0),
            flux_min: b(-10.0),
            flux_max: b(10.0),
        },
        smo: SmoParam {
            rs: b(0.2),
            ls: b(0.001),
            ts: b(0.0001),
            k_slide: b(2.0),
            boundary: b(0.1),
            emf_filter_alpha: b(1.0),
        },
        smo_weight: b(0.25),
    };
    let input = SmoInput {
        voltage: AlphaBeta {
            alpha: b(2.0),
            beta: b(1.0),
        },
        current: AlphaBeta {
            alpha: b(1.0),
            beta: b(0.0),
        },
    };
    let mut state = FluxSmoState::default();
    let theta = state.update(&param, &input, &atan2);
    near(state.flux_vector.alpha, 0.02, 1e-6);
    near(state.flux_vector.beta, 0.01, 1e-6);
    assert!(state.emf.alpha.abs() > b(0.0));
    assert!((0.0..core::f32::consts::TAU).contains(&f(theta)));
    assert!((f(theta) - f(state.theta_flux_rad)).abs() > 1e-5);
}
