use foc_algorithm::AdrcFalParam;
use foc_algorithm::AdrcFastTdParam;
use foc_algorithm::AdrcFastTdState;
use foc_algorithm::AdrcNonlinearParam;
use foc_algorithm::AdrcParam;
use foc_algorithm::AdrcState;
use foc_algorithm::AdrcTuningParam;
use foc_algorithm::Binary32;
use foc_algorithm::adrc_fal;
use foc_algorithm::tune_adrc_bandwidth;

fn b(x: f32) -> Binary32 {
    Binary32::from_bits(x.to_bits())
}

fn f(x: Binary32) -> f32 {
    f32::from_bits(x.to_bits())
}

fn near(actual: Binary32, expected: f32, tolerance: f32) {
    let actual = f(actual);
    assert!((actual - expected).abs() <= tolerance, "{actual} != {expected}");
}

fn powf(x: Binary32, y: Binary32) -> Binary32 {
    b(libm::powf(f(x), f(y)))
}

fn base_param() -> AdrcParam {
    AdrcParam {
        ts: b(0.01),
        td_r: b(10.0),
        beta01: b(20.0),
        beta02: b(100.0),
        beta03: b(50.0),
        kp: b(5.0),
        kd: b(2.0),
        b0: b(1.0),
        out_min: b(-10.0),
        out_max: b(10.0),
    }
}

#[test]
fn adrc_matches_c_reference() {
    let mut param = base_param();
    let mut state = AdrcState::default();
    near(state.update(&param, b(1.0), b(0.0)), 0.2, 1e-6);
    near(state.v1, 0.0, 1e-6);
    near(state.v2, 0.1, 1e-6);

    state.reset();
    state.z1 = b(1.0);
    assert!(state.update(&param, b(0.0), b(0.0)) < b(0.0));
    near(state.z1, 0.8, 1e-6);
    near(state.z2, -1.0, 1e-6);
    near(state.z3, -0.5, 1e-6);
    param.out_min = b(-0.1);
    param.out_max = b(0.1);
    near(state.update(&param, b(10.0), b(0.0)), 0.1, 1e-6);
}

#[test]
fn fal_matches_c_reference_and_sanitizes_parameters() {
    let param = AdrcFalParam {
        alpha: b(0.5),
        delta: b(0.01),
    };
    near(adrc_fal(b(0.0025), &param, &powf), 0.025, 1e-6);
    near(adrc_fal(b(4.0), &param, &powf), 2.0, 1e-6);
    near(adrc_fal(b(-4.0), &param, &powf), -2.0, 1e-6);
    assert!(adrc_fal(
        b(1.0e-7),
        &AdrcFalParam {
            alpha: b(2.0),
            delta: b(0.0)
        },
        &powf
    )
    .is_finite());
}

#[test]
fn fast_td_matches_c_reference_and_rejects_invalid_timing() {
    let param = AdrcFastTdParam {
        ts: b(0.001),
        r: b(100.0),
        h0: b(0.01),
    };
    let mut state = AdrcFastTdState::new(b(0.0));
    near(state.update(&param, b(1.0)), 0.0, 0.0);
    assert!(state.v2 > b(0.0));
    let before = state;
    near(
        state.update(&AdrcFastTdParam { ts: b(0.0), ..param }, b(1.0)),
        0.0,
        0.0,
    );
    assert_eq!(state, before);
}

#[test]
fn nonlinear_adrc_matches_c_reference() {
    let param = AdrcNonlinearParam {
        base: base_param(),
        e1_fal: AdrcFalParam {
            alpha: b(0.5),
            delta: b(0.01),
        },
        e2_fal: AdrcFalParam {
            alpha: b(0.25),
            delta: b(0.01),
        },
    };
    let output = AdrcState::default().update_nonlinear(&param, b(1.0), b(0.0), &powf);
    assert!(output.is_finite() && output > b(0.0) && output <= b(10.0));
}

#[test]
fn tuning_matches_c_reference() {
    let tuned = tune_adrc_bandwidth(&AdrcTuningParam {
        ts: b(0.001),
        control_bandwidth: b(20.0),
        observer_bandwidth: b(100.0),
        b0: b(2.0),
        td_r: b(200.0),
        out_min: b(-5.0),
        out_max: b(5.0),
    });
    near(tuned.kp, 400.0, 1e-6);
    near(tuned.kd, 40.0, 1e-6);
    near(tuned.beta01, 300.0, 1e-6);
    near(tuned.beta02, 30_000.0, 1e-3);
    near(tuned.beta03, 1_000_000.0, 1e-1);
    near(tuned.b0, 2.0, 1e-6);
}
