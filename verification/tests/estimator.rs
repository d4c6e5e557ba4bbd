use foc_algorithm::Binary32;
use foc_algorithm::EkfFocInput;
use foc_algorithm::EkfFocParam;
use foc_algorithm::EkfFocState;
use foc_algorithm::EkfMeasureFunction;
use foc_algorithm::EkfParam;
use foc_algorithm::EkfState;
use foc_algorithm::EkfStateFunction;
use foc_algorithm::FocBasicInput;
use foc_algorithm::FocBasicParam;
use foc_algorithm::KalmanParam;
use foc_algorithm::KalmanState;
use foc_algorithm::LuenbergerParam;
use foc_algorithm::LuenbergerState;
use foc_algorithm::PiParam;
use foc_algorithm::SvpwmParam;
use foc_algorithm::UkfParam;
use foc_algorithm::UkfState;

fn b(x: f32) -> Binary32 {
    Binary32::from_bits(x.to_bits())
}

fn f(x: Binary32) -> f32 {
    f32::from_bits(x.to_bits())
}

fn near(actual: Binary32, expected: f32, tolerance: f32) {
    let actual = f(actual);
    assert!((actual - expected).abs() <= tolerance, "{actual} != {expected}");
}

fn sin(x: Binary32) -> Binary32 {
    b(libm::sinf(f(x)))
}

fn cos(x: Binary32) -> Binary32 {
    b(libm::cosf(f(x)))
}

fn in_duty_range(value: Binary32) -> bool {
    (0.0..=1.0).contains(&f(value))
}

fn add_input(x: Binary32, u: Binary32) -> Binary32 {
    x + u
}

fn state_jacobian(_x: Binary32, _u: Binary32) -> Binary32 {
    b(1.0)
}

fn square_measurement(x: Binary32) -> Binary32 {
    x * x
}

fn square_jacobian(x: Binary32) -> Binary32 {
    b(2.0) * x
}

fn identity_measurement(x: Binary32) -> Binary32 {
    x
}

fn identity_jacobian(_x: Binary32) -> Binary32 {
    b(1.0)
}

#[test]
fn kalman_matches_c_reference() {
    let param = KalmanParam {
        a: b(1.0),
        b: b(1.0),
        h: b(1.0),
        q: b(1.0),
        r: b(1.0),
    };
    let mut state = KalmanState::new(b(0.0), b(1.0));
    near(state.update(&param, b(1.0), b(2.0)), 1.666_666_7, 1e-5);
    near(state.k, 0.666_666_7, 1e-5);
    near(state.p, 0.666_666_7, 1e-5);
}

#[test]
fn luenberger_matches_c_reference() {
    let param = LuenbergerParam {
        a00: b(1.0),
        a01: b(0.1),
        a10: b(0.0),
        a11: b(1.0),
        b0: b(0.0),
        b1: b(0.1),
        c0: b(1.0),
        c1: b(0.0),
        l0: b(0.5),
        l1: b(0.2),
    };
    let mut state = LuenbergerState::default();
    near(state.update(&param, b(1.0), b(2.0)), 1.0, 1e-6);
    near(state.x0, 1.0, 1e-6);
    near(state.x1, 0.5, 1e-6);
}

#[test]
fn ekf_matches_c_reference() {
    let param = EkfParam {
        f: Some(add_input),
        df_dx: Some(state_jacobian),
        h: Some(square_measurement),
        dh_dx: Some(square_jacobian),
        q: b(0.1),
        r: b(0.5),
    };
    let mut state = EkfState::new(b(1.0), b(1.0));
    near(state.update(&param, b(1.0), b(5.0)), 2.243_094, 1e-5);
    near(state.k, 0.243_093_9, 1e-5);
    near(state.residual, 1.0, 1e-6);
}

#[test]
fn ekf_rejects_missing_model_without_state_change() {
    let missing: EkfParam<
        EkfStateFunction,
        EkfStateFunction,
        EkfMeasureFunction,
        EkfMeasureFunction,
    > = EkfParam::default();
    let mut state = EkfState::new(b(2.0), b(3.0));
    assert_eq!(state.update(&missing, b(1.0), b(4.0)), b(0.0));
    assert_eq!(state, EkfState::new(b(2.0), b(3.0)));
}

#[test]
fn ekf_foc_matches_c_reference() {
    let pi = PiParam {
        kp: b(1.0),
        ki: b(0.0),
        ts: b(0.001),
        out_min: b(-12.0),
        out_max: b(12.0),
        integrator_min: b(-6.0),
        integrator_max: b(6.0),
    };
    let param = EkfFocParam {
        ekf: EkfParam {
            f: Some(add_input),
            df_dx: Some(state_jacobian),
            h: Some(identity_measurement),
            dh_dx: Some(identity_jacobian),
            q: b(0.0),
            r: b(0.01),
        },
        foc: FocBasicParam {
            id_pi: pi,
            iq_pi: pi,
            svpwm: SvpwmParam { v_bus: b(24.0) },
        },
    };
    let input = EkfFocInput {
        ekf_u: b(0.0),
        theta_measurement_rad: b(0.5),
        foc: FocBasicInput {
            ia: b(0.0),
            ib: b(0.0),
            ic: b(0.0),
            id_ref: b(0.0),
            iq_ref: b(2.0),
            theta_e_rad: b(0.0),
        },
    };
    let mut state = EkfFocState::new(b(0.0), b(1.0));
    let output = state.update(&param, &input, &sin, &cos);
    assert!((0.49..0.51).contains(&f(state.theta_rad)));
    near(state.foc.voltage_dq.q, 2.0, 1e-6);
    assert!(in_duty_range(output.duty_a));
    assert!(in_duty_range(output.duty_b));
    assert!(in_duty_range(output.duty_c));
}

#[test]
fn ukf_matches_c_reference() {
    let param = UkfParam {
        f: Some(add_input),
        h: Some(identity_measurement),
        q: b(1.0),
        r: b(1.0),
        alpha: b(1.0),
        beta: b(2.0),
        kappa: b(0.0),
    };
    let mut state = UkfState::new(b(0.0), b(1.0));
    near(state.update(&param, b(1.0), b(2.0)), 1.5, 1e-5);
    near(state.k, 0.5, 1e-5);
    near(state.p, 1.5, 1e-5);
}

#[test]
fn estimator_state_sizes_are_fixed() {
    assert_eq!(core::mem::size_of::<KalmanState>(), 16);
    assert_eq!(core::mem::size_of::<EkfState>(), 16);
    assert_eq!(core::mem::size_of::<UkfState>(), 16);
}
