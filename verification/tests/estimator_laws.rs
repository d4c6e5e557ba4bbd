use foc_algorithm::Binary32;
use foc_algorithm::EkfFocInput;
use foc_algorithm::EkfFocParam;
use foc_algorithm::EkfFocState;
use foc_algorithm::EkfLinearization;
use foc_algorithm::EkfMeasureFunction;
use foc_algorithm::EkfParam;
use foc_algorithm::EkfState;
use foc_algorithm::EkfStateFunction;
use foc_algorithm::FocBasicInput;
use foc_algorithm::FocBasicParam;
use foc_algorithm::FocBasicState;
use foc_algorithm::KalmanParam;
use foc_algorithm::KalmanState;
use foc_algorithm::LuenbergerParam;
use foc_algorithm::LuenbergerState;
use foc_algorithm::PiParam;
use foc_algorithm::SvpwmOutput;
use foc_algorithm::SvpwmParam;
use foc_algorithm::UkfMeasureFunction;
use foc_algorithm::UkfParam;
use foc_algorithm::UkfState;
use foc_algorithm::UkfStateFunction;

fn b(x: f32) -> Binary32 {
    Binary32::from_bits(x.to_bits())
}

fn f(x: Binary32) -> f32 {
    f32::from_bits(x.to_bits())
}

fn sin(x: Binary32) -> Binary32 {
    b(libm::sinf(f(x)))
}

fn cos(x: Binary32) -> Binary32 {
    b(libm::cosf(f(x)))
}

fn kalman_param() -> KalmanParam {
    KalmanParam { a: b(0.9), b: b(0.5), h: b(2.0), q: b(0.1), r: b(0.4) }
}

#[test]
fn kalman_step_follows_its_formula() {
    let mut state = KalmanState::new(b(1.0), b(0.5));
    let x = state.update(&kalman_param(), b(0.3), b(2.5));
    let x_pred = 0.9_f32 * 1.0 + 0.5 * 0.3;
    let p_pred = 0.9_f32 * 0.5 * 0.9 + 0.1;
    let s = 2.0 * p_pred * 2.0 + 0.4;
    let k = p_pred * 2.0 / s;
    let residual = 2.5 - 2.0 * x_pred;
    assert_eq!(f(state.k), k);
    assert_eq!(f(state.residual), residual);
    assert_eq!(f(x), x_pred + k * residual);
    assert_eq!(f(state.p), (1.0 - k * 2.0) * p_pred);
}

#[test]
fn filter_without_variance_trusts_its_prediction() {
    let param = KalmanParam { q: b(0.0), ..kalman_param() };
    let mut state = KalmanState::new(b(1.0), b(0.0));
    assert_eq!(f(state.update(&param, b(0.0), b(100.0))), 0.9);
    assert_eq!((f(state.p), f(state.k)), (0.0, 0.0));
}

#[test]
fn confirmed_prediction_is_kept() {
    let mut state = KalmanState::new(b(1.0), b(0.5));
    assert_eq!(f(state.update(&kalman_param(), b(0.2), b(2.0 * (0.9_f32 * 1.0 + 0.5 * 0.2)))), 0.9_f32 * 1.0 + 0.5 * 0.2);
    assert_eq!(f(state.residual), 0.0);
}

#[test]
fn variance_is_not_negative_and_falls_with_measurements() {
    let mut state = KalmanState::new(b(0.0), b(10.0));
    let direct = KalmanParam { h: b(1.0), ..kalman_param() };
    for i in 0..200 {
        let p_pred = 0.9 * f(state.p) * 0.9 + 0.1;
        state.update(&direct, b(0.0), b(libm::sinf(i as f32)));
        assert!(state.p >= b(0.0) && f(state.p) <= p_pred);
        assert!(state.k >= b(0.0) && state.k <= b(1.0));
    }
}

#[test]
fn variance_can_round_below_zero_when_noise_vanishes() {
    let param = KalmanParam { a: b(1.0), b: b(0.0), h: b(1.001), q: b(0.0), r: b(1.0e-12) };
    let mut state = KalmanState::new(b(0.0), b(1.0));
    state.update(&param, b(0.0), b(1.0));
    assert!(state.k * param.h > b(1.0));
    assert!(state.p < b(0.0));
}

#[test]
fn extended_filter_of_a_linear_model_is_the_linear_filter() {
    let param = EkfParam {
        f: Some(|x: Binary32, u: Binary32| b(0.9) * x + b(0.5) * u),
        df_dx: Some(|_: Binary32, _: Binary32| b(0.9)),
        h: Some(|x: Binary32| b(2.0) * x),
        dh_dx: Some(|_: Binary32| b(2.0)),
        q: b(0.1),
        r: b(0.4),
    };
    let mut linear = KalmanState::new(b(1.0), b(0.5));
    let mut extended = EkfState::new(b(1.0), b(0.5));
    for i in 0..30 {
        let (u, z) = (b(0.1), b(i as f32 * 0.2));
        assert_eq!(extended.update(&param, u, z), linear.update(&kalman_param(), u, z));
        assert_eq!((extended.p, extended.k, extended.residual), (linear.p, linear.k, linear.residual));
    }
    let model = EkfLinearization { x_pred: b(0.5), f_jac: b(1.0), h_value: b(0.25), h_jac: b(0.5) };
    let mut state = EkfState::new(b(0.0), b(1.0));
    state.update_linearized(b(0.0), b(0.75), model, b(1.0));
    assert_eq!(f(state.k), 0.5_f32 / (0.5 * 1.0 * 0.5 + 0.75));
}

#[test]
fn observer_without_error_follows_its_model() {
    let param = LuenbergerParam {
        a00: b(0.9),
        a01: b(0.1),
        a10: b(-0.2),
        a11: b(0.8),
        b0: b(0.5),
        b1: b(0.25),
        c0: b(1.0),
        c1: b(0.5),
        l0: b(0.3),
        l1: b(0.4),
    };
    let mut state = LuenbergerState::new(b(1.0), b(2.0));
    let y = 1.0_f32 * 1.0 + 0.5 * 2.0;
    state.update(&param, b(0.6), b(y));
    let (x0, x1) = (0.9_f32 * 1.0 + 0.1 * 2.0 + 0.5 * 0.6, -0.2_f32 * 1.0 + 0.8 * 2.0 + 0.25 * 0.6);
    assert_eq!((f(state.x0), f(state.x1)), (x0, x1));
    assert_eq!(f(state.error), 0.0);
    assert_eq!(f(state.y_hat), 1.0 * x0 + 0.5 * x1);
    state.reset(b(1.0), b(2.0));
    state.update(&param, b(0.6), b(y + 1.0));
    assert_eq!(f(state.x1), -0.2_f32 * 1.0 + 0.8 * 2.0 + 0.25 * 0.6 + 0.4 * 1.0);
}

fn chain_param() -> EkfFocParam<EkfStateFunction, EkfStateFunction, EkfMeasureFunction, EkfMeasureFunction> {
    let pi = PiParam {
        kp: b(1.0),
        ki: b(10.0),
        ts: b(0.001),
        out_min: b(-5.0),
        out_max: b(5.0),
        integrator_min: b(-5.0),
        integrator_max: b(5.0),
    };
    EkfFocParam {
        ekf: EkfParam::default(),
        foc: FocBasicParam { id_pi: pi, iq_pi: pi, svpwm: SvpwmParam { v_bus: b(24.0) } },
    }
}

fn advance(x: Binary32, u: Binary32) -> Binary32 {
    x + u
}

fn slope(_: Binary32, _: Binary32) -> Binary32 {
    b(1.0)
}

fn look(x: Binary32) -> Binary32 {
    x
}

fn look_slope(_: Binary32) -> Binary32 {
    b(1.0)
}

#[test]
fn chain_ignores_the_supplied_angle() {
    let mut param = chain_param();
    param.ekf = EkfParam { f: Some(advance), df_dx: Some(slope), h: Some(look), dh_dx: Some(look_slope), q: b(0.01), r: b(0.1) };
    let mut input = EkfFocInput {
        ekf_u: b(0.1),
        theta_measurement_rad: b(0.4),
        foc: FocBasicInput { ia: b(1.0), ib: b(-0.5), ic: b(-0.5), id_ref: b(0.0), iq_ref: b(1.0), theta_e_rad: b(0.0) },
    };
    let mut first = EkfFocState::new(b(0.2), b(1.0));
    let mut second = first;
    let duties = first.update(&param, &input, &sin, &cos);
    input.foc.theta_e_rad = b(3.0);
    assert_eq!(second.update(&param, &input, &sin, &cos), duties);
    assert_eq!(first, second);
    assert_eq!(first.theta_rad, first.ekf.x);
}

#[test]
fn chain_without_a_model_runs_at_angle_zero() {
    let mut state = EkfFocState::new(b(2.0), b(1.0));
    let input = EkfFocInput {
        ekf_u: b(0.1),
        theta_measurement_rad: b(0.4),
        foc: FocBasicInput { iq_ref: b(1.0), ..FocBasicInput::default() },
    };
    let mut alone = FocBasicState::default();
    let duties = state.update(&chain_param(), &input, &sin, &cos);
    assert_eq!(f(state.theta_rad), 0.0);
    assert_eq!(state.ekf, EkfState::new(b(2.0), b(1.0)));
    assert_eq!(duties, alone.update(&chain_param().foc, &input.foc, &sin, &cos));
}

#[test]
fn chain_starts_with_zero_duties_and_resets_to_the_centre() {
    let state = EkfFocState::default();
    assert_eq!((f(state.pwm.duty_a), f(state.pwm.duty_b), f(state.pwm.duty_c)), (0.0, 0.0, 0.0));
    let mut state = EkfFocState::new(b(-1.0), b(0.5));
    assert_eq!(state.pwm, SvpwmOutput::default());
    assert_eq!(f(state.theta_rad), core::f32::consts::TAU - 1.0);
    state.reset(b(1.0), b(0.5));
    assert_eq!(f(state.theta_rad), 1.0);
}

fn unscented_param() -> UkfParam<UkfStateFunction, UkfMeasureFunction> {
    UkfParam { f: Some(advance), h: Some(look), q: b(0.1), r: b(0.2), alpha: b(1.0), beta: b(2.0), kappa: b(0.0) }
}

#[test]
fn points_spread_with_the_variance() {
    let param = unscented_param();
    let (low, upper, lower) = UkfState::new(b(3.0), b(4.0)).sigma_points(&param.noise());
    assert_eq!((f(low), f(upper), f(lower)), (3.0, 5.0, 1.0));
    let (low, upper, lower) = UkfState::new(b(3.0), b(0.0)).sigma_points(&param.noise());
    assert_eq!((f(low), f(upper), f(lower)), (3.0, 3.0, 3.0));
    let narrow = UkfParam { alpha: b(0.0), ..unscented_param() };
    let spread = f(UkfState::new(b(0.0), b(1.0)).sigma_points(&narrow.noise()).1);
    let lambda = 0.001_f32 * 0.001 * (1.0 + 0.0) - 1.0;
    assert_eq!(spread, libm::sqrtf(1.0 + lambda));
}

#[test]
fn unscented_filter_keeps_a_confirmed_prediction() {
    let mut state = UkfState::new(b(3.0), b(4.0));
    assert_eq!(f(state.update(&unscented_param(), b(0.5), b(3.5))), 3.5);
    assert_eq!(f(state.residual), 0.0);
}

#[test]
fn unscented_filter_without_a_model_changes_nothing() {
    let mut state = UkfState::new(b(3.0), b(4.0));
    for param in [UkfParam { f: None, ..unscented_param() }, UkfParam { h: None, ..unscented_param() }] {
        assert_eq!(f(state.update(&param, b(0.5), b(9.0))), 0.0);
        assert_eq!(state, UkfState::new(b(3.0), b(4.0)));
    }
}

#[test]
fn unscented_step_follows_its_formula() {
    let mut state = UkfState::default();
    let (moved, seen) = ((b(1.0), b(2.0), b(0.5)), (b(2.0), b(3.0), b(1.5)));
    state.update_from_points(&unscented_param().noise(), moved, seen, b(2.75));
    let (wm, wc, wi) = (0.0_f32, 0.0_f32 + (1.0 - 1.0 + 2.0), 0.5_f32);
    let x_pred = wm * 1.0 + wi * 2.0 + wi * 0.5;
    let z_pred = wm * 2.0 + wi * 3.0 + wi * 1.5;
    let p_pred = 0.1 + wc * (1.0 - x_pred) * (1.0 - x_pred) + wi * (2.0 - x_pred) * (2.0 - x_pred)
        + wi * (0.5 - x_pred) * (0.5 - x_pred);
    let pz = 0.2 + wc * (2.0 - z_pred) * (2.0 - z_pred) + wi * (3.0 - z_pred) * (3.0 - z_pred)
        + wi * (1.5 - z_pred) * (1.5 - z_pred);
    let pxz = wc * (1.0 - x_pred) * (2.0 - z_pred) + wi * (2.0 - x_pred) * (3.0 - z_pred)
        + wi * (0.5 - x_pred) * (1.5 - z_pred);
    let k = pxz / pz;
    assert_eq!(f(state.k), k);
    assert_eq!(f(state.x), x_pred + k * (2.75 - z_pred));
    assert_eq!(f(state.p), p_pred - k * pz * k);
}

#[test]
fn unscented_filter_agrees_with_the_linear_one_on_a_linear_model() {
    let (slope, reach, measure, ratio) = (1.0_f64, 4.0_f64, 1.5_f64, 9.0_f64);
    let unit = slope * reach;
    let model = KalmanParam { a: b(0.9), b: b(0.5), h: b(1.25), q: b(0.0), r: b(4.0) };
    for beta in [0.0, 2.0, -3.0, 4096.0] {
        for i in 0..300 {
            let turn = i as f32 * 0.37;
            let (x, p) = (4.0 * libm::sinf(turn), 8.0 + 8.0 * libm::cosf(turn));
            let (u, z) = (b(3.0 * libm::cosf(turn * 0.7)), b(6.0 * libm::sinf(turn * 1.3)));
            let param = UkfParam {
                f: Some(|x: Binary32, u: Binary32| b(0.9) * x + b(0.5) * u),
                h: Some(|x: Binary32| b(1.25) * x),
                q: model.q,
                r: model.r,
                alpha: b(1.0),
                beta: b(beta),
                kappa: b(0.0),
            };
            let mut unscented = UkfState::new(b(x), b(p));
            let mut linear = KalmanState::new(b(x), b(p));
            unscented.update(&param, u, z);
            linear.update(&model, u, z);
            let away = |one: Binary32, other: Binary32| (f(one) as f64 - f(other) as f64).abs();
            assert!(away(unscented.residual, linear.residual) * 131_072.0 <= measure * unit);
            assert!(away(unscented.k, linear.k) * 8192.0 * measure <= ratio * ratio);
            assert!(away(unscented.x, linear.x) * 2048.0 <= ratio * ratio * unit);
            assert!(away(unscented.p, linear.p) * 2048.0 <= ratio * ratio * ratio * unit * unit);
            assert!(away(unscented.x, linear.x) <= 1.0e-4 && away(unscented.p, linear.p) <= 1.0e-4);
        }
    }
}

#[test]
fn combined_filter_starts_without_a_model() {
    let param: EkfFocParam<UkfStateFunction, UkfStateFunction, UkfMeasureFunction, UkfMeasureFunction> =
        EkfFocParam::default();
    assert!(param.ekf.f.is_none() && param.ekf.df_dx.is_none());
    assert!(param.ekf.h.is_none() && param.ekf.dh_dx.is_none());
    assert_eq!((f(param.ekf.q), f(param.ekf.r)), (0.0, 0.0));
    assert_eq!(param.foc, FocBasicParam::default());
}
