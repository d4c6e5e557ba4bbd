use foc_algorithm::AdrcFalParam;
use foc_algorithm::AdrcFastTdParam;
use foc_algorithm::AdrcFastTdState;
use foc_algorithm::AdrcNonlinearParam;
use foc_algorithm::AdrcParam;
use foc_algorithm::AdrcState;
use foc_algorithm::AdrcTuningParam;
use foc_algorithm::Binary32;
use foc_algorithm::adrc_fal;
use foc_algorithm::adrc_fal_arguments;
use foc_algorithm::adrc_fal_from_power;
use foc_algorithm::tune_adrc_bandwidth;

fn b(x: f32) -> Binary32 {
    Binary32::from_bits(x.to_bits())
}

fn f(x: Binary32) -> f32 {
    f32::from_bits(x.to_bits())
}

fn near(actual: Binary32, expected: f32, tolerance: f32) {
    let actual = f(actual);
    assert!((actual - expected).abs() <= tolerance, "{actual} != {expected}");
}

fn powf(x: Binary32, y: Binary32) -> Binary32 {
    b(libm::powf(f(x), f(y)))
}

fn base() -> AdrcParam {
    AdrcParam {
        ts: b(0.01),
        td_r: b(20.0),
        beta01: b(30.0),
        beta02: b(300.0),
        beta03: b(1000.0),
        kp: b(10.0),
        kd: b(2.0),
        b0: b(2.0),
        out_min: b(-3.0),
        out_max: b(3.0),
    }
}

fn nonlinear() -> AdrcNonlinearParam {
    AdrcNonlinearParam {
        base: base(),
        e1_fal: AdrcFalParam { alpha: b(0.5), delta: b(0.1) },
        e2_fal: AdrcFalParam { alpha: b(0.25), delta: b(0.2) },
    }
}

#[test]
fn outputs_keep_their_limits_and_share_the_observer() {
    let mut linear = AdrcState::default();
    for i in 0..100 {
        let (reference, feedback) = (b(5.0), b(i as f32 * 0.02));
        let mut other = linear;
        let u = other.update_nonlinear(&nonlinear(), reference, feedback, &powf);
        assert!(u >= b(-3.0) && u <= b(3.0));
        let u = linear.update(&base(), reference, feedback);
        assert!(u >= b(-3.0) && u <= b(3.0));
        assert_eq!((linear.v1, linear.v2), (other.v1, other.v2));
        assert_eq!((linear.z1, linear.z2, linear.z3), (other.z1, other.z2, other.z3));
        assert_eq!(linear.error, other.error);
    }
}

#[test]
fn linear_step_follows_its_formula() {
    let mut state = AdrcState { v1: b(0.5), v2: b(0.1), z1: b(0.4), z2: b(0.2), z3: b(0.3), ..AdrcState::default() };
    state.update(&base(), b(1.0), b(0.6));
    let eso = 0.4_f32 - 0.6;
    assert_eq!(f(state.v1), 0.5_f32 + 0.01 * 0.1);
    assert_eq!(f(state.v2), 0.1_f32 + 0.01 * (20.0 * (1.0 - 0.5) - 2.0 * 20.0 * 0.1));
    assert_eq!(f(state.z1), 0.4_f32 + 0.01 * (0.2 - 30.0 * eso));
    assert_eq!(f(state.z2), 0.2_f32 + 0.01 * (0.3 - 300.0 * eso + 2.0 * 0.0));
    assert_eq!(f(state.z3), 0.3_f32 + 0.01 * (-1000.0 * eso));
}

#[test]
fn error_function_is_odd() {
    let param = AdrcFalParam { alpha: b(0.5), delta: b(0.1) };
    for i in 0..40 {
        let error = i as f32 * 0.01;
        let value = f(adrc_fal(b(error), &param, &powf));
        assert_eq!(f(adrc_fal(b(-error), &param, &powf)), -value);
        assert_eq!(adrc_fal_arguments(b(error), &param), adrc_fal_arguments(b(-error), &param));
    }
    assert_eq!(adrc_fal_arguments(b(0.05), &param), (b(0.1), b(0.5)));
    assert_eq!(adrc_fal_arguments(b(-0.4), &param), (b(0.4), b(0.5)));
    assert_eq!(f(adrc_fal_from_power(b(0.05), &param, b(4.0))), 0.05 / 4.0);
    assert_eq!(f(adrc_fal_from_power(b(-0.4), &param, b(4.0))), -4.0);
}

#[test]
fn nonlinear_step_asks_for_two_powers() {
    let state = AdrcState { v1: b(0.5), z1: b(0.2), ..AdrcState::default() };
    let (first, second) = state.nonlinear_arguments(&nonlinear(), b(1.0), b(0.6));
    let mut direct = state;
    let u = direct.update_nonlinear(&nonlinear(), b(1.0), b(0.6), &powf);
    let mut split = state;
    let (p1, p2) = (powf(first.0, first.1), powf(second.0, second.1));
    assert_eq!(split.update_nonlinear_from_powers(&nonlinear(), b(1.0), b(0.6), p1, p2), u);
    assert_eq!(split, direct);
}

#[test]
fn invalid_periods_change_nothing() {
    let mut param = nonlinear();
    param.base.ts = b(0.0);
    let mut state = AdrcState { v1: b(0.5), ..AdrcState::default() };
    let before = state;
    assert_eq!(f(state.update(&param.base, b(1.0), b(0.0))), 0.0);
    assert_eq!(f(state.update_nonlinear(&param, b(1.0), b(0.0), &powf)), 0.0);
    assert_eq!(state, before);
    let mut td = AdrcFastTdState::new(b(2.0));
    for (ts, r, h0) in [(0.0, 1.0, 1.0), (1.0, 0.0, 1.0), (1.0, 1.0, -1.0)] {
        assert_eq!(f(td.update(&AdrcFastTdParam { ts: b(ts), r: b(r), h0: b(h0) }, b(9.0))), 0.0);
        assert_eq!(td, AdrcFastTdState::new(b(2.0)));
    }
}

#[test]
fn fast_differentiator_rests_and_approaches() {
    let param = AdrcFastTdParam { ts: b(0.01), r: b(100.0), h0: b(0.01) };
    let mut rest = AdrcFastTdState::new(b(1.0));
    assert_eq!(f(rest.update(&param, b(1.0))), 1.0);
    assert_eq!(rest, AdrcFastTdState::new(b(1.0)));
    let mut state = AdrcFastTdState::default();
    for _ in 0..200 {
        state.update(&param, b(1.0));
        assert!(state.fh.abs() <= b(100.0));
    }
    near(state.v1, 1.0, 0.02);
    state.reset(b(3.0));
    assert_eq!(state, AdrcFastTdState::new(b(3.0)));
}

#[test]
fn bandwidths_give_gains() {
    let param = AdrcTuningParam {
        ts: b(0.001),
        control_bandwidth: b(20.0),
        observer_bandwidth: b(100.0),
        b0: b(3.0),
        td_r: b(7.0),
        out_min: b(-1.0),
        out_max: b(1.0),
    };
    let tuned = tune_adrc_bandwidth(&param);
    assert_eq!(f(tuned.kp), 400.0);
    assert_eq!(f(tuned.kd), 40.0);
    assert_eq!(f(tuned.beta01), 300.0);
    assert_eq!(f(tuned.beta02), 30_000.0);
    assert_eq!(f(tuned.beta03), 1_000_000.0);
    assert_eq!((f(tuned.ts), f(tuned.td_r), f(tuned.b0)), (0.001, 7.0, 3.0));
    let none = AdrcTuningParam { control_bandwidth: b(-1.0), observer_bandwidth: b(-5.0), ..param };
    let tuned = tune_adrc_bandwidth(&none);
    assert_eq!((f(tuned.kp), f(tuned.kd)), (0.0, 0.0));
    assert_eq!((f(tuned.beta01), f(tuned.beta02), f(tuned.beta03)), (0.0, 0.0, 0.0));
}

#[test]
fn fast_acceleration_is_full_outside_its_reach() {
    let param = AdrcFastTdParam { ts: b(0.001), r: b(50.0), h0: b(0.002) };
    for i in -40..=40 {
        let mut state = AdrcFastTdState { v1: b(i as f32 * 0.1), v2: b(0.3), fh: b(0.0) };
        state.update(&param, b(0.05));
        assert!(state.fh.abs() <= b(50.0));
    }
    let mut far = AdrcFastTdState::new(b(-4.0));
    far.update(&param, b(4.0));
    assert_eq!(f(far.fh), 50.0);
    let mut far = AdrcFastTdState::new(b(4.0));
    far.update(&param, b(-4.0));
    assert_eq!(f(far.fh), -50.0);
}

#[test]
fn exponents_one_make_the_nonlinear_law_linear() {
    let plain = AdrcFalParam { alpha: b(1.0), delta: b(0.1) };
    let param = AdrcNonlinearParam { base: base(), e1_fal: plain, e2_fal: plain };
    for i in -40..=40 {
        let error = b(i as f32 * 0.013);
        assert_eq!(f(adrc_fal(error, &plain, &powf)), f(error));
    }
    let mut linear = AdrcState::default();
    let mut other = AdrcState::default();
    for i in 0..200 {
        let (reference, feedback) = (b(0.3), b(libm::sinf(i as f32 * 0.1)));
        let u = linear.update(&base(), reference, feedback);
        assert_eq!(f(other.update_nonlinear(&param, reference, feedback, &powf)), f(u));
        assert_eq!(linear, other);
    }
}
