use foc_algorithm::AdaptiveParam;
use foc_algorithm::AdaptiveState;
use foc_algorithm::BacksteppingParam;
use foc_algorithm::BacksteppingState;
use foc_algorithm::Binary32;
use foc_algorithm::FuzzyParam;
use foc_algorithm::FuzzyState;
use foc_algorithm::HinfParam;
use foc_algorithm::HinfState;
use foc_algorithm::LqrParam;
use foc_algorithm::LqrState;
use foc_algorithm::MpcParam;
use foc_algorithm::MpcState;
use foc_algorithm::MracParam;
use foc_algorithm::MracState;
use foc_algorithm::SmcParam;
use foc_algorithm::SmcState;
use foc_algorithm::clamp;

fn b(x: f32) -> Binary32 {
    Binary32::from_bits(x.to_bits())
}

fn f(x: Binary32) -> f32 {
    f32::from_bits(x.to_bits())
}

fn near(actual: Binary32, expected: f32, tolerance: f32) {
    let actual = f(actual);
    assert!((actual - expected).abs() <= tolerance, "{actual} != {expected}");
}

#[test]
fn adaptive_output_and_gain_keep_their_limits() {
    let param = AdaptiveParam {
        learning_rate: b(2.0),
        ts: b(0.1),
        gain_min: b(0.1),
        gain_max: b(3.0),
        out_min: b(-4.0),
        out_max: b(4.0),
    };
    let mut state = AdaptiveState::new(b(1.0));
    state.update(&param, b(1.0), b(0.25));
    assert_eq!(f(state.gain), 1.0_f32 + 2.0 * 0.75 * 1.0 * 0.1);
    for i in 0..50 {
        let out = state.update(&param, b(3.0), b(i as f32 * 0.2));
        assert!(out >= b(-4.0) && out <= b(4.0));
        assert!(state.gain >= b(0.1) && state.gain <= b(3.0));
    }
    let before = state;
    assert_eq!(f(state.update(&AdaptiveParam { ts: b(0.0), ..param }, b(1.0), b(0.0))), 0.0);
    assert_eq!(state, before);
    state.reset(b(0.5));
    assert_eq!(state, AdaptiveState::new(b(0.5)));
}

#[test]
fn limits_in_the_wrong_order_still_limit() {
    let param = LqrParam { k0: b(1.0), k1: b(1.0), out_min: b(2.0), out_max: b(-2.0) };
    let mut state = LqrState::default();
    assert_eq!(f(state.update(&param, b(-9.0), b(0.0), b(0.0))), 2.0);
    assert_eq!(f(state.update(&param, b(9.0), b(0.0), b(0.0))), -2.0);
    assert_eq!(f(state.update(&param, b(0.5), b(0.25), b(1.0))), 0.25);
}

#[test]
fn backstepping_follows_its_formula() {
    let param = BacksteppingParam { k1: b(2.0), k2: b(3.0), out_min: b(-50.0), out_max: b(50.0) };
    let mut state = BacksteppingState::default();
    let u = state.update(&param, b(0.3), b(0.7), b(0.1), b(0.2), b(0.4));
    let e1 = 0.3_f32 - 0.1;
    let alpha = 0.2 - 2.0 * e1;
    let e2 = 0.7 - alpha;
    assert_eq!(f(state.e1), e1);
    assert_eq!(f(state.alpha), alpha);
    assert_eq!(f(state.e2), e2);
    assert_eq!(f(u), 0.4 - 2.0 * (0.7_f32 - 0.2) - 3.0 * e2);
    assert_eq!(f(state.update(&param, b(1.0e6), b(0.0), b(0.0), b(0.0), b(0.0))), -50.0);
}

fn fuzzy_param() -> FuzzyParam {
    FuzzyParam {
        e_scale: b(2.0),
        de_scale: b(0.0),
        out_scale: b(3.0),
        rules: [[b(-1.0), b(-0.5), b(0.0)], [b(-0.5), b(0.0), b(0.5)], [b(0.0), b(0.5), b(1.0)]],
        out_min: b(1.0),
        out_max: b(2.0),
    }
}

#[test]
fn fuzzy_weights_are_positive_and_output_limited() {
    let mut state = FuzzyState::default();
    for i in -30..=30 {
        for j in -30..=30 {
            let out = state.update(&fuzzy_param(), b(i as f32 * 0.1), b(j as f32 * 0.07));
            assert!(out >= b(1.0) && out <= b(2.0));
            near(state.weight_sum, 1.0, 1.0e-6);
        }
    }
    let wide = FuzzyParam { out_min: b(-9.0), out_max: b(9.0), ..fuzzy_param() };
    assert_eq!(f(state.update(&wide, b(2.0), b(0.0))), 1.5);
    assert_eq!(f(state.update(&wide, b(1.0), b(1.0))), 2.25);
}

#[test]
fn fuzzy_output_of_a_nan_is_zero() {
    let mut state = FuzzyState::default();
    assert_eq!(f(state.update(&fuzzy_param(), b(f32::NAN), b(0.5))), 0.0);
    assert!(state.weight_sum.is_nan());
    assert_eq!(f(state.update(&fuzzy_param(), b(0.5), b(f32::NAN))), 0.0);
    assert!(state.weight_sum.is_nan());
}

#[test]
fn robust_feedback_follows_its_formula() {
    let mut param = HinfParam { kx: b(2.0), kw: b(0.5), gamma: b(4.0), out_min: b(-5.0), out_max: b(5.0) };
    let mut state = HinfState::default();
    let robust = -(0.5_f32 / 4.0) * 3.0;
    assert_eq!(f(state.update(&param, b(0.7), b(3.0), b(0.2))), 0.2 - 2.0 * 0.7 + robust);
    assert_eq!(f(state.robust_term), robust);
    param.gamma = b(-1.0);
    state.update(&param, b(0.0), b(2.0), b(0.0));
    assert_eq!(f(state.robust_term), -1.0);
    assert_eq!(f(state.update(&param, b(-99.0), b(0.0), b(0.0))), 5.0);
}

fn mpc_param() -> MpcParam {
    MpcParam { a: b(0.9), b: b(0.5), q: b(1.0), r: b(0.1), u_min: b(-2.0), u_max: b(3.0), candidates: 11 }
}

#[test]
fn search_selects_the_first_cheapest_candidate() {
    let mut state = MpcState::default();
    let (x, reference) = (0.3_f32, 1.0_f32);
    state.update(&mpc_param(), b(x), b(reference));
    let mut best = (f32::MAX, 0.0, 0.0);
    for i in 0..11 {
        let u = -2.0 + (i as f32 / 10.0) * (3.0 - -2.0);
        let predicted = 0.9 * x + 0.5 * u;
        let error = predicted - reference;
        let cost = 1.0 * error * error + 0.1 * u * u;
        if cost < best.0 {
            best = (cost, u, predicted);
        }
    }
    assert_eq!((f(state.cost), f(state.u), f(state.predicted_x)), best);
    let tie = MpcParam { a: b(0.0), b: b(0.0), q: b(1.0), r: b(1.0), u_min: b(-1.0), u_max: b(1.0), candidates: 2 };
    assert_eq!(f(state.update(&tie, b(0.0), b(0.0))), -1.0);
}

#[test]
fn grid_includes_both_ends() {
    let mut state = MpcState::default();
    let cheap_low = MpcParam { a: b(0.0), b: b(1.0), q: b(1.0), r: b(0.0), ..mpc_param() };
    assert_eq!(f(state.update(&cheap_low, b(0.0), b(-100.0))), -2.0);
    assert_eq!(f(state.update(&cheap_low, b(0.0), b(100.0))), 3.0);
    let few = MpcParam { candidates: -7, ..cheap_low };
    assert_eq!(f(state.update(&few, b(0.0), b(0.0))), -2.0);
}

#[test]
fn failed_search_is_recognized_by_its_cost() {
    let mut state = MpcState::default();
    let broken = MpcParam { q: b(f32::NAN), ..mpc_param() };
    assert_eq!(f(state.update(&broken, b(0.3), b(1.0))), 0.0);
    assert!(!state.cost.is_finite());
    assert_eq!(f(state.predicted_x), 0.0);
    let endless = MpcParam { q: b(f32::INFINITY), ..mpc_param() };
    state.update(&endless, b(0.3), b(1.0));
    assert!(!state.cost.is_finite());
    state.update(&mpc_param(), b(0.3), b(1.0));
    assert!(state.cost.is_finite());
}

fn mrac_param() -> MracParam {
    MracParam {
        ts: b(0.1),
        model_a: b(1.0),
        model_b: b(2.0),
        gamma: b(0.5),
        theta_min: b(0.0),
        theta_max: b(5.0),
        out_min: b(-3.0),
        out_max: b(3.0),
    }
}

#[test]
fn model_reference_gain_and_output_keep_their_limits() {
    let mut state = MracState::new(b(1.0));
    for i in 0..100 {
        let out = state.update(&mrac_param(), b(2.0), b(i as f32 * 0.1 - 4.0));
        assert!(out >= b(-3.0) && out <= b(3.0));
        assert!(state.theta >= b(0.0) && state.theta <= b(5.0));
    }
    let before = state;
    assert_eq!(f(state.update(&MracParam { ts: b(-1.0), ..mrac_param() }, b(1.0), b(0.0))), 0.0);
    assert_eq!(state, before);
}

#[test]
fn adaptation_stops_without_reference() {
    let mut state = MracState { model_output: b(1.5), ..MracState::new(b(2.0)) };
    for _ in 0..10 {
        assert_eq!(f(state.update(&mrac_param(), b(0.0), b(0.7))), 0.0);
        assert_eq!(f(state.theta), 2.0);
    }
    state.reset(b(3.0));
    assert_eq!(state, MracState::new(b(3.0)));
}

#[test]
fn switching_opposes_the_surface() {
    let param = SmcParam { c: b(2.0), k: b(4.0), boundary: b(0.5), out_min: b(-10.0), out_max: b(10.0) };
    let mut state = SmcState::default();
    for i in -20..=20 {
        let out = state.update(&param, b(i as f32 * 0.05), b(0.01), b(1.0));
        assert!(out >= b(-10.0) && out <= b(10.0));
        assert!(f(state.surface) * f(state.switching) <= 0.0);
        assert!(state.switching.abs() <= b(4.0));
    }
    assert_eq!(f(state.update(&param, b(0.1), b(0.05), b(1.0))), 1.0 - 4.0 * ((2.0_f32 * 0.1 + 0.05) / 0.5));
    assert_eq!(f(state.update(&SmcParam { boundary: b(0.0), ..param }, b(0.0), b(0.0), b(1.0))), 1.0);
}

#[test]
fn fuzzy_weights_sum_to_about_one() {
    let param = fuzzy_param();
    for i in 0..2000 {
        let mut state = FuzzyState::default();
        let (e, de) = (libm::sinf(i as f32 * 0.37) * 3.0, libm::cosf(i as f32 * 0.91) * 2.0);
        state.update(&param, b(e), b(de));
        assert!((f(state.weight_sum) - 1.0).abs() * 524288.0 <= 1.0);
    }
}

#[test]
fn fuzzy_output_lies_between_the_rules() {
    let param = FuzzyParam { out_scale: b(1.0), de_scale: b(1.5), out_min: b(-9.0), out_max: b(9.0), ..fuzzy_param() };
    for i in 0..2000 {
        let mut state = FuzzyState::default();
        let (e, de) = (libm::sinf(i as f32 * 0.37) * 3.0, libm::cosf(i as f32 * 0.91) * 2.0);
        let out = f(state.update(&param, b(e), b(de)));
        assert!(out.abs() <= 1.0 + 1.0 / 262_144.0);
        let saturated = state.update(&param, b(e.clamp(-2.0, 2.0)), b(de.clamp(-1.5, 1.5)));
        assert_eq!(f(saturated), out);
    }
}

#[test]
fn fuzzy_mean_takes_rules_of_any_size() {
    let huge = 3.0e38_f32;
    let param = FuzzyParam {
        rules: [[b(-huge), b(0.0), b(huge)], [b(huge), b(huge), b(-huge)], [b(0.0), b(-huge), b(huge)]],
        out_scale: b(1.0),
        out_min: b(f32::NEG_INFINITY),
        out_max: b(f32::INFINITY),
        ..fuzzy_param()
    };
    for i in 0..500 {
        let mut state = FuzzyState::default();
        let (e, de) = (libm::sinf(i as f32 * 0.37) * 3.0, libm::cosf(i as f32 * 0.91) * 2.0);
        let out = f(state.update(&param, b(e), b(de))) as f64;
        assert!(out.abs() <= huge as f64 * (1.0 + 1.0 / 262_144.0));
    }
}
