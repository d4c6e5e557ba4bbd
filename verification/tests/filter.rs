use foc_algorithm::Binary32;
use foc_algorithm::DifferentiatorParam;
use foc_algorithm::DifferentiatorState;
use foc_algorithm::HighPassParam;
use foc_algorithm::HighPassState;
use foc_algorithm::LowPassParam;
use foc_algorithm::LowPassState;

fn b(x: f32) -> Binary32 {
    Binary32::from_bits(x.to_bits())
}

fn f(x: Binary32) -> f32 {
    f32::from_bits(x.to_bits())
}

fn near(actual: Binary32, expected: f32, tolerance: f32) {
    let actual = f(actual);
    assert!((actual - expected).abs() <= tolerance, "{actual} != {expected}");
}

#[test]
fn filter_matches_c_reference_vectors() {
    let mut p = LowPassParam { alpha: b(0.25) };
    let mut s = LowPassState::new(b(0.0));
    near(s.update(&p, b(1.0)), 0.25, 1e-6);
    near(s.update(&p, b(1.0)), 0.4375, 1e-6);
    p.alpha = b(2.0);
    near(s.update(&p, b(1.0)), 1.0, 1e-6);
}

#[test]
fn default_state_initializes_from_first_sample() {
    let mut s = LowPassState::default();
    let p = LowPassParam { alpha: b(0.1) };
    assert_eq!(s.update(&p, b(3.0)), b(3.0));
}

#[test]
fn digital_filters_match_c_reference() {
    let hp_param = HighPassParam { alpha: b(0.5) };
    let mut hp = HighPassState::new(b(0.0));
    near(hp.update(&hp_param, b(1.0)), 0.5, 1e-6);
    near(hp.update(&hp_param, b(1.0)), 0.25, 1e-6);

    let diff_param = DifferentiatorParam {
        ts: b(0.1),
        alpha: b(0.5),
    };
    let mut diff = DifferentiatorState::new(b(0.0));
    near(diff.update(&diff_param, b(1.0)), 5.0, 1e-6);
    near(diff.update(&diff_param, b(1.0)), 2.5, 1e-6);
}
