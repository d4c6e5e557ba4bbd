use foc_algorithm::Binary32;
use foc_algorithm::atan2_angle_0_to_2pi;
use foc_algorithm::clamp;
use foc_algorithm::fast_atan2_angle_0_to_2pi;
use foc_algorithm::fast_sin_cos;
use foc_algorithm::wrap_angle_0_to_2pi;
use foc_algorithm::wrap_angle_minus_pi_to_pi;

fn b(x: f32) -> Binary32 {
    Binary32::from_bits(x.to_bits())
}

fn f(x: Binary32) -> f32 {
    f32::from_bits(x.to_bits())
}

fn near(actual: Binary32, expected: f32, tolerance: f32) {
    let actual = f(actual);
    assert!((actual - expected).abs() <= tolerance, "{actual} != {expected}");
}

fn atan2(y: Binary32, x: Binary32) -> Binary32 {
    b(libm::atan2f(f(y), f(x)))
}

#[test]
fn math_matches_c_reference_vectors() {
    near(clamp(b(2.0), b(-1.0), b(1.0)), 1.0, 1e-6);
    near(clamp(b(-2.0), b(-1.0), b(1.0)), -1.0, 1e-6);
    near(clamp(b(2.0), b(1.0), b(-1.0)), 1.0, 1e-6);
    near(wrap_angle_0_to_2pi(b(core::f32::consts::TAU)), 0.0, 1e-5);
    near(wrap_angle_0_to_2pi(b(-0.5)), core::f32::consts::TAU - 0.5, 1e-5);
    near(wrap_angle_minus_pi_to_pi(b(core::f32::consts::PI + 0.1)), -core::f32::consts::PI + 0.1, 1e-5);
    near(atan2_angle_0_to_2pi(b(1.0), b(0.0), &atan2), core::f32::consts::PI * 0.5, 1e-5);
    near(atan2_angle_0_to_2pi(b(-1.0), b(0.0), &atan2), core::f32::consts::PI * 1.5, 1e-5);
}

#[test]
fn fast_sin_cos_stays_inside_declared_error_envelope() {
    for index in -16_384..=16_384 {
        let angle = (index as f32) * core::f32::consts::TAU / 16_384.0;
        let (sin, cos) = fast_sin_cos(b(angle));
        near(sin, libm::sinf(angle), 4.0e-6);
        near(cos, libm::cosf(angle), 2.6e-5);
    }
    let invalid = fast_sin_cos(b(f32::INFINITY));
    assert!(invalid.0.is_nan() && invalid.1.is_nan());
}

#[test]
fn fast_atan2_stays_inside_declared_error_envelope() {
    for index in 0..=65_536 {
        let angle = (index as f32) * core::f32::consts::TAU / 65_536.0;
        let y = libm::sinf(angle);
        let x = libm::cosf(angle);
        let fast = f(fast_atan2_angle_0_to_2pi(b(y), b(x)));
        let reference = f(atan2_angle_0_to_2pi(b(y), b(x), &atan2));
        let mut error = (fast - reference).abs();
        if error > core::f32::consts::PI {
            error = core::f32::consts::TAU - error;
        }
        assert!(error <= 1.3e-5, "angle={angle} error={error}");
    }
    assert_eq!(fast_atan2_angle_0_to_2pi(b(0.0), b(0.0)), b(0.0));
    near(fast_atan2_angle_0_to_2pi(b(-1.0), b(0.0)), 1.5 * core::f32::consts::PI, 1.3e-5);
    assert!(fast_atan2_angle_0_to_2pi(b(f32::NAN), b(1.0)).is_nan());
}
