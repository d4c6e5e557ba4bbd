use foc_algorithm::Binary32;
use foc_algorithm::PI;
use foc_algorithm::cordic_atan2;
use foc_algorithm::cordic_gain;
use foc_algorithm::iteration_count;

fn b(x: f32) -> Binary32 {
    Binary32::from_bits(x.to_bits())
}

fn f(x: Binary32) -> f32 {
    f32::from_bits(x.to_bits())
}

fn near(actual: Binary32, expected: f32, tolerance: f32) {
    let actual = f(actual);
    assert!((actual - expected).abs() <= tolerance, "{actual} != {expected}");
}

const TAU: f32 = core::f32::consts::TAU;

#[test]
fn cordic_angle_lies_in_the_first_revolution() {
    for i in 0..720 {
        let angle = i as f32 * TAU / 720.0;
        let out = cordic_atan2(b(3.0 * libm::sinf(angle)), b(3.0 * libm::cosf(angle)), 16);
        assert!(out.angle_rad >= b(0.0) && out.angle_rad < b(TAU));
        assert!(out.magnitude >= b(0.0));
        let mut error = (f(out.angle_rad) - angle).abs();
        if error > core::f32::consts::PI {
            error = TAU - error;
        }
        assert!(error < 1.0e-4, "{angle}");
        near(out.magnitude, 3.0, 1.0e-3);
    }
}

#[test]
fn cordic_of_the_zero_vector_is_zero() {
    for iterations in [-3, 0, 1, 16, 40] {
        let out = cordic_atan2(b(0.0), b(-0.0), iterations);
        assert_eq!(out.angle_rad.to_bits(), 0);
        assert_eq!(out.magnitude.to_bits(), 0);
    }
}

#[test]
fn cordic_limits_its_rotations() {
    assert_eq!(cordic_atan2(b(1.0), b(2.0), 16), cordic_atan2(b(1.0), b(2.0), 99));
    assert_eq!(iteration_count(99), 16);
    assert_eq!(iteration_count(5), 5);
    assert_eq!(cordic_atan2(b(1.0), b(2.0), -1), cordic_atan2(b(1.0), b(2.0), 0));
}

#[test]
fn cordic_accepts_vectors_that_are_not_numbers() {
    let out = cordic_atan2(b(f32::NAN), b(1.0), 16);
    assert!(out.angle_rad >= b(0.0) && out.angle_rad < b(TAU));
}

#[test]
fn cordic_gain_is_the_product_of_lengthenings() {
    let mut gain = 1.0_f32;
    for i in 0..16 {
        gain *= libm::sqrtf(1.0 + libm::ldexpf(1.0, -2 * i));
    }
    assert_eq!(f(cordic_gain(16)), gain);
    assert_eq!(f(cordic_gain(0)), 1.0);
}

#[test]
fn cordic_keeps_the_length_of_the_vector() {
    for count in [1, 2, 5, 10, 16] {
        for i in 0..200 {
            let (x, y) = (7.0 * libm::cosf(i as f32 * 0.37), 7.0 * libm::sinf(i as f32 * 0.37));
            let m = f(cordic_atan2(b(y), b(x), count).magnitude) as f64;
            let length = x as f64 * x as f64 + y as f64 * y as f64;
            let rest = 1.0 + 0.25_f64.powi(count - 1);
            assert!(16384.0 * (m * m - length) <= length, "{count} {i}");
            assert!(16384.0 * (length - rest * m * m) <= rest * m * m, "{count} {i}");
        }
    }
}

#[test]
fn cordic_leaves_at_most_the_last_angle() {
    for count in [4, 8, 16] {
        for i in 0..200 {
            let angle = i as f32 * core::f32::consts::TAU / 200.0;
            let out = cordic_atan2(b(libm::sinf(angle)), b(libm::cosf(angle)), count);
            let away = (f(out.angle_rad) as f64 - angle as f64).abs();
            let away = away.min(core::f64::consts::TAU - away);
            assert!(away <= 0.5_f64.powi(count - 1) + 2.0e-6, "{count} {i} {away}");
        }
    }
}
