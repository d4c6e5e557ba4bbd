use foc_algorithm::Binary32;
use foc_algorithm::CordicOutput;
use foc_algorithm::cordic_atan2;

fn b(x: f32) -> Binary32 {
    Binary32::from_bits(x.to_bits())
}

fn f(x: Binary32) -> f32 {
    f32::from_bits(x.to_bits())
}

fn near(actual: Binary32, expected: f32, tolerance: f32) {
    let actual = f(actual);
    assert!((actual - expected).abs() <= tolerance, "{actual} != {expected}");
}

#[test]
fn angle_matches_c_reference_vectors() {
    let out = cordic_atan2(b(0.0), b(1.0), 16);
    near(out.angle_rad, 0.0, 1e-4);
    near(out.magnitude, 1.0, 1e-4);
    near(cordic_atan2(b(1.0), b(0.0), 16).angle_rad, core::f32::consts::PI * 0.5, 1e-4);
    let q2 = cordic_atan2(b(1.0), b(-1.0), 16);
    near(q2.angle_rad, core::f32::consts::PI * 0.75, 1e-4);
    near(q2.magnitude, libm::sqrtf(2.0), 1e-4);
    near(cordic_atan2(b(-1.0), b(-1.0), 16).angle_rad, core::f32::consts::PI * 1.25, 1e-4);
    assert_eq!(cordic_atan2(b(0.0), b(0.0), 16), CordicOutput::default());
}
