use foc_algorithm::math;
use foc_algorithm::angle;
use foc_algorithm::adrc;
use foc_algorithm::inverter;
use foc_algorithm::Binary32;
use foc_algorithm::INV_SQRT_3;
use foc_algorithm::PI;
use foc_algorithm::SQRT_3;
use foc_algorithm::TWO_PI;
use foc_algorithm::atan2_angle_0_to_2pi;
use foc_algorithm::clamp;
use foc_algorithm::fast_atan2_angle_0_to_2pi;
use foc_algorithm::fast_sin_cos;
use foc_algorithm::is_wrappable;
use foc_algorithm::saturate;
use foc_algorithm::sign;
use foc_algorithm::wrap_angle_0_to_2pi;
use foc_algorithm::wrap_angle_minus_pi_to_pi;

fn b(x: f32) -> Binary32 {
    Binary32::from_bits(x.to_bits())
}

fn f(x: Binary32) -> f32 {
    f32::from_bits(x.to_bits())
}

const TAU: f32 = core::f32::consts::TAU;
const PI_F: f32 = core::f32::consts::PI;

#[test]
fn constants_encode_their_decimals() {
    assert_eq!(math::PI, PI_F.to_bits());
    assert_eq!(math::TWO_PI, TAU.to_bits());
    assert_eq!(math::SQRT_3, 1.732_050_8_f32.to_bits());
    assert_eq!(math::INV_SQRT_3, 0.577_350_26_f32.to_bits());
    assert_eq!(math::FRAC_PI_2, core::f32::consts::FRAC_PI_2.to_bits());
    assert_eq!(math::MINUS_FRAC_PI_2, (-core::f32::consts::FRAC_PI_2).to_bits());
    assert_eq!(math::MINUS_PI, (-PI_F).to_bits());
    assert_eq!(math::SIN_3, (-1.0_f32 / 6.0).to_bits());
    assert_eq!(math::SIN_5, (1.0_f32 / 120.0).to_bits());
    assert_eq!(math::SIN_7, (-1.0_f32 / 5_040.0).to_bits());
    assert_eq!(math::SIN_9, (1.0_f32 / 362_880.0).to_bits());
    assert_eq!(math::COS_4, (1.0_f32 / 24.0).to_bits());
    assert_eq!(math::COS_6, (-1.0_f32 / 720.0).to_bits());
    assert_eq!(math::COS_8, (1.0_f32 / 40_320.0).to_bits());
    assert_eq!(math::ATAN_1, 0.999_866_f32.to_bits());
    assert_eq!(math::ATAN_3, (-0.330_299_5_f32).to_bits());
    assert_eq!(math::ATAN_5, 0.180_141_f32.to_bits());
    assert_eq!(math::ATAN_7, (-0.085_133_f32).to_bits());
    assert_eq!(math::ATAN_9, 0.020_835_1_f32.to_bits());
    assert_eq!(adrc::EIGHT, 8.0_f32.to_bits());
    assert_eq!(adrc::MIN_DELTA, 1.0e-6_f32.to_bits());
    assert_eq!(inverter::MAX_DEAD_TIME, 0.01_f32.to_bits());
    assert_eq!(inverter::MAX_DEVICE_DROP, 100.0_f32.to_bits());
    assert_eq!(inverter::MAX_ZERO_BAND, 10.0_f32.to_bits());
    assert_eq!(inverter::DEFAULT_PWM_PERIOD, (1.0_f32 / 12_000.0).to_bits());
}

#[test]
fn rotation_angles_are_arctangents_of_powers_of_two() {
    let decimals: [f32; 16] = [
        0.785_398_16, 0.463_647_6, 0.244_978_67, 0.124_354_996, 0.062_418_81, 0.031_239_834,
        0.015_623_729, 0.007_812_341, 0.003_906_230_2, 0.001_953_122_6, 0.000_976_562_2,
        0.000_488_281_22, 0.000_244_140_62, 0.000_122_070_31, 0.000_061_035_156,
        0.000_030_517_578,
    ];
    for i in 0..16 {
        assert_eq!(angle::ATAN_TABLE[i], decimals[i].to_bits(), "{i}");
        let exact = libm::atan(libm::ldexp(1.0, -(i as i32))) as f32;
        assert!((decimals[i] - exact).abs() <= exact * 2.0e-7, "{i}");
    }
}

#[test]
fn clamping_laws_on_examples() {
    for value in [-3.0, -1.0, -0.25, 0.0, 0.5, 1.0, 7.0] {
        let once = clamp(b(value), b(-1.0), b(1.0));
        assert!(once >= b(-1.0) && once <= b(1.0));
        assert_eq!(once, clamp(b(value), b(1.0), b(-1.0)));
        assert_eq!(once, clamp(once, b(-1.0), b(1.0)));
        assert_eq!(f(once), value.clamp(-1.0, 1.0));
        assert!(clamp(b(value), b(-1.0), b(1.0)) <= clamp(b(value + 0.5), b(-1.0), b(1.0)));
    }
    assert!(clamp(b(f32::NAN), b(-1.0), b(1.0)).is_nan());
}

#[test]
fn softened_sign_keeps_sign_and_limits() {
    assert_eq!(f(saturate(b(0.05), b(0.1))), 0.5);
    assert_eq!(f(saturate(b(-0.3), b(0.1))), -1.0);
    assert_eq!(f(saturate(b(0.0), b(0.1))), 0.0);
    assert_eq!(f(saturate(b(0.05), b(0.0))), 1.0);
    assert_eq!(f(saturate(b(-0.05), b(-1.0))), -1.0);
    assert_eq!(f(sign(b(-2.0))), -1.0);
    assert_eq!(f(sign(b(f32::NAN))), 0.0);
}

#[test]
fn wrapped_angles_lie_in_the_first_revolution() {
    for i in -2000..=2000 {
        let angle = i as f32 * 0.173;
        let wrapped = wrap_angle_0_to_2pi(b(angle));
        assert!(wrapped >= b(0.0) && wrapped < b(TAU), "{angle}");
        assert_eq!(wrap_angle_0_to_2pi(wrapped).to_bits(), wrapped.to_bits());
        let centred = wrap_angle_minus_pi_to_pi(b(angle));
        assert!(centred >= b(-PI_F) && centred < b(PI_F), "{angle}");
    }
}

#[test]
fn whole_revolutions_wrap_to_zero() {
    assert_eq!(f(wrap_angle_0_to_2pi(b(0.0))), 0.0);
    assert_eq!(f(wrap_angle_0_to_2pi(b(TAU))), 0.0);
    assert_eq!(f(wrap_angle_0_to_2pi(b(-TAU))), 0.0);
    assert_eq!(f(wrap_angle_0_to_2pi(b(2.0 * TAU))), 0.0);
    assert_eq!(f(wrap_angle_0_to_2pi(b(-2.0 * TAU))), 0.0);
}

#[test]
fn tiny_negative_angles_wrap_to_zero() {
    assert_eq!(f(wrap_angle_0_to_2pi(b(-1.0e-9))), 0.0);
    assert_eq!(f(wrap_angle_0_to_2pi(b(-f32::MIN_POSITIVE))), 0.0);
    assert_eq!(f(wrap_angle_0_to_2pi(b(-f32::from_bits(1)))), 0.0);
    let below = f32::from_bits(TAU.to_bits() - 1);
    assert_eq!(f(wrap_angle_0_to_2pi(b(-3.0e-7))), below);
    let half_step = 1.0 / 4_194_304.0;
    assert_eq!(f(wrap_angle_0_to_2pi(b(-half_step))), below);
    assert_eq!(f(wrap_angle_0_to_2pi(b(-half_step * 0.999_999))), 0.0);
    assert_eq!(f(wrap_angle_minus_pi_to_pi(b(-PI_F - 1.0e-9))), -PI_F);
}

#[test]
fn angles_that_are_not_finite_wrap_to_nan() {
    assert!(wrap_angle_0_to_2pi(b(f32::NAN)).is_nan());
    assert!(wrap_angle_0_to_2pi(b(f32::INFINITY)).is_nan());
    assert!(wrap_angle_0_to_2pi(b(f32::NEG_INFINITY)).is_nan());
    assert!(wrap_angle_minus_pi_to_pi(b(f32::NAN)).is_nan());
}

#[test]
fn wrapping_ends_up_to_its_limit() {
    let limit = 134_217_728.0;
    assert!(is_wrappable(b(limit)) && is_wrappable(b(-limit)));
    assert!(!is_wrappable(b(limit * 1.000_001)));
    assert!(is_wrappable(b(f32::INFINITY)) && is_wrappable(b(f32::NAN)));
    assert!(wrap_angle_0_to_2pi(b(1.0e6)) < b(TAU));
    assert!(wrap_angle_0_to_2pi(b(-1.0e6)) < b(TAU));
}

#[test]
fn fast_sine_and_cosine_are_exact_at_zero_and_invalid_outside() {
    let (sin0, cos0) = fast_sin_cos(b(0.0));
    assert_eq!(f(sin0), 0.0);
    assert_eq!(f(cos0), 1.0);
    let (sin, cos) = fast_sin_cos(b(f32::NAN));
    assert!(sin.is_nan() && cos.is_nan());
    let (_, cos) = fast_sin_cos(b(PI_F));
    assert!(cos < b(0.0));
}

#[test]
fn fast_direction_lies_in_the_half_of_the_vector() {
    for i in 0..360 {
        let angle = i as f32 * TAU / 360.0;
        let (y, x) = (libm::sinf(angle), libm::cosf(angle));
        let direction = f(fast_atan2_angle_0_to_2pi(b(y), b(x)));
        assert!((0.0..TAU).contains(&direction));
        if y >= 0.0 {
            assert!(direction <= PI_F);
        } else {
            assert!(direction >= PI_F);
        }
        if y >= 0.0 && x >= 0.0 {
            assert!(direction <= core::f32::consts::FRAC_PI_2);
        }
    }
    assert_eq!(f(fast_atan2_angle_0_to_2pi(b(-1.0e-30), b(1.0))), 0.0);
    assert_eq!(f(fast_atan2_angle_0_to_2pi(b(-1.0e-9), b(1.0))), 0.0);
    assert_eq!(f(fast_atan2_angle_0_to_2pi(b(0.0), b(-0.0))), 0.0);
    assert!(fast_atan2_angle_0_to_2pi(b(1.0), b(f32::NAN)).is_nan());
}

#[test]
fn direction_asks_the_arctangent_for_the_vector() {
    let seen = atan2_angle_0_to_2pi(b(0.25), b(-0.5), &|y: Binary32, x: Binary32| y + x);
    assert_eq!(f(seen), TAU - 0.25);
}

#[test]
fn wrapping_takes_whole_revolutions() {
    let revolution = f32::from_bits(TWO_PI) as f64;
    for x in [-1000.0, -40.5, -6.5, -3.0, -0.001, 0.0, 1.0, 6.3, 9.0, 40.5, 1000.0, 98765.4] {
        let wrapped = f(wrap_angle_0_to_2pi(b(x))) as f64;
        let turns = ((x as f64 - wrapped) / revolution).round();
        let step = f32::from_bits((x.abs().max(f32::from_bits(TWO_PI))).to_bits() + 1) as f64
            - x.abs().max(f32::from_bits(TWO_PI)) as f64;
        assert_eq!(turns > 0.0, x >= f32::from_bits(TWO_PI));
        assert_eq!(turns < 0.0, x < 0.0);
        let deviation = (wrapped - (x as f64 - turns * revolution)).abs();
        assert!(2.0 * deviation <= turns.abs() * step, "{x} {deviation}");
    }
}

#[test]
fn fast_sine_and_cosine_lie_near_their_series() {
    for i in -1000..=1000 {
        let x = i as f32 * 1.570_796_3 / 1000.0;
        let (sine, cosine) = fast_sin_cos(b(x));
        let folded = f(wrap_angle_minus_pi_to_pi(b(x))) as f64;
        let q = folded * folded;
        let nine = folded * (1.0 - q / 6.0 * (1.0 - q / 20.0 * (1.0 - q / 42.0 * (1.0 - q / 72.0))));
        let eight = 1.0 - q / 2.0 * (1.0 - q / 12.0 * (1.0 - q / 30.0 * (1.0 - q / 56.0)));
        assert!((f(sine) as f64 - nine).abs() <= 3.0e-7, "{x}");
        assert!((f(cosine) as f64 - eight).abs() <= 3.5e-7, "{x}");
        assert!((f(sine) as f64 - folded.sin()).abs() <= 4.0e-6, "{x}");
        assert!((f(cosine) as f64 - folded.cos()).abs() <= 2.6e-5, "{x}");
    }
}
