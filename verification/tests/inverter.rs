use foc_algorithm::Abc;
use foc_algorithm::Binary32;
use foc_algorithm::InverterLossParameters;
use foc_algorithm::average_inverter_phase_voltage_loss_v;
use foc_algorithm::inverter_current_polarity;

fn b(x: f32) -> Binary32 {
    Binary32::from_bits(x.to_bits())
}

fn f(x: Binary32) -> f32 {
    f32::from_bits(x.to_bits())
}

#[test]
fn polarity_has_soft_zero_band_and_hard_sign_fallback() {
    assert_eq!(inverter_current_polarity(b(0.0), b(0.005)), b(0.0));
    assert!((f(inverter_current_polarity(b(0.0025), b(0.005))) - 0.5).abs() < f32::EPSILON);
    assert_eq!(inverter_current_polarity(b(-0.02), b(0.005)), b(-1.0));
    assert_eq!(inverter_current_polarity(b(0.02), b(0.0)), b(1.0));
    assert_eq!(inverter_current_polarity(b(-0.02), b(0.0)), b(-1.0));
}

#[test]
fn dead_time_and_device_drop_add_with_current_polarity() {
    let parameters = InverterLossParameters {
        dead_time_s: b(550.0e-9),
        pwm_period_s: b(1.0 / 12_000.0),
        device_drop_v: b(0.08),
        current_zero_band_a: b(0.01),
    };
    let loss = average_inverter_phase_voltage_loss_v(
        parameters,
        b(12.3),
        Abc {
            a: b(0.02),
            b: b(-0.005),
            c: b(0.0),
        },
    );
    let magnitude = 2.0 * 550.0e-9 * 12_000.0 * 12.3 + 0.08;
    assert!((f(loss.a) - magnitude).abs() < 1.0e-6);
    assert!((f(loss.b) + 0.5 * magnitude).abs() < 1.0e-6);
    assert_eq!(loss.c, b(0.0));
}

#[test]
fn parameter_validation_rejects_unit_and_range_errors() {
    assert!(InverterLossParameters::default().is_valid());
    assert!(!InverterLossParameters {
        pwm_period_s: b(0.0),
        ..InverterLossParameters::default()
    }
    .is_valid());
    assert!(!InverterLossParameters {
        current_zero_band_a: b(f32::NAN),
        ..InverterLossParameters::default()
    }
    .is_valid());
    assert!(!InverterLossParameters {
        device_drop_v: b(-0.1),
        ..InverterLossParameters::default()
    }
    .is_valid());
}
