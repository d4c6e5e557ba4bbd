use foc_algorithm::Abc;
use foc_algorithm::Binary32;
use foc_algorithm::InverterLossParameters;
use foc_algorithm::average_inverter_phase_voltage_loss_v;
use foc_algorithm::inverter_current_polarity;
use foc_algorithm::inverter_dead_time_voltage_loss_v;

fn b(x: f32) -> Binary32 {
    Binary32::from_bits(x.to_bits())
}

fn f(x: Binary32) -> f32 {
    f32::from_bits(x.to_bits())
}

fn parameters() -> InverterLossParameters {
    InverterLossParameters {
        dead_time_s: b(1.0e-6),
        pwm_period_s: b(1.0e-4),
        device_drop_v: b(0.5),
        current_zero_band_a: b(0.1),
    }
}

#[test]
fn parameters_at_the_limits_are_valid() {
    assert!(InverterLossParameters::default().is_valid());
    let mut p = parameters();
    p.dead_time_s = b(0.01);
    p.pwm_period_s = b(1.0);
    p.device_drop_v = b(100.0);
    p.current_zero_band_a = b(10.0);
    assert!(p.is_valid());
}

#[test]
fn each_parameter_outside_its_range_is_invalid() {
    for bad in [-1.0e-9, 0.011, f32::NAN, f32::INFINITY] {
        let mut p = parameters();
        p.dead_time_s = b(bad);
        assert!(!p.is_valid());
    }
    for bad in [0.0, -1.0, 1.1, f32::NAN] {
        let mut p = parameters();
        p.pwm_period_s = b(bad);
        assert!(!p.is_valid());
    }
    for bad in [-0.1, 100.1, f32::NAN] {
        let mut p = parameters();
        p.device_drop_v = b(bad);
        assert!(!p.is_valid());
    }
    for bad in [-0.1, 10.1, f32::NAN] {
        let mut p = parameters();
        p.current_zero_band_a = b(bad);
        assert!(!p.is_valid());
    }
}

#[test]
fn polarity_is_odd_and_limited() {
    for i in -50..=50 {
        let current = i as f32 * 0.013;
        for band in [0.0, 0.1, 0.3] {
            let polarity = f(inverter_current_polarity(b(current), b(band)));
            assert!((-1.0..=1.0).contains(&polarity));
            assert_eq!(f(inverter_current_polarity(b(-current), b(band))), -polarity);
        }
    }
    assert_eq!(f(inverter_current_polarity(b(0.2), b(0.0))), 1.0);
    assert_eq!(f(inverter_current_polarity(b(0.0), b(0.0))), 0.0);
}

#[test]
fn loss_is_at_most_dead_time_and_drop() {
    let full = 2.0_f32 * 1.0e-6 / 1.0e-4 * 24.0 + 0.5;
    assert_eq!(f(inverter_dead_time_voltage_loss_v(parameters(), b(24.0))), 2.0_f32 * 1.0e-6 / 1.0e-4 * 24.0);
    let loss = average_inverter_phase_voltage_loss_v(
        parameters(),
        b(24.0),
        Abc { a: b(2.0), b: b(-0.05), c: b(-2.0) },
    );
    assert_eq!(f(loss.a), full);
    assert_eq!(f(loss.b), full * (-0.05_f32 / 0.1));
    assert_eq!(f(loss.c), -full);
}
