use foc_algorithm::AlphaBeta;
use foc_algorithm::Binary32;
use foc_algorithm::DpwmMode;
use foc_algorithm::DpwmParam;
use foc_algorithm::SvpwmOutput;
use foc_algorithm::SvpwmParam;
use foc_algorithm::dpwm_update;
use foc_algorithm::sine_pwm_update;
use foc_algorithm::svpwm_update;

fn b(x: f32) -> Binary32 {
    Binary32::from_bits(x.to_bits())
}

fn f(x: Binary32) -> f32 {
    f32::from_bits(x.to_bits())
}

fn near(actual: Binary32, expected: f32, tolerance: f32) {
    let actual = f(actual);
    assert!((actual - expected).abs() <= tolerance, "{actual} != {expected}");
}

fn sin(x: Binary32) -> Binary32 {
    b(libm::sinf(f(x)))
}

fn in_duty_range(value: Binary32) -> bool {
    (0.0..=1.0).contains(&f(value))
}

#[test]
fn sine_pwm_matches_c_reference() {
    let zero = sine_pwm_update(b(0.0), b(0.0), &sin);
    near(zero.duty_a, 0.5, 1e-6);
    near(zero.duty_b, 0.5, 1e-6);
    near(zero.duty_c, 0.5, 1e-6);
    let peak = sine_pwm_update(b(core::f32::consts::PI * 0.5), b(1.0), &sin);
    near(peak.duty_a, 1.0, 1e-6);
    assert!(in_duty_range(peak.duty_b) && in_duty_range(peak.duty_c));
}

#[test]
fn svpwm_matches_c_reference() {
    let p = SvpwmParam { v_bus: b(24.0) };
    let zero = svpwm_update(AlphaBeta::default(), &p);
    assert_eq!(zero, SvpwmOutput::default());
    let out = svpwm_update(
        AlphaBeta {
            alpha: b(6.0),
            beta: b(0.0),
        },
        &p,
    );
    assert!(in_duty_range(out.duty_a));
    assert!(in_duty_range(out.duty_b));
    assert!(in_duty_range(out.duty_c));
    assert!((1..=6).contains(&out.sector));
    assert!(out.duty_a > out.duty_b && out.duty_a > out.duty_c);
}

#[test]
fn dpwm_matches_c_reference() {
    let voltage = AlphaBeta {
        alpha: b(6.0),
        beta: b(0.0),
    };
    let mut p = DpwmParam {
        v_bus: b(24.0),
        mode: DpwmMode::ClampMax,
    };
    let max = dpwm_update(voltage, &p);
    near(max.duty_a, 1.0, 1e-6);
    p.mode = DpwmMode::ClampMin;
    let min = dpwm_update(voltage, &p);
    near(min.duty_b, 0.0, 1e-6);
    near(min.duty_c, 0.0, 1e-6);
}
