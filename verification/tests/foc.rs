use foc_algorithm::Binary32;
use foc_algorithm::FocBasicInput;
use foc_algorithm::FocBasicParam;
use foc_algorithm::FocBasicState;
use foc_algorithm::PiParam;
use foc_algorithm::SvpwmParam;

fn b(x: f32) -> Binary32 {
    Binary32::from_bits(x.to_bits())
}

fn f(x: Binary32) -> f32 {
    f32::from_bits(x.to_bits())
}

fn near(actual: Binary32, expected: f32, tolerance: f32) {
    let actual = f(actual);
    assert!((actual - expected).abs() <= tolerance, "{actual} != {expected}");
}

fn sin(x: Binary32) -> Binary32 {
    b(libm::sinf(f(x)))
}

fn cos(x: Binary32) -> Binary32 {
    b(libm::cosf(f(x)))
}

fn in_duty_range(value: Binary32) -> bool {
    (0.0..=1.0).contains(&f(value))
}

#[test]
fn matches_c_reference_vector() {
    let pi = PiParam {
        kp: b(1.0),
        ki: b(0.0),
        ts: b(0.001),
        out_min: b(-12.0),
        out_max: b(12.0),
        integrator_min: b(-6.0),
        integrator_max: b(6.0),
    };
    let param = FocBasicParam {
        id_pi: pi,
        iq_pi: pi,
        svpwm: SvpwmParam { v_bus: b(24.0) },
    };
    let input = FocBasicInput {
        ia: b(0.0),
        ib: b(0.0),
        ic: b(0.0),
        id_ref: b(0.0),
        iq_ref: b(2.0),
        theta_e_rad: b(0.0),
    };
    let mut state = FocBasicState::default();
    let out = state.update(&param, &input, &sin, &cos);
    near(state.current_dq.d, 0.0, 1e-6);
    near(state.current_dq.q, 0.0, 1e-6);
    near(state.voltage_dq.d, 0.0, 1e-6);
    near(state.voltage_dq.q, 2.0, 1e-6);
    assert!(in_duty_range(out.duty_a));
    assert!(in_duty_range(out.duty_b));
    assert!(in_duty_range(out.duty_c));
}
