use foc_algorithm::Binary32;
use foc_algorithm::CascadeInput;
use foc_algorithm::CascadeParam;
use foc_algorithm::CascadeState;
use foc_algorithm::FeedForwardParam;
use foc_algorithm::FeedForwardState;
use foc_algorithm::FocBasicParam;
use foc_algorithm::PParam;
use foc_algorithm::PState;
use foc_algorithm::PdParam;
use foc_algorithm::PdState;
use foc_algorithm::PiParam;
use foc_algorithm::PiState;
use foc_algorithm::PidParam;
use foc_algorithm::PidState;
use foc_algorithm::PositionLoopParam;
use foc_algorithm::PositionLoopState;
use foc_algorithm::SpeedLoopParam;
use foc_algorithm::SpeedLoopState;
use foc_algorithm::SvpwmParam;

fn b(x: f32) -> Binary32 {
    Binary32::from_bits(x.to_bits())
}

fn f(x: Binary32) -> f32 {
    f32::from_bits(x.to_bits())
}

fn near(actual: Binary32, expected: f32, tolerance: f32) {
    let actual = f(actual);
    assert!((actual - expected).abs() <= tolerance, "{actual} != {expected}");
}

fn sin(x: Binary32) -> Binary32 {
    b(libm::sinf(f(x)))
}

fn cos(x: Binary32) -> Binary32 {
    b(libm::cosf(f(x)))
}

fn in_duty_range(value: Binary32) -> bool {
    (0.0..=1.0).contains(&f(value))
}

#[test]
fn p_matches_c_reference() {
    let p = PParam {
        kp: b(2.0),
        out_min: b(-5.0),
        out_max: b(5.0),
    };
    let mut s = PState::default();
    near(s.update(&p, b(3.0), b(1.0)), 4.0, 1e-6);
    near(s.update(&p, b(10.0), b(0.0)), 5.0, 1e-6);
}

#[test]
fn pi_matches_c_reference() {
    let p = PiParam {
        kp: b(2.0),
        ki: b(10.0),
        ts: b(0.001),
        out_min: b(-1.0),
        out_max: b(1.0),
        integrator_min: b(-0.5),
        integrator_max: b(0.5),
    };
    let mut s = PiState::default();
    near(s.update(&p, b(1.0), b(0.0)), 1.0, 1e-6);
    assert!(s.integrator <= b(0.5));
    s.reset();
    near(s.update(&p, b(0.1), b(0.0)), 0.201, 1e-6);
}

#[test]
fn pi_preload_preserves_existing_output() {
    let p = PiParam {
        kp: b(0.2),
        ki: b(1.0),
        ts: b(0.001),
        out_min: b(-1.0),
        out_max: b(1.0),
        integrator_min: b(-1.0),
        integrator_max: b(1.0),
    };
    let mut s = PiState::default();
    near(s.preload_output(&p, b(10.0), b(10.0), b(0.8)), 0.8, 1e-6);
    near(s.update(&p, b(10.0), b(10.0)), 0.8, 1e-6);
}

#[test]
fn pd_matches_c_reference() {
    let mut p = PdParam {
        kp: b(1.0),
        kd: b(0.1),
        ts: b(0.01),
        derivative_alpha: b(1.0),
        out_min: b(-100.0),
        out_max: b(100.0),
    };
    let mut s = PdState::default();
    near(s.update(&p, b(1.0), b(0.0)), 1.0, 1e-6);
    near(s.update(&p, b(2.0), b(0.0)), 12.0, 1e-5);
    p.out_max = b(5.0);
    near(s.update(&p, b(20.0), b(0.0)), 5.0, 1e-6);
}

#[test]
fn pid_matches_c_reference() {
    let mut p = PidParam {
        kp: b(1.0),
        ki: b(2.0),
        kd: b(0.1),
        ts: b(0.01),
        derivative_alpha: b(1.0),
        out_min: b(-10.0),
        out_max: b(20.0),
        integrator_min: b(-1.0),
        integrator_max: b(1.0),
    };
    let mut s = PidState::default();
    near(s.update(&p, b(1.0), b(0.0)), 1.02, 1e-6);
    near(s.update(&p, b(2.0), b(0.0)), 12.06, 1e-5);
    p.out_max = b(3.0);
    near(s.update(&p, b(100.0), b(0.0)), 3.0, 1e-6);
    assert!(s.integrator <= b(1.0));
}

#[test]
fn outer_loops_match_c_reference() {
    let speed_param = SpeedLoopParam {
        pi: PiParam {
            kp: b(0.1),
            ki: b(1.0),
            ts: b(0.01),
            out_min: b(-3.0),
            out_max: b(3.0),
            integrator_min: b(-1.0),
            integrator_max: b(1.0),
        },
    };
    let mut speed = SpeedLoopState::default();
    near(speed.update(&speed_param, b(10.0), b(0.0)), 1.1, 1e-6);
    near(speed.update(&speed_param, b(1000.0), b(0.0)), 3.0, 1e-6);

    let mut position_param = PositionLoopParam {
        kp: b(2.0),
        speed_min: b(-5.0),
        speed_max: b(5.0),
        wrap_error: 0,
    };
    let mut position = PositionLoopState::default();
    near(position.update(&position_param, b(2.0), b(1.5)), 1.0, 1e-6);
    near(position.update(&position_param, b(10.0), b(0.0)), 5.0, 1e-6);
    position_param.wrap_error = 1;
    near(
        position.update(&position_param, b(0.1), b(core::f32::consts::TAU - 0.1)),
        0.4,
        1e-5,
    );
    near(position.error, 0.2, 1e-5);
}

#[test]
fn feed_forward_matches_c_reference() {
    let p = FeedForwardParam {
        kv: b(0.5),
        ka: b(0.25),
        bias: b(1.0),
        out_min: b(-5.0),
        out_max: b(5.0),
    };
    let mut state = FeedForwardState::default();
    near(state.update(&p, b(4.0), b(2.0)), 3.5, 1e-6);
    near(state.update(&p, b(100.0), b(0.0)), 5.0, 1e-6);
}

#[test]
fn cascade_matches_c_reference() {
    
    let current_pi = PiParam {
        kp: b(1.0),
        ki: b(0.0),
        ts: b(0.001),
        out_min: b(-12.0),
        out_max: b(12.0),
        integrator_min: b(-6.0),
        integrator_max: b(6.0),
    };
    let param = CascadeParam {
        position: PositionLoopParam {
            kp: b(2.0),
            speed_min: b(-20.0),
            speed_max: b(20.0),
            wrap_error: 0,
        },
        speed: SpeedLoopParam {
            pi: PiParam {
                kp: b(0.5),
                ki: b(0.0),
                ts: b(0.001),
                out_min: b(-5.0),
                out_max: b(5.0),
                integrator_min: b(-2.0),
                integrator_max: b(2.0),
            },
        },
        foc: FocBasicParam {
            id_pi: current_pi,
            iq_pi: current_pi,
            svpwm: SvpwmParam { v_bus: b(24.0) },
        },
        id_ref: b(0.0),
    };
    let input = CascadeInput {
        position_ref: b(3.0),
        position_feedback: b(1.0),
        speed_feedback: b(1.0),
        ia: b(0.0),
        ib: b(0.0),
        ic: b(0.0),
        theta_e_rad: b(0.0),
    };
    let mut state = CascadeState::default();
    let output = state.update(&param, &input, &sin, &cos);
    near(state.speed_ref, 4.0, 1e-6);
    near(state.iq_ref, 1.5, 1e-6);
    near(state.foc.voltage_dq.d, 0.0, 1e-6);
    near(state.foc.voltage_dq.q, 1.5, 1e-6);
    assert!(in_duty_range(output.duty_a));
    assert!(in_duty_range(output.duty_b));
    assert!(in_duty_range(output.duty_c));
}
