use foc_algorithm::Binary32;
use foc_algorithm::CascadeState;
use foc_algorithm::FeedForwardParam;
use foc_algorithm::FeedForwardState;
use foc_algorithm::FocBasicInput;
use foc_algorithm::FocBasicParam;
use foc_algorithm::FocBasicState;
use foc_algorithm::PI;
use foc_algorithm::PParam;
use foc_algorithm::PState;
use foc_algorithm::PdParam;
use foc_algorithm::PdState;
use foc_algorithm::PiParam;
use foc_algorithm::PiState;
use foc_algorithm::PidParam;
use foc_algorithm::PidState;
use foc_algorithm::PositionLoopParam;
use foc_algorithm::PositionLoopState;
use foc_algorithm::SpeedLoopParam;
use foc_algorithm::SpeedLoopState;
use foc_algorithm::SvpwmParam;

fn b(x: f32) -> Binary32 {
    Binary32::from_bits(x.to_bits())
}

fn f(x: Binary32) -> f32 {
    f32::from_bits(x.to_bits())
}

fn sin(x: Binary32) -> Binary32 {
    b(libm::sinf(f(x)))
}

fn cos(x: Binary32) -> Binary32 {
    b(libm::cosf(f(x)))
}

fn pi_param() -> PiParam {
    PiParam {
        kp: b(2.0),
        ki: b(10.0),
        ts: b(0.1),
        out_min: b(-5.0),
        out_max: b(5.0),
        integrator_min: b(-3.0),
        integrator_max: b(3.0),
    }
}

fn pid_param() -> PidParam {
    PidParam {
        kp: b(1.0),
        ki: b(2.0),
        kd: b(0.5),
        ts: b(0.1),
        derivative_alpha: b(0.5),
        out_min: b(-4.0),
        out_max: b(4.0),
        integrator_min: b(-2.0),
        integrator_max: b(2.0),
    }
}

fn pd_param() -> PdParam {
    PdParam {
        kp: b(1.0),
        kd: b(0.5),
        ts: b(0.1),
        derivative_alpha: b(1.0),
        out_min: b(-4.0),
        out_max: b(4.0),
    }
}

fn within(x: Binary32, low: f32, high: f32) -> bool {
    (low..=high).contains(&f(x))
}

#[test]
fn outputs_and_integrators_keep_their_limits() {
    let p_param = PParam { kp: b(3.0), out_min: b(-1.0), out_max: b(1.0) };
    let mut p = PState::default();
    let mut pi = PiState::default();
    let mut pd = PdState::default();
    let mut pid = PidState::default();
    for i in 0..200 {
        let reference = b(10.0 * libm::sinf(i as f32 * 0.3));
        let feedback = b(4.0 * libm::cosf(i as f32 * 0.11));
        assert!(within(p.update(&p_param, reference, feedback), -1.0, 1.0));
        assert!(within(pi.update(&pi_param(), reference, feedback), -5.0, 5.0));
        assert!(within(pi.integrator, -3.0, 3.0));
        assert!(within(pd.update(&pd_param(), reference, feedback), -4.0, 4.0));
        assert!(within(pid.update(&pid_param(), reference, feedback), -4.0, 4.0));
        assert!(within(pid.integrator, -2.0, 2.0));
    }
}

#[test]
fn proportional_step_is_gain_times_error() {
    let param = PParam { kp: b(3.0), out_min: b(-10.0), out_max: b(10.0) };
    let mut state = PState::default();
    assert_eq!(f(state.update(&param, b(1.7), b(0.2))), 3.0_f32 * (1.7 - 0.2));
    assert_eq!(f(state.error), 1.7_f32 - 0.2);
    state.reset();
    assert_eq!(state, PState::default());
}

#[test]
fn pi_step_follows_its_formula() {
    let mut state = PiState::default();
    let error = 0.3_f32;
    assert_eq!(f(state.update(&pi_param(), b(0.3), b(0.0))), 2.0 * error + 10.0 * 0.1 * error);
    assert_eq!(f(state.integrator), 10.0_f32 * 0.1 * error);
}

#[test]
fn preloaded_output_is_kept_without_error() {
    for desired in [-2.5, -0.1, 0.0, 1.0, 2.9] {
        let mut state = PiState::default();
        assert_eq!(f(state.preload_output(&pi_param(), b(7.0), b(7.0), b(desired))), desired);
        assert_eq!(f(state.update(&pi_param(), b(7.0), b(7.0))), desired);
    }
    let mut state = PiState::default();
    assert_eq!(f(state.preload_output(&pi_param(), b(0.0), b(0.0), b(99.0))), 3.0);
}

#[test]
fn first_step_has_no_derivative_part() {
    let mut pd = PdState::default();
    pd.update(&pd_param(), b(3.0), b(0.0));
    assert_eq!(f(pd.derivative), 0.0);
    assert_eq!(f(pd.output), 3.0);
    pd.update(&pd_param(), b(3.5), b(0.0));
    assert_eq!(f(pd.derivative), 0.5_f32 / 0.1);
    let mut pid = PidState::default();
    pid.update(&pid_param(), b(3.0), b(0.0));
    assert_eq!(f(pid.derivative), 0.0);
}

#[test]
fn invalid_periods_leave_the_state_alone() {
    let mut pd = PdState::default();
    pd.update(&pd_param(), b(1.0), b(0.0));
    let before = pd;
    let mut param = pd_param();
    param.ts = b(0.0);
    assert_eq!(f(pd.update(&param, b(9.0), b(0.0))), 0.0);
    assert_eq!(pd, before);
    let mut pid = PidState::default();
    pid.update(&pid_param(), b(1.0), b(0.0));
    let before = pid;
    let mut param = pid_param();
    param.ts = b(-0.1);
    assert_eq!(f(pid.update(&param, b(9.0), b(0.0))), 0.0);
    assert_eq!(pid, before);
}

#[test]
fn speed_loop_is_its_controller() {
    let mut speed = SpeedLoopState::default();
    let mut pi = PiState::default();
    let param = SpeedLoopParam { pi: pi_param() };
    for i in 0..20 {
        let reference = b(i as f32 * 0.2);
        assert_eq!(speed.update(&param, reference, b(0.5)), pi.update(&pi_param(), reference, b(0.5)));
        assert!(within(speed.iq_ref, -5.0, 5.0));
    }
}

#[test]
fn position_error_takes_the_shorter_way() {
    let mut param = PositionLoopParam { kp: b(2.0), speed_min: b(-3.0), speed_max: b(3.0), wrap_error: 1 };
    let mut state = PositionLoopState::default();
    for i in 0..63 {
        for j in 0..63 {
            let speed = state.update(&param, b(i as f32 * 0.1), b(j as f32 * 0.1));
            assert!(state.error.abs() <= b(core::f32::consts::PI));
            assert!(within(speed, -3.0, 3.0));
        }
    }
    param.wrap_error = 0;
    state.update(&param, b(6.0), b(0.0));
    assert_eq!(f(state.error), 6.0);
    assert_eq!(f(state.speed_ref), 3.0);
}

#[test]
fn feed_forward_is_limited() {
    let param = FeedForwardParam { kv: b(2.0), ka: b(0.5), bias: b(0.25), out_min: b(-1.0), out_max: b(6.0) };
    let mut state = FeedForwardState::default();
    assert_eq!(f(state.update(&param, b(1.0), b(3.0))), 2.0 + 1.5 + 0.25);
    assert_eq!(f(state.update(&param, b(100.0), b(0.0))), 6.0);
    assert_eq!(f(state.update(&param, b(-100.0), b(0.0))), -1.0);
}

#[test]
fn current_loop_voltages_keep_their_limits() {
    let param = FocBasicParam {
        id_pi: pi_param(),
        iq_pi: pi_param(),
        svpwm: SvpwmParam { v_bus: b(24.0) },
    };
    let mut state = FocBasicState::default();
    for i in 0..100 {
        let input = FocBasicInput {
            ia: b(3.0 * libm::sinf(i as f32)),
            ib: b(1.0),
            ic: b(-2.0),
            id_ref: b(0.0),
            iq_ref: b(8.0),
            theta_e_rad: b(i as f32 * 0.05),
        };
        let pwm = state.update(&param, &input, &sin, &cos);
        assert!(within(state.voltage_dq.d, -5.0, 5.0));
        assert!(within(state.voltage_dq.q, -5.0, 5.0));
        assert!(within(pwm.duty_a, 0.0, 1.0) && within(pwm.duty_b, 0.0, 1.0));
        assert!(within(pwm.duty_c, 0.0, 1.0));
        let mut rotated = state;
        let (s, c) = (sin(input.theta_e_rad), cos(input.theta_e_rad));
        let again = rotated.update_rotated(&param, &input, s, c);
        let direct = state.update(&param, &input, &sin, &cos);
        assert_eq!(again, direct);
        assert_eq!(rotated, state);
    }
}

#[test]
fn current_loop_starts_with_zero_duties() {
    let state = FocBasicState::default();
    assert_eq!(f(state.pwm.duty_a), 0.0);
    assert_eq!(f(state.pwm.duty_b), 0.0);
    assert_eq!(f(state.pwm.duty_c), 0.0);
    assert_eq!(f(CascadeState::default().pwm.duty_a), 0.5);
}

#[test]
fn position_loop_tells_whether_it_can_step() {
    let mut param = PositionLoopParam {
        kp: b(2.0),
        speed_min: b(-10.0),
        speed_max: b(10.0),
        wrap_error: 1,
    };
    assert!(PositionLoopState::can_step(&param, b(3.0), b(-3.0)));
    assert!(!PositionLoopState::can_step(&param, b(1.0e12), b(0.0)));
    param.wrap_error = 0;
    assert!(PositionLoopState::can_step(&param, b(1.0e12), b(0.0)));
}
