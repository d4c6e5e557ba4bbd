use foc_algorithm::Binary32;
use foc_algorithm::PllParam;
use foc_algorithm::PllState;

fn b(x: f32) -> Binary32 {
    Binary32::from_bits(x.to_bits())
}

fn f(x: Binary32) -> f32 {
    f32::from_bits(x.to_bits())
}

fn sin(x: Binary32) -> Binary32 {
    b(libm::sinf(f(x)))
}

#[test]
fn observer_matches_c_reference_vectors() {
    let p = PllParam {
        kp: b(20.0),
        ki: b(0.0),
        ts: b(0.001),
        omega_min: b(-200.0),
        omega_max: b(200.0),
    };
    let mut state = PllState::new(b(0.0));
    let before = state.theta_rad;
    let after = state.update(&p, b(0.5), &sin);
    assert!(after > before);
    assert!(state.omega_rad_s > b(0.0));
    state.reset(b(core::f32::consts::TAU - 0.05));
    state.update(&p, b(0.05), &sin);
    assert!(state.phase_error > b(0.0));
}
