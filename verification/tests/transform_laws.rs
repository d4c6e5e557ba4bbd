use foc_algorithm::Abc;
use foc_algorithm::AlphaBeta;
use foc_algorithm::Binary32;
use foc_algorithm::Dq;
use foc_algorithm::clarke;
use foc_algorithm::inverse_clarke;
use foc_algorithm::inverse_park;
use foc_algorithm::park;

fn b(x: f32) -> Binary32 {
    Binary32::from_bits(x.to_bits())
}

fn f(x: Binary32) -> f32 {
    f32::from_bits(x.to_bits())
}

fn near(actual: Binary32, expected: f32, tolerance: f32) {
    let actual = f(actual);
    assert!((actual - expected).abs() <= tolerance, "{actual} != {expected}");
}

#[test]
fn clarke_gives_a_vector_of_the_same_amplitude() {
    let v = clarke(Abc { a: b(2.0), b: b(-1.0), c: b(-1.0) });
    assert_eq!(f(v.alpha), 2.0);
    assert_eq!(f(v.beta), 0.0);
    let w = clarke(Abc { a: b(0.0), b: b(3.0), c: b(-3.0) });
    near(w.beta, 6.0 / libm::sqrtf(3.0), 1.0e-6);
}

#[test]
fn inverse_clarke_restores_balanced_phases() {
    let phases = Abc { a: b(1.5), b: b(-0.25), c: b(-1.25) };
    let back = inverse_clarke(clarke(phases));
    assert_eq!(back.a.to_bits(), phases.a.to_bits());
    near(back.b, -0.25, 1.0e-6);
    near(back.c, -1.25, 1.0e-6);
}

#[test]
fn frames_coincide_at_angle_zero() {
    let v = AlphaBeta { alpha: b(1.25), beta: b(-0.75) };
    let dq = park(v, b(0.0), b(1.0));
    assert_eq!(dq, Dq { d: b(1.25), q: b(-0.75) });
    assert_eq!(inverse_park(dq, b(0.0), b(1.0)), v);
}

#[test]
fn park_turns_against_the_rotor() {
    let v = AlphaBeta { alpha: b(0.0), beta: b(2.0) };
    let dq = park(v, b(1.0), b(0.0));
    assert_eq!(f(dq.d), 2.0);
    assert_eq!(f(dq.q), 0.0);
    let (s, c) = (libm::sinf(0.7), libm::cosf(0.7));
    let back = inverse_park(park(AlphaBeta { alpha: b(0.3), beta: b(-1.1) }, b(s), b(c)), b(s), b(c));
    near(back.alpha, 0.3, 1.0e-6);
    near(back.beta, -1.1, 1.0e-6);
}

#[test]
fn phases_come_back_less_half_of_their_sum() {
    for i in 0..1000 {
        let a = libm::sinf(i as f32 * 0.71) * 40.0;
        let second = libm::sinf(i as f32 * 1.31) * 40.0;
        let third = libm::cosf(i as f32 * 0.17) * 40.0;
        let back = inverse_clarke(clarke(Abc { a: b(a), b: b(second), c: b(third) }));
        let half = 0.5 * (a as f64 + second as f64 + third as f64);
        assert_eq!(f(back.a), a);
        assert!((f(back.b) as f64 - (second as f64 - half)).abs() * 1048576.0 <= 40.0);
        assert!((f(back.c) as f64 - (third as f64 - half)).abs() * 1048576.0 <= 40.0);
    }
}

#[test]
fn turning_and_back_scales_by_the_squares() {
    let pairs = [(0.6, 0.8), (0.25, -0.5), (-1.0, 1.0), (0.0, 0.0), (0.70710677, 0.70710677)];
    for (s, c) in pairs {
        let scale = s as f64 * s as f64 + c as f64 * c as f64;
        for i in 0..200 {
            let x = libm::sinf(i as f32 * 0.71) * 5.0;
            let y = libm::cosf(i as f32 * 1.31) * 5.0;
            let v = AlphaBeta { alpha: b(x), beta: b(y) };
            let w = inverse_park(park(v, b(s), b(c)), b(s), b(c));
            assert!((f(w.alpha) as f64 - x as f64 * scale).abs() * 1048576.0 <= 5.0);
            assert!((f(w.beta) as f64 - y as f64 * scale).abs() * 1048576.0 <= 5.0);
            let dq = park(inverse_park(Dq { d: b(x), q: b(y) }, b(s), b(c)), b(s), b(c));
            assert!((f(dq.d) as f64 - x as f64 * scale).abs() * 1048576.0 <= 5.0);
            assert!((f(dq.q) as f64 - y as f64 * scale).abs() * 1048576.0 <= 5.0);
        }
    }
}
