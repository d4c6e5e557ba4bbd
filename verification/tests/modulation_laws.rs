use foc_algorithm::AlphaBeta;
use foc_algorithm::Binary32;
use foc_algorithm::DpwmMode;
use foc_algorithm::DpwmOutput;
use foc_algorithm::DpwmParam;
use foc_algorithm::PI;
use foc_algorithm::SvpwmOutput;
use foc_algorithm::SvpwmParam;
use foc_algorithm::dpwm_update;
use foc_algorithm::inverse_clarke;
use foc_algorithm::sine_pwm_from_sines;
use foc_algorithm::sine_pwm_update;
use foc_algorithm::svpwm_update;

fn b(x: f32) -> Binary32 {
    Binary32::from_bits(x.to_bits())
}

fn f(x: Binary32) -> f32 {
    f32::from_bits(x.to_bits())
}

fn sin(x: Binary32) -> Binary32 {
    b(libm::sinf(f(x)))
}

fn valid(x: Binary32) -> bool {
    (0.0..=1.0).contains(&f(x))
}

fn vector(length: f32, angle: f32) -> AlphaBeta {
    AlphaBeta { alpha: b(length * libm::cosf(angle)), beta: b(length * libm::sinf(angle)) }
}

#[test]
fn sine_duties_are_valid_and_rest_at_half() {
    for i in 0..100 {
        let theta = b(i as f32 * 0.1);
        let out = sine_pwm_update(theta, b(3.0), &sin);
        assert!(valid(out.duty_a) && valid(out.duty_b) && valid(out.duty_c));
        let rest = sine_pwm_update(theta, b(-1.0), &sin);
        assert_eq!(f(rest.duty_a), 0.5);
        assert_eq!(f(rest.duty_b), 0.5);
        assert_eq!(f(rest.duty_c), 0.5);
    }
    let out = sine_pwm_from_sines(b(1.0), b(-1.0), b(0.5), b(0.5));
    assert_eq!(f(out.duty_a), 0.75);
    assert_eq!(f(out.duty_b), 0.25);
    assert_eq!(f(out.duty_c), 0.625);
}

#[test]
fn vector_duties_are_valid_and_keep_phase_order() {
    let param = SvpwmParam { v_bus: b(24.0) };
    for i in 0..360 {
        let v = vector(0.2 * i as f32, i as f32 * 0.1);
        let out = svpwm_update(v, &param);
        assert!(valid(out.duty_a) && valid(out.duty_b) && valid(out.duty_c));
        assert!((0..=6).contains(&out.sector));
        let phases = inverse_clarke(v);
        if phases.a <= phases.b {
            assert!(out.duty_a <= out.duty_b);
        }
        if phases.b <= phases.c {
            assert!(out.duty_b <= out.duty_c);
        }
    }
}

#[test]
fn sectors_follow_the_signs_of_the_phases() {
    let param = SvpwmParam { v_bus: b(24.0) };
    let expected = [2, 1, 6, 5, 4, 3];
    for (i, sector) in expected.iter().enumerate() {
        let out = svpwm_update(vector(5.0, i as f32 * core::f32::consts::PI / 3.0), &param);
        assert_eq!(out.sector, *sector, "{i}");
    }
    assert_eq!(svpwm_update(vector(0.0, 0.0), &param).sector, 0);
}

#[test]
fn duties_are_centred_without_a_bus() {
    for v_bus in [0.0, -12.0] {
        assert_eq!(svpwm_update(vector(5.0, 1.0), &SvpwmParam { v_bus: b(v_bus) }), SvpwmOutput::default());
        let param = DpwmParam { v_bus: b(v_bus), mode: DpwmMode::ClampMin };
        assert_eq!(dpwm_update(vector(5.0, 1.0), &param), DpwmOutput::default());
    }
}

#[test]
fn discontinuous_modulation_holds_one_phase() {
    for i in 0..360 {
        let v = vector(0.02 * i as f32, i as f32 * 0.1);
        let low = dpwm_update(v, &DpwmParam { v_bus: b(24.0), mode: DpwmMode::ClampMin });
        assert!(valid(low.duty_a) && valid(low.duty_b) && valid(low.duty_c));
        assert_eq!(f(low.duty_a.min(low.duty_b).min(low.duty_c)), 0.0);
        let high = dpwm_update(v, &DpwmParam { v_bus: b(24.0), mode: DpwmMode::ClampMax });
        assert!(valid(high.duty_a) && valid(high.duty_b) && valid(high.duty_c));
        assert_eq!(f(high.duty_a.max(high.duty_b).max(high.duty_c)), 1.0);
    }
}

#[test]
fn modulator_formulas_on_one_vector() {
    let (alpha, beta, v_bus) = (4.0_f32, 3.0_f32, 24.0_f32);
    let half_sqrt3 = 0.5_f32 * 1.732_050_8;
    let (va, vb, vc) = (alpha, -0.5 * alpha + half_sqrt3 * beta, -0.5 * alpha - half_sqrt3 * beta);
    let offset = 0.5 * (va.max(vb).max(vc) + va.min(vb).min(vc));
    let out = svpwm_update(AlphaBeta { alpha: b(alpha), beta: b(beta) }, &SvpwmParam { v_bus: b(v_bus) });
    assert_eq!(f(out.duty_a), 0.5 + (va - offset) / v_bus);
    assert_eq!(f(out.duty_b), 0.5 + (vb - offset) / v_bus);
    assert_eq!(f(out.duty_c), 0.5 + (vc - offset) / v_bus);
    let param = DpwmParam { v_bus: b(v_bus), mode: DpwmMode::ClampMax };
    let out = dpwm_update(AlphaBeta { alpha: b(alpha), beta: b(beta) }, &param);
    let zero = 1.0 - (0.5 + va / v_bus);
    assert_eq!(f(out.zero_sequence), zero);
    assert_eq!(f(out.duty_b), 0.5 + vb / v_bus + zero);
}

fn line_voltages_match(duties: [Binary32; 3], v: AlphaBeta, v_bus: f32) {
    let phases = inverse_clarke(v);
    let voltages = [phases.a, phases.b, phases.c];
    for i in 0..3 {
        let j = (i + 1) % 3;
        let line = (f(duties[i]) as f64 - f(duties[j]) as f64) * v_bus as f64;
        let wanted = f(voltages[i]) as f64 - f(voltages[j]) as f64;
        assert!((line - wanted).abs() * 1048576.0 <= v_bus as f64, "{line} {wanted}");
    }
}

#[test]
fn duties_lead_to_the_line_voltages_of_the_vector() {
    for v_bus in [24.0, 0.37, 3.0e-20, 7.0e30] {
        for i in 0..500 {
            let v = vector(v_bus * 0.577_35 * (i as f32 / 499.0), i as f32 * 0.37);
            let out = svpwm_update(v, &SvpwmParam { v_bus: b(v_bus) });
            line_voltages_match([out.duty_a, out.duty_b, out.duty_c], v, v_bus);
            for mode in [DpwmMode::ClampMin, DpwmMode::ClampMax] {
                let out = dpwm_update(v, &DpwmParam { v_bus: b(v_bus), mode });
                line_voltages_match([out.duty_a, out.duty_b, out.duty_c], v, v_bus);
            }
        }
    }
}

#[test]
fn largest_and_smallest_duty_add_up_to_one() {
    for i in 0..500 {
        let v = vector(13.8 * (i as f32 / 500.0), i as f32 * 0.37);
        let out = svpwm_update(v, &SvpwmParam { v_bus: b(24.0) });
        let duties = [f(out.duty_a) as f64, f(out.duty_b) as f64, f(out.duty_c) as f64];
        let top = duties.iter().cloned().fold(0.0, f64::max);
        let low = duties.iter().cloned().fold(1.0, f64::min);
        assert!((top + low - 1.0).abs() * 1048576.0 <= 1.0);
    }
}

#[test]
fn discontinuous_modulation_matches_the_centred_one_in_the_circle() {
    for v_bus in [24.0, 3.0e-20, 7.0e30] {
        for i in 0..1000 {
            let v = vector(v_bus * 0.577_35 * (i as f32 / 999.0), i as f32 * 0.37);
            let centred = svpwm_update(v, &SvpwmParam { v_bus: b(v_bus) });
            let centred = [f(centred.duty_a) as f64, f(centred.duty_b) as f64, f(centred.duty_c) as f64];
            for (mode, end) in [(DpwmMode::ClampMin, 0.0), (DpwmMode::ClampMax, 1.0)] {
                let out = dpwm_update(v, &DpwmParam { v_bus: b(v_bus), mode });
                assert!(valid(out.duty_a) && valid(out.duty_b) && valid(out.duty_c));
                let duties = [f(out.duty_a) as f64, f(out.duty_b) as f64, f(out.duty_c) as f64];
                assert!(duties.contains(&end));
                for k in 0..3 {
                    let j = (k + 1) % 3;
                    let away = (duties[k] - duties[j]) - (centred[k] - centred[j]);
                    assert!(away.abs() * 524_288.0 <= 1.0);
                }
            }
        }
    }
}
