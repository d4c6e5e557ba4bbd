use foc_algorithm::AlphaBeta;
use foc_algorithm::Binary32;
use foc_algorithm::Dq;
use foc_algorithm::FluxCurrentParam;
use foc_algorithm::FluxCurrentState;
use foc_algorithm::FluxHybridParam;
use foc_algorithm::FluxHybridState;
use foc_algorithm::FluxImprovedInput;
use foc_algorithm::FluxImprovedParam;
use foc_algorithm::FluxImprovedState;
use foc_algorithm::FluxInput;
use foc_algorithm::FluxParam;
use foc_algorithm::FluxState;
use foc_algorithm::speed_weight;

fn b(x: f32) -> Binary32 {
    Binary32::from_bits(x.to_bits())
}

fn f(x: Binary32) -> f32 {
    f32::from_bits(x.to_bits())
}

fn near(actual: Binary32, expected: f32, tolerance: f32) {
    let actual = f(actual);
    assert!((actual - expected).abs() <= tolerance, "{actual} != {expected}");
}

fn atan2(y: Binary32, x: Binary32) -> Binary32 {
    b(libm::atan2f(f(y), f(x)))
}

fn vector(alpha: f32, beta: f32) -> AlphaBeta {
    AlphaBeta { alpha: b(alpha), beta: b(beta) }
}

#[test]
fn model_fluxes_keep_their_limits() {
    let param = FluxParam { rs: b(0.1), ts: b(0.01), leakage: b(1.0), flux_min: b(-0.1), flux_max: b(0.2) };
    let input = FluxInput { voltage: vector(5.0, -5.0), current: vector(1.0, 1.0) };
    let mut state = FluxState::default();
    for _ in 0..50 {
        let flux = state.update(&param, &input, &atan2);
        assert!(flux.alpha >= b(-0.1) && flux.alpha <= b(0.2));
        assert!(flux.beta >= b(-0.1) && flux.beta <= b(0.2));
    }
    assert_eq!((f(state.flux.alpha), f(state.flux.beta)), (0.2, -0.1));
    let current = FluxCurrentParam { ld: b(0.01), lq: b(0.02), flux_pm: b(0.05), flux_min: b(-0.1), flux_max: b(0.1) };
    let mut state = FluxCurrentState::default();
    let flux = state.update(&current, Dq { d: b(2.0), q: b(-1.5) }, &atan2);
    assert_eq!((f(flux.d), f(flux.q)), (0.01_f32 * 2.0 + 0.05, 0.02_f32 * -1.5));
    let flux = state.update(&current, Dq { d: b(99.0), q: b(-99.0) }, &atan2);
    assert_eq!((f(flux.d), f(flux.q)), (0.1, -0.1));
}

#[test]
fn invalid_periods_change_no_flux() {
    let mut state = FluxState::default();
    let param = FluxParam { rs: b(0.1), ts: b(0.0), leakage: b(1.0), flux_min: b(-0.1), flux_max: b(0.2) };
    let input = FluxInput { voltage: vector(5.0, -5.0), current: vector(1.0, 1.0) };
    assert_eq!(state.update(&param, &input, &atan2), AlphaBeta::default());
    assert_eq!(state, FluxState::default());
}

#[test]
fn weight_goes_from_zero_to_one() {
    assert_eq!(f(speed_weight(b(5.0), b(10.0), b(20.0))), 0.0);
    assert_eq!(f(speed_weight(b(10.0), b(10.0), b(20.0))), 0.0);
    assert_eq!(f(speed_weight(b(12.5), b(10.0), b(20.0))), 0.25);
    assert_eq!(f(speed_weight(b(20.0), b(10.0), b(20.0))), 1.0);
    assert_eq!(f(speed_weight(b(99.0), b(10.0), b(20.0))), 1.0);
    assert_eq!(f(speed_weight(b(9.0), b(10.0), b(10.0))), 0.0);
    assert_eq!(f(speed_weight(b(10.0), b(10.0), b(10.0))), 1.0);
}

#[test]
fn blend_takes_one_model_at_each_end() {
    let param = FluxHybridParam { speed_low: b(10.0), speed_high: b(20.0) };
    let (voltage, current) = (vector(0.3, 0.1), vector(-0.2, 0.4));
    let mut state = FluxHybridState::default();
    assert_eq!(state.update(&param, voltage, current, b(-1.0), &atan2), current);
    assert_eq!(state.update(&param, voltage, current, b(-30.0), &atan2), voltage);
    let flux = state.update(&param, voltage, current, b(12.5), &atan2);
    assert_eq!(f(flux.alpha), 0.25_f32 * 0.3 + (1.0 - 0.25) * -0.2);
    assert_eq!(f(state.weight_voltage), 0.25);
}

#[test]
fn limiting_keeps_the_direction_of_the_flux() {
    let mut param = FluxImprovedParam {
        rs: b(0.0),
        ts: b(1.0),
        leakage: b(0.0),
        flux_mag_min: b(0.0),
        flux_mag_max: b(2.0),
        output_alpha: b(1.0),
    };
    let input = FluxImprovedInput { voltage: vector(3.0, 4.0), current: vector(0.0, 0.0) };
    let mut state = FluxImprovedState::default();
    state.update(&param, &input, &atan2);
    assert_eq!((f(state.raw_flux.alpha), f(state.raw_flux.beta)), (3.0_f32 * (2.0 / 5.0), 4.0_f32 * (2.0 / 5.0)));
    near(state.theta_flux_rad, libm::atan2f(4.0, 3.0), 1.0e-6);
    param.flux_mag_min = b(10.0);
    param.flux_mag_max = b(0.0);
    let mut state = FluxImprovedState::default();
    state.update(&param, &input, &atan2);
    assert_eq!((f(state.raw_flux.alpha), f(state.raw_flux.beta)), (6.0, 8.0));
    let mut rest = FluxImprovedState::default();
    let still = FluxImprovedInput { voltage: vector(0.0, 0.0), current: vector(0.0, 0.0) };
    rest.update(&param, &still, &atan2);
    assert_eq!(rest.raw_flux, AlphaBeta::default());
}

#[test]
fn limited_flux_keeps_its_length_and_direction() {
    let param = FluxImprovedParam {
        rs: b(0.0),
        ts: b(1.0),
        leakage: b(0.0),
        flux_mag_min: b(0.5),
        flux_mag_max: b(2.0),
        output_alpha: b(1.0),
    };
    for i in 1..400 {
        let (length, angle) = (0.01 * i as f32, 0.37 * i as f32);
        let raw = vector(length * libm::cosf(angle), length * libm::sinf(angle));
        let mut state = FluxImprovedState::default();
        state.update(&param, &FluxImprovedInput { voltage: raw, current: vector(0.0, 0.0) }, &atan2);
        let (x, y) = (f(state.raw_flux.alpha) as f64, f(state.raw_flux.beta) as f64);
        let (rx, ry) = (f(raw.alpha) as f64, f(raw.beta) as f64);
        assert!(x * rx >= 0.0 && y * ry >= 0.0);
        assert!((x * ry - y * rx).abs() <= 1.0e-6 * (rx * rx + ry * ry).sqrt() * 2.0);
        assert!(x * x + y * y <= 4.0 * (1.0 + 1.0 / 131_072.0));
        assert!(x * x + y * y >= 0.25 * (1.0 - 1.0 / 131_072.0));
        if length > 0.5001 && length < 1.9999 {
            assert_eq!(state.raw_flux, raw);
        }
    }
}

#[test]
fn filtered_flux_moves_towards_the_limited_one() {
    let param = FluxImprovedParam {
        rs: b(0.0),
        ts: b(1.0),
        leakage: b(0.0),
        flux_mag_min: b(0.0),
        flux_mag_max: b(9.0),
        output_alpha: b(0.3),
    };
    let mut state = FluxImprovedState::default();
    for i in 0..200 {
        let before = f(state.flux.alpha);
        let input = FluxImprovedInput { voltage: vector(libm::sinf(i as f32), 1.0), current: vector(0.0, 0.0) };
        state.update(&param, &input, &atan2);
        let (raw, now) = (f(state.raw_flux.alpha), f(state.flux.alpha));
        let slack = 1.0e-6 * before.abs().max(raw.abs());
        assert!(now >= before.min(raw) - slack && now <= before.max(raw) + slack);
    }
}
