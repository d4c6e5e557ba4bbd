//! What a step of the flux observers does to exact reals, up to rounding: the flux follows
//! the voltage, decays without it, and rests where both balance.
use vstd::prelude::*;
use crate::accuracy::lemma_doubled_mag;
use crate::arithmetic::fraction_lies_between_zero_and_whole;
use crate::arithmetic::lemma_div_kind;
use crate::arithmetic::lemma_mul_kind;
use crate::arithmetic::lemma_rounded_sum_exact;
use crate::arithmetic::lemma_rounded_sum_order;
use crate::arithmetic::lemma_sum_kind;
use crate::arithmetic::multiplication_is_commutative;
use crate::arithmetic::negation_is_an_involution;
use crate::arithmetic::negation_of_factor_negates_product;
use crate::arithmetic::order_is_value_order;
use crate::arithmetic::power_mag;
use crate::arithmetic::product_error_is_at_most_half_own_spacing;
use crate::arithmetic::product_error_is_at_most_half_spacing;
use crate::arithmetic::product_follows_signs;
use crate::arithmetic::product_with_zero_is_zero;
use crate::arithmetic::quotient_by_larger_is_fraction;
use crate::arithmetic::sum_of_zeros_is_zero;
use crate::binary32::b32;
use crate::binary32::Binary32;
use crate::binary32::INFINITY;
use crate::binary32::ZERO;
use crate::exact::lemma_scaled;
use crate::exact::real_of;
use crate::exact::size_of_real;
use crate::math::clamped;
use crate::math::wrappable;
use crate::math::wrapped_angle;
use crate::nearest::lemma_mag_units_at;
use crate::nearest::lemma_mag_units_order;
use crate::nearest::lemma_relative_spacing;
use crate::nearest::spacing;
use crate::observer::flux::FluxImprovedInput;
use crate::observer::flux::FluxImprovedParam;
use crate::observer::flux::FluxImprovedState;
use crate::observer::flux::FluxInput;
use crate::observer::flux::FluxParam;
use crate::observer::flux::FluxState;
use crate::observer::flux::leaky_flux;
use crate::observer::flux::length_of;
use crate::observer::flux::limited_length;
use crate::observer::flux::limited_vector;
use crate::observer::flux::limiting_keeps_direction;
use crate::real_rounding::lemma_real_product;
use crate::real_rounding::lemma_real_scaled;
use crate::rounded_steps::is_smoothed;
use crate::rounded_steps::lemma_no_limit;
use crate::rounded_steps::smoothing_takes_share_of_way;
use crate::rounding::INF_MAG;
use crate::rounding::mag_units;
use crate::running_error::given;
use crate::running_error::lemma_zero_real;
use crate::running_error::limit;
use crate::running_error::limit_if_any;
use crate::running_error::minus;
use crate::running_error::not_limited;
use crate::running_error::off_by;
use crate::running_error::ordinary;
use crate::running_error::plus;
use crate::running_error::strictly_inside;
use crate::running_error::times;
use crate::running_error::tiny;
use crate::running_error::Traced;
use crate::running_error::usual_limits;
use crate::transform::AlphaBeta;
use vstd::arithmetic::power2::lemma2_to64;
use vstd::arithmetic::power2::lemma_pow2_pos;
use vstd::arithmetic::power2::pow2;
use vstd::math::abs;

verus! {

/// Whether one axis of a flux moved by what its voltage leaves after resistance and decay.
pub open spec fn integrates_voltage(
    after: Binary32,
    before: Binary32,
    rs: Binary32,
    ts: Binary32,
    leakage: Binary32,
    voltage: Binary32,
    current: Binary32,
) -> bool {
    let f = real_of(before);
    let v = real_of(voltage);
    let i = real_of(current);
    let r = real_of(rs);
    let t = real_of(ts);
    let l = real_of(leakage);
    off_by(
        after,
        f + t * (v - r * i - l * f),
        step_weight(f, r, t, l, v, i),
        5real,
    )
}

/// The sum of the sizes of the terms of a step of one axis.
pub open spec fn step_weight(f: real, r: real, t: real, l: real, v: real, i: real) -> real {
    size_of_real(f) + (size_of_real(t) * (size_of_real(v) + (size_of_real(r) * size_of_real(i)
        + tiny()) + (size_of_real(l) * size_of_real(f) + tiny())) + tiny())
}

/// A finite axis moved by its voltage.
pub proof fn lemma_integrates(
    flux: Binary32,
    rs: Binary32,
    ts: Binary32,
    leakage: Binary32,
    voltage: Binary32,
    current: Binary32,
)
    ensures
        ({
            let after = flux + ts * (voltage - rs * current - leakage * flux);
            after.finite() ==> integrates_voltage(
                after,
                flux,
                rs,
                ts,
                leakage,
                voltage,
                current,
            )
        }),
{
    let f = given(flux);
    let r = given(rs);
    let t = given(ts);
    let l = given(leakage);
    let v = given(voltage);
    let i = given(current);
    let drop = times(r, i);
    let rest = minus(v, drop);
    let decay = times(l, f);
    let rate = minus(rest, decay);
    let step = times(t, rate);
    let sum = plus(f, step);
    assert(sum.steps == 5real);
}

/// A step of the voltage model moves each axis of the flux, while it is not at a limit, by
/// what the voltage of its axis leaves after resistance and decay.
pub proof fn flux_integrates_voltage(state: FluxState, param: FluxParam, input: FluxInput)
    requires
        param.ts > b32(ZERO),
    ensures
        ({
            let next = state.vector_updated(param, input);
            &&& strictly_inside(next.flux.alpha, param.flux_min, param.flux_max)
                ==> integrates_voltage(
                next.flux.alpha,
                state.flux.alpha,
                param.rs,
                param.ts,
                param.leakage,
                input.voltage.alpha,
                input.current.alpha,
            )
            &&& strictly_inside(next.flux.beta, param.flux_min, param.flux_max)
                ==> integrates_voltage(
                next.flux.beta,
                state.flux.beta,
                param.rs,
                param.ts,
                param.leakage,
                input.voltage.beta,
                input.current.beta,
            )
        }),
{
    let next = state.vector_updated(param, input);
    let p = param;
    let f = state.flux;
    let v = input.voltage;
    let i = input.current;
    lemma_integrates(f.alpha, p.rs, p.ts, p.leakage, v.alpha, i.alpha);
    lemma_integrates(f.beta, p.rs, p.ts, p.leakage, v.beta, i.beta);
    if strictly_inside(next.flux.alpha, p.flux_min, p.flux_max) {
        not_limited(
            leaky_flux(f.alpha, p.rs, p.ts, p.leakage, v.alpha, i.alpha),
            p.flux_min,
            p.flux_max,
        );
    }
    if strictly_inside(next.flux.beta, p.flux_min, p.flux_max) {
        not_limited(
            leaky_flux(f.beta, p.rs, p.ts, p.leakage, v.beta, i.beta),
            p.flux_min,
            p.flux_max,
        );
    }
}

/// Limits of the voltage model only limit its flux.
pub proof fn flux_limits_only_limit(state: FluxState, param: FluxParam, input: FluxInput)
    requires
        param.ts > b32(ZERO),
    ensures
        ({
            let free = FluxParam { flux_min: -b32(INFINITY), flux_max: b32(INFINITY), ..param };
            let next = state.vector_updated(free, input);
            state.vector_updated(param, input) == (FluxState {
                flux: AlphaBeta {
                    alpha: clamped(next.flux.alpha, param.flux_min, param.flux_max),
                    beta: clamped(next.flux.beta, param.flux_min, param.flux_max),
                },
                ..next
            })
        }),
{
    let p = param;
    let f = state.flux;
    let v = input.voltage;
    let i = input.current;
    lemma_no_limit(leaky_flux(f.alpha, p.rs, p.ts, p.leakage, v.alpha, i.alpha));
    lemma_no_limit(leaky_flux(f.beta, p.rs, p.ts, p.leakage, v.beta, i.beta));
}

/// A rounded product that is not zero is at most twice the exact one.
proof fn lemma_product_at_most_twice(a: Binary32, b: Binary32)
    requires
        a.finite(),
        b.finite(),
        (a * b).finite(),
    ensures
        abs((a * b).value()) * pow2(149) <= 2 * abs(a.value() * b.value()),
{
    let r = a * b;
    let u = pow2(149);
    let x = a.value() * b.value();
    let s = spacing(r.mag());
    let v = r.value();
    product_error_is_at_most_half_own_spacing(a, b);
    lemma_pow2_pos(149);
    lemma_mag_units_order(0, 0);
    lemma_mag_units_order(r.mag(), 0);
    assert(abs(v * u) == abs(v) * u) by (nonlinear_arith)
        requires
            u > 0,
    ;
    if r.zero() {
        assert(0 * u == 0);
    } else {
        assert(s <= abs(v)) by {
            if r.mag() >= 0x80_0000 {
                lemma_relative_spacing(r.mag());
            } else {
                lemma2_to64();
            }
        }
        assert(s * u <= abs(v) * u) by (nonlinear_arith)
            requires
                s <= abs(v),
                u > 0,
        ;
    }
}

/// Twice a number is a magnitude.
proof fn lemma_twice(mag: nat) -> (r: nat)
    requires
        mag < power_mag(127),
    ensures
        mag_units(r) == 2 * mag_units(mag),
        r < INF_MAG,
{
    lemma2_to64();
    if mag < 0x80_0000 {
        lemma_mag_units_at(0, 2 * mag);
        lemma_mag_units_at(0, mag);
        2 * mag
    } else {
        lemma_doubled_mag(mag);
        mag + 0x80_0000
    }
}

/// A decay by at most the whole takes off at most twice a number.
proof fn lemma_decay_bound(f: Binary32, ts: Binary32, leakage: Binary32)
    requires
        f.finite(),
        f.mag() < power_mag(127),
        ts.finite(),
        leakage.finite(),
        ts >= b32(ZERO),
        leakage >= b32(ZERO),
        real_of(ts) * real_of(leakage) <= 1real,
        (leakage * f).finite(),
    ensures
        (ts * (leakage * f)).finite(),
        abs((ts * (leakage * f)).value()) <= 2 * abs(f.value()),
{
    let y = leakage * f;
    let u = pow2(149);
    let a = ts.value();
    let b = leakage.value();
    let c = f.value();
    lemma_product_at_most_twice(leakage, f);
    lemma_pow2_pos(149);
    lemma_mag_units_order(0, 0);
    order_is_value_order(b32(ZERO), ts);
    order_is_value_order(b32(ZERO), leakage);
    assert(a * b <= u * u) by {
        let r = real_of(ts);
        let s = real_of(leakage);
        let w = u as real;
        lemma_real_scaled(ts);
        lemma_real_scaled(leakage);
        lemma_real_product(a, b);
        lemma_real_product(u as int, u as int);
        assert((r * w) * (s * w) == (r * s) * (w * w)) by (nonlinear_arith);
        assert(w * w >= 0real) by (nonlinear_arith);
        lemma_scaled(r * s, 1real, w * w);
        assert(1real * (w * w) == w * w) by (nonlinear_arith);
    }
    let limit = lemma_twice(f.mag());
    assert(abs(a * y.value()) <= mag_units(limit) * u) by {
        let v = y.value();
        assert(abs(b * c) == b * abs(c)) by (nonlinear_arith)
            requires
                b >= 0,
        ;
        assert(abs(a * v) == a * abs(v)) by (nonlinear_arith)
            requires
                a >= 0,
        ;
        assert(a * (abs(v) * u) <= a * (2 * (b * abs(c)))) by (nonlinear_arith)
            requires
                abs(v) * u <= 2 * (b * abs(c)),
                a >= 0,
        ;
        assert(a * (2 * (b * abs(c))) == 2 * ((a * b) * abs(c))) by (nonlinear_arith);
        assert((a * b) * abs(c) <= (u * u) * abs(c)) by (nonlinear_arith)
            requires
                a * b <= u * u,
        ;
        assert(a * (abs(v) * u) == (a * abs(v)) * u) by (nonlinear_arith);
        assert(2 * ((u * u) * abs(c)) == ((2 * abs(c)) * u) * u) by (nonlinear_arith);
        assert(a * abs(v) <= (2 * abs(c)) * u) by (nonlinear_arith)
            requires
                (a * abs(v)) * u <= ((2 * abs(c)) * u) * u,
                u > 0,
        ;
    }
    product_error_is_at_most_half_spacing(ts, y, limit);
    lemma_mag_units_order((ts * y).mag(), limit);
}

/// One axis without voltage and current does not grow while the decay of a step is at most
/// the whole.
proof fn lemma_axis_decays(
    flux: Binary32,
    rs: Binary32,
    ts: Binary32,
    leakage: Binary32,
    voltage: Binary32,
    current: Binary32,
)
    requires
        flux.finite(),
        flux.mag() < power_mag(127),
        rs.finite(),
        ts.finite(),
        leakage.finite(),
        ts >= b32(ZERO),
        leakage >= b32(ZERO),
        real_of(ts) * real_of(leakage) <= 1real,
        voltage.zero(),
        current.zero(),
        (leakage * flux).finite(),
    ensures
        leaky_flux(flux, rs, ts, leakage, voltage, current).finite(),
        leaky_flux(flux, rs, ts, leakage, voltage, current).size() <= flux.size(),
{
    let drop = rs * current;
    let rest = voltage - drop;
    let y = leakage * flux;
    let rate = rest - y;
    let step = ts * rate;
    let zero = b32(ZERO);
    product_with_zero_is_zero(rs, current);
    negation_is_an_involution(drop);
    negation_is_an_involution(y);
    sum_of_zeros_is_zero(voltage, -drop);
    lemma_sum_kind(rest, -y);
    lemma_mag_units_order(0, 0);
    lemma_rounded_sum_exact(-y, rest.negative() && (-y).negative());
    assert(rate.same(-y));
    lemma_decay_bound(flux, ts, leakage);
    // The step is the negative of the rounded decay.
    lemma_mul_kind(ts, y);
    negation_of_factor_negates_product(ts, y);
    negation_is_an_involution(ts * y);
    if y.zero() {
        product_with_zero_is_zero(ts, rate);
        product_with_zero_is_zero(ts, y);
    } else {
        assert(rate == -y);
    }
    product_follows_signs(leakage, flux);
    product_follows_signs(ts, y);
    order_is_value_order(zero, flux);
    order_is_value_order(flux, zero);
    order_is_value_order(zero, ts * y);
    order_is_value_order(ts * y, zero);
    lemma_sum_kind(flux, step);
    let s = flux.value() + step.value();
    let negative = flux.negative() && step.negative();
    lemma_rounded_sum_exact(flux, negative);
    negation_is_an_involution(flux);
    lemma_rounded_sum_exact(-flux, negative);
    assert(abs(s) <= abs(flux.value()));
    if flux >= zero {
        lemma_rounded_sum_order(-flux.value(), negative, s, negative);
        lemma_rounded_sum_order(s, negative, flux.value(), negative);
    } else {
        lemma_rounded_sum_order(flux.value(), negative, s, negative);
        lemma_rounded_sum_order(s, negative, -flux.value(), negative);
    }
}

/// Whether a flux decays over a step: neither voltage nor current, and a decay by at most
/// the whole.
pub open spec fn decays(rs: Binary32, ts: Binary32, leakage: Binary32, input: FluxInput) -> bool {
    &&& rs.finite() && ts.finite() && leakage.finite()
    &&& ts > b32(ZERO) && leakage >= b32(ZERO)
    &&& real_of(ts) * real_of(leakage) <= 1real
    &&& input.voltage.alpha.zero() && input.voltage.beta.zero()
    &&& input.current.alpha.zero() && input.current.beta.zero()
}

/// Whether a flux is small enough to decay without overflow.
pub open spec fn can_decay(flux: AlphaBeta, leakage: Binary32) -> bool {
    &&& flux.alpha.finite() && flux.beta.finite()
    &&& flux.alpha.mag() < power_mag(127) && flux.beta.mag() < power_mag(127)
    &&& (leakage * flux.alpha).finite() && (leakage * flux.beta).finite()
}

/// Without voltage and current, no axis of the flux grows.
pub proof fn flux_decays(state: FluxState, param: FluxParam, input: FluxInput)
    requires
        decays(param.rs, param.ts, param.leakage, input),
        can_decay(state.flux, param.leakage),
        param.flux_min <= b32(ZERO),
        param.flux_max >= b32(ZERO),
    ensures
        ({
            let next = state.vector_updated(param, input);
            &&& next.flux.alpha.size() <= state.flux.alpha.size()
            &&& next.flux.beta.size() <= state.flux.beta.size()
        }),
{
    let p = param;
    let f = state.flux;
    let v = input.voltage;
    let i = input.current;
    lemma_axis_decays(f.alpha, p.rs, p.ts, p.leakage, v.alpha, i.alpha);
    lemma_axis_decays(f.beta, p.rs, p.ts, p.leakage, v.beta, i.beta);
}

/// Without voltage and current, each axis of the flux that is not at a limit is left with
/// what the decay of a step leaves of it.
pub proof fn flux_decays_at_leakage(state: FluxState, param: FluxParam, input: FluxInput)
    requires
        param.ts > b32(ZERO),
        input.voltage.alpha.zero(),
        input.voltage.beta.zero(),
        input.current.alpha.zero(),
        input.current.beta.zero(),
    ensures
        ({
            let next = state.vector_updated(param, input);
            let t = real_of(param.ts);
            let l = real_of(param.leakage);
            let r = real_of(param.rs);
            let a = real_of(state.flux.alpha);
            let b = real_of(state.flux.beta);
            &&& strictly_inside(next.flux.alpha, param.flux_min, param.flux_max) ==> off_by(
                next.flux.alpha,
                (1real - t * l) * a,
                step_weight(a, r, t, l, 0real, 0real),
                5real,
            )
            &&& strictly_inside(next.flux.beta, param.flux_min, param.flux_max) ==> off_by(
                next.flux.beta,
                (1real - t * l) * b,
                step_weight(b, r, t, l, 0real, 0real),
                5real,
            )
        }),
{
    let t = real_of(param.ts);
    let l = real_of(param.leakage);
    let r = real_of(param.rs);
    flux_integrates_voltage(state, param, input);
    lemma_zero_real(input.voltage.alpha);
    lemma_zero_real(input.voltage.beta);
    lemma_zero_real(input.current.alpha);
    lemma_zero_real(input.current.beta);
    lemma_decayed(t, l, r, real_of(state.flux.alpha));
    lemma_decayed(t, l, r, real_of(state.flux.beta));
}

proof fn lemma_decayed(t: real, l: real, r: real, f: real)
    ensures
        f + t * (0real - r * 0real - l * f) == (1real - t * l) * f,
{
    assert(r * 0real == 0real) by (nonlinear_arith);
    assert(t * (-(l * f)) == -((t * l) * f)) by (nonlinear_arith);
    assert((1real - t * l) * f == f - (t * l) * f) by (nonlinear_arith);
}

/// A flux at which the decay balances what the resistance leaves of the voltage stays where
/// it is: the gain from a constant voltage to the flux is one over the leakage.
pub proof fn flux_rests_in_balance(state: FluxState, param: FluxParam, input: FluxInput)
    requires
        param.ts > b32(ZERO),
    ensures
        ({
            let next = state.vector_updated(param, input);
            let t = real_of(param.ts);
            let l = real_of(param.leakage);
            let r = real_of(param.rs);
            let a = real_of(state.flux.alpha);
            let b = real_of(state.flux.beta);
            let va = real_of(input.voltage.alpha);
            let vb = real_of(input.voltage.beta);
            let ia = real_of(input.current.alpha);
            let ib = real_of(input.current.beta);
            &&& strictly_inside(next.flux.alpha, param.flux_min, param.flux_max) && l * a == va - r
                * ia ==> off_by(next.flux.alpha, a, step_weight(a, r, t, l, va, ia), 5real)
            &&& strictly_inside(next.flux.beta, param.flux_min, param.flux_max) && l * b == vb - r
                * ib ==> off_by(next.flux.beta, b, step_weight(b, r, t, l, vb, ib), 5real)
        }),
{
    let t = real_of(param.ts);
    flux_integrates_voltage(state, param, input);
    assert(t * 0real == 0real) by (nonlinear_arith);
}

/// The parameters of an improved integrator without limits of its magnitude.
pub open spec fn with_free_magnitude(param: FluxImprovedParam) -> FluxImprovedParam {
    FluxImprovedParam { flux_mag_min: b32(ZERO), flux_mag_max: b32(ZERO), ..param }
}

/// A vector that comes out of limiting with no limit in effect is the one that went in.
proof fn lemma_free_vector(v: AlphaBeta, min_mag: Binary32, max_mag: Binary32)
    requires
        !(min_mag > b32(ZERO)),
        !(max_mag > b32(ZERO)),
        limited_vector(v, min_mag, max_mag).alpha.finite(),
        limited_vector(v, min_mag, max_mag).beta.finite(),
    ensures
        limited_vector(v, min_mag, max_mag) == v,
{
    let length = length_of(v);
    let target = limited_length(length, min_mag, max_mag);
    let scale = target / length;
    if !(length <= b32(ZERO)) {
        assert(target == length);
        lemma_div_kind(target, length);
        lemma_mul_kind(v.alpha, scale);
        lemma_mul_kind(v.beta, scale);
        assert(v.alpha.finite() && v.beta.finite() && scale.finite()) by {
            reveal(Binary32::spec_mul);
        }
        if length.finite() {
            limiting_keeps_direction(v, min_mag, max_mag);
        }
    }
}

/// Without limits of its magnitude, the improved integrator moves each axis of its flux by
/// what the voltage of its axis leaves after resistance and decay, and its output moves by
/// its share of the way to that flux.
pub proof fn improved_flux_integrates_voltage(
    state: FluxImprovedState,
    param: FluxImprovedParam,
    input: FluxImprovedInput,
)
    requires
        param.ts > b32(ZERO),
        !param.output_alpha.nan(),
        ({
            let raw = state.vector_updated(param, input).raw_flux;
            raw.alpha.finite() && raw.beta.finite()
        }),
    ensures
        ({
            let next = state.vector_updated(param, input);
            let free = !(param.flux_mag_min > b32(ZERO)) && !(param.flux_mag_max > b32(ZERO));
            &&& free ==> integrates_voltage(
                next.raw_flux.alpha,
                state.raw_flux.alpha,
                param.rs,
                param.ts,
                param.leakage,
                input.voltage.alpha,
                input.current.alpha,
            )
            &&& free ==> integrates_voltage(
                next.raw_flux.beta,
                state.raw_flux.beta,
                param.rs,
                param.ts,
                param.leakage,
                input.voltage.beta,
                input.current.beta,
            )
            &&& next.flux.alpha.finite() ==> is_smoothed(
                next.flux.alpha,
                state.flux.alpha,
                param.output_alpha,
                next.raw_flux.alpha,
            )
            &&& next.flux.beta.finite() ==> is_smoothed(
                next.flux.beta,
                state.flux.beta,
                param.output_alpha,
                next.raw_flux.beta,
            )
        }),
{
    let next = state.vector_updated(param, input);
    let p = param;
    let f = state.raw_flux;
    let v = input.voltage;
    let i = input.current;
    lemma_integrates(f.alpha, p.rs, p.ts, p.leakage, v.alpha, i.alpha);
    lemma_integrates(f.beta, p.rs, p.ts, p.leakage, v.beta, i.beta);
    if !(p.flux_mag_min > b32(ZERO)) && !(p.flux_mag_max > b32(ZERO)) {
        lemma_free_vector(state.integrated(p, input), p.flux_mag_min, p.flux_mag_max);
    }
    if next.flux.alpha.finite() {
        smoothing_takes_share_of_way(state.flux.alpha, p.output_alpha, next.raw_flux.alpha);
    }
    if next.flux.beta.finite() {
        smoothing_takes_share_of_way(state.flux.beta, p.output_alpha, next.raw_flux.beta);
    }
}

/// Limits of the improved integrator only limit the magnitude of the flux that it has
/// without them.
pub proof fn improved_flux_limits_only_limit(
    state: FluxImprovedState,
    param: FluxImprovedParam,
    input: FluxImprovedInput,
)
    requires
        param.ts > b32(ZERO),
        ({
            let raw = state.vector_updated(with_free_magnitude(param), input).raw_flux;
            raw.alpha.finite() && raw.beta.finite()
        }),
    ensures
        state.vector_updated(param, input).raw_flux == limited_vector(
            state.vector_updated(with_free_magnitude(param), input).raw_flux,
            param.flux_mag_min,
            param.flux_mag_max,
        ),
{
    lemma_free_vector(state.integrated(param, input), b32(ZERO), b32(ZERO));
}

/// Without voltage and current, no axis of the flux of the improved integrator grows, unless
/// a least magnitude is asked for.
pub proof fn improved_flux_decays(
    state: FluxImprovedState,
    param: FluxImprovedParam,
    input: FluxImprovedInput,
)
    requires
        decays(param.rs, param.ts, param.leakage, input),
        can_decay(state.raw_flux, param.leakage),
        !(param.flux_mag_min > b32(ZERO)),
        ({
            let raw = state.vector_updated(with_free_magnitude(param), input).raw_flux;
            raw.alpha.finite() && raw.beta.finite()
        }),
    ensures
        ({
            let next = state.vector_updated(param, input);
            &&& next.raw_flux.alpha.size() <= state.raw_flux.alpha.size()
            &&& next.raw_flux.beta.size() <= state.raw_flux.beta.size()
        }),
{
    let p = param;
    let f = state.raw_flux;
    let v = input.voltage;
    let i = input.current;
    let raw = state.integrated(param, input);
    lemma_axis_decays(f.alpha, p.rs, p.ts, p.leakage, v.alpha, i.alpha);
    lemma_axis_decays(f.beta, p.rs, p.ts, p.leakage, v.beta, i.beta);
    lemma_free_vector(raw, b32(ZERO), b32(ZERO));
    lemma_capped_vector(raw, p.flux_mag_min, p.flux_mag_max);
}

/// Capping the magnitude of a vector does not let a coordinate grow.
proof fn lemma_capped_vector(v: AlphaBeta, min_mag: Binary32, max_mag: Binary32)
    requires
        v.alpha.finite(),
        v.beta.finite(),
        !(min_mag > b32(ZERO)),
        limited_vector(v, b32(ZERO), b32(ZERO)) == v,
    ensures
        limited_vector(v, min_mag, max_mag).alpha.size() <= v.alpha.size(),
        limited_vector(v, min_mag, max_mag).beta.size() <= v.beta.size(),
{
    let length = length_of(v);
    let target = limited_length(length, min_mag, max_mag);
    let scale = target / length;
    if !(length <= b32(ZERO)) {
        lemma_div_kind(length, length);
        lemma_mul_kind(v.alpha, length / length);
        assert(length.finite());
        quotient_by_larger_is_fraction(target, length);
        fraction_lies_between_zero_and_whole(scale, v.alpha);
        fraction_lies_between_zero_and_whole(scale, v.beta);
        multiplication_is_commutative(scale, v.alpha);
        multiplication_is_commutative(scale, v.beta);
    }
}

/// The angle of the voltage model is the direction of its flux.
pub proof fn flux_angle_is_direction<A: Fn(Binary32, Binary32) -> Binary32>(
    state: FluxState,
    param: FluxParam,
    input: FluxInput,
    atan2: A,
    next: FluxState,
    angle: Binary32,
)
    requires
        param.ts > b32(ZERO),
        state.steps_to(param, input, atan2, next),
        forall|a: Binary32| atan2.ensures((next.flux.beta, next.flux.alpha), a) ==> a == angle,
    ensures
        next.theta_flux_rad == wrapped_angle(angle),
{
    let vector = state.vector_updated(param, input);
    let a = choose|a: Binary32|
        atan2.ensures((vector.flux.beta, vector.flux.alpha), a) && wrappable(a) && next
            == vector.with_angle(
            a,
        );
    assert(next.flux == vector.flux);
    assert(atan2.ensures((next.flux.beta, next.flux.alpha), a));
}

/// The angle of the improved integrator is the direction of its filtered flux.
pub proof fn improved_flux_angle_is_direction<A: Fn(Binary32, Binary32) -> Binary32>(
    state: FluxImprovedState,
    param: FluxImprovedParam,
    input: FluxImprovedInput,
    atan2: A,
    next: FluxImprovedState,
    angle: Binary32,
)
    requires
        param.ts > b32(ZERO),
        state.steps_to(param, input, atan2, next),
        forall|a: Binary32| atan2.ensures((next.flux.beta, next.flux.alpha), a) ==> a == angle,
    ensures
        next.theta_flux_rad == wrapped_angle(angle),
{
    let vector = state.vector_updated(param, input);
    let a = choose|a: Binary32|
        atan2.ensures((vector.flux.beta, vector.flux.alpha), a) && next == vector.with_angle(
            a,
        );
    assert(next.flux == vector.flux);
    assert(atan2.ensures((next.flux.beta, next.flux.alpha), a));
}

/// A step of the voltage model on ordinary numbers stays finite.
pub proof fn flux_stays_finite(state: FluxState, param: FluxParam, input: FluxInput)
    requires
        param.ts > b32(ZERO),
        ordinary(param.rs),
        ordinary(param.ts),
        ordinary(param.leakage),
        usual_limits(param.flux_min, param.flux_max),
        ordinary(state.flux.alpha),
        ordinary(state.flux.beta),
        ordinary(input.voltage.alpha),
        ordinary(input.voltage.beta),
        ordinary(input.current.alpha),
        ordinary(input.current.beta),
    ensures
        ({
            let next = state.vector_updated(param, input);
            next.flux.alpha.finite() && next.flux.beta.finite()
        }),
{
    let p = param;
    let f = state.flux;
    let v = input.voltage;
    let i = input.current;
    let a = lemma_traced_axis(f.alpha, p.rs, p.ts, p.leakage, v.alpha, i.alpha);
    let b = lemma_traced_axis(f.beta, p.rs, p.ts, p.leakage, v.beta, i.beta);
    let x = limit_if_any(a, p.flux_min, p.flux_max);
    let y = limit_if_any(b, p.flux_min, p.flux_max);
}

/// The trace of one axis.
proof fn lemma_traced_axis(
    flux: Binary32,
    rs: Binary32,
    ts: Binary32,
    leakage: Binary32,
    voltage: Binary32,
    current: Binary32,
) -> (r: Traced)
    requires
        ordinary(flux),
        ordinary(rs),
        ordinary(ts),
        ordinary(leakage),
        ordinary(voltage),
        ordinary(current),
    ensures
        r.holds(),
        r.fits,
        r.exponent == 65,
        r.number == leaky_flux(flux, rs, ts, leakage, voltage, current),
{
    let f = given(flux);
    let r = given(rs);
    let t = given(ts);
    let l = given(leakage);
    let v = given(voltage);
    let i = given(current);
    let drop = times(r, i);
    let rest = minus(v, drop);
    let decay = times(l, f);
    let rate = minus(rest, decay);
    let step = times(t, rate);
    let sum = plus(f, step);
    sum
}

} // verus!
