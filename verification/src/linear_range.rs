//! The vectors that the bus can supply without distortion.
//!
//! Values are integers in units of `2^-149`.
use vstd::prelude::*;
use crate::accuracy::HALF_SQRT_3;
use crate::accuracy::lemma_around_one;
use crate::accuracy::lemma_clarke_factors;
use crate::accuracy::lemma_constant_factor;
use crate::accuracy::lemma_minus_half;
use crate::accuracy::lemma_product_of_sum;
use crate::accuracy::lemma_share_error;
use crate::arithmetic::multiplication_is_commutative;
use crate::arithmetic::order_is_value_order;
use crate::arithmetic::sum_error_is_at_most_half_spacing;
use crate::binary32::b32;
use crate::binary32::Binary32;
use crate::binary32::MINUS_HALF;
use crate::binary32::ONE;
use crate::binary32::ZERO;
use crate::line_voltage::dpwm_keeps_line_voltages;
use crate::line_voltage::dpwm_stays_on_bus;
use crate::line_voltage::fits_bus;
use crate::line_voltage::nearly_at_most;
use crate::line_voltage::svpwm_keeps_line_voltages;
use crate::modulation::dpwm_of;
use crate::modulation::DpwmMode;
use crate::modulation::DpwmParam;
use crate::modulation::largest;
use crate::modulation::lemma_phase_signs;
use crate::modulation::smallest;
use crate::modulation::svpwm_of;
use crate::modulation::SvpwmParam;
use crate::nearest::lemma_mag_units_order;
use crate::nearest::lemma_relative_spacing;
use crate::nearest::spacing;
use crate::transform::AlphaBeta;
use crate::transform::inverse_clarke_of;
use vstd::arithmetic::power2::pow2;
use vstd::math::abs;

verus! {

/// Whether a vector is no longer than the bus voltage divided by the square root of three,
/// which is the radius of the circle in the hexagon of the inverter.
pub open spec fn in_linear_range(v: AlphaBeta, v_bus: Binary32) -> bool {
    let alpha = v.alpha.value();
    let beta = v.beta.value();
    3 * (alpha * alpha + beta * beta) <= v_bus.value() * v_bus.value()
}

/// A number whose square is at most that of a bound is at most the bound.
proof fn lemma_square_bound(x: int, bound: int)
    requires
        bound >= 0,
        x * x <= bound * bound,
    ensures
        abs(x) <= bound,
{
    assert(abs(x) <= bound) by (nonlinear_arith)
        requires
            bound >= 0,
            x * x <= bound * bound,
    ;
}

proof fn lemma_square_of_sum(p: int, x: int, q: int, y: int)
    ensures
        (p * x + q * y) * (p * x + q * y) == (p * p) * (x * x) + (q * q) * (y * y) + 2 * ((p * q)
            * (x * y)),
{
    let f = p * x;
    let g = q * y;
    assert((f + g) * (f + g) == f * f + g * g + 2 * (f * g)) by (nonlinear_arith);
    assert((p * x) * (p * x) == (p * p) * (x * x)) by (nonlinear_arith);
    assert((q * y) * (q * y) == (q * q) * (y * y)) by (nonlinear_arith);
    assert((p * x) * (q * y) == (p * q) * (x * y)) by (nonlinear_arith);
}

/// The square of a sum of two scaled numbers is at most the sum of the squares of the
/// factors times that of the squares of the numbers.
proof fn lemma_scaled_sum(p: int, q: int, alpha: int, beta: int)
    ensures
        (p * alpha + q * beta) * (p * alpha + q * beta) <= (p * p + q * q) * (alpha * alpha + beta
            * beta),
{
    let z = q * alpha - p * beta;
    let n = p * p + q * q;
    let across = (p * q) * (alpha * beta);
    lemma_square_of_sum(p, alpha, q, beta);
    lemma_square_of_sum(q, alpha, -p, beta);
    assert(-p * beta == -(p * beta) && -p * -p == p * p) by (nonlinear_arith);
    assert((q * -p) * (alpha * beta) == -across) by (nonlinear_arith)
        requires
            across == (p * q) * (alpha * beta),
    ;
    lemma_product_of_sum(p * p, q * q, alpha * alpha);
    lemma_product_of_sum(p * p, q * q, beta * beta);
    assert(n * (alpha * alpha + beta * beta) == n * (alpha * alpha) + n * (beta * beta))
        by (nonlinear_arith);
    assert(z * z >= 0) by (nonlinear_arith);
}

/// The same for given factors and their squares.
proof fn lemma_line(p: int, q: int, n: int, alpha: int, beta: int, bound: int, bus: int)
    requires
        bus > 0,
        bound >= 0,
        p * p + q * q == n,
        n <= 3 * (bound * bound),
        3 * (alpha * alpha + beta * beta) <= bus * bus,
    ensures
        abs(p * alpha + q * beta) <= bound * bus,
{
    let m = alpha * alpha + beta * beta;
    let y = p * alpha + q * beta;
    lemma_scaled_sum(p, q, alpha, beta);
    assert(m >= 0) by (nonlinear_arith)
        requires
            m == alpha * alpha + beta * beta,
    ;
    assert(n * m <= (bound * bound) * (bus * bus)) by (nonlinear_arith)
        requires
            n <= 3 * (bound * bound),
            0 <= 3 * m <= bus * bus,
    ;
    assert((bound * bus) * (bound * bus) == (bound * bound) * (bus * bus)) by (nonlinear_arith);
    assert(bound * bus >= 0) by (nonlinear_arith)
        requires
            bound >= 0,
            bus > 0,
    ;
    lemma_square_bound(y, bound * bus);
}

/// The exact voltages between the phases of a vector in the circle, doubled and in units of
/// `2^-24`, and its components.
proof fn lemma_exact_lines(alpha: int, beta: int, bus: int)
    requires
        bus > 0,
        3 * (alpha * alpha + beta * beta) <= bus * bus,
    ensures
        abs(0x300_0000 * alpha - 0x1bb_67ae * beta) <= 0x200_0000 * bus,
        abs(0x300_0000 * alpha + 0x1bb_67ae * beta) <= 0x200_0000 * bus,
        abs(0x1bb_67ae * beta) <= 0x100_0000 * bus,
        5 * abs(alpha) <= 3 * bus,
        5 * abs(beta) <= 3 * bus,
{
    assert(0x300_0000int * 0x300_0000 + -0x1bb_67aeint * -0x1bb_67ae == 0xb_ffff_fe31_7a44
        && 0x300_0000int * 0x300_0000 + 0x1bb_67aeint * 0x1bb_67ae == 0xb_ffff_fe31_7a44
        && 0x1bb_67aeint * 0x1bb_67ae == 0x2_ffff_fe31_7a44
        && 0x200_0000int * 0x200_0000 == 0x4_0000_0000_0000
        && 0x100_0000int * 0x100_0000 == 0x1_0000_0000_0000) by (nonlinear_arith);
    lemma_line(0x300_0000, -0x1bb_67ae, 0xb_ffff_fe31_7a44, alpha, beta, 0x200_0000, bus);
    lemma_line(0x300_0000, 0x1bb_67ae, 0xb_ffff_fe31_7a44, alpha, beta, 0x200_0000, bus);
    lemma_line(0, 0x1bb_67ae, 0x2_ffff_fe31_7a44, alpha, beta, 0x100_0000, bus);
    lemma_line(5, 0, 25, alpha, beta, 3, bus);
    lemma_line(0, 5, 25, alpha, beta, 3, bus);
}

/// The voltages between computed phases, given the distances of their parts from the exact
/// ones: `p` stands for minus half of `alpha`, `x` for the share of `beta`, `b` for their
/// sum and `c` for their difference.
proof fn lemma_lines(
    alpha: int,
    beta: int,
    p: int,
    x: int,
    b: int,
    c: int,
    bus: int,
    gap: int,
)
    requires
        bus > 0,
        3 * (alpha * alpha + beta * beta) <= bus * bus,
        0x80_0000 * gap <= bus,
        abs(2 * p + alpha) <= gap,
        2 * abs(0x100_0000 * x - beta * 0xdd_b3d7) <= 0x100_0000 * gap,
        2 * abs(b - (p + x)) <= gap,
        2 * abs(c - (p - x)) <= gap,
    ensures
        nearly_at_most(abs(alpha - b) as int, bus),
        nearly_at_most(abs(b - c) as int, bus),
        nearly_at_most(abs(c - alpha) as int, bus),
{
    lemma_exact_lines(alpha, beta, bus);
}

/// The exact sum and difference of the parts are at most the bus voltage.
proof fn lemma_exact_sums(alpha: int, beta: int, p: int, x: int, bus: int, gap: int)
    requires
        5 * abs(alpha) <= 3 * bus,
        5 * abs(beta) <= 3 * bus,
        0x80_0000 * gap <= bus,
        abs(2 * p + alpha) <= gap,
        2 * abs(0x100_0000 * x - beta * 0xdd_b3d7) <= 0x100_0000 * gap,
    ensures
        abs(p + x) <= bus,
        abs(p - x) <= bus,
{
}

/// The share of the second component in the phases.
proof fn lemma_beta_share(beta: Binary32, v_bus: Binary32)
    requires
        beta.finite(),
        v_bus.normal(),
        !v_bus.negative(),
        5 * abs(beta.value()) <= 3 * v_bus.value(),
    ensures
        (b32(HALF_SQRT_3) * beta).finite(),
        2 * abs(0x100_0000 * (b32(HALF_SQRT_3) * beta).value() - beta.value() * 0xdd_b3d7)
            <= 0x100_0000 * spacing(v_bus.mag()),
{
    let scale = b32(HALF_SQRT_3);
    lemma_around_one();
    lemma_clarke_factors();
    multiplication_is_commutative(scale, beta);
    lemma_share_error(beta, scale, v_bus);
    lemma_constant_factor(
        (scale * beta).value(),
        beta.value(),
        0xdd_b3d7,
        spacing(v_bus.mag()) as int,
    );
}

/// The phases of a vector in the circle.
proof fn lemma_phase_parts(v: AlphaBeta, v_bus: Binary32)
    requires
        v.alpha.finite(),
        v.beta.finite(),
        v_bus.normal(),
        v_bus > b32(ZERO),
        in_linear_range(v, v_bus),
    ensures
        ({
            let phases = inverse_clarke_of(v);
            let bus = v_bus.value();
            &&& phases.b.finite() && phases.c.finite()
            &&& nearly_at_most(abs(phases.a.value() - phases.b.value()) as int, bus)
            &&& nearly_at_most(abs(phases.b.value() - phases.c.value()) as int, bus)
            &&& nearly_at_most(abs(phases.c.value() - phases.a.value()) as int, bus)
        }),
{
    let phases = inverse_clarke_of(v);
    let alpha = v.alpha.value();
    let beta = v.beta.value();
    let bus = v_bus.value();
    let gap = spacing(v_bus.mag()) as int;
    let scale = b32(HALF_SQRT_3);
    let p = b32(MINUS_HALF) * v.alpha;
    let x = scale * v.beta;
    lemma_clarke_factors();
    lemma_relative_spacing(v_bus.mag());
    lemma_mag_units_order(v_bus.mag(), 0);
    lemma_exact_lines(alpha, beta, bus);
    lemma_minus_half(v.alpha, v_bus);
    lemma_beta_share(v.beta, v_bus);
    lemma_exact_sums(alpha, beta, p.value(), x.value(), bus, gap);
    assert((-x).value() == -x.value());
    sum_error_is_at_most_half_spacing(p, x, v_bus.mag());
    sum_error_is_at_most_half_spacing(p, -x, v_bus.mag());
    lemma_lines(
        alpha,
        beta,
        p.value(),
        x.value(),
        phases.b.value(),
        phases.c.value(),
        bus,
        gap,
    );
}

/// The phases of every vector in the circle span at most the bus voltage, up to one part in
/// `2^22`, so that the modulators keep its voltages.
pub proof fn linear_range_fits_bus(v: AlphaBeta, v_bus: Binary32)
    requires
        v.alpha.finite(),
        v.beta.finite(),
        v_bus.normal(),
        v_bus > b32(ZERO),
        in_linear_range(v, v_bus),
    ensures
        fits_bus(inverse_clarke_of(v), v_bus),
{
    let phases = inverse_clarke_of(v);
    lemma_phase_parts(v, v_bus);
    lemma_phase_signs(v);
    lemma_mag_units_order(0, 0);
    order_is_value_order(smallest(phases), b32(ZERO));
    order_is_value_order(b32(ZERO), largest(phases));
    order_is_value_order(b32(ZERO), v_bus);
    assert(largest(phases) == phases.a || largest(phases) == phases.b || largest(phases)
        == phases.c);
    assert(smallest(phases) == phases.a || smallest(phases) == phases.b || smallest(phases)
        == phases.c);
}

/// Two differences of duties that both stand for the same voltage are about the same.
proof fn lemma_same_line(d: int, s: int, line: int, bus: int)
    requires
        bus > 0,
        0x10_0000 * abs(d * bus - line) <= pow2(149) * bus,
        0x10_0000 * abs(s * bus - line) <= pow2(149) * bus,
    ensures
        0x8_0000 * abs(d - s) <= pow2(149),
{
    let u = pow2(149);
    assert((d - s) * bus == d * bus - s * bus) by (nonlinear_arith);
    assert(abs(d - s) * bus == abs((d - s) * bus)) by (nonlinear_arith)
        requires
            bus > 0,
    ;
    let n = abs(d - s) as int;
    assert(0x8_0000 * n <= u) by (nonlinear_arith)
        requires
            0x8_0000 * (n * bus) <= u * bus,
            bus > 0,
    ;
}

/// Discontinuous modulation of a vector in the circle holds one phase at an end of the bus,
/// keeps every duty between zero and one, and leads to the same differences between the
/// duties as centred modulation, up to one part in `2^19`.
pub proof fn dpwm_matches_svpwm_in_linear_range(v: AlphaBeta, param: DpwmParam)
    requires
        v.alpha.finite(),
        v.beta.finite(),
        param.v_bus.normal(),
        param.v_bus > b32(ZERO),
        in_linear_range(v, param.v_bus),
    ensures
        ({
            let d = dpwm_of(v, param);
            let s = svpwm_of(v, SvpwmParam { v_bus: param.v_bus });
            let end = match param.mode {
                DpwmMode::ClampMin => b32(ZERO),
                DpwmMode::ClampMax => b32(ONE),
            };
            let one = pow2(149);
            &&& d.duty_a.within(b32(ZERO), b32(ONE))
            &&& d.duty_b.within(b32(ZERO), b32(ONE))
            &&& d.duty_c.within(b32(ZERO), b32(ONE))
            &&& d.duty_a == end || d.duty_b == end || d.duty_c == end
            &&& 0x8_0000 * abs(
                (d.duty_a.value() - d.duty_b.value()) - (s.duty_a.value() - s.duty_b.value()),
            ) <= one
            &&& 0x8_0000 * abs(
                (d.duty_b.value() - d.duty_c.value()) - (s.duty_b.value() - s.duty_c.value()),
            ) <= one
            &&& 0x8_0000 * abs(
                (d.duty_c.value() - d.duty_a.value()) - (s.duty_c.value() - s.duty_a.value()),
            ) <= one
        }),
{
    let svpwm = SvpwmParam { v_bus: param.v_bus };
    let d = dpwm_of(v, param);
    let s = svpwm_of(v, svpwm);
    let phases = inverse_clarke_of(v);
    let bus = param.v_bus.value();
    let a = (phases.a.value() - phases.b.value()) * pow2(149);
    let b = (phases.b.value() - phases.c.value()) * pow2(149);
    let c = (phases.c.value() - phases.a.value()) * pow2(149);
    linear_range_fits_bus(v, param.v_bus);
    dpwm_stays_on_bus(v, param);
    dpwm_keeps_line_voltages(v, param);
    svpwm_keeps_line_voltages(v, svpwm);
    lemma_mag_units_order(0, 0);
    order_is_value_order(b32(ZERO), param.v_bus);
    lemma_same_line(
        d.duty_a.value() - d.duty_b.value(),
        s.duty_a.value() - s.duty_b.value(),
        a,
        bus,
    );
    lemma_same_line(
        d.duty_b.value() - d.duty_c.value(),
        s.duty_b.value() - s.duty_c.value(),
        b,
        bus,
    );
    lemma_same_line(
        d.duty_c.value() - d.duty_a.value(),
        s.duty_c.value() - s.duty_a.value(),
        c,
        bus,
    );
}

} // verus!
