//! The voltages between the phases that the duties of the modulators lead to.
//!
//! Values are integers in units of `2^-149`, so one is `2^149` and a duty times a voltage
//! is in units of `2^-298`.
use vstd::prelude::*;
use crate::accuracy::lemma_around_one;
use crate::accuracy::lemma_doubled_mag;
use crate::accuracy::lemma_product_of_difference;
use crate::arithmetic::addition_is_commutative;
use crate::arithmetic::addition_keeps_order;
use crate::arithmetic::fraction_lies_between_zero_and_whole;
use crate::arithmetic::lemma_div_kind;
use crate::arithmetic::lemma_sum_kind;
use crate::arithmetic::order_is_value_order;
use crate::arithmetic::product_error_is_at_most_half_own_spacing;
use crate::arithmetic::product_error_is_at_most_half_spacing;
use crate::arithmetic::quotient_error_is_at_most_half_spacing;
use crate::arithmetic::quotient_follows_signs;
use crate::arithmetic::sum_error_is_at_most_half_own_spacing;
use crate::arithmetic::sum_error_is_at_most_half_spacing;
use crate::arithmetic::sum_of_non_negatives;
use crate::arithmetic::zero_is_neutral;
use crate::binary32::b32;
use crate::binary32::Binary32;
use crate::binary32::HALF;
use crate::binary32::ONE;
use crate::binary32::TWO;
use crate::binary32::ZERO;
use crate::math::clamped;
use crate::modulation::centred_duty;
use crate::modulation::centring_offset;
use crate::modulation::dpwm_holds_highest_phase;
use crate::modulation::dpwm_holds_lowest_phase;
use crate::modulation::dpwm_of;
use crate::modulation::DpwmMode;
use crate::modulation::DpwmParam;
use crate::modulation::largest;
use crate::modulation::lemma_phase_signs;
use crate::modulation::plain_duties;
use crate::modulation::plain_duty;
use crate::modulation::smallest;
use crate::modulation::svpwm_of;
use crate::modulation::SvpwmParam;
use crate::modulation::zero_sequence_of;
use crate::nearest::lemma_mag_units_at;
use crate::nearest::lemma_mag_units_order;
use crate::nearest::lemma_relative_spacing;
use crate::nearest::lemma_spacing;
use crate::nearest::spacing;
use crate::rounding::INF_MAG;
use crate::rounding::mag_units;
use crate::transform::Abc;
use crate::transform::AlphaBeta;
use crate::transform::inverse_clarke_of;
use vstd::arithmetic::power2::lemma_pow2_unfold;
use vstd::arithmetic::power2::pow2;
use vstd::math::abs;

verus! {

/// Twice the distance of the voltage of a duty from a phase voltage and half a part that
/// all phases have in common.
pub open spec fn duty_deviation(
    duty: Binary32,
    v: Binary32,
    common: int,
    v_bus: Binary32,
) -> nat {
    abs(2 * (duty.value() * v_bus.value()) - common - 2 * (v.value() * pow2(149)))
}

/// What the duties `1/2 + (v - offset) / v_bus` of all phases have in common.
pub open spec fn centring(offset: Binary32, v_bus: Binary32) -> int {
    pow2(149) * v_bus.value() - 2 * (offset.value() * pow2(149))
}

/// The duty of a phase before its limits is off by at most three parts in `2^24`.
proof fn lemma_free_duty_error(v: Binary32, offset: Binary32, v_bus: Binary32)
    requires
        v.finite(),
        offset.finite(),
        v_bus.normal(),
        v_bus > b32(ZERO),
        abs(v.value() - offset.value()) <= v_bus.value(),
    ensures
        (b32(HALF) + (v - offset) / v_bus).finite(),
        duty_deviation(
            b32(HALF) + (v - offset) / v_bus,
            v,
            centring(offset, v_bus),
            v_bus,
        ) <= 6 * (pow2(125) * v_bus.value()),
{
    let bus = v_bus.value();
    let u = pow2(149);
    let d = v - offset;
    let q = d / v_bus;
    let p = b32(HALF) + q;
    let s = spacing(v_bus.mag());
    let e = pow2(125);
    let exact = v.value() - offset.value();
    lemma_around_one();
    lemma_relative_spacing(v_bus.mag());
    sum_error_is_at_most_half_spacing(v, -offset, v_bus.mag());
    lemma_mag_units_order(d.mag(), v_bus.mag());
    assert(abs(d.value()) * u <= u * bus) by (nonlinear_arith)
        requires
            abs(d.value()) <= bus,
            u > 0,
    ;
    quotient_error_is_at_most_half_spacing(d, v_bus, ONE as nat);
    lemma_mag_units_order(q.mag(), ONE as nat);
    sum_error_is_at_most_half_spacing(b32(HALF), q, 0x3fff_ffff);
    let first = p.value() - b32(HALF).value() - q.value();
    let second = q.value() * bus - d.value() * u;
    let third = d.value() - exact;
    assert(abs(2 * (first * bus)) <= 2 * (e * bus)) by (nonlinear_arith)
        requires
            2 * abs(first) <= 2 * e,
            bus > 0,
    ;
    assert(2 * abs(second) <= 2 * (e * bus)) by (nonlinear_arith)
        requires
            2 * abs(second) <= (2 * e) * bus,
    ;
    assert(abs(2 * (third * u)) <= 2 * (e * bus)) by (nonlinear_arith)
        requires
            2 * abs(third) <= s,
            0x80_0000 * s <= bus,
            u == 0x80_0000 * (2 * e),
            e > 0,
    ;
    lemma_product_of_difference(p.value() - b32(HALF).value(), q.value(), bus);
    lemma_product_of_difference(p.value(), b32(HALF).value(), bus);
    lemma_product_of_difference(d.value(), exact, u as int);
    lemma_product_of_difference(v.value(), offset.value(), u as int);
    assert(2 * (b32(HALF).value() * bus) == u * bus) by (nonlinear_arith)
        requires
            2 * b32(HALF).value() == u,
    ;
}

/// Whether a number is at most another one, or past it by no more than one part in `2^22`.
pub open spec fn nearly_at_most(x: int, bound: int) -> bool {
    0x40_0000 * (x - bound) <= bound
}

/// Limiting a duty to the bus does little harm where the exact duty nearly lies on the bus.
proof fn lemma_centred_duty_error(v: Binary32, offset: Binary32, v_bus: Binary32)
    requires
        v.finite(),
        offset.finite(),
        v_bus.normal(),
        v_bus > b32(ZERO),
        nearly_at_most(
            2 * abs(v.value() - offset.value()) - 2 * spacing(v_bus.mag()),
            v_bus.value(),
        ),
    ensures
        duty_deviation(
            centred_duty(v, offset, v_bus),
            v,
            centring(offset, v_bus),
            v_bus,
        ) <= 8 * (pow2(125) * v_bus.value()),
{
    let bus = v_bus.value();
    let u = pow2(149);
    let e = pow2(125);
    let s = spacing(v_bus.mag());
    let p = b32(HALF) + (v - offset) / v_bus;
    let exact = v.value() - offset.value();
    lemma_around_one();
    lemma_relative_spacing(v_bus.mag());
    lemma_free_duty_error(v, offset, v_bus);
    lemma_mag_units_order(0, 0);
    order_is_value_order(p, b32(ZERO));
    order_is_value_order(b32(ONE), p);
    assert(2 * abs(exact * u) <= u * bus + 8 * (e * bus)) by (nonlinear_arith)
        requires
            0x40_0000 * (2 * abs(exact) - 2 * s - bus) <= bus,
            0x80_0000 * s <= bus,
            u == 0x80_0000 * (2 * e),
            e > 0,
            bus > 0,
    ;
    assert(exact * u == v.value() * u - offset.value() * u) by (nonlinear_arith)
        requires
            exact == v.value() - offset.value(),
    ;
    assert(e * bus > 0) by (nonlinear_arith)
        requires
            e > 0,
            bus > 0,
    ;
    if p.value() < 0 {
        assert(p.value() * bus <= 0) by (nonlinear_arith)
            requires
                p.value() < 0,
                bus > 0,
        ;
        assert(0 * bus == 0);
    } else if p.value() > u {
        assert(p.value() * bus >= u * bus) by (nonlinear_arith)
            requires
                p.value() > u,
                bus > 0,
        ;
    }
}

/// The phase voltages are finite and span at most the bus voltage, up to one part in
/// `2^22`.
pub open spec fn fits_bus(v: Abc, v_bus: Binary32) -> bool {
    &&& v.a.finite() && v.b.finite() && v.c.finite()
    &&& nearly_at_most(largest(v).value() - smallest(v).value(), v_bus.value())
}

/// The common part that centres the phases is off by at most the spacing at the bus voltage.
proof fn lemma_centring_offset(v: Abc, v_bus: Binary32)
    requires
        fits_bus(v, v_bus),
        largest(v) >= b32(ZERO),
        smallest(v) <= b32(ZERO),
        v_bus.normal(),
        v_bus > b32(ZERO),
    ensures
        centring_offset(v).finite(),
        abs(2 * centring_offset(v).value() - (largest(v).value() + smallest(v).value())) <= 2
            * spacing(v_bus.mag()),
{
    let top = largest(v);
    let low = smallest(v);
    let sum = top + low;
    let offset = centring_offset(v);
    let u = pow2(149);
    let s = spacing(v_bus.mag());
    let limit = v_bus.mag() + 0x80_0000;
    lemma_around_one();
    lemma_relative_spacing(v_bus.mag());
    lemma_doubled_mag(v_bus.mag());
    lemma_mag_units_order(0, 0);
    order_is_value_order(b32(ZERO), top);
    order_is_value_order(low, b32(ZERO));
    // The sum lies between its terms.
    lemma_sum_kind(top, low);
    lemma_sum_kind(b32(ZERO), low);
    lemma_sum_kind(b32(ZERO), top);
    zero_is_neutral(top, b32(ZERO));
    zero_is_neutral(low, b32(ZERO));
    addition_is_commutative(top, low);
    addition_is_commutative(top, b32(ZERO));
    addition_keeps_order(low, b32(ZERO), top);
    addition_keeps_order(b32(ZERO), top, low);
    addition_is_commutative(b32(ZERO), low);
    order_is_value_order(low, sum);
    order_is_value_order(sum, top);
    sum_error_is_at_most_half_own_spacing(top, low);
    lemma_mag_units_order(limit, sum.mag());
    lemma_spacing(sum.mag(), limit);
    // Half of it.
    fraction_lies_between_zero_and_whole(b32(HALF), sum);
    product_error_is_at_most_half_own_spacing(b32(HALF), sum);
    lemma_half_in_limit(sum, v_bus.mag());
    lemma_spacing(offset.mag(), v_bus.mag());
    let gap = spacing(offset.mag());
    assert(abs(2 * offset.value() - sum.value()) <= s) by (nonlinear_arith)
        requires
            2 * abs(offset.value() * u - b32(HALF).value() * sum.value()) <= gap * u,
            gap <= s,
            2 * b32(HALF).value() == u,
            u > 0,
    ;
}

/// Half of a number up to twice a limit lies within the limit.
proof fn lemma_half_in_limit(x: Binary32, limit: nat)
    requires
        x.finite(),
        limit < INF_MAG,
        x.units() <= 2 * mag_units(limit),
    ensures
        (b32(HALF) * x).mag() <= limit,
{
    let u = pow2(149);
    lemma_around_one();
    assert(abs(b32(HALF).value() * x.value()) <= mag_units(limit) * u) by (nonlinear_arith)
        requires
            2 * b32(HALF).value() == u,
            abs(x.value()) == x.units(),
            x.units() <= 2 * mag_units(limit),
    ;
    product_error_is_at_most_half_spacing(b32(HALF), x, limit);
}

/// Distance of the voltage between two phases with given duties from that between two
/// given phase voltages.
pub open spec fn line_deviation(
    first: (Binary32, Binary32),
    second: (Binary32, Binary32),
    v_bus: Binary32,
) -> nat {
    abs(
        (first.0.value() - second.0.value()) * v_bus.value() - (first.1.value()
            - second.1.value()) * pow2(149),
    )
}

/// Whether the voltages between all phases with the given duties are those between the
/// given phase voltages, up to one part in `2^20` of the bus voltage.
pub open spec fn line_voltages_match(duties: Abc, v: Abc, v_bus: Binary32) -> bool {
    let limit = pow2(149) * v_bus.value();
    &&& 0x10_0000 * line_deviation((duties.a, v.a), (duties.b, v.b), v_bus) <= limit
    &&& 0x10_0000 * line_deviation((duties.b, v.b), (duties.c, v.c), v_bus) <= limit
    &&& 0x10_0000 * line_deviation((duties.c, v.c), (duties.a, v.a), v_bus) <= limit
}

/// Duties that deviate little, with the same common part, lead to matching line voltages.
proof fn lemma_line_deviation(
    first: (Binary32, Binary32),
    second: (Binary32, Binary32),
    common: int,
    v_bus: Binary32,
    parts: int,
)
    requires
        v_bus.value() > 0,
        duty_deviation(first.0, first.1, common, v_bus) <= parts * (pow2(125) * v_bus.value()),
        duty_deviation(second.0, second.1, common, v_bus) <= parts * (pow2(125) * v_bus.value()),
    ensures
        line_deviation(first, second, v_bus) <= parts * (pow2(125) * v_bus.value()),
        pow2(149) * v_bus.value() == 0x100_0000 * (pow2(125) * v_bus.value()),
{
    let bus = v_bus.value();
    let u = pow2(149);
    let e = pow2(125);
    lemma_around_one();
    let d = (first.0.value() - second.0.value()) * bus;
    let w = (first.1.value() - second.1.value()) * u;
    assert(d == first.0.value() * bus - second.0.value() * bus) by (nonlinear_arith)
        requires
            d == (first.0.value() - second.0.value()) * bus,
    ;
    assert(w == first.1.value() * u - second.1.value() * u) by (nonlinear_arith)
        requires
            w == (first.1.value() - second.1.value()) * u,
    ;
    assert(u * bus == 0x100_0000 * (e * bus)) by (nonlinear_arith)
        requires
            u == 0x80_0000 * (2 * e),
    ;
    assert(e * bus > 0) by (nonlinear_arith)
        requires
            e > 0,
            bus > 0,
    ;
}

/// Centring the phases does not change the voltages between them: while they span at most
/// the bus voltage, the duties lead to the voltages of the vector, up to rounding.
pub proof fn svpwm_keeps_line_voltages(v_alpha_beta: AlphaBeta, param: SvpwmParam)
    requires
        v_alpha_beta.alpha.finite(),
        v_alpha_beta.beta.finite(),
        param.v_bus.normal(),
        param.v_bus > b32(ZERO),
        fits_bus(inverse_clarke_of(v_alpha_beta), param.v_bus),
    ensures
        ({
            let out = svpwm_of(v_alpha_beta, param);
            line_voltages_match(
                Abc { a: out.duty_a, b: out.duty_b, c: out.duty_c },
                inverse_clarke_of(v_alpha_beta),
                param.v_bus,
            )
        }),
{
    let v = inverse_clarke_of(v_alpha_beta);
    let bus = param.v_bus;
    let offset = centring_offset(v);
    lemma_phase_signs(v_alpha_beta);
    lemma_centring_offset(v, bus);
    lemma_relative_spacing(bus.mag());
    lemma_between(v);
    lemma_centred_duty_error(v.a, offset, bus);
    lemma_centred_duty_error(v.b, offset, bus);
    lemma_centred_duty_error(v.c, offset, bus);
    let a = (centred_duty(v.a, offset, bus), v.a);
    let b = (centred_duty(v.b, offset, bus), v.b);
    let c = (centred_duty(v.c, offset, bus), v.c);
    lemma_line_deviation(a, b, centring(offset, bus), bus, 8);
    lemma_line_deviation(b, c, centring(offset, bus), bus, 8);
    lemma_line_deviation(c, a, centring(offset, bus), bus, 8);
}

/// Every phase lies between the smallest and the largest.
proof fn lemma_between(v: Abc)
    requires
        v.a.finite(),
        v.b.finite(),
        v.c.finite(),
    ensures
        smallest(v).value() <= v.a.value() <= largest(v).value(),
        smallest(v).value() <= v.b.value() <= largest(v).value(),
        smallest(v).value() <= v.c.value() <= largest(v).value(),
{
    order_is_value_order(smallest(v), v.a);
    order_is_value_order(smallest(v), v.b);
    order_is_value_order(smallest(v), v.c);
    order_is_value_order(v.a, largest(v));
    order_is_value_order(v.b, largest(v));
    order_is_value_order(v.c, largest(v));
}

/// Centring puts the middle of the duties to one half: the largest and the smallest add up
/// to one, up to one part in `2^20`.
pub proof fn svpwm_centres_duties(v_alpha_beta: AlphaBeta, v_bus: Binary32)
    requires
        v_alpha_beta.alpha.finite(),
        v_alpha_beta.beta.finite(),
        v_bus.normal(),
        v_bus > b32(ZERO),
        fits_bus(inverse_clarke_of(v_alpha_beta), v_bus),
    ensures
        ({
            let v = inverse_clarke_of(v_alpha_beta);
            let top = centred_duty(largest(v), centring_offset(v), v_bus);
            let low = centred_duty(smallest(v), centring_offset(v), v_bus);
            0x10_0000 * abs(top.value() + low.value() - pow2(149)) <= pow2(149)
        }),
{
    let v = inverse_clarke_of(v_alpha_beta);
    let offset = centring_offset(v);
    let top = centred_duty(largest(v), offset, v_bus);
    let low = centred_duty(smallest(v), offset, v_bus);
    let bus = v_bus.value();
    let u = pow2(149);
    let e = pow2(125);
    let s = spacing(v_bus.mag());
    lemma_around_one();
    lemma_phase_signs(v_alpha_beta);
    lemma_centring_offset(v, v_bus);
    lemma_relative_spacing(v_bus.mag());
    lemma_between(v);
    lemma_centred_duty_error(largest(v), offset, v_bus);
    lemma_centred_duty_error(smallest(v), offset, v_bus);
    let sum = top.value() + low.value() - u;
    let middle = largest(v).value() + smallest(v).value() - 2 * offset.value();
    assert(abs(2 * (middle * u)) <= 8 * (e * bus)) by (nonlinear_arith)
        requires
            abs(middle) <= 2 * s,
            0x80_0000 * s <= bus,
            u == 0x80_0000 * (2 * e),
            e > 0,
    ;
    assert(2 * (sum * bus) == 2 * (top.value() * bus) + 2 * (low.value() * bus) - 2 * (u * bus))
        by (nonlinear_arith)
        requires
            sum == top.value() + low.value() - u,
    ;
    assert(2 * (middle * u) == 2 * (largest(v).value() * u) + 2 * (smallest(v).value() * u) - 4 * (
    offset.value() * u)) by (nonlinear_arith)
        requires
            middle == largest(v).value() + smallest(v).value() - 2 * offset.value(),
    ;
    assert(abs(sum) <= 12 * e) by (nonlinear_arith)
        requires
            abs(2 * (sum * bus)) <= 24 * (e * bus),
            bus > 0,
    ;
}

/// The plain duty of a phase voltage up to the bus voltage is off by at most two parts in
/// `2^24`.
proof fn lemma_plain_duty_error(v: Binary32, v_bus: Binary32)
    requires
        v.finite(),
        v_bus.normal(),
        v_bus > b32(ZERO),
        nearly_at_most(abs(v.value()) as int, v_bus.value()),
    ensures
        plain_duty(v, v_bus).finite(),
        2 * abs(plain_duty(v, v_bus).value()) <= 3 * pow2(149) + 16 * pow2(126),
        duty_deviation(plain_duty(v, v_bus), v, pow2(149) * v_bus.value(), v_bus) <= 4 * (pow2(125)
            * v_bus.value()),
{
    let bus = v_bus.value();
    let u = pow2(149);
    let q = v / v_bus;
    let p = plain_duty(v, v_bus);
    let e = pow2(125);
    lemma_around_one();
    lemma_relative_spacing(v_bus.mag());
    assert(abs(v.value()) * u <= (0xff_ffff * pow2(126)) * bus) by (nonlinear_arith)
        requires
            0x40_0000 * (abs(v.value()) - bus) <= bus,
            u == 0x80_0000 * pow2(126),
            bus > 0,
            pow2(126) > 0,
    ;
    quotient_error_is_at_most_half_spacing(v, v_bus, 0x3fff_ffff);
    assert(abs(q.value()) <= u + 5 * e) by (nonlinear_arith)
        requires
            2 * abs(q.value() * bus - v.value() * u) <= (2 * e) * bus,
            0x40_0000 * (abs(v.value()) - bus) <= bus,
            u == 0x100_0000 * e,
            bus > 0,
            e > 0,
    ;
    sum_error_is_at_most_half_spacing(b32(HALF), q, 0x3fff_ffff);
    let first = p.value() - b32(HALF).value() - q.value();
    let second = q.value() * bus - v.value() * u;
    assert(abs(2 * (first * bus)) <= 2 * (e * bus)) by (nonlinear_arith)
        requires
            2 * abs(first) <= 2 * e,
            bus > 0,
    ;
    assert(2 * abs(second) <= 2 * (e * bus)) by (nonlinear_arith)
        requires
            2 * abs(second) <= (2 * e) * bus,
    ;
    lemma_product_of_difference(p.value() - b32(HALF).value(), q.value(), bus);
    lemma_product_of_difference(p.value(), b32(HALF).value(), bus);
    assert(2 * (b32(HALF).value() * bus) == u * bus) by (nonlinear_arith)
        requires
            2 * b32(HALF).value() == u,
    ;
}

/// Adding the common part and limiting to the bus adds one part in `2^24`, where the exact
/// duty lies on the bus up to twice as much.
proof fn lemma_moved_duty_error(d: Binary32, zero: Binary32, v: Binary32, v_bus: Binary32)
    requires
        v_bus.normal(),
        v_bus > b32(ZERO),
        movable(v, d, zero, v_bus),
    ensures
        duty_deviation(
            clamped(d + zero, b32(ZERO), b32(ONE)),
            v,
            pow2(149) * v_bus.value() + 2 * (zero.value() * v_bus.value()),
            v_bus,
        ) <= 14 * (pow2(125) * v_bus.value()),
{
    let bus = v_bus.value();
    let u = pow2(149);
    let e = pow2(125);
    let r = d + zero;
    reveal(movable);
    lemma_around_one();
    lemma_relative_spacing(v_bus.mag());
    lemma_mag_units_order(0, 0);
    sum_error_is_at_most_half_spacing(d, zero, 0x3fff_ffff);
    order_is_value_order(r, b32(ZERO));
    order_is_value_order(b32(ONE), r);
    let third = r.value() - d.value() - zero.value();
    assert(abs(2 * (third * bus)) <= 2 * (e * bus)) by (nonlinear_arith)
        requires
            2 * abs(third) <= 2 * e,
            bus > 0,
    ;
    assert(2 * (r.value() * bus) == 2 * (third * bus) + 2 * (d.value() * bus) + 2 * (zero.value()
        * bus)) by (nonlinear_arith)
        requires
            third == r.value() - d.value() - zero.value(),
    ;
    assert(e * bus > 0) by (nonlinear_arith)
        requires
            e > 0,
            bus > 0,
    ;
    if r.value() < 0 {
        assert(r.value() * bus <= 0) by (nonlinear_arith)
            requires
                r.value() < 0,
                bus > 0,
        ;
        assert(0 * bus == 0);
    } else if r.value() > u {
        assert(r.value() * bus >= u * bus) by (nonlinear_arith)
            requires
                r.value() > u,
                bus > 0,
        ;
    }
}

/// A duty moved down by the lowest stays on the bus.
proof fn lemma_moved_down(p: int, x: int, low: int, y: int, bus: int)
    requires
        bus > 0,
        low <= p,
        nearly_at_most(abs(x - y) as int, bus),
        abs(2 * (p * bus) - pow2(149) * bus - 2 * (x * pow2(149))) <= 4 * (pow2(125) * bus),
        abs(2 * (low * bus) - pow2(149) * bus - 2 * (y * pow2(149))) <= 4 * (pow2(125) * bus),
    ensures
        2 * abs(p - low) <= 3 * pow2(149),
        ({
            let moved = pow2(149) * bus + 2 * (-low * bus) + 2 * (x * pow2(149));
            -14 * (pow2(125) * bus) <= moved <= 2 * (pow2(149) * bus) + 14 * (pow2(125) * bus)
        }),
{
    let e = pow2(125);
    lemma_around_one();
    lemma_span_products(x, y, bus);
    assert(-low * bus == -(low * bus)) by (nonlinear_arith);
    assert(low * bus <= p * bus) by (nonlinear_arith)
        requires
            low <= p,
            bus > 0,
    ;
    assert(e * bus > 0) by (nonlinear_arith)
        requires
            e > 0,
            bus > 0,
    ;
    lemma_product_of_difference(p, low, bus);
    lemma_on_bus(p - low, bus);
}

/// A duty moved up with the highest stays on the bus.
proof fn lemma_moved_up(p: int, x: int, top: int, y: int, zero: int, bus: int)
    requires
        bus > 0,
        p <= top,
        nearly_at_most(abs(x - y) as int, bus),
        2 * abs(zero - (pow2(149) - top)) <= pow2(126),
        abs(2 * (p * bus) - pow2(149) * bus - 2 * (x * pow2(149))) <= 4 * (pow2(125) * bus),
        abs(2 * (top * bus) - pow2(149) * bus - 2 * (y * pow2(149))) <= 4 * (pow2(125) * bus),
    ensures
        2 * abs(p + zero) <= 3 * pow2(149),
        ({
            let moved = pow2(149) * bus + 2 * (zero * bus) + 2 * (x * pow2(149));
            -14 * (pow2(125) * bus) <= moved <= 2 * (pow2(149) * bus) + 14 * (pow2(125) * bus)
        }),
{
    let u = pow2(149);
    let e = pow2(125);
    let rest = zero - (u - top);
    lemma_around_one();
    lemma_span_products(x, y, bus);
    assert(p * bus <= top * bus) by (nonlinear_arith)
        requires
            p <= top,
            bus > 0,
    ;
    assert(abs(2 * (rest * bus)) <= 2 * (e * bus)) by (nonlinear_arith)
        requires
            2 * abs(rest) <= 2 * e,
            bus > 0,
    ;
    lemma_product_of_difference(zero, u - top, bus);
    lemma_product_of_difference(u as int, top, bus);
    assert(e * bus > 0) by (nonlinear_arith)
        requires
            e > 0,
            bus > 0,
    ;
    assert((p + zero) * bus == p * bus + zero * bus) by (nonlinear_arith);
    lemma_on_bus(p + zero, bus);
}

/// A duty whose voltage lies on the bus up to nine parts in `2^24` is at most one and a
/// half.
proof fn lemma_on_bus(duty: int, bus: int)
    requires
        bus > 0,
        -18 * (pow2(125) * bus) <= 2 * (duty * bus),
        2 * (duty * bus) <= 2 * (pow2(149) * bus) + 18 * (pow2(125) * bus),
    ensures
        2 * abs(duty) <= 3 * pow2(149),
{
    let u = pow2(149);
    let e = pow2(125);
    lemma_around_one();
    assert(2 * duty >= -18 * e) by (nonlinear_arith)
        requires
            bus > 0,
            -18 * (e * bus) <= 2 * (duty * bus),
    ;
    assert(2 * duty <= 2 * u + 18 * e) by (nonlinear_arith)
        requires
            bus > 0,
            2 * (duty * bus) <= 2 * (u * bus) + 18 * (e * bus),
    ;
}

/// What a phase voltage, its duty and the common part fulfil.
#[verifier::opaque]
spec fn movable(x: Binary32, p: Binary32, zero: Binary32, v_bus: Binary32) -> bool {
    let bus = v_bus.value();
    let moved = pow2(149) * bus + 2 * (zero.value() * bus) + 2 * (x.value() * pow2(149));
    &&& p.finite()
    &&& zero.finite()
    &&& duty_deviation(p, x, pow2(149) * bus, v_bus) <= 4 * (pow2(125) * bus)
    &&& 2 * abs(p.value() + zero.value()) <= 3 * pow2(149)
    &&& -14 * (pow2(125) * bus) <= moved
    &&& moved <= 2 * (pow2(149) * bus) + 14 * (pow2(125) * bus)
}

/// Taking the duty of the lowest phase off keeps the duty of a phase on the bus.
proof fn lemma_movable_down(x: Binary32, y: Binary32, v_bus: Binary32)
    requires
        x.finite(),
        y.finite(),
        v_bus.normal(),
        v_bus > b32(ZERO),
        nearly_at_most(abs(x.value()) as int, v_bus.value()),
        nearly_at_most(abs(y.value()) as int, v_bus.value()),
        nearly_at_most(abs(x.value() - y.value()) as int, v_bus.value()),
        plain_duty(y, v_bus) <= plain_duty(x, v_bus),
    ensures
        movable(x, plain_duty(x, v_bus), -plain_duty(y, v_bus), v_bus),
{
    reveal(movable);
    let p = plain_duty(x, v_bus);
    let low = plain_duty(y, v_bus);
    lemma_relative_spacing(v_bus.mag());
    lemma_plain_duty_error(x, v_bus);
    lemma_plain_duty_error(y, v_bus);
    order_is_value_order(low, p);
    lemma_mag_units_order(low.mag(), 0);
    lemma_moved_down(p.value(), x.value(), low.value(), y.value(), v_bus.value());
}

/// Adding what the duty of the highest phase lacks to one keeps the duty of a phase on the
/// bus.
proof fn lemma_movable_up(x: Binary32, y: Binary32, v_bus: Binary32)
    requires
        x.finite(),
        y.finite(),
        v_bus.normal(),
        v_bus > b32(ZERO),
        nearly_at_most(abs(x.value()) as int, v_bus.value()),
        nearly_at_most(abs(y.value()) as int, v_bus.value()),
        nearly_at_most(abs(x.value() - y.value()) as int, v_bus.value()),
        plain_duty(x, v_bus) <= plain_duty(y, v_bus),
        plain_duty(y, v_bus) >= b32(ZERO),
    ensures
        movable(x, plain_duty(x, v_bus), b32(ONE) - plain_duty(y, v_bus), v_bus),
{
    reveal(movable);
    let p = plain_duty(x, v_bus);
    let top = plain_duty(y, v_bus);
    let zero = b32(ONE) - top;
    lemma_around_one();
    lemma_relative_spacing(v_bus.mag());
    lemma_plain_duty_error(x, v_bus);
    lemma_plain_duty_error(y, v_bus);
    order_is_value_order(p, top);
    order_is_value_order(b32(ZERO), top);
    lemma_mag_units_order(0, 0);
    sum_error_is_at_most_half_spacing(b32(ONE), -top, 0x3fff_ffff);
    lemma_moved_up(
        p.value(),
        x.value(),
        top.value(),
        y.value(),
        zero.value(),
        v_bus.value(),
    );
}

/// The duty of a phase voltage that is not negative is not negative.
proof fn lemma_plain_duty_sign(v: Binary32, v_bus: Binary32)
    requires
        v.finite(),
        v >= b32(ZERO),
        v_bus.finite(),
        v_bus > b32(ZERO),
    ensures
        plain_duty(v, v_bus) >= b32(ZERO),
{
    lemma_div_kind(v, v_bus);
    quotient_follows_signs(v, v_bus);
    sum_of_non_negatives(b32(HALF), v / v_bus);
}

/// The ends of three finite numbers are among them and bound them.
proof fn lemma_ends(d: Abc)
    requires
        d.a.finite(),
        d.b.finite(),
        d.c.finite(),
    ensures
        largest(d) == d.a || largest(d) == d.b || largest(d) == d.c,
        smallest(d) == d.a || smallest(d) == d.b || smallest(d) == d.c,
        d.a.within(smallest(d), largest(d)),
        d.b.within(smallest(d), largest(d)),
        d.c.within(smallest(d), largest(d)),
{
}

/// The voltages of two phases, and their difference, are at most the bus voltage.
spec fn on_bus(x: Binary32, y: Binary32, v_bus: Binary32) -> bool {
    &&& x.finite() && y.finite()
    &&& nearly_at_most(abs(x.value()) as int, v_bus.value())
    &&& nearly_at_most(abs(y.value()) as int, v_bus.value())
    &&& nearly_at_most(abs(x.value() - y.value()) as int, v_bus.value())
}

/// The phases of a vector that fits the bus.
proof fn lemma_phases_on_bus(v_alpha_beta: AlphaBeta, v_bus: Binary32)
    requires
        v_alpha_beta.alpha.finite(),
        v_alpha_beta.beta.finite(),
        fits_bus(inverse_clarke_of(v_alpha_beta), v_bus),
    ensures
        ({
            let v = inverse_clarke_of(v_alpha_beta);
            on_bus(v.a, v.b, v_bus) && on_bus(v.b, v.c, v_bus) && on_bus(v.c, v.a, v_bus)
        }),
{
    let v = inverse_clarke_of(v_alpha_beta);
    lemma_phase_signs(v_alpha_beta);
    lemma_all_on_bus(v, v_bus);
}

proof fn lemma_all_on_bus(v: Abc, v_bus: Binary32)
    requires
        fits_bus(v, v_bus),
        largest(v) >= b32(ZERO),
        smallest(v) <= b32(ZERO),
    ensures
        on_bus(v.a, v.b, v_bus) && on_bus(v.b, v.c, v_bus) && on_bus(v.c, v.a, v_bus),
{
    let high = largest(v).value();
    let low = smallest(v).value();
    lemma_mag_units_order(0, 0);
    lemma_between(v);
    assert(low <= 0 <= high) by {
        lemma_ends(v);
        order_is_value_order(b32(ZERO), largest(v));
        order_is_value_order(smallest(v), b32(ZERO));
    }
    lemma_spanned(v.a.value(), v.b.value(), low, high, v_bus.value());
    lemma_spanned(v.b.value(), v.c.value(), low, high, v_bus.value());
    lemma_spanned(v.c.value(), v.a.value(), low, high, v_bus.value());
}

/// Numbers between ends around zero are at most as large as their span.
proof fn lemma_spanned(x: int, y: int, low: int, high: int, span: int)
    requires
        low <= x <= high,
        low <= y <= high,
        low <= 0 <= high,
        nearly_at_most(high - low, span),
    ensures
        nearly_at_most(abs(x) as int, span),
        nearly_at_most(abs(y) as int, span),
        nearly_at_most(abs(x - y) as int, span),
{
}

/// Their plain duties.
proof fn lemma_plain_duties(v_alpha_beta: AlphaBeta, v_bus: Binary32)
    requires
        v_alpha_beta.alpha.finite(),
        v_alpha_beta.beta.finite(),
        v_bus.normal(),
        v_bus > b32(ZERO),
        fits_bus(inverse_clarke_of(v_alpha_beta), v_bus),
    ensures
        ({
            let d = plain_duties(v_alpha_beta, v_bus);
            &&& d.a.finite() && d.b.finite() && d.c.finite()
            &&& largest(d) >= b32(ZERO)
        }),
{
    let v = inverse_clarke_of(v_alpha_beta);
    let d = plain_duties(v_alpha_beta, v_bus);
    lemma_phases_on_bus(v_alpha_beta, v_bus);
    lemma_plain_duty_is_finite(v.a, v_bus);
    lemma_plain_duty_is_finite(v.b, v_bus);
    lemma_plain_duty_is_finite(v.c, v_bus);
    lemma_phase_signs(v_alpha_beta);
    lemma_ends(v);
    lemma_plain_duty_sign(largest(v), v_bus);
    lemma_ends(d);
}

proof fn lemma_plain_duty_is_finite(v: Binary32, v_bus: Binary32)
    requires
        v.finite(),
        v_bus.normal(),
        v_bus > b32(ZERO),
        nearly_at_most(abs(v.value()) as int, v_bus.value()),
    ensures
        plain_duty(v, v_bus).finite(),
{
    lemma_plain_duty_error(v, v_bus);
}

/// One of the common parts of discontinuous modulation keeps the duty of a phase on the
/// bus, if it comes from the phase `y`.
proof fn lemma_movable(v: Abc, y: Binary32, param: DpwmParam)
    requires
        param.v_bus.normal(),
        param.v_bus > b32(ZERO),
        on_bus(v.a, y, param.v_bus),
        on_bus(v.b, y, param.v_bus),
        on_bus(v.c, y, param.v_bus),
        match param.mode {
            DpwmMode::ClampMin => {
                &&& plain_duty(y, param.v_bus) <= plain_duty(v.a, param.v_bus)
                &&& plain_duty(y, param.v_bus) <= plain_duty(v.b, param.v_bus)
                &&& plain_duty(y, param.v_bus) <= plain_duty(v.c, param.v_bus)
            },
            DpwmMode::ClampMax => {
                &&& plain_duty(y, param.v_bus) >= plain_duty(v.a, param.v_bus)
                &&& plain_duty(y, param.v_bus) >= plain_duty(v.b, param.v_bus)
                &&& plain_duty(y, param.v_bus) >= plain_duty(v.c, param.v_bus)
                &&& plain_duty(y, param.v_bus) >= b32(ZERO)
            },
        },
    ensures
        ({
            let bus = param.v_bus;
            let zero = match param.mode {
                DpwmMode::ClampMin => -plain_duty(y, bus),
                DpwmMode::ClampMax => b32(ONE) - plain_duty(y, bus),
            };
            &&& movable(v.a, plain_duty(v.a, bus), zero, bus)
            &&& movable(v.b, plain_duty(v.b, bus), zero, bus)
            &&& movable(v.c, plain_duty(v.c, bus), zero, bus)
        }),
{
    let bus = param.v_bus;
    match param.mode {
        DpwmMode::ClampMin => {
            lemma_movable_down(v.a, y, bus);
            lemma_movable_down(v.b, y, bus);
            lemma_movable_down(v.c, y, bus);
        },
        DpwmMode::ClampMax => {
            lemma_movable_up(v.a, y, bus);
            lemma_movable_up(v.b, y, bus);
            lemma_movable_up(v.c, y, bus);
        },
    }
}

/// A difference that is nearly at most the bus voltage, scaled.
proof fn lemma_span_products(x: int, y: int, bus: int)
    requires
        nearly_at_most(abs(x - y) as int, bus),
    ensures
        abs(x * pow2(149) - y * pow2(149)) <= pow2(149) * bus + 4 * (pow2(125) * bus),
{
    let u = pow2(149);
    let e = pow2(125);
    lemma_around_one();
    assert(abs(x * u - y * u) <= u * bus + 4 * (e * bus)) by (nonlinear_arith)
        requires
            0x40_0000 * (abs(x - y) - bus) <= bus,
            u == 0x100_0000 * e,
            e > 0,
    ;
}

/// Moving one phase to an end of the bus does not change the voltages between the phases:
/// while they span at most the bus voltage, the duties lead to the voltages of the vector,
/// up to rounding.
pub proof fn dpwm_keeps_line_voltages(v_alpha_beta: AlphaBeta, param: DpwmParam)
    requires
        v_alpha_beta.alpha.finite(),
        v_alpha_beta.beta.finite(),
        param.v_bus.normal(),
        param.v_bus > b32(ZERO),
        fits_bus(inverse_clarke_of(v_alpha_beta), param.v_bus),
    ensures
        ({
            let out = dpwm_of(v_alpha_beta, param);
            line_voltages_match(
                Abc { a: out.duty_a, b: out.duty_b, c: out.duty_c },
                inverse_clarke_of(v_alpha_beta),
                param.v_bus,
            )
        }),
{
    let v = inverse_clarke_of(v_alpha_beta);
    let bus = param.v_bus;
    let d = plain_duties(v_alpha_beta, bus);
    let zero = zero_sequence_of(d, param.mode);
    lemma_relative_spacing(bus.mag());
    lemma_phases_on_bus(v_alpha_beta, bus);
    lemma_plain_duties(v_alpha_beta, bus);
    lemma_ends(d);
    let held = match param.mode {
        DpwmMode::ClampMin => smallest(d),
        DpwmMode::ClampMax => largest(d),
    };
    let y = if held == d.a {
        v.a
    } else if held == d.b {
        v.b
    } else {
        v.c
    };
    lemma_movable(v, y, param);
    lemma_moved_duty_error(d.a, zero, v.a, bus);
    lemma_moved_duty_error(d.b, zero, v.b, bus);
    lemma_moved_duty_error(d.c, zero, v.c, bus);
    let a = (clamped(d.a + zero, b32(ZERO), b32(ONE)), v.a);
    let b = (clamped(d.b + zero, b32(ZERO), b32(ONE)), v.b);
    let c = (clamped(d.c + zero, b32(ZERO), b32(ONE)), v.c);
    let common = pow2(149) * bus.value() + 2 * (zero.value() * bus.value());
    lemma_line_deviation(a, b, common, bus, 14);
    lemma_line_deviation(b, c, common, bus, 14);
    lemma_line_deviation(c, a, common, bus, 14);
}

/// Discontinuous modulation of phases that span at most the bus voltage keeps every duty
/// between zero and one and holds one of them at the chosen end.
pub proof fn dpwm_stays_on_bus(v_alpha_beta: AlphaBeta, param: DpwmParam)
    requires
        v_alpha_beta.alpha.finite(),
        v_alpha_beta.beta.finite(),
        param.v_bus.normal(),
        param.v_bus > b32(ZERO),
        fits_bus(inverse_clarke_of(v_alpha_beta), param.v_bus),
    ensures
        ({
            let out = dpwm_of(v_alpha_beta, param);
            let end = match param.mode {
                DpwmMode::ClampMin => b32(ZERO),
                DpwmMode::ClampMax => b32(ONE),
            };
            &&& out.duty_a.within(b32(ZERO), b32(ONE))
            &&& out.duty_b.within(b32(ZERO), b32(ONE))
            &&& out.duty_c.within(b32(ZERO), b32(ONE))
            &&& out.duty_a == end || out.duty_b == end || out.duty_c == end
        }),
{
    lemma_dpwm_limits(v_alpha_beta, param);
    lemma_dpwm_end(v_alpha_beta, param);
}

/// The part of every duty that is common to all is a number.
proof fn lemma_zero_sequence(d: Abc, mode: DpwmMode)
    requires
        d.a.finite() && d.b.finite() && d.c.finite(),
    ensures
        !zero_sequence_of(d, mode).nan(),
{
    lemma_ends_are_finite(d);
    let top = largest(d);
    let low = smallest(d);
    lemma_complement(top);
    assert(!(-low).nan());
}

/// The ends of finite numbers are finite.
proof fn lemma_ends_are_finite(d: Abc)
    requires
        d.a.finite() && d.b.finite() && d.c.finite(),
    ensures
        largest(d).finite(),
        smallest(d).finite(),
{
}

/// One less a finite number is a number.
proof fn lemma_complement(x: Binary32)
    requires
        x.finite(),
    ensures
        !(b32(ONE) - x).nan(),
{
    lemma_sum_kind(b32(ONE), -x);
}

/// The duties lie between zero and one.
proof fn lemma_dpwm_limits(v_alpha_beta: AlphaBeta, param: DpwmParam)
    requires
        v_alpha_beta.alpha.finite(),
        v_alpha_beta.beta.finite(),
        param.v_bus.normal(),
        param.v_bus > b32(ZERO),
        fits_bus(inverse_clarke_of(v_alpha_beta), param.v_bus),
    ensures
        dpwm_of(v_alpha_beta, param).duty_a.within(b32(ZERO), b32(ONE)),
        dpwm_of(v_alpha_beta, param).duty_b.within(b32(ZERO), b32(ONE)),
        dpwm_of(v_alpha_beta, param).duty_c.within(b32(ZERO), b32(ONE)),
{
    let d = plain_duties(v_alpha_beta, param.v_bus);
    let zero = zero_sequence_of(d, param.mode);
    lemma_plain_duties(v_alpha_beta, param.v_bus);
    lemma_zero_sequence(d, param.mode);
    lemma_limited_sum(d.a, zero);
    lemma_limited_sum(d.b, zero);
    lemma_limited_sum(d.c, zero);
}

/// One duty lies at the chosen end.
proof fn lemma_dpwm_end(v_alpha_beta: AlphaBeta, param: DpwmParam)
    requires
        v_alpha_beta.alpha.finite(),
        v_alpha_beta.beta.finite(),
        param.v_bus.normal(),
        param.v_bus > b32(ZERO),
        fits_bus(inverse_clarke_of(v_alpha_beta), param.v_bus),
    ensures
        ({
            let out = dpwm_of(v_alpha_beta, param);
            let end = match param.mode {
                DpwmMode::ClampMin => b32(ZERO),
                DpwmMode::ClampMax => b32(ONE),
            };
            out.duty_a == end || out.duty_b == end || out.duty_c == end
        }),
{
    lemma_plain_duties(v_alpha_beta, param.v_bus);
    if param.mode == DpwmMode::ClampMin {
        dpwm_holds_lowest_phase(v_alpha_beta, param);
    } else {
        lemma_largest_plain_duty(v_alpha_beta, param.v_bus);
        dpwm_holds_highest_phase(v_alpha_beta, param);
    }
}

/// A sum that is limited to zero and one.
proof fn lemma_limited_sum(x: Binary32, y: Binary32)
    requires
        x.finite(),
        !y.nan(),
    ensures
        clamped(x + y, b32(ZERO), b32(ONE)).within(b32(ZERO), b32(ONE)),
{
    lemma_sum_kind(x, y);
}

/// The largest plain duty is at most two.
proof fn lemma_largest_plain_duty(v_alpha_beta: AlphaBeta, v_bus: Binary32)
    requires
        v_alpha_beta.alpha.finite(),
        v_alpha_beta.beta.finite(),
        v_bus.normal(),
        v_bus > b32(ZERO),
        fits_bus(inverse_clarke_of(v_alpha_beta), v_bus),
    ensures
        largest(plain_duties(v_alpha_beta, v_bus)) <= b32(TWO),
{
    let v = inverse_clarke_of(v_alpha_beta);
    lemma_phases_on_bus(v_alpha_beta, v_bus);
    lemma_plain_duty_at_most_two(v.a, v_bus);
    lemma_plain_duty_at_most_two(v.b, v_bus);
    lemma_plain_duty_at_most_two(v.c, v_bus);
}

/// The plain duty of a phase voltage that is nearly at most the bus voltage is at most two.
proof fn lemma_plain_duty_at_most_two(v: Binary32, v_bus: Binary32)
    requires
        v.finite(),
        v_bus.normal(),
        v_bus > b32(ZERO),
        nearly_at_most(abs(v.value()) as int, v_bus.value()),
    ensures
        plain_duty(v, v_bus) <= b32(TWO),
{
    lemma_around_one();
    lemma_mag_units_at(127, 0x80_0000);
    lemma_pow2_unfold(127);
    lemma_plain_duty_error(v, v_bus);
    assert(TWO as nat == 0x80_0000 * 127 + 0x80_0000);
    order_is_value_order(plain_duty(v, v_bus), b32(TWO));
}

} // verus!
