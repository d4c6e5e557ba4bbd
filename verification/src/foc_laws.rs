//! The frames in exact reals, up to rounding, and what the current loop does in them.
use vstd::prelude::*;
use crate::accuracy::inverse_park_and_back_scales_vector;
use crate::accuracy::scaled_back;
use crate::arithmetic::power_mag;
use crate::binary32::b32;
use crate::binary32::Binary32;
use crate::binary32::HALF;
use crate::binary32::MINUS_HALF;
use crate::binary32::MINUS_ONE;
use crate::binary32::ONE;
use crate::binary32::ZERO;
use crate::controller_laws::lemma_pi_stays_finite;
use crate::controller_laws::ordinary_pi;
use crate::exact::lemma_scaled;
use crate::exact::real_of;
use crate::exact::size_of_real;
use crate::foc::FocBasicInput;
use crate::foc::FocBasicParam;
use crate::foc::FocBasicState;
use crate::line_voltage::fits_bus;
use crate::line_voltage::line_voltages_match;
use crate::line_voltage::svpwm_keeps_line_voltages;
use crate::math::INV_SQRT_3;
use crate::math::SQRT_3;
use crate::near::lemma_inverse_powers;
use crate::near::lemma_real_constant;
use crate::rounded_steps::differences_are_rounded;
use crate::rounded_steps::is_difference;
use crate::running_error::given;
use crate::running_error::lemma_order_of_reals;
use crate::running_error::minus;
use crate::running_error::off_by;
use crate::running_error::ordinary;
use crate::running_error::plus;
use crate::running_error::times;
use crate::running_error::tiny;
use crate::running_error::Traced;
use crate::transform::Abc;
use crate::transform::AlphaBeta;
use crate::transform::clarke_of;
use crate::transform::Dq;
use crate::transform::frames_coincide_at_angle_zero;
use crate::transform::inverse_clarke_of;
use crate::transform::inverse_park_of;
use crate::transform::park_of;
use vstd::arithmetic::power2::lemma2_to64;

verus! {

/// A real is at least another that is not negative where its square is.
proof fn lemma_root_order(a: real, b: real)
    requires
        a >= 0real,
        b >= 0real,
        a * a <= b * b,
    ensures
        a <= b,
{
    if b < a {
        lemma_scaled(b, a, a);
        lemma_scaled(b, a, b);
        assert(a * b == b * a) by (nonlinear_arith);
        let d = a - b;
        assert((a - b) * (a - b) == a * a - a * b - b * a + b * b) by (nonlinear_arith);
        assert(d * d > 0real) by (nonlinear_arith)
            requires
                d > 0real,
        ;
    }
}

/// The encoded constants are the square root of three and its inverse, rounded.
proof fn lemma_roots(root: real) -> (r: (Traced, Traced))
    requires
        root > 0real,
        root * root == 3real,
    ensures
        r.0.holds(),
        r.1.holds(),
        r.0 == (Traced {
            number: b32(SQRT_3),
            exact: root,
            weight: root,
            steps: 1real,
            fits: true,
            exponent: 1,
        }),
        r.1 == (Traced {
            number: b32(INV_SQRT_3),
            exact: root / 3real,
            weight: root / 3real,
            steps: 1real,
            fits: true,
            exponent: 1,
        }),
{
    lemma_inverse_powers();
    lemma_real_constant(b32(SQRT_3), 0xdd_b3d7, 23);
    lemma_real_constant(b32(INV_SQRT_3), 0x93_cd3a, 24);
    let low = 17320508real / 10000000real;
    let high = 17320509real / 10000000real;
    lemma_root_order(low, root);
    lemma_root_order(root, high);
    lemma2_to64();
    assert(1real * root == root && 1real * (root / 3real) == root / 3real);
    (
        Traced { number: b32(SQRT_3), exact: root, weight: root, steps: 1real, fits: true,
            exponent: 1 },
        Traced {
            number: b32(INV_SQRT_3),
            exact: root / 3real,
            weight: root / 3real,
            steps: 1real,
            fits: true,
            exponent: 1,
        },
    )
}

/// One half and its negative as reals.
proof fn lemma_halves()
    ensures
        b32(HALF).finite(),
        b32(MINUS_HALF).finite(),
        real_of(b32(HALF)) == 1real / 2real,
        real_of(b32(MINUS_HALF)) == -1real / 2real,
{
    lemma_inverse_powers();
    lemma_real_constant(b32(HALF), 0x80_0000, 24);
    lemma_real_constant(b32(MINUS_HALF), 0x80_0000, 24);
}

/// The stationary vector of three phases: the first phase along it, and the difference of
/// the others, over the square root of three, a quarter revolution ahead.
pub proof fn clarke_measures_phases(v: Abc, root: real)
    requires
        root > 0real,
        root * root == 3real,
    ensures
        clarke_of(v).alpha == v.a,
        clarke_of(v).beta.finite() ==> off_by(
            clarke_of(v).beta,
            (real_of(v.b) - real_of(v.c)) * (root / 3real),
            (size_of_real(real_of(v.b)) + size_of_real(real_of(v.c))) * (root / 3real) + tiny(),
            3real,
        ),
{
    let b = given(v.b);
    let c = given(v.c);
    let (three, third) = lemma_roots(root);
    let d = minus(b, c);
    let r = times(d, third);
    assert(r.steps == 3real);
}

/// The phases of a stationary vector: its parts along directions a third of a revolution
/// apart.
pub proof fn inverse_clarke_projects_vector(v: AlphaBeta, root: real)
    requires
        root > 0real,
        root * root == 3real,
    ensures
        ({
            let phases = inverse_clarke_of(v);
            let x = real_of(v.alpha);
            let y = real_of(v.beta);
            let h = 1real / 2real;
            let weight = (h * size_of_real(x) + tiny()) + ((h * root + tiny()) * size_of_real(y)
                + tiny());
            &&& phases.a == v.alpha
            &&& phases.b.finite() ==> off_by(
                phases.b,
                (-1real / 2real) * x + (h * root) * y,
                weight,
                4real,
            )
            &&& phases.c.finite() ==> off_by(
                phases.c,
                (-1real / 2real) * x - (h * root) * y,
                weight,
                4real,
            )
        }),
{
    lemma_halves();
    let x = given(v.alpha);
    let y = given(v.beta);
    let m = given(b32(MINUS_HALF));
    let h = given(b32(HALF));
    let (three, third) = lemma_roots(root);
    let p = times(m, x);
    let f = times(h, three);
    let q = times(f, y);
    let b = plus(p, q);
    let c = minus(p, q);
    assert(b.steps == 4real && c.steps == 4real);
}

/// Whether a number is `a * c + b * s`, rounded.
pub open spec fn is_turned(
    x: Binary32,
    a: Binary32,
    c: Binary32,
    b: Binary32,
    s: Binary32,
) -> bool {
    off_by(
        x,
        real_of(a) * real_of(c) + real_of(b) * real_of(s),
        (size_of_real(real_of(a)) * size_of_real(real_of(c)) + tiny()) + (size_of_real(real_of(b))
            * size_of_real(real_of(s)) + tiny()),
        2real,
    )
}

/// Whether a number is `a * c - b * s`, rounded.
pub open spec fn is_turned_back(
    x: Binary32,
    a: Binary32,
    c: Binary32,
    b: Binary32,
    s: Binary32,
) -> bool {
    off_by(
        x,
        real_of(a) * real_of(c) - real_of(b) * real_of(s),
        (size_of_real(real_of(a)) * size_of_real(real_of(c)) + tiny()) + (size_of_real(real_of(b))
            * size_of_real(real_of(s)) + tiny()),
        2real,
    )
}

proof fn lemma_turned(a: Binary32, c: Binary32, b: Binary32, s: Binary32)
    ensures
        (a * c + b * s).finite() ==> is_turned(a * c + b * s, a, c, b, s),
        (a * c - b * s).finite() ==> is_turned_back(a * c - b * s, a, c, b, s),
{
    let x = given(a);
    let y = given(c);
    let z = given(b);
    let w = given(s);
    let p = times(x, y);
    let q = times(z, w);
    let sum = plus(p, q);
    let difference = minus(p, q);
    assert(sum.steps == 2real && difference.steps == 2real);
}

/// A rotor that is ahead by an angle sees a stationary vector turned back by it.
pub proof fn park_turns_vector_back(v: AlphaBeta, sin: Binary32, cos: Binary32)
    ensures
        ({
            let w = park_of(v, sin, cos);
            &&& w.d.finite() ==> is_turned(w.d, v.alpha, cos, v.beta, sin)
            &&& w.q.finite() ==> is_turned_back(w.q, v.beta, cos, v.alpha, sin)
        }),
{
    lemma_turned(v.alpha, cos, v.beta, sin);
    lemma_turned(v.beta, cos, v.alpha, sin);
}

/// A rotor-frame vector is turned forward by the angle of the rotor.
pub proof fn inverse_park_turns_vector(w: Dq, sin: Binary32, cos: Binary32)
    ensures
        ({
            let v = inverse_park_of(w, sin, cos);
            &&& v.alpha.finite() ==> is_turned_back(v.alpha, w.d, cos, w.q, sin)
            &&& v.beta.finite() ==> is_turned(v.beta, w.d, sin, w.q, cos)
        }),
{
    lemma_turned(w.d, cos, w.q, sin);
    lemma_turned(w.d, sin, w.q, cos);
}

/// Whether a current loop saw its currents from a rotor at the angle with the given sine and
/// cosine, and turned its voltage forward by that angle.
#[verifier::opaque]
pub open spec fn turns_with(next: FocBasicState, sin: Binary32, cos: Binary32) -> bool {
    let i = next.current_alpha_beta;
    let j = next.current_dq;
    let v = next.voltage_alpha_beta;
    let w = next.voltage_dq;
    &&& j.d.finite() ==> is_turned(j.d, i.alpha, cos, i.beta, sin)
    &&& j.q.finite() ==> is_turned_back(j.q, i.beta, cos, i.alpha, sin)
    &&& v.alpha.finite() ==> is_turned_back(v.alpha, w.d, cos, w.q, sin)
    &&& v.beta.finite() ==> is_turned(v.beta, w.d, sin, w.q, cos)
}

/// A step of the current loop turns currents and voltage by the angle of the rotor.
pub proof fn foc_turns_with_rotor(
    state: FocBasicState,
    param: FocBasicParam,
    input: FocBasicInput,
    sin: Binary32,
    cos: Binary32,
)
    ensures
        turns_with(state.updated(param, input, sin, cos), sin, cos),
{
    reveal(turns_with);
    let next = state.updated(param, input, sin, cos);
    park_turns_vector_back(next.current_alpha_beta, sin, cos);
    inverse_park_turns_vector(next.voltage_dq, sin, cos);
}

/// The current loop turns its rotor-frame voltage forward by the angle of the rotor before
/// it hands it to the modulator.
pub proof fn foc_turns_voltage_with_rotor(
    state: FocBasicState,
    param: FocBasicParam,
    input: FocBasicInput,
    sin: Binary32,
    cos: Binary32,
)
    ensures
        ({
            let next = state.updated(param, input, sin, cos);
            let v = next.voltage_alpha_beta;
            let w = next.voltage_dq;
            &&& v.alpha.finite() ==> is_turned_back(v.alpha, w.d, cos, w.q, sin)
            &&& v.beta.finite() ==> is_turned(v.beta, w.d, sin, w.q, cos)
        }),
{
    let next = state.updated(param, input, sin, cos);
    inverse_park_turns_vector(next.voltage_dq, sin, cos);
}

/// With the rotor at angle zero the rotor frame is the stationary frame, for the currents
/// and for the voltages.
pub proof fn foc_at_angle_zero_does_not_turn(
    state: FocBasicState,
    param: FocBasicParam,
    input: FocBasicInput,
)
    requires
        ({
            let next = state.updated(param, input, b32(ZERO), b32(ONE));
            &&& next.current_alpha_beta.alpha.finite() && next.current_alpha_beta.beta.finite()
            &&& next.voltage_dq.d.finite() && next.voltage_dq.q.finite()
        }),
    ensures
        ({
            let next = state.updated(param, input, b32(ZERO), b32(ONE));
            &&& next.current_dq.d.same(next.current_alpha_beta.alpha)
            &&& next.current_dq.q.same(next.current_alpha_beta.beta)
            &&& next.voltage_alpha_beta.alpha.same(next.voltage_dq.d)
            &&& next.voltage_alpha_beta.beta.same(next.voltage_dq.q)
        }),
{
    let next = state.updated(param, input, b32(ZERO), b32(ONE));
    frames_coincide_at_angle_zero(next.current_alpha_beta, next.voltage_dq);
}

/// Seen from the rotor, with the sine and cosine that served for the currents, the
/// stationary voltage is the rotor-frame voltage, times the sum of the squares of sine and
/// cosine, up to one part in `2^20` of a limit of the voltage.
pub proof fn foc_voltage_seen_from_rotor(
    state: FocBasicState,
    param: FocBasicParam,
    input: FocBasicInput,
    sin: Binary32,
    cos: Binary32,
    limit: Binary32,
)
    requires
        limit.normal(),
        limit > b32(ZERO),
        limit.mag() < power_mag(126),
        sin.within(b32(MINUS_ONE), b32(ONE)),
        cos.within(b32(MINUS_ONE), b32(ONE)),
        ({
            let w = state.updated(param, input, sin, cos).voltage_dq;
            w.d.within(-limit, limit) && w.q.within(-limit, limit)
        }),
    ensures
        ({
            let next = state.updated(param, input, sin, cos);
            let seen = park_of(next.voltage_alpha_beta, sin, cos);
            &&& scaled_back(seen.d, next.voltage_dq.d, sin, cos, limit)
            &&& scaled_back(seen.q, next.voltage_dq.q, sin, cos, limit)
        }),
{
    let next = state.updated(param, input, sin, cos);
    inverse_park_and_back_scales_vector(next.voltage_dq, sin, cos, limit);
}

/// The current loop measures the phase currents in the stationary frame and sees them from
/// the rotor.
pub proof fn foc_sees_currents_from_rotor(
    state: FocBasicState,
    param: FocBasicParam,
    input: FocBasicInput,
    sin: Binary32,
    cos: Binary32,
    root: real,
)
    requires
        root > 0real,
        root * root == 3real,
    ensures
        ({
            let next = state.updated(param, input, sin, cos);
            let v = next.current_alpha_beta;
            let w = next.current_dq;
            let ib = real_of(input.ib);
            let ic = real_of(input.ic);
            &&& v.alpha == input.ia
            &&& v.beta.finite() ==> off_by(
                v.beta,
                (ib - ic) * (root / 3real),
                (size_of_real(ib) + size_of_real(ic)) * (root / 3real) + tiny(),
                3real,
            )
            &&& w.d.finite() ==> is_turned(w.d, v.alpha, cos, v.beta, sin)
            &&& w.q.finite() ==> is_turned_back(w.q, v.beta, cos, v.alpha, sin)
        }),
{
    let next = state.updated(param, input, sin, cos);
    clarke_measures_phases(Abc { a: input.ia, b: input.ib, c: input.ic }, root);
    park_turns_vector_back(next.current_alpha_beta, sin, cos);
}

/// Each axis of the current loop has its own controller: it follows the reference of its
/// axis with the current of its axis, and its output is the voltage of its axis.
pub proof fn foc_controls_each_axis(
    state: FocBasicState,
    param: FocBasicParam,
    input: FocBasicInput,
    sin: Binary32,
    cos: Binary32,
)
    ensures
        ({
            let next = state.updated(param, input, sin, cos);
            let i = next.current_dq;
            &&& next.id_pi == state.id_pi.updated(param.id_pi, input.id_ref, i.d)
            &&& next.iq_pi == state.iq_pi.updated(param.iq_pi, input.iq_ref, i.q)
            &&& next.id_pi.error.finite() ==> is_difference(next.id_pi.error, input.id_ref, i.d)
            &&& next.iq_pi.error.finite() ==> is_difference(next.iq_pi.error, input.iq_ref, i.q)
            &&& next.voltage_dq.d == next.id_pi.output
            &&& next.voltage_dq.q == next.iq_pi.output
        }),
{
    let next = state.updated(param, input, sin, cos);
    differences_are_rounded(input.id_ref, next.current_dq.d);
    differences_are_rounded(input.iq_ref, next.current_dq.q);
}

/// While they fit the bus, the duties of the current loop lead to the voltages between the
/// phases of its stationary voltage, up to one part in `2^20` of the bus voltage.
pub proof fn foc_duties_give_voltage(
    state: FocBasicState,
    param: FocBasicParam,
    input: FocBasicInput,
    sin: Binary32,
    cos: Binary32,
)
    requires
        param.svpwm.v_bus.normal(),
        param.svpwm.v_bus > b32(ZERO),
        ({
            let v = state.updated(param, input, sin, cos).voltage_alpha_beta;
            v.alpha.finite() && v.beta.finite() && fits_bus(
                inverse_clarke_of(v),
                param.svpwm.v_bus,
            )
        }),
    ensures
        ({
            let next = state.updated(param, input, sin, cos);
            let duties = next.pwm;
            line_voltages_match(
                Abc { a: duties.duty_a, b: duties.duty_b, c: duties.duty_c },
                inverse_clarke_of(next.voltage_alpha_beta),
                param.svpwm.v_bus,
            )
        }),
{
    let next = state.updated(param, input, sin, cos);
    svpwm_keeps_line_voltages(next.voltage_alpha_beta, param.svpwm);
}

/// A step of the current loop on ordinary numbers stays finite in all its vectors.
pub proof fn foc_stays_finite(
    state: FocBasicState,
    param: FocBasicParam,
    input: FocBasicInput,
    sin: Binary32,
    cos: Binary32,
)
    requires
        ordinary_pi(param.id_pi),
        ordinary_pi(param.iq_pi),
        ordinary(param.id_pi.out_min),
        ordinary(param.id_pi.out_max),
        ordinary(param.iq_pi.out_min),
        ordinary(param.iq_pi.out_max),
        ordinary(state.id_pi.integrator),
        ordinary(state.iq_pi.integrator),
        ordinary(input.ia),
        ordinary(input.ib),
        ordinary(input.ic),
        ordinary(input.id_ref),
        ordinary(input.iq_ref),
        ordinary(sin),
        ordinary(cos),
    ensures
        ({
            let next = state.updated(param, input, sin, cos);
            &&& next.current_alpha_beta.alpha.finite() && next.current_alpha_beta.beta.finite()
            &&& next.current_dq.d.finite() && next.current_dq.q.finite()
            &&& next.voltage_dq.d.finite() && next.voltage_dq.q.finite()
            &&& next.voltage_alpha_beta.alpha.finite() && next.voltage_alpha_beta.beta.finite()
        }),
{
    let next = state.updated(param, input, sin, cos);
    let (d, q) = lemma_traced_currents(Abc { a: input.ia, b: input.ib, c: input.ic }, sin, cos);
    let d_ref = given(input.id_ref);
    let q_ref = given(input.iq_ref);
    lemma_pi_stays_finite(state.id_pi, param.id_pi, d_ref, d);
    lemma_pi_stays_finite(state.iq_pi, param.iq_pi, q_ref, q);
    lemma_limited_is_ordinary(next.voltage_dq.d, param.id_pi.out_min, param.id_pi.out_max);
    lemma_limited_is_ordinary(next.voltage_dq.q, param.iq_pi.out_min, param.iq_pi.out_max);
    lemma_turned_voltage_is_finite(next.voltage_dq, sin, cos);
}

/// The traces of currents seen from the rotor.
proof fn lemma_traced_currents(v: Abc, sin: Binary32, cos: Binary32) -> (r: (Traced, Traced))
    requires
        ordinary(v.a),
        ordinary(v.b),
        ordinary(v.c),
        ordinary(sin),
        ordinary(cos),
    ensures
        clarke_of(v).beta.finite(),
        r.0.holds() && r.0.fits && r.0.exponent <= 66 && r.0.steps <= 10real,
        r.1.holds() && r.1.fits && r.1.exponent <= 66 && r.1.steps <= 10real,
        r.0.number == park_of(clarke_of(v), sin, cos).d,
        r.1.number == park_of(clarke_of(v), sin, cos).q,
{
    lemma_inverse_powers();
    lemma_real_constant(b32(INV_SQRT_3), 0x93_cd3a, 24);
    lemma2_to64();
    let a = given(v.a);
    let b = given(v.b);
    let c = given(v.c);
    let s = given(sin);
    let k = given(cos);
    let third = given(b32(INV_SQRT_3));
    let difference = minus(b, c);
    let beta = times(difference, third);
    let ac = times(a, k);
    let bs = times(beta, s);
    let bc = times(beta, k);
    let sa = times(a, s);
    let d = plus(ac, bs);
    let q = minus(bc, sa);
    (d, q)
}

/// An ordinary rotor-frame vector stays finite in the stationary frame.
proof fn lemma_turned_voltage_is_finite(w: Dq, sin: Binary32, cos: Binary32)
    requires
        ordinary(w.d),
        ordinary(w.q),
        ordinary(sin),
        ordinary(cos),
    ensures
        inverse_park_of(w, sin, cos).alpha.finite(),
        inverse_park_of(w, sin, cos).beta.finite(),
{
    let d = given(w.d);
    let q = given(w.q);
    let s = given(sin);
    let k = given(cos);
    let dc = times(d, k);
    let qs = times(q, s);
    let ds = times(d, s);
    let qc = times(q, k);
    let alpha = minus(dc, qs);
    let beta = plus(ds, qc);
}

/// A number between ordinary limits is ordinary.
pub proof fn lemma_limited_is_ordinary(x: Binary32, a: Binary32, b: Binary32)
    requires
        ordinary(a),
        ordinary(b),
        x.finite(),
        x.within(a, b) || x.within(b, a),
    ensures
        ordinary(x),
{
    lemma_order_of_reals(a, x);
    lemma_order_of_reals(x, a);
    lemma_order_of_reals(b, x);
    lemma_order_of_reals(x, b);
}

} // verus!
