//! Modulators: from a voltage vector or an angle to the duties of the three bridge legs.
use core::ops::Neg;
use vstd::prelude::*;
use crate::arithmetic::addition_is_commutative;
use crate::arithmetic::addition_keeps_order;
use crate::arithmetic::complement_to_one_is_exact;
use crate::arithmetic::difference_with_itself_is_zero;
use crate::arithmetic::division_keeps_order;
use crate::arithmetic::lemma_div_kind;
use crate::arithmetic::lemma_mul_kind;
use crate::arithmetic::lemma_sum_kind;
use crate::arithmetic::multiplication_is_commutative;
use crate::arithmetic::product_follows_signs;
use crate::arithmetic::product_with_zero_is_zero;
use crate::arithmetic::quotient_follows_signs;
use crate::arithmetic::sum_of_non_negatives;
use crate::arithmetic::zero_is_neutral;
use crate::binary32::b32;
use crate::binary32::Binary32;
use crate::binary32::HALF;
use crate::binary32::MINUS_HALF;
use crate::binary32::ONE;
use crate::binary32::THREE;
use crate::binary32::TWO;
use crate::binary32::ZERO;
use crate::equations::is_sum;
use crate::equations::lemma_is_sum;
use crate::math::clamp;
use crate::math::clamped;
use crate::math::limited;
use crate::math::PI;
use crate::math::SQRT_3;
use crate::nearest::lemma_mag_units_order;
use crate::rounded_steps::differences_are_rounded;
use crate::rounded_steps::is_difference;
use crate::transform::Abc;
use crate::transform::AlphaBeta;
use crate::transform::inverse_clarke;
use crate::transform::inverse_clarke_of;

verus! {

/// Duties of sine modulation.
#[derive(Clone, Copy, Debug, Default, PartialEq)]
pub struct SinePwmOutput {
    pub duty_a: Binary32,
    pub duty_b: Binary32,
    pub duty_c: Binary32,
}

/// A duty: half, plus half the index times the sine of the phase, limited to 0 to 1.
pub open spec fn sine_duty(modulation: Binary32, sine: Binary32) -> Binary32 {
    clamped(
        b32(HALF) + b32(HALF) * clamped(modulation, b32(ZERO), b32(ONE)) * sine,
        b32(ZERO),
        b32(ONE),
    )
}

/// A third of a revolution.
pub open spec fn third_turn() -> Binary32 {
    b32(TWO) * b32(PI) / b32(THREE)
}

/// The duties for the sines of the three phase angles.
pub fn sine_pwm_from_sines(
    sine_a: Binary32,
    sine_b: Binary32,
    sine_c: Binary32,
    modulation: Binary32,
) -> (r: SinePwmOutput)
    ensures
        r.duty_a == sine_duty(modulation, sine_a),
        r.duty_b == sine_duty(modulation, sine_b),
        r.duty_c == sine_duty(modulation, sine_c),
{
    let m: Binary32 = clamp(modulation, b32(ZERO), b32(ONE));
    SinePwmOutput {
        duty_a: clamp(b32(HALF) + b32(HALF) * m * sine_a, b32(ZERO), b32(ONE)),
        duty_b: clamp(b32(HALF) + b32(HALF) * m * sine_b, b32(ZERO), b32(ONE)),
        duty_c: clamp(b32(HALF) + b32(HALF) * m * sine_c, b32(ZERO), b32(ONE)),
    }
}

/// Three sine duties a third of a revolution apart, scaled by the modulation index.
pub fn sine_pwm_update<S: Fn(Binary32) -> Binary32>(
    theta_rad: Binary32,
    modulation: Binary32,
    sin: &S,
) -> (r: SinePwmOutput)
    requires
        sin.requires((theta_rad,)),
        sin.requires((theta_rad - third_turn(),)),
        sin.requires((theta_rad + third_turn(),)),
    ensures
        exists|sa: Binary32, sb: Binary32, sc: Binary32|
            sin.ensures((theta_rad,), sa) && sin.ensures((theta_rad - third_turn(),), sb)
                && sin.ensures((theta_rad + third_turn(),), sc) && r == (SinePwmOutput {
                duty_a: sine_duty(modulation, sa),
                duty_b: sine_duty(modulation, sb),
                duty_c: sine_duty(modulation, sc),
            }),
        exists|behind: Binary32, sb: Binary32|
            sin.ensures((behind,), sb) && r.duty_b == sine_duty(modulation, sb) && (
            behind.finite() ==> is_difference(behind, theta_rad, third_turn())),
        exists|ahead: Binary32, sc: Binary32|
            sin.ensures((ahead,), sc) && r.duty_c == sine_duty(modulation, sc) && (ahead.finite()
                ==> is_sum(ahead, theta_rad, third_turn())),
{
    proof {
        differences_are_rounded(theta_rad, third_turn());
        lemma_is_sum(theta_rad, third_turn());
    }
    let third: Binary32 = b32(TWO) * b32(PI) / b32(THREE);
    let sa: Binary32 = sin(theta_rad);
    let sb: Binary32 = sin(theta_rad - third);
    let sc: Binary32 = sin(theta_rad + third);
    sine_pwm_from_sines(sa, sb, sc, modulation)
}

/// Parameters of space-vector modulation.
#[derive(Clone, Copy, Debug, Default, PartialEq)]
pub struct SvpwmParam {
    /// Bus voltage.
    pub v_bus: Binary32,
}

/// Duties and sector of space-vector modulation.
#[derive(Clone, Copy, Debug, PartialEq)]
pub struct SvpwmOutput {
    pub duty_a: Binary32,
    pub duty_b: Binary32,
    pub duty_c: Binary32,
    /// Sector from 1 to 6, or 0 where the phases do not differ in sign.
    pub sector: i32,
}

impl SvpwmOutput {
    /// The centre of the bus in all phases, in no sector.
    pub open spec fn initial() -> SvpwmOutput {
        SvpwmOutput {
            duty_a: b32(HALF),
            duty_b: b32(HALF),
            duty_c: b32(HALF),
            sector: 0,
        }
    }
}

impl Default for SvpwmOutput {
    fn default() -> (r: SvpwmOutput)
        ensures
            r == SvpwmOutput::initial(),
    {
        SvpwmOutput {
            duty_a: b32(HALF),
            duty_b: b32(HALF),
            duty_c: b32(HALF),
            sector: 0,
        }
    }
}

/// The sector that the signs of the phases stand for; 0 where all are equal.
pub open spec fn sector_of_signs(a: bool, b: bool, c: bool) -> int {
    if a && b && !c {
        1
    } else if a && !b && !c {
        2
    } else if a && !b && c {
        3
    } else if !a && !b && c {
        4
    } else if !a && b && c {
        5
    } else if !a && b && !c {
        6
    } else {
        0
    }
}

fn svpwm_sector(va: Binary32, vb: Binary32, vc: Binary32) -> (r: i32)
    ensures
        r == sector_of_signs(va > b32(ZERO), vb > b32(ZERO), vc > b32(ZERO)),
{
    match (va > b32(ZERO), vb > b32(ZERO), vc > b32(ZERO)) {
        (true, true, false) => 1,
        (true, false, false) => 2,
        (true, false, true) => 3,
        (false, false, true) => 4,
        (false, true, true) => 5,
        (false, true, false) => 6,
        _ => 0,
    }
}

/// The largest phase voltage.
pub open spec fn largest(v: Abc) -> Binary32 {
    v.a.larger(v.b).larger(v.c)
}

/// The smallest phase voltage.
pub open spec fn smallest(v: Abc) -> Binary32 {
    v.a.smaller(v.b).smaller(v.c)
}

/// The duty of a phase voltage after centring all phases by `offset`.
pub open spec fn centred_duty(v: Binary32, offset: Binary32, v_bus: Binary32) -> Binary32 {
    clamped(b32(HALF) + (v - offset) / v_bus, b32(ZERO), b32(ONE))
}

/// The common part by which centring moves all phases.
pub open spec fn centring_offset(v: Abc) -> Binary32 {
    b32(HALF) * (largest(v) + smallest(v))
}

/// Duties and sector for a voltage vector; the centre of the bus where the bus voltage is
/// not positive.
pub open spec fn svpwm_of(v_alpha_beta: AlphaBeta, param: SvpwmParam) -> SvpwmOutput {
    let v = inverse_clarke_of(v_alpha_beta);
    let offset = centring_offset(v);
    if param.v_bus <= b32(ZERO) {
        SvpwmOutput::initial()
    } else {
        SvpwmOutput {
            duty_a: centred_duty(v.a, offset, param.v_bus),
            duty_b: centred_duty(v.b, offset, param.v_bus),
            duty_c: centred_duty(v.c, offset, param.v_bus),
            sector: sector_of_signs(v.a > b32(ZERO), v.b > b32(ZERO), v.c > b32(ZERO)) as i32,
        }
    }
}

/// Turns a voltage vector into duties, with the phases centred on the bus.
pub fn svpwm_update(v_alpha_beta: AlphaBeta, param: &SvpwmParam) -> (r: SvpwmOutput)
    ensures
        r == svpwm_of(v_alpha_beta, *param),
{
    if param.v_bus <= b32(ZERO) {
        return SvpwmOutput::default();
    }
    let v: Abc = inverse_clarke(v_alpha_beta);
    let v_max: Binary32 = v.a.max(v.b).max(v.c);
    let v_min: Binary32 = v.a.min(v.b).min(v.c);
    let v_offset: Binary32 = b32(HALF) * (v_max + v_min);
    SvpwmOutput {
        duty_a: clamp(b32(HALF) + (v.a - v_offset) / param.v_bus, b32(ZERO), b32(ONE)),
        duty_b: clamp(b32(HALF) + (v.b - v_offset) / param.v_bus, b32(ZERO), b32(ONE)),
        duty_c: clamp(b32(HALF) + (v.c - v_offset) / param.v_bus, b32(ZERO), b32(ONE)),
        sector: svpwm_sector(v.a, v.b, v.c),
    }
}

/// Which end of the bus discontinuous modulation holds one phase at.
#[derive(Clone, Copy, Debug, Default, PartialEq, Eq, Structural)]
pub enum DpwmMode {
    /// The highest phase is held at the positive end.
    #[default]
    ClampMax,
    /// The lowest phase is held at the negative end.
    ClampMin,
}

/// Parameters of discontinuous modulation.
#[derive(Clone, Copy, Debug, Default, PartialEq)]
pub struct DpwmParam {
    /// Bus voltage.
    pub v_bus: Binary32,
    pub mode: DpwmMode,
}

/// Duties of discontinuous modulation and the common part added to them.
#[derive(Clone, Copy, Debug, PartialEq)]
pub struct DpwmOutput {
    pub duty_a: Binary32,
    pub duty_b: Binary32,
    pub duty_c: Binary32,
    pub zero_sequence: Binary32,
}

impl DpwmOutput {
    /// The centre of the bus in all phases, with nothing added.
    pub open spec fn initial() -> DpwmOutput {
        DpwmOutput {
            duty_a: b32(HALF),
            duty_b: b32(HALF),
            duty_c: b32(HALF),
            zero_sequence: b32(ZERO),
        }
    }
}

impl Default for DpwmOutput {
    fn default() -> (r: DpwmOutput)
        ensures
            r == DpwmOutput::initial(),
    {
        DpwmOutput {
            duty_a: b32(HALF),
            duty_b: b32(HALF),
            duty_c: b32(HALF),
            zero_sequence: b32(ZERO),
        }
    }
}

/// The duty of a phase voltage before the common part is added.
pub open spec fn plain_duty(v: Binary32, v_bus: Binary32) -> Binary32 {
    b32(HALF) + v / v_bus
}

/// The duties of all phases before the common part is added.
pub open spec fn plain_duties(v_alpha_beta: AlphaBeta, v_bus: Binary32) -> Abc {
    let v = inverse_clarke_of(v_alpha_beta);
    Abc { a: plain_duty(v.a, v_bus), b: plain_duty(v.b, v_bus), c: plain_duty(v.c, v_bus) }
}

/// The common part that moves one phase to the end of the bus.
pub open spec fn zero_sequence_of(d: Abc, mode: DpwmMode) -> Binary32 {
    match mode {
        DpwmMode::ClampMin => -smallest(d),
        DpwmMode::ClampMax => b32(ONE) - largest(d),
    }
}

/// Duties for a voltage vector with one phase held; the centre of the bus where the bus
/// voltage is not positive.
pub open spec fn dpwm_of(v_alpha_beta: AlphaBeta, param: DpwmParam) -> DpwmOutput {
    let d = plain_duties(v_alpha_beta, param.v_bus);
    let zero = zero_sequence_of(d, param.mode);
    if param.v_bus <= b32(ZERO) {
        DpwmOutput::initial()
    } else {
        DpwmOutput {
            duty_a: clamped(d.a + zero, b32(ZERO), b32(ONE)),
            duty_b: clamped(d.b + zero, b32(ZERO), b32(ONE)),
            duty_c: clamped(d.c + zero, b32(ZERO), b32(ONE)),
            zero_sequence: zero,
        }
    }
}

/// Turns a voltage vector into duties, holding one phase at an end of the bus.
pub fn dpwm_update(v_alpha_beta: AlphaBeta, param: &DpwmParam) -> (r: DpwmOutput)
    ensures
        r == dpwm_of(v_alpha_beta, *param),
{
    if param.v_bus <= b32(ZERO) {
        return DpwmOutput::default();
    }
    let v: Abc = inverse_clarke(v_alpha_beta);
    let d0_a: Binary32 = b32(HALF) + v.a / param.v_bus;
    let d0_b: Binary32 = b32(HALF) + v.b / param.v_bus;
    let d0_c: Binary32 = b32(HALF) + v.c / param.v_bus;
    let d_max: Binary32 = d0_a.max(d0_b).max(d0_c);
    let d_min: Binary32 = d0_a.min(d0_b).min(d0_c);
    let zero: Binary32 = match param.mode {
        DpwmMode::ClampMin => d_min.neg(),
        DpwmMode::ClampMax => b32(ONE) - d_max,
    };
    DpwmOutput {
        duty_a: clamp(d0_a + zero, b32(ZERO), b32(ONE)),
        duty_b: clamp(d0_b + zero, b32(ZERO), b32(ONE)),
        duty_c: clamp(d0_c + zero, b32(ZERO), b32(ONE)),
        zero_sequence: zero,
    }
}

/// A limited sine duty is a NaN or lies between 0 and 1.
pub proof fn sine_duty_is_valid(modulation: Binary32, sine: Binary32)
    ensures
        limited(sine_duty(modulation, sine), b32(ZERO), b32(ONE)),
{
}

/// With index zero every duty is one half.
pub proof fn sine_duty_rests_at_half(modulation: Binary32, sine: Binary32)
    requires
        modulation <= b32(ZERO),
        sine.finite(),
    ensures
        sine_duty(modulation, sine) == b32(HALF),
{
    let m = clamped(modulation, b32(ZERO), b32(ONE));
    product_with_zero_is_zero(b32(HALF), m);
    product_with_zero_is_zero(sine, b32(HALF) * m);
    multiplication_is_commutative(sine, b32(HALF) * m);
    zero_is_neutral(b32(HALF), b32(HALF) * m * sine);
}

/// The sector is a number from 0 to 6, and 0 exactly where no two phases differ in sign.
pub proof fn svpwm_sector_is_valid(v_alpha_beta: AlphaBeta, param: SvpwmParam)
    ensures
        0 <= svpwm_of(v_alpha_beta, param).sector <= 6,
        param.v_bus > b32(ZERO) ==> (svpwm_of(v_alpha_beta, param).sector == 0 <==> ({
            let v = inverse_clarke_of(v_alpha_beta);
            (v.a > b32(ZERO)) == (v.b > b32(ZERO)) && (v.b > b32(ZERO)) == (v.c > b32(ZERO))
        })),
{
}

/// Without a positive bus voltage all duties are one half.
pub proof fn svpwm_without_bus_is_centred(v_alpha_beta: AlphaBeta, param: SvpwmParam)
    requires
        param.v_bus <= b32(ZERO),
    ensures
        svpwm_of(v_alpha_beta, param) == SvpwmOutput::initial(),
{
}

/// Whether a vector and the phase voltages that it stands for are finite.
pub open spec fn has_finite_phases(v: AlphaBeta) -> bool {
    &&& v.alpha.finite()
    &&& v.beta.finite()
    &&& inverse_clarke_of(v).b.finite()
    &&& inverse_clarke_of(v).c.finite()
}

/// A centred duty of a finite voltage is a number from 0 to 1.
proof fn lemma_centred_duty(v: Binary32, offset: Binary32, v_bus: Binary32)
    requires
        v.finite(),
        !offset.nan(),
        v_bus.finite(),
        v_bus > b32(ZERO),
    ensures
        !(v - offset).nan(),
        !((v - offset) / v_bus).nan(),
        centred_duty(v, offset, v_bus).within(b32(ZERO), b32(ONE)),
{
    lemma_sum_kind(v, -offset);
    lemma_div_kind(v - offset, v_bus);
    lemma_sum_kind(b32(HALF), (v - offset) / v_bus);
}

/// For every vector with finite phase voltages and a positive bus voltage, all duties are
/// numbers from 0 to 1.
pub proof fn svpwm_duties_are_valid(v_alpha_beta: AlphaBeta, param: SvpwmParam)
    requires
        has_finite_phases(v_alpha_beta),
        param.v_bus.finite(),
        param.v_bus > b32(ZERO),
    ensures
        svpwm_of(v_alpha_beta, param).duty_a.within(b32(ZERO), b32(ONE)),
        svpwm_of(v_alpha_beta, param).duty_b.within(b32(ZERO), b32(ONE)),
        svpwm_of(v_alpha_beta, param).duty_c.within(b32(ZERO), b32(ONE)),
{
    let v = inverse_clarke_of(v_alpha_beta);
    let sum = largest(v) + smallest(v);
    lemma_sum_kind(largest(v), smallest(v));
    lemma_mul_kind(b32(HALF), sum);
    lemma_centred_duty(v.a, centring_offset(v), param.v_bus);
    lemma_centred_duty(v.b, centring_offset(v), param.v_bus);
    lemma_centred_duty(v.c, centring_offset(v), param.v_bus);
}

/// A higher phase voltage never gets a smaller duty.
pub proof fn svpwm_keeps_phase_order(
    v: Binary32,
    w: Binary32,
    offset: Binary32,
    v_bus: Binary32,
)
    requires
        v.finite(),
        w.finite(),
        !offset.nan(),
        v_bus.finite(),
        v_bus > b32(ZERO),
        v <= w,
    ensures
        centred_duty(v, offset, v_bus) <= centred_duty(w, offset, v_bus),
{
    lemma_centred_duty(v, offset, v_bus);
    lemma_centred_duty(w, offset, v_bus);
    addition_keeps_order(v, w, -offset);
    division_keeps_order(v - offset, w - offset, v_bus);
    let x = (v - offset) / v_bus;
    let y = (w - offset) / v_bus;
    lemma_sum_kind(b32(HALF), x);
    lemma_sum_kind(b32(HALF), y);
    addition_is_commutative(b32(HALF), x);
    addition_is_commutative(b32(HALF), y);
    addition_keeps_order(x, y, b32(HALF));
}

/// Without a positive bus voltage all duties are one half.
pub proof fn dpwm_without_bus_is_centred(v_alpha_beta: AlphaBeta, param: DpwmParam)
    requires
        param.v_bus <= b32(ZERO),
    ensures
        dpwm_of(v_alpha_beta, param) == DpwmOutput::initial(),
{
}

/// All duties are NaN or lie between 0 and 1.
pub proof fn dpwm_duties_are_limited(v_alpha_beta: AlphaBeta, param: DpwmParam)
    ensures
        limited(dpwm_of(v_alpha_beta, param).duty_a, b32(ZERO), b32(ONE)),
        limited(dpwm_of(v_alpha_beta, param).duty_b, b32(ZERO), b32(ONE)),
        limited(dpwm_of(v_alpha_beta, param).duty_c, b32(ZERO), b32(ONE)),
{
}

/// Holding at the negative end puts the duty of a lowest phase to zero.
pub proof fn dpwm_holds_lowest_phase(v_alpha_beta: AlphaBeta, param: DpwmParam)
    requires
        param.v_bus > b32(ZERO),
        param.mode == DpwmMode::ClampMin,
        plain_duties(v_alpha_beta, param.v_bus).a.finite(),
        plain_duties(v_alpha_beta, param.v_bus).b.finite(),
        plain_duties(v_alpha_beta, param.v_bus).c.finite(),
    ensures
        ({
            let d = plain_duties(v_alpha_beta, param.v_bus);
            let out = dpwm_of(v_alpha_beta, param);
            ||| d.a == smallest(d) && out.duty_a == b32(ZERO)
            ||| d.b == smallest(d) && out.duty_b == b32(ZERO)
            ||| d.c == smallest(d) && out.duty_c == b32(ZERO)
        }),
{
    let d = plain_duties(v_alpha_beta, param.v_bus);
    difference_with_itself_is_zero(smallest(d));
}

/// Among the phases of a vector, one is not negative and one is not positive.
pub proof fn lemma_phase_signs(v_alpha_beta: AlphaBeta)
    requires
        v_alpha_beta.alpha.finite(),
        v_alpha_beta.beta.finite(),
        inverse_clarke_of(v_alpha_beta).b.finite(),
        inverse_clarke_of(v_alpha_beta).c.finite(),
    ensures
        largest(inverse_clarke_of(v_alpha_beta)) >= b32(ZERO),
        smallest(inverse_clarke_of(v_alpha_beta)) <= b32(ZERO),
{
    let alpha = v_alpha_beta.alpha;
    let p = b32(MINUS_HALF) * alpha;
    let scale = b32(HALF) * b32(SQRT_3);
    let x = scale * v_alpha_beta.beta;
    let zero = b32(ZERO);
    lemma_sum_kind(p, x);
    lemma_sum_kind(p, -x);
    product_follows_signs(b32(MINUS_HALF), alpha);
    lemma_mag_units_order(0, 0);
    addition_is_commutative(p, x);
    addition_is_commutative(p, -x);
    zero_is_neutral(p, zero);
    addition_is_commutative(p, zero);
    if x >= zero {
        addition_keeps_order(zero, x, p);
        addition_keeps_order(-x, zero, p);
    } else {
        addition_keeps_order(x, zero, p);
        addition_keeps_order(zero, -x, p);
    }
}

/// Holding at the positive end puts the duty of a highest phase to exactly one, wherever
/// its plain duty is at most two.
pub proof fn dpwm_holds_highest_phase(v_alpha_beta: AlphaBeta, param: DpwmParam)
    requires
        has_finite_phases(v_alpha_beta),
        param.v_bus.finite(),
        param.v_bus > b32(ZERO),
        param.mode == DpwmMode::ClampMax,
        largest(plain_duties(v_alpha_beta, param.v_bus)) <= b32(TWO),
    ensures
        ({
            let d = plain_duties(v_alpha_beta, param.v_bus);
            let out = dpwm_of(v_alpha_beta, param);
            ||| d.a == largest(d) && out.duty_a == b32(ONE)
            ||| d.b == largest(d) && out.duty_b == b32(ONE)
            ||| d.c == largest(d) && out.duty_c == b32(ONE)
        }),
{
    let v = inverse_clarke_of(v_alpha_beta);
    let d = plain_duties(v_alpha_beta, param.v_bus);
    let top = largest(v);
    lemma_phase_signs(v_alpha_beta);
    lemma_div_kind(v.a, param.v_bus);
    lemma_div_kind(v.b, param.v_bus);
    lemma_div_kind(v.c, param.v_bus);
    lemma_sum_kind(b32(HALF), v.a / param.v_bus);
    lemma_sum_kind(b32(HALF), v.b / param.v_bus);
    lemma_sum_kind(b32(HALF), v.c / param.v_bus);
    quotient_follows_signs(top, param.v_bus);
    sum_of_non_negatives(b32(HALF), top / param.v_bus);
    assert(largest(d) >= b32(HALF));
    complement_to_one_is_exact(largest(d));
}

} // verus!
