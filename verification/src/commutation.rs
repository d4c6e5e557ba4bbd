//! Six-step commutation: which bridge legs conduct in each sixth of a revolution.
use vstd::prelude::*;
use crate::arithmetic::lemma_div_kind;
use crate::arithmetic::order_is_value_order;
use crate::arithmetic::quotient_by_at_least_one;
use crate::arithmetic::quotient_by_smaller_is_at_least_one;
use crate::arithmetic::quotient_error_is_at_most_half_own_spacing;
use crate::arithmetic::quotient_follows_signs;
use crate::binary32::b32;
use crate::binary32::Binary32;
use crate::binary32::THREE;
use crate::binary32::ZERO;
use crate::math::PI;
use crate::math::TWO_PI;
use crate::math::wrap_angle_0_to_2pi;
use crate::math::wrappable;
use crate::math::wrapped_angle;
use crate::math::wrapped_angle_lies_in_first_revolution;
use crate::math::wrapping_keeps_first_revolution;
use crate::nearest::lemma_mag_units_at;
use crate::nearest::lemma_mag_units_order;
use crate::nearest::lemma_spacing;
use crate::nearest::rounding_is_exact;
use crate::nearest::spacing;
use crate::rounding::lemma_div_mod_unique;
use vstd::arithmetic::div_mod::lemma_fundamental_div_mod;
use vstd::arithmetic::power2::lemma2_to64;
use vstd::arithmetic::power2::lemma_pow2_adds;
use vstd::arithmetic::power2::lemma_pow2_pos;
use vstd::arithmetic::power2::lemma_pow2_unfold;
use vstd::arithmetic::power2::pow2;
use vstd::math::abs;

verus! {

/// Bridge state: each phase is `1` (high side on), `-1` (low side on) or `0` (floating).
#[derive(Clone, Copy, Debug, PartialEq, Eq, Structural)]
pub struct SixStepOutput {
    pub phase_a: i32,
    pub phase_b: i32,
    pub phase_c: i32,
    /// Sector, from 1 to 6, in commutation order.
    pub sector: i32,
}

impl Default for SixStepOutput {
    /// All legs off, in no sector.
    fn default() -> (r: SixStepOutput)
        ensures
            r == (SixStepOutput { phase_a: 0, phase_b: 0, phase_c: 0, sector: 0 }),
    {
        SixStepOutput { phase_a: 0, phase_b: 0, phase_c: 0, sector: 0 }
    }
}

/// The sector from 1 to 6 that any sector number stands for.
pub open spec fn normalized_sector(sector: int) -> int {
    (sector - 1) % 6 + 1
}

/// The states of the three phases in a sector.
pub open spec fn sector_phases(sector: int) -> (int, int, int) {
    if sector == 1 {
        (1, -1, 0)
    } else if sector == 2 {
        (1, 0, -1)
    } else if sector == 3 {
        (0, 1, -1)
    } else if sector == 4 {
        (-1, 1, 0)
    } else if sector == 5 {
        (-1, 0, 1)
    } else {
        (0, -1, 1)
    }
}

/// The bridge state that belongs to a sector number.
pub open spec fn six_step_of(sector: int) -> SixStepOutput {
    let normalized = normalized_sector(sector);
    let (a, b, c) = sector_phases(normalized);
    SixStepOutput {
        phase_a: a as i32,
        phase_b: b as i32,
        phase_c: c as i32,
        sector: normalized as i32,
    }
}

/// The bridge state of a sector; numbers outside 1 to 6 count on around the revolution.
pub fn six_step_from_sector(sector: i32) -> (r: SixStepOutput)
    ensures
        r == six_step_of(sector as int),
{
    // A multiple of six that makes every sector number positive.
    let shifted: i64 = sector as i64 - 1 + 2_147_483_652;
    let normalized: i32 = (shifted % 6) as i32 + 1;
    let (phase_a, phase_b, phase_c): (i32, i32, i32) = match normalized {
        1 => (1, -1, 0),
        2 => (1, 0, -1),
        3 => (0, 1, -1),
        4 => (-1, 1, 0),
        5 => (-1, 0, 1),
        _ => (0, -1, 1),
    };
    SixStepOutput { phase_a, phase_b, phase_c, sector: normalized }
}

/// Encoding of a third of pi, a sixth of a revolution.
pub const SIXTH: u32 = 0x3f86_0a92;

/// The sector of a wrapped angle: whole sixths of a revolution, counted from 1.
pub open spec fn sector_of_wrapped(wrapped: Binary32) -> int {
    let count = (wrapped / (b32(PI) / b32(THREE))).saturated_int() + 1;
    if count > 6 {
        6
    } else {
        count
    }
}

/// A wrapped angle, or NaN, lies less than seven sixths of a revolution from zero.
proof fn lemma_sixths(wrapped: Binary32)
    requires
        wrapped.nan() || wrapped.within(b32(ZERO), b32(TWO_PI)),
    ensures
        0 <= (wrapped / (b32(PI) / b32(THREE))).saturated_int() <= 6,
{
    let third = b32(PI) / b32(THREE);
    let ratio = wrapped / third;
    quotient_by_smaller_is_at_least_one(b32(PI), b32(THREE));
    reveal(Binary32::spec_euclidean_or_real_div);
    if !wrapped.nan() {
        lemma2_to64();
        lemma_pow2_pos(149);
        lemma_pow2_adds(21, 128);
        quotient_by_at_least_one(b32(PI), b32(THREE));
        quotient_by_at_least_one(wrapped, third);
        lemma_mag_units_order(ratio.mag(), b32(TWO_PI).mag());
        lemma_mag_units_at(128, 0xc9_0fdb);
        lemma_fundamental_div_mod(ratio.units() as int, pow2(149) as int);
        lemma_pow2_pos(128);
        let whole = ratio.units() / pow2(149);
        assert(whole <= 6) by (nonlinear_arith)
            requires
                ratio.units() <= 0xc9_0fdb * pow2(128),
                pow2(149) == 0x20_0000 * pow2(128),
                ratio.units() >= pow2(149) * whole,
                pow2(128) > 0,
        ;
        assert(ratio.zero() ==> whole == 0) by {
            if ratio.zero() {
                lemma_div_mod_unique(0, pow2(149), 0, 0);
            }
        }
    }
}

/// The bridge state at an electrical angle; an angle that is not finite counts as zero.
pub fn six_step_from_angle(theta_rad: Binary32) -> (r: SixStepOutput)
    requires
        wrappable(theta_rad),
    ensures
        r == six_step_of(sector_of_wrapped(wrapped_angle(theta_rad))),
{
    let wrapped: Binary32 = wrap_angle_0_to_2pi(theta_rad);
    let ratio: Binary32 = wrapped / (b32(PI) / b32(THREE));
    proof {
        if theta_rad.finite() {
            wrapped_angle_lies_in_first_revolution(theta_rad);
        }
        lemma_sixths(wrapped);
    }
    let count: i32 = ratio.to_i32() + 1;
    let sector: i32 = if count > 6 {
        6
    } else {
        count
    };
    six_step_from_sector(sector)
}

/// In every sector one phase is driven high, one is driven low and one floats.
pub proof fn one_phase_floats(sector: int)
    ensures
        ({
            let out = six_step_of(sector);
            &&& 1 <= out.sector <= 6
            &&& out.phase_a + out.phase_b + out.phase_c == 0
            &&& -1 <= out.phase_a <= 1 && -1 <= out.phase_b <= 1 && -1 <= out.phase_c <= 1
            &&& (out.phase_a == 0) as int + (out.phase_b == 0) as int + (out.phase_c == 0) as int
                == 1
        }),
{
}

/// Six sectors make one revolution.
pub proof fn sectors_repeat_after_six(sector: int)
    ensures
        six_step_of(sector + 6) == six_step_of(sector),
{
}

/// Half a revolution on, every driven phase is reversed.
pub proof fn opposite_sector_reverses_phases(sector: int)
    ensures
        six_step_of(sector + 3).phase_a == -six_step_of(sector).phase_a,
        six_step_of(sector + 3).phase_b == -six_step_of(sector).phase_b,
        six_step_of(sector + 3).phase_c == -six_step_of(sector).phase_c,
{
}

/// From one sector to the next, one phase keeps its state and the other two change: one of
/// them was floating, and the other floats next.
pub proof fn neighbouring_sectors_share_one_phase(sector: int)
    ensures
        ({
            let from = six_step_of(sector);
            let to = six_step_of(sector + 1);
            &&& (from.phase_a == to.phase_a) as int + (from.phase_b == to.phase_b) as int + (
            from.phase_c == to.phase_c) as int == 1
            &&& from.phase_a == to.phase_a || from.phase_a == 0 || to.phase_a == 0
            &&& from.phase_b == to.phase_b || from.phase_b == 0 || to.phase_b == 0
            &&& from.phase_c == to.phase_c || from.phase_c == 0 || to.phase_c == 0
        }),
{
}

/// An angle always gives a sector from 1 to 6; one that is not finite gives the first.
pub proof fn angle_gives_valid_sector(theta_rad: Binary32)
    requires
        wrappable(theta_rad),
    ensures
        1 <= sector_of_wrapped(wrapped_angle(theta_rad)) <= 6,
        six_step_of(sector_of_wrapped(wrapped_angle(theta_rad))).sector == sector_of_wrapped(
            wrapped_angle(theta_rad),
        ),
        !theta_rad.finite() ==> sector_of_wrapped(wrapped_angle(theta_rad)) == 1,
{
    if theta_rad.finite() {
        wrapped_angle_lies_in_first_revolution(theta_rad);
    }
    lemma_sixths(wrapped_angle(theta_rad));
    reveal(Binary32::spec_euclidean_or_real_div);
}

/// A sixth of a revolution, exactly.
proof fn lemma_exact_sixth()
    ensures
        b32(PI) / b32(THREE) == b32(SIXTH),
        6 * b32(SIXTH).value() == b32(TWO_PI).value(),
        b32(SIXTH).value() == 0x86_0a92 * pow2(126),
        pow2(128) == 4 * pow2(126),
        pow2(149) == 0x80_0000 * pow2(126),
        pow2(126) > 0,
{
    reveal(Binary32::spec_euclidean_or_real_div);
    lemma2_to64();
    lemma_pow2_pos(126);
    lemma_pow2_unfold(127);
    lemma_pow2_unfold(128);
    lemma_pow2_adds(23, 126);
    lemma_mag_units_at(126, 0x86_0a92);
    lemma_mag_units_at(127, 0xc9_0fdb);
    lemma_mag_units_at(127, 0xc0_0000);
    lemma_mag_units_at(128, 0xc9_0fdb);
    assert(PI as nat == 0x80_0000 * 127 + 0xc9_0fdb);
    assert(THREE as nat == 0x80_0000 * 127 + 0xc0_0000);
    assert(SIXTH as nat == 0x80_0000 * 126 + 0x86_0a92);
    let e = pow2(126);
    let den = b32(THREE).units();
    assert(b32(PI).units() * pow2(149) == (0x86_0a92 * e) * den) by (nonlinear_arith)
        requires
            b32(PI).units() == 0xc9_0fdb * (2 * e),
            pow2(149) == 0x80_0000 * e,
            den == 0xc0_0000 * (2 * e),
    ;
    rounding_is_exact(SIXTH as nat, den);
}

/// The quotient of an angle in the first revolution by a sixth of one, in whole and part.
proof fn lemma_sixth_quotient(theta: Binary32)
    requires
        theta >= b32(ZERO),
        theta < b32(TWO_PI),
    ensures
        ({
            let ratio = theta / b32(SIXTH);
            let whole = ratio.saturated_int();
            &&& 0 <= whole <= 5
            &&& whole * b32(SIXTH).value() <= theta.value() + pow2(128)
            &&& theta.value() < (whole + 1) * b32(SIXTH).value() + pow2(128)
        }),
{
    let sixth = b32(SIXTH);
    let third = sixth.value();
    let ratio = theta / sixth;
    let u = pow2(149);
    let e = pow2(128);
    let t = b32(TWO_PI).value();
    lemma_exact_sixth();
    lemma_sixths(theta);
    lemma_mag_units_order(0, 0);
    order_is_value_order(b32(ZERO), theta);
    order_is_value_order(theta, b32(TWO_PI));
    lemma_mag_units_at(128, 0xc9_0fda);
    lemma_mag_units_at(128, 0xc9_0fdb);
    lemma_mag_units_order(theta.mag(), (TWO_PI - 1) as nat);
    assert(theta.value() <= t - e);
    lemma_div_kind(theta, sixth);
    quotient_follows_signs(theta, sixth);
    assert(ratio.finite() && ratio.mag() <= TWO_PI) by {
        reveal(Binary32::spec_euclidean_or_real_div);
        quotient_by_at_least_one(theta, sixth);
    }
    lemma_spacing(ratio.mag(), TWO_PI as nat);
    assert(TWO_PI as nat / 0x80_0000 == 129);
    quotient_error_is_at_most_half_own_spacing(theta, sixth);
    let gap = spacing(ratio.mag());
    lemma_mag_units_order(ratio.mag(), 0);
    let r = ratio.value();
    let whole = ratio.units() / u;
    lemma_fundamental_div_mod(ratio.units() as int, u as int);
    assert(ratio.negative() ==> ratio.zero());
    if ratio.zero() {
        lemma_div_mod_unique(0, u, 0, 0);
    }
    assert(ratio.saturated_int() == whole);
    assert(gap * third <= e * third) by (nonlinear_arith)
        requires
            gap <= e,
            third >= 0,
    ;
    assert(whole * u == u * whole && (whole + 1) * u == u * whole + u) by (nonlinear_arith);
    lemma_between_sixths(r, whole as int, theta.value(), third, u as int, e as int);
}

/// From a rounded quotient `r` of `theta` and `third`, `whole` being its integer part.
proof fn lemma_between_sixths(r: int, whole: int, theta: int, third: int, u: int, e: int)
    requires
        2 * abs(r * third - theta * u) <= e * third,
        whole * u <= r,
        r < (whole + 1) * u,
        0 < third,
        10 * third < 11 * u,
        theta <= 6 * third - e,
        e > 0,
        whole >= 0,
    ensures
        whole <= 5,
        whole * third <= theta + e,
        theta < (whole + 1) * third + e,
{
    assert((whole * u) * third <= r * third) by (nonlinear_arith)
        requires
            whole * u <= r,
            0 < third,
    ;
    assert(r * third <= ((whole + 1) * u) * third) by (nonlinear_arith)
        requires
            r < (whole + 1) * u,
            0 < third,
    ;
    assert(10 * (e * third) < 11 * (e * u)) by (nonlinear_arith)
        requires
            10 * third < 11 * u,
            e > 0,
    ;
    let low = whole * third;
    let high = (whole + 1) * third;
    assert((whole * u) * third == low * u) by (nonlinear_arith)
        requires
            low == whole * third,
    ;
    assert(((whole + 1) * u) * third == high * u) by (nonlinear_arith)
        requires
            high == (whole + 1) * third,
    ;
    assert(low <= theta + e) by (nonlinear_arith)
        requires
            low * u <= theta * u + e * u,
            u > 0,
    ;
    assert(theta < high + e) by (nonlinear_arith)
        requires
            theta * u < high * u + e * u,
            u > 0,
    ;
    if whole >= 6 {
        assert(low >= 6 * third) by (nonlinear_arith)
            requires
                low == whole * third,
                whole >= 6,
                third > 0,
        ;
        assert(theta * u + e * u <= low * u) by (nonlinear_arith)
            requires
                theta + e <= low,
                u > 0,
        ;
    }
}

/// An angle in the first revolution lies in its sector, the first sixth of a revolution
/// being the first sector, up to one step at the boundaries; the truncated quotient alone
/// gives 0 to 5.
pub proof fn angle_lies_in_its_sector(theta: Binary32)
    requires
        theta >= b32(ZERO),
        theta < b32(TWO_PI),
    ensures
        ({
            let sector = sector_of_wrapped(theta);
            let sixth = b32(SIXTH).value();
            &&& wrapped_angle(theta) == theta
            &&& 6 * sixth == b32(TWO_PI).value()
            &&& 1 <= sector <= 6
            &&& sector == (theta / (b32(PI) / b32(THREE))).saturated_int() + 1
            &&& (sector - 1) * sixth <= theta.value() + spacing(TWO_PI as nat)
            &&& theta.value() < sector * sixth + spacing(TWO_PI as nat)
        }),
{
    lemma_exact_sixth();
    lemma_sixth_quotient(theta);
    wrapping_keeps_first_revolution(theta);
    assert(TWO_PI as nat / 0x80_0000 == 129);
}

} // verus!
