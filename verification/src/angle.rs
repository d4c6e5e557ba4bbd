//! Angle and length of a vector by CORDIC rotations.
use core::ops::Neg;
use vstd::prelude::*;
use crate::arithmetic::lemma_mul_kind;
use crate::arithmetic::lemma_sum_kind;
use crate::arithmetic::power_mag;
use crate::arithmetic::product_follows_signs;
use crate::arithmetic::quotient_follows_signs;
use crate::arithmetic::sum_of_bounded_numbers;
use crate::arithmetic::sum_of_non_negatives;
use crate::binary32::b32;
use crate::binary32::Binary32;
use crate::binary32::ONE;
use crate::binary32::ZERO;
use crate::math::PI;
use crate::math::TWO_PI;
use crate::math::wrap_angle_0_to_2pi;
use crate::math::wrappable;
use crate::math::wrapped_angle;
use crate::math::wrapped_angle_lies_in_first_revolution;
use crate::square_root::sqrt_of;

verus! {

/// Number of rotations for full accuracy.
pub const MAX_ROTATIONS: usize = 16;

/// Encodings of the arctangents of `2^-i` in radians.
pub const ATAN_TABLE: [u32; 16] = [
    0x3f49_0fdb,
    0x3eed_6338,
    0x3e7a_dbb0,
    0x3dfe_add5,
    0x3d7f_aade,
    0x3cff_eaae,
    0x3c7f_faab,
    0x3bff_feab,
    0x3b7f_ffab,
    0x3aff_ffeb,
    0x3a7f_fffb,
    0x39ff_ffff,
    0x3980_0000,
    0x3900_0000,
    0x3880_0000,
    0x3800_0000,
];

/// Angle and length of a vector.
#[derive(Clone, Copy, Debug, PartialEq)]
pub struct CordicOutput {
    /// Angle in the first revolution, in radians.
    pub angle_rad: Binary32,
    /// Length, in the unit of the coordinates.
    pub magnitude: Binary32,
}

impl Default for CordicOutput {
    /// Angle and length zero.
    fn default() -> (r: CordicOutput)
        ensures
            r == (CordicOutput { angle_rad: b32(ZERO), magnitude: b32(ZERO) }),
    {
        CordicOutput { angle_rad: b32(ZERO), magnitude: b32(ZERO) }
    }
}

/// The number of rotations for a request: every request below one or above sixteen stands
/// for sixteen.
pub open spec fn rotations(iterations: int) -> int {
    if 0 < iterations < MAX_ROTATIONS {
        iterations
    } else {
        MAX_ROTATIONS as int
    }
}

/// The number of rotations to make for a request.
pub fn iteration_count(iterations: i32) -> (r: usize)
    ensures
        r == rotations(iterations as int),
        1 <= r <= MAX_ROTATIONS,
{
    if iterations <= 0 || iterations as usize > MAX_ROTATIONS {
        MAX_ROTATIONS
    } else {
        iterations as usize
    }
}

/// The power `2^-i`.
pub open spec fn step_factor(i: int) -> Binary32 {
    b32((0x3f80_0000 - 0x80_0000 * i) as u32)
}

/// How much `count` rotations lengthen a vector.
pub open spec fn gain_after(count: int) -> Binary32
    decreases count,
{
    if count <= 0 {
        b32(ONE)
    } else {
        let factor = step_factor(count - 1);
        gain_after(count - 1) * sqrt_of(b32(ONE) + factor * factor)
    }
}

/// How much `count` rotations lengthen a vector: the product of the square roots of
/// `1 + 2^-2i`.
pub fn cordic_gain(count: usize) -> (r: Binary32)
    requires
        count <= MAX_ROTATIONS,
    ensures
        r == gain_after(count as int),
{
    let mut gain: Binary32 = b32(ONE);
    for i in 0..count
        invariant
            count <= MAX_ROTATIONS,
            gain == gain_after(i as int),
    {
        let factor: Binary32 = Binary32::inverse_power_of_two(i as u32);
        gain = gain * (b32(ONE) + factor * factor).sqrt();
    }
    gain
}

/// A vector being rotated towards the positive x axis, and the angle it has turned.
pub struct Rotation {
    pub x: Binary32,
    pub y: Binary32,
    pub z: Binary32,
}

/// The rotation by the arctangent of `2^-i` that brings the vector closer to the axis.
pub open spec fn rotated_once(r: Rotation, i: int) -> Rotation {
    let factor = step_factor(i);
    if r.y > b32(ZERO) {
        Rotation {
            x: r.x + r.y * factor,
            y: r.y - r.x * factor,
            z: r.z + b32(ATAN_TABLE[i]),
        }
    } else {
        Rotation {
            x: r.x - r.y * factor,
            y: r.y + r.x * factor,
            z: r.z - b32(ATAN_TABLE[i]),
        }
    }
}

/// The vector after the first `count` rotations.
pub open spec fn rotated(start: Rotation, count: int) -> Rotation
    decreases count,
{
    if count <= 0 {
        start
    } else {
        rotated_once(rotated(start, count - 1), count - 1)
    }
}

/// The vector in the right half plane from which the rotations start.
pub open spec fn folded_start(y: Binary32, x: Binary32) -> Rotation {
    if x < b32(ZERO) {
        Rotation { x: -x, y: -y, z: b32(ZERO) }
    } else {
        Rotation { x, y, z: b32(ZERO) }
    }
}

/// The angle by which folding turned the vector.
pub open spec fn folded_offset(x: Binary32) -> Binary32 {
    if x < b32(ZERO) {
        b32(PI)
    } else {
        b32(ZERO)
    }
}

/// Angle and length of the vector `(x, y)` after the requested rotations; zero for the
/// zero vector.
pub open spec fn cordic_of(y: Binary32, x: Binary32, iterations: int) -> CordicOutput {
    if x.zero() && y.zero() {
        CordicOutput { angle_rad: b32(ZERO), magnitude: b32(ZERO) }
    } else {
        let count = rotations(iterations);
        let end = rotated(folded_start(y, x), count);
        CordicOutput {
            angle_rad: wrapped_angle(end.z + folded_offset(x)),
            magnitude: end.x / gain_after(count),
        }
    }
}

proof fn lemma_atan_entry(i: int)
    requires
        0 <= i < 16,
    ensures
        b32(ATAN_TABLE[i]).mag() <= power_mag(0),
{
}

/// The angle turned in `count` rotations is at most `2^count`.
proof fn lemma_turned_angle(start: Rotation, count: int)
    requires
        start.z == b32(ZERO),
        0 <= count <= 16,
    ensures
        rotated(start, count).z.mag() <= power_mag(count),
    decreases count,
{
    if count > 0 {
        let before = rotated(start, count - 1);
        let step = b32(ATAN_TABLE[count - 1]);
        lemma_turned_angle(start, count - 1);
        lemma_atan_entry(count - 1);
        sum_of_bounded_numbers(before.z, step, count - 1);
        sum_of_bounded_numbers(before.z, -step, count - 1);
    }
}

/// The angle that CORDIC finds can be wrapped.
proof fn lemma_angle_wrappable(y: Binary32, x: Binary32, count: int)
    requires
        0 <= count <= 16,
    ensures
        (rotated(folded_start(y, x), count).z + folded_offset(x)).finite(),
        wrappable(rotated(folded_start(y, x), count).z + folded_offset(x)),
{
    let end = rotated(folded_start(y, x), count);
    lemma_turned_angle(folded_start(y, x), count);
    sum_of_bounded_numbers(end.z, folded_offset(x), 16);
}

/// Angle and length of the vector `(x, y)` by CORDIC.
pub fn cordic_atan2(y: Binary32, x: Binary32, iterations: i32) -> (r: CordicOutput)
    ensures
        r == cordic_of(y, x, iterations as int),
{
    if x == b32(ZERO) && y == b32(ZERO) {
        return CordicOutput::default();
    }
    let count: usize = iteration_count(iterations);
    let mut x_work: Binary32 = x;
    let mut y_work: Binary32 = y;
    let mut quadrant_offset: Binary32 = b32(ZERO);
    if x_work < b32(ZERO) {
        x_work = x_work.neg();
        y_work = y_work.neg();
        quadrant_offset = b32(PI);
    }
    let mut z: Binary32 = b32(ZERO);
    for i in 0..count
        invariant
            count <= MAX_ROTATIONS,
            (Rotation { x: x_work, y: y_work, z }) == rotated(folded_start(y, x), i as int),
    {
        let atan: Binary32 = b32(ATAN_TABLE[i]);
        let factor: Binary32 = Binary32::inverse_power_of_two(i as u32);
        let (x_next, y_next): (Binary32, Binary32) = if y_work > b32(ZERO) {
            z = z + atan;
            (x_work + y_work * factor, y_work - x_work * factor)
        } else {
            z = z - atan;
            (x_work - y_work * factor, y_work + x_work * factor)
        };
        x_work = x_next;
        y_work = y_next;
    }
    proof {
        lemma_angle_wrappable(y, x, count as int);
    }
    CordicOutput {
        angle_rad: wrap_angle_0_to_2pi(z + quadrant_offset),
        magnitude: x_work / cordic_gain(count),
    }
}

/// The angle found lies in the first revolution, below two pi, whatever the vector.
pub proof fn cordic_angle_lies_in_first_revolution(y: Binary32, x: Binary32, iterations: int)
    ensures
        cordic_of(y, x, iterations).angle_rad >= b32(ZERO),
        cordic_of(y, x, iterations).angle_rad < b32(TWO_PI),
{
    let count = rotations(iterations);
    if !(x.zero() && y.zero()) {
        lemma_angle_wrappable(y, x, count);
        wrapped_angle_lies_in_first_revolution(
            rotated(folded_start(y, x), count).z + folded_offset(x),
        );
    }
}

/// The gain has no negative sign.
proof fn lemma_gain_sign(count: int)
    ensures
        !gain_after(count).negative(),
    decreases count,
{
    if count > 0 {
        lemma_gain_sign(count - 1);
        let factor = step_factor(count - 1);
        let square = factor * factor;
        let term = b32(ONE) + square;
        reveal(Binary32::spec_mul);
        reveal(sqrt_of);
        assert(!square.negative());
        lemma_sum_kind(b32(ONE), square);
        if !term.nan() {
            sum_of_non_negatives(b32(ONE), square);
        }
        assert(!sqrt_of(term).negative());
    }
}

/// Rotating towards the axis never makes the x coordinate negative.
proof fn lemma_rotated_x(start: Rotation, count: int)
    requires
        start.x.nan() || start.x >= b32(ZERO),
        0 <= count <= 16,
    ensures
        rotated(start, count).x.nan() || rotated(start, count).x >= b32(ZERO),
    decreases count,
{
    if count > 0 {
        lemma_rotated_x(start, count - 1);
        let before = rotated(start, count - 1);
        let factor = step_factor(count - 1);
        let push = before.y * factor;
        let term = if before.y > b32(ZERO) {
            push
        } else {
            -push
        };
        lemma_sum_kind(before.x, term);
        lemma_mul_kind(before.y, factor);
        if !(before.x + term).nan() {
            product_follows_signs(before.y, factor);
            sum_of_non_negatives(before.x, term);
        }
    }
}

/// The length found is never negative.
pub proof fn cordic_magnitude_is_not_negative(y: Binary32, x: Binary32, iterations: int)
    ensures
        cordic_of(y, x, iterations).magnitude.nan() || cordic_of(y, x, iterations).magnitude >= b32(
            ZERO,
        ),
{
    let count = rotations(iterations);
    if !(x.zero() && y.zero()) {
        let end = rotated(folded_start(y, x), count);
        lemma_gain_sign(count);
        lemma_rotated_x(folded_start(y, x), count);
        reveal(Binary32::spec_euclidean_or_real_div);
        if !(end.x / gain_after(count)).nan() && !gain_after(count).zero() {
            quotient_follows_signs(end.x, gain_after(count));
        }
    }
}

/// The zero vector has angle and length zero.
pub proof fn cordic_of_zero_vector(y: Binary32, x: Binary32, iterations: int)
    requires
        x.zero(),
        y.zero(),
    ensures
        cordic_of(y, x, iterations) == (CordicOutput {
            angle_rad: b32(ZERO),
            magnitude: b32(ZERO),
        }),
{
}

} // verus!
