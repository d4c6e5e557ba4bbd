//! How close CORDIC rotations bring a vector to the axis, and how they keep its length.
use vstd::prelude::*;
use crate::accuracy::lemma_around_one;
use crate::angle::cordic_of;
use crate::angle::folded_start;
use crate::angle::gain_after;
use crate::angle::rotated;
use crate::angle::rotated_once;
use crate::angle::Rotation;
use crate::angle::rotations;
use crate::angle::step_factor;
use crate::arithmetic::lemma_mul_kind;
use crate::arithmetic::lemma_power_mag;
use crate::arithmetic::lemma_rounded_sum_exact;
use crate::arithmetic::lemma_rounded_sum_order;
use crate::arithmetic::lemma_sum_kind;
use crate::arithmetic::negation_is_an_involution;
use crate::arithmetic::one_is_neutral;
use crate::arithmetic::order_is_value_order;
use crate::arithmetic::power_mag;
use crate::arithmetic::product_follows_signs;
use crate::arithmetic::sum_error_is_at_most_half_spacing;
use crate::arithmetic::sum_of_non_negatives;
use crate::binary32::b32;
use crate::binary32::Binary32;
use crate::binary32::ONE;
use crate::binary32::rounded_sum;
use crate::binary32::ZERO;
use crate::exact::lemma_least;
use crate::exact::lemma_scaled;
use crate::exact::lemma_size_of_product;
use crate::exact::lemma_unscaled;
use crate::exact::part;
use crate::exact::product_rounds;
use crate::exact::real_of;
use crate::exact::rounds;
use crate::exact::size_of_real;
use crate::nearest::lemma_mag_units_at;
use crate::nearest::lemma_mag_units_order;
use crate::nearest::rounding_is_exact;
use crate::observer::linear_filters::lemma_root_as_real;
use crate::real_rounding::finite_product_rounds;
use crate::real_rounding::finite_quotient_rounds;
use crate::real_rounding::finite_sum_rounds;
use crate::real_rounding::lemma_real_negative;
use crate::real_rounding::lemma_real_product;
use crate::real_rounding::lemma_real_scaled;
use crate::rounding::mag_units;
use crate::square_root::sqrt_of;
use crate::square_root::square_root_error_is_small;
use vstd::arithmetic::power2::lemma2_to64;
use vstd::arithmetic::power2::lemma_pow2_adds;
use vstd::arithmetic::power2::lemma_pow2_pos;
use vstd::arithmetic::power2::lemma_pow2_strictly_increases;
use vstd::arithmetic::power2::lemma_pow2_unfold;
use vstd::arithmetic::power2::pow2;
use vstd::math::abs;

verus! {

/// Whether a vector is long enough that no rotation leaves the range of full precision.
pub open spec fn long_enough(r: Rotation) -> bool {
    r.x.mag() >= power_mag(-100) || r.y.mag() >= power_mag(-100)
}

/// The power `2^-i` in units.
proof fn lemma_step_factor(i: int)
    requires
        0 <= i < 16,
    ensures
        step_factor(i).finite(),
        !step_factor(i).negative(),
        step_factor(i).value() == pow2((149 - i) as nat),
        pow2(149) == pow2((149 - i) as nat) * pow2(i as nat),
        pow2(i as nat) > 0,
        pow2((149 - i) as nat) > 0,
{
    lemma_power_mag(-i);
    lemma_pow2_adds((149 - i) as nat, i as nat);
    lemma_pow2_pos(i as nat);
    lemma_pow2_pos((149 - i) as nat);
    assert(step_factor(i).mag() == power_mag(-i));
}

/// A number of full precision divided by a power of two, as long as it keeps it.
proof fn lemma_halved(x: Binary32, i: int)
    requires
        x.finite(),
        0 <= i < 16,
        x.mag() >= 0x80_0000 * (i + 1),
    ensures
        (x * step_factor(i)).finite(),
        (x * step_factor(i)).value() * pow2(i as nat) == x.value(),
{
    reveal(Binary32::spec_mul);
    let f = step_factor(i);
    let m = (x.mag() - 0x80_0000 * i) as nat;
    let k = (m / 0x80_0000 - 1) as nat;
    let s = 0x80_0000 + m % 0x80_0000;
    let low = pow2((149 - i) as nat);
    let high = pow2(i as nat);
    lemma_step_factor(i);
    lemma_mag_units_at(k, s);
    lemma_mag_units_at(k + i as nat, s);
    lemma_pow2_adds(k, i as nat);
    assert(x.mag() == 0x80_0000 * (k + i as nat) + s);
    assert(mag_units(x.mag()) == mag_units(m) * high) by (nonlinear_arith)
        requires
            mag_units(x.mag()) == s * (pow2(k) * high),
            mag_units(m) == s * pow2(k),
    ;
    assert(x.units() * f.units() == mag_units(m) * pow2(149)) by (nonlinear_arith)
        requires
            x.units() == mag_units(m) * high,
            f.units() == low,
            pow2(149) == low * high,
    ;
    lemma_pow2_pos(149);
    rounding_is_exact(m, pow2(149));
    assert((x * f).mag() == m);
    assert((x * f).negative() == x.negative());
    let n = mag_units(m) as int;
    assert(-n * high == -(n * high)) by (nonlinear_arith);
}

/// One rotation of a vector near the axis brings it nearer.
proof fn lemma_rotation(r: Rotation, i: int)
    requires
        1 <= i < 16,
        r.x.finite(),
        r.y.finite(),
        r.x >= b32(ZERO),
        r.x.mag() >= power_mag(-100),
        abs(r.y.value()) * pow2((i - 1) as nat) <= r.x.value(),
        rotated_once(r, i).x.finite(),
    ensures
        rotated_once(r, i).y.finite(),
        rotated_once(r, i).x >= r.x,
        abs(rotated_once(r, i).y.value()) * pow2(i as nat) <= rotated_once(r, i).x.value(),
{
    let next = rotated_once(r, i);
    let f = r.x * step_factor(i);
    let high = pow2(i as nat);
    lemma_pow2_unfold(i as nat);
    lemma_pow2_pos((i - 1) as nat);
    lemma_mag_units_order(0, 0);
    order_is_value_order(b32(ZERO), r.x);
    order_is_value_order(r.y, b32(ZERO));
    order_is_value_order(b32(ZERO), r.y);
    lemma_halved(r.x, i);
    let y = abs(r.y.value()) as int;
    assert(0 <= f.value() && y <= 2 * f.value()) by (nonlinear_arith)
        requires
            f.value() * high == r.x.value(),
            y * pow2((i - 1) as nat) <= r.x.value(),
            high == 2 * pow2((i - 1) as nat),
            pow2((i - 1) as nat) > 0,
            r.x.value() >= 0,
    ;
    assert(abs(f.value()) == mag_units(f.mag()));
    assert((-f).value() == -f.value());
    if r.y > b32(ZERO) {
        sum_error_is_at_most_half_spacing(r.y, -f, f.mag());
    } else {
        sum_error_is_at_most_half_spacing(r.y, f, f.mag());
    }
    assert(next.y.mag() <= f.mag());
    lemma_mag_units_order(next.y.mag(), f.mag());
    assert(abs(next.y.value()) <= f.value());
    lemma_push(r, i);
    order_is_value_order(r.x, next.x);
    let z = abs(next.y.value()) as int;
    assert(z * high <= f.value() * high) by (nonlinear_arith)
        requires
            z <= f.value(),
            high > 0,
    ;
}

/// A rotation never makes the x coordinate smaller.
proof fn lemma_push(r: Rotation, i: int)
    requires
        0 <= i < 16,
        r.x.finite(),
        r.y.finite(),
        r.x >= b32(ZERO),
    ensures
        rotated_once(r, i).x >= r.x,
        rotated_once(r, i).x >= b32(ZERO),
{
    let factor = step_factor(i);
    let push = r.y * factor;
    let term = if r.y > b32(ZERO) {
        push
    } else {
        -push
    };
    lemma_step_factor(i);
    lemma_mul_kind(r.y, factor);
    product_follows_signs(r.y, factor);
    sum_of_non_negatives(r.x, term);
}

/// The first rotation, whatever the vector in the right half plane.
proof fn lemma_first_rotation(r: Rotation)
    requires
        r.x.finite(),
        r.y.finite(),
        r.x >= b32(ZERO),
        rotated_once(r, 0).x.finite(),
    ensures
        rotated_once(r, 0).y.finite(),
        rotated_once(r, 0).x >= r.x,
        rotated_once(r, 0).x.mag() >= r.y.mag(),
        abs(rotated_once(r, 0).y.value()) <= rotated_once(r, 0).x.value(),
{
    let next = rotated_once(r, 0);
    assert(step_factor(0) == b32(ONE));
    one_is_neutral(r.x);
    one_is_neutral(r.y);
    lemma_mag_units_order(0, 0);
    order_is_value_order(b32(ZERO), r.x);
    order_is_value_order(r.y, b32(ZERO));
    order_is_value_order(b32(ZERO), r.y);
    let x = r.x.value();
    let y = r.y.value();
    assert((-r.x).value() == -x && (-r.y).value() == -y);
    lemma_push(r, 0);
    order_is_value_order(r.x, next.x);
    if r.y > b32(ZERO) {
        lemma_sum_kind(r.x, r.y);
        lemma_sum_kind(r.y, -r.x);
        sum_of_non_negatives(r.x, r.y);
        order_is_value_order(r.y, next.x);
        lemma_first_difference(r.y, -r.x, r.x, r.y);
        lemma_mag_units_order(next.x.mag(), r.y.mag());
    } else {
        lemma_sum_kind(r.x, -r.y);
        lemma_sum_kind(r.y, r.x);
        sum_of_non_negatives(r.x, -r.y);
        order_is_value_order(-r.y, next.x);
        lemma_first_difference(r.y, r.x, r.x, -r.y);
        lemma_mag_units_order(next.x.mag(), r.y.mag());
    }
}

/// A difference of two sizes is not larger than their sum.
proof fn lemma_first_difference(a: Binary32, b: Binary32, c: Binary32, d: Binary32)
    requires
        a.finite(),
        b.finite(),
        c.finite(),
        d.finite(),
        (c + d).finite(),
        abs(a.value() + b.value()) <= c.value() + d.value(),
    ensures
        (a + b).finite(),
        abs((a + b).value()) <= (c + d).value(),
{
    lemma_sum_kind(a, b);
    lemma_sum_kind(c, d);
    lemma_rounded_sum_order(
        a.value() + b.value(),
        a.negative() && b.negative(),
        c.value() + d.value(),
        c.negative() && d.negative(),
    );
    let exact = a.value() + b.value();
    let t = rounded_sum(-exact, exact > 0);
    lemma_rounded_sum_order(
        -exact,
        exact > 0,
        c.value() + d.value(),
        c.negative() && d.negative(),
    );
    lemma_mag_units_order(0, 0);
    assert(t.mag() == (a + b).mag());
    if exact == 0 {
        assert((a + b).value() == 0);
        assert(t.value() == 0);
    } else {
        assert(t.negative() != (a + b).negative());
    }
    order_is_value_order(a + b, c + d);
    order_is_value_order(t, c + d);
}

/// A rotation whose result is finite started from a finite coordinate.
proof fn lemma_finite_before(r: Rotation, i: int)
    requires
        rotated_once(r, i).x.finite(),
    ensures
        r.x.finite(),
{
    let push = r.y * step_factor(i);
    lemma_sum_kind(r.x, push);
    lemma_sum_kind(r.x, -push);
}

/// Whether a vector is finite, in the right half plane, and not too short for CORDIC.
pub open spec fn in_right_half(r: Rotation) -> bool {
    &&& r.x.finite() && r.y.finite()
    &&& r.x >= b32(ZERO)
    &&& long_enough(r)
}

/// After `n` rotations the vector has left the axis by at most `2^-(n - 1)` of its x
/// coordinate: its remaining angle is at most that of the last rotation.
pub proof fn rotations_align_vector(start: Rotation, n: int)
    requires
        in_right_half(start),
        1 <= n <= 16,
        rotated(start, n).x.finite(),
    ensures
        rotated(start, n).y.finite(),
        rotated(start, n).x >= b32(ZERO),
        rotated(start, n).x.mag() >= power_mag(-100),
        abs(rotated(start, n).y.value()) * pow2((n - 1) as nat) <= rotated(start, n).x.value(),
    decreases n,
{
    let before = rotated(start, n - 1);
    let next = rotated(start, n);
    lemma2_to64();
    lemma_finite_before(before, n - 1);
    if n == 1 {
        lemma_first_rotation(start);
        lemma_mag_units_order(0, 0);
        lemma_size_order(start.x, next.x);
        assert(abs(next.y.value()) * 1 == abs(next.y.value()));
    } else {
        rotations_align_vector(start, n - 1);
        lemma_rotation(before, n - 1);
        lemma_size_order(before.x, next.x);
    }
}

/// Among numbers that are not negative, a larger one has the larger encoding.
proof fn lemma_size_order(a: Binary32, b: Binary32)
    requires
        a.finite(),
        b.finite(),
        a >= b32(ZERO),
        b >= a,
    ensures
        b.mag() >= a.mag(),
        b >= b32(ZERO),
{
    lemma_mag_units_order(0, 0);
    order_is_value_order(b32(ZERO), a);
    order_is_value_order(a, b);
    order_is_value_order(b32(ZERO), b);
    lemma_mag_units_order(b.mag(), a.mag());
}

/// The square of the length of a vector.
pub open spec fn squared_length(r: Rotation) -> real {
    real_of(r.x) * real_of(r.x) + real_of(r.y) * real_of(r.y)
}

/// The power `2^-i`.
pub open spec fn inverse_power(i: nat) -> real {
    1real / pow2(i) as real
}

/// How much `n` exact rotations lengthen the square of the length.
pub open spec fn squared_growth(n: int) -> real
    decreases n,
{
    if n <= 0 {
        1real
    } else {
        squared_growth(n - 1) * (1real + inverse_power((n - 1) as nat) * inverse_power((n
            - 1) as nat))
    }
}

/// Squares of numbers that differ by `k` parts in `2^23` of a bound.
proof fn lemma_close_squares(a: real, e: real, x: real, k: real)
    requires
        size_of_real(a) <= x,
        8388608real * size_of_real(a - e) <= k * x,
        0real <= k <= 8real,
    ensures
        134217728real * size_of_real(a * a - e * e) <= (33real * k) * (x * x),
{
    let d = 8388608real * (a - e);
    let s = a + e;
    lemma_scaled(k, 8real, x);
    assert(16real * size_of_real(s) <= 33real * x);
    lemma_size_of_product(d, 16real * s, k * x, 33real * x);
    assert(d * (16real * s) == 134217728real * (a * a - e * e)) by (nonlinear_arith)
        requires
            d == 8388608real * (a - e),
            s == a + e,
    ;
    assert((k * x) * (33real * x) == (33real * k) * (x * x)) by (nonlinear_arith);
}

/// One more rounding of a quantity that is already off by `w` parts of eight.
proof fn lemma_one_more(next: real, exact: real, target: real, w: real)
    requires
        134217728real * size_of_real(next - exact) <= 120real * next,
        8388608real * size_of_real(exact - target) <= 8real * w,
        0real <= target,
        0real <= w <= 16real * target,
    ensures
        8388608real * size_of_real(next - target) <= 8real * (w + target),
{
}

/// A number that is not too small is the rounded value of a real up to one part in `2^23`.
proof fn lemma_rounds_relatively(r: Binary32, e: real, bound: real)
    requires
        rounds(r, e),
        size_of_real(real_of(r)) <= bound,
        inverse_power(120) <= bound,
    ensures
        8388608real * size_of_real(real_of(r) - e) <= bound,
{
    let k = part();
    let v = size_of_real(real_of(r));
    let u = pow2(149) as real;
    let t = pow2(120) as real;
    lemma2_to64();
    lemma_pow2_pos(149);
    lemma_pow2_pos(120);
    lemma_pow2_adds(120, 29);
    assert(pow2(149) == pow2(120) * 536870912);
    assert((pow2(120) * 536870912) as real == t * 536870912real);
    let least = 1real / u;
    assert(least * u == 1real) by (nonlinear_arith)
        requires
            least == 1real / u,
            u > 0real,
    ;
    let i = inverse_power(120);
    assert(i * t == 1real) by (nonlinear_arith)
        requires
            i == 1real / t,
            t > 0real,
    ;
    assert(least * (t * 536870912real) == (536870912real * least) * t) by (nonlinear_arith);
    lemma_unscaled(536870912real * least, i, t);
    assert(8388608real * (k * v) == v) by (nonlinear_arith)
        requires
            k == 1real / 8388608real,
    ;
}

/// The order of numbers is that of their exact values.
pub proof fn lemma_real_order(a: Binary32, b: Binary32)
    requires
        a.finite(),
        b.finite(),
        a <= b,
    ensures
        real_of(a) <= real_of(b),
{
    order_is_value_order(a, b);
    lemma_real_value_order(a, b);
}

/// The order of integer values is that of the reals.
pub proof fn lemma_real_value_order(a: Binary32, b: Binary32)
    requires
        a.value() <= b.value(),
    ensures
        real_of(a) <= real_of(b),
{
    let u = pow2(149) as real;
    lemma_real_scaled(a);
    lemma_real_scaled(b);
    lemma_unscaled(real_of(a), real_of(b), u);
}

/// Zero as a real.
pub proof fn lemma_real_zero(a: Binary32)
    requires
        a.zero(),
    ensures
        real_of(a) == 0real,
{
    let u = pow2(149) as real;
    lemma_mag_units_order(0, 0);
    lemma_pow2_pos(149);
    assert(0real / u == 0real) by (nonlinear_arith)
        requires
            u > 0real,
    ;
}

/// The size of a number that is not too short.
proof fn lemma_real_size(a: Binary32)
    requires
        a.finite(),
        a >= b32(ZERO),
        a.mag() >= power_mag(-100),
    ensures
        real_of(a) >= inverse_power(120),
        inverse_power(120) > 0real,
{
    let u = pow2(149) as real;
    let t = pow2(120) as real;
    let n = a.value() as real;
    lemma_pow2_pos(149);
    lemma_pow2_pos(120);
    lemma_power_mag(-120);
    lemma_pow2_adds(120, 29);
    lemma_mag_units_order(0, 0);
    lemma_mag_units_order(power_mag(-120), a.mag());
    order_is_value_order(b32(ZERO), a);
    let low = pow2(29) as real;
    let v = real_of(a);
    let i = inverse_power(120);
    lemma_real_product(pow2(120) as int, pow2(29) as int);
    lemma_real_scaled(a);
    assert(i * t == 1real) by (nonlinear_arith)
        requires
            i == 1real / t,
            t > 0real,
    ;
    assert(i * (t * low) == (i * t) * low) by (nonlinear_arith);
    assert(1real * low == low);
    lemma_unscaled(i, v, u);
    assert(i > 0real) by (nonlinear_arith)
        requires
            i * t == 1real,
            t > 0real,
    ;
}

/// The factor of a rotation as a real.
proof fn lemma_real_factor(i: int)
    requires
        0 <= i < 16,
    ensures
        step_factor(i).finite(),
        real_of(step_factor(i)) == inverse_power(i as nat),
        0real < inverse_power(i as nat) <= 1real,
{
    let u = pow2(149) as real;
    let low = pow2((149 - i) as nat) as real;
    let high = pow2(i as nat) as real;
    let f = real_of(step_factor(i));
    let h = inverse_power(i as nat);
    lemma_step_factor(i);
    lemma_real_scaled(step_factor(i));
    lemma_real_product(pow2((149 - i) as nat) as int, pow2(i as nat) as int);
    assert(h * high == 1real) by (nonlinear_arith)
        requires
            h == 1real / high,
            high > 0real,
    ;
    assert(h * (low * high) == (h * high) * low) by (nonlinear_arith);
    assert(1real * low == low);
    lemma_unscaled(f, h, u);
    lemma_unscaled(h, f, u);
    assert(h > 0real) by (nonlinear_arith)
        requires
            h * high == 1real,
            high > 0real,
    ;
    assert(1real * high == high);
    lemma_unscaled(h, 1real, high);
}

/// The share of x that a rotation takes from y is exact.
proof fn lemma_real_share(x: Binary32, i: int)
    requires
        x.finite(),
        0 <= i < 16,
        i == 0 || x.mag() >= power_mag(-100),
    ensures
        (x * step_factor(i)).finite(),
        real_of(x * step_factor(i)) == real_of(x) * inverse_power(i as nat),
{
    let u = pow2(149) as real;
    let high = pow2(i as nat) as real;
    let f = x * step_factor(i);
    lemma_pow2_pos(149);
    lemma_pow2_pos(i as nat);
    lemma2_to64();
    if i == 0 {
        one_is_neutral(x);
        assert(step_factor(0) == b32(ONE));
        assert(f.value() * pow2(0) == x.value());
    } else {
        lemma_halved(x, i);
    }
    let a = real_of(f);
    let b = real_of(x);
    let h = inverse_power(i as nat);
    lemma_real_scaled(f);
    lemma_real_scaled(x);
    lemma_real_product(f.value(), pow2(i as nat) as int);
    assert(h * high == 1real) by (nonlinear_arith)
        requires
            h == 1real / high,
            high > 0real,
    ;
    assert((a * high) * u == (a * u) * high) by (nonlinear_arith);
    lemma_unscaled(a * high, b, u);
    lemma_unscaled(b, a * high, u);
    assert((a * high) * h == (h * high) * a) by (nonlinear_arith);
    assert(1real * a == a);
}

/// The exact rotations in both directions.
proof fn lemma_exact_rotation(x: real, y: real, h: real)
    ensures
        (x + y * h) * (x + y * h) + (y - x * h) * (y - x * h) == (1real + h * h) * (x * x + y * y),
        (x - y * h) * (x - y * h) + (y + x * h) * (y + x * h) == (1real + h * h) * (x * x + y * y),
{
    let p = y * h;
    let q = x * h;
    assert((x + p) * (x + p) == x * x + 2real * (x * p) + p * p) by (nonlinear_arith);
    assert((x - p) * (x - p) == x * x - 2real * (x * p) + p * p) by (nonlinear_arith);
    assert((y - q) * (y - q) == y * y - 2real * (y * q) + q * q) by (nonlinear_arith);
    assert((y + q) * (y + q) == y * y + 2real * (y * q) + q * q) by (nonlinear_arith);
    assert(x * (y * h) == y * (x * h)) by (nonlinear_arith);
    assert((y * h) * (y * h) == (h * h) * (y * y)) by (nonlinear_arith);
    assert((x * h) * (x * h) == (h * h) * (x * x)) by (nonlinear_arith);
    assert((1real + h * h) * (x * x + y * y) == x * x + y * y + (h * h) * (x * x) + (h * h) * (y
        * y)) by (nonlinear_arith);
}

/// One rotation lengthens the square of the length by its factor, up to rounding.
proof fn lemma_rotation_length(r: Rotation, i: int)
    requires
        0 <= i < 16,
        r.x.finite(),
        r.y.finite(),
        r.x >= b32(ZERO),
        i == 0 || r.x.mag() >= power_mag(-100),
        rotated_once(r, i).x.finite(),
        rotated_once(r, i).y.finite(),
        rotated_once(r, i).x >= b32(ZERO),
        rotated_once(r, i).x.mag() >= power_mag(-100),
        abs(rotated_once(r, i).y.value()) <= rotated_once(r, i).x.value(),
    ensures
        134217728real * size_of_real(
            squared_length(rotated_once(r, i)) - (1real + inverse_power(i as nat) * inverse_power(
                i as nat,
            )) * squared_length(r),
        ) <= 112real * squared_length(rotated_once(r, i)),
{
    let next = rotated_once(r, i);
    let h = inverse_power(i as nat);
    let x = real_of(r.x);
    let y = real_of(r.y);
    let a = real_of(next.x);
    let b = real_of(next.y);
    let f = r.x * step_factor(i);
    let push = r.y * step_factor(i);
    lemma_real_factor(i);
    lemma_real_share(r.x, i);
    lemma_real_size(next.x);
    lemma_push_size(r, i);
    lemma_below_axis(next);
    lemma_exact_rotation(x, y, h);
    finite_product_rounds(r.y, step_factor(i));
    lemma_rounds_relatively(push, y * h, a);
    lemma_real_negative(f);
    lemma_real_negative(push);
    let (ex, ey) = if r.y > b32(ZERO) {
        finite_sum_rounds(r.x, push);
        finite_sum_rounds(r.y, -f);
        (x + y * h, y - x * h)
    } else {
        finite_sum_rounds(r.x, -push);
        finite_sum_rounds(r.y, f);
        (x - y * h, y + x * h)
    };
    let sum = if r.y > b32(ZERO) {
        x + real_of(push)
    } else {
        x - real_of(push)
    };
    lemma_rounds_relatively(next.x, sum, a);
    lemma_rounds_relatively(next.y, ey, a);
    lemma_close_squares(a, ex, a, 2real);
    lemma_close_squares(b, ey, a, 1real);
    lemma_non_negative_square(b);
    let exact = (1real + h * h) * (x * x + y * y);
    assert(ex * ex + ey * ey == exact);
    let m = a * a;
    assert((33real * 2real) * m == 66real * m && (33real * 1real) * m == 33real * m);
    assert(134217728real * size_of_real(a * a + b * b - exact) <= 99real * m);
}

proof fn lemma_non_negative_square(x: real)
    ensures
        x * x >= 0real,
{
    assert(x * x >= 0real) by (nonlinear_arith);
}

/// What a rotation adds to x is at most the new x.
proof fn lemma_push_size(r: Rotation, i: int)
    requires
        0 <= i < 16,
        r.x.finite(),
        r.y.finite(),
        r.x >= b32(ZERO),
        rotated_once(r, i).x.finite(),
    ensures
        (r.y * step_factor(i)).finite(),
        size_of_real(real_of(r.y * step_factor(i))) <= real_of(rotated_once(r, i).x),
{
    let factor = step_factor(i);
    let push = r.y * factor;
    let next = rotated_once(r, i);
    let term = if r.y > b32(ZERO) {
        push
    } else {
        -push
    };
    lemma_step_factor(i);
    lemma_mul_kind(r.y, factor);
    product_follows_signs(r.y, factor);
    lemma_sum_kind(r.x, term);
    sum_of_non_negatives(r.x, term);
    lemma_real_order(term, next.x);
    lemma_real_order(b32(ZERO), term);
    lemma_real_zero(b32(ZERO));
    lemma_real_negative(push);
}

/// A vector near the axis, as reals.
proof fn lemma_below_axis(r: Rotation)
    requires
        r.x.finite(),
        r.y.finite(),
        abs(r.y.value()) <= r.x.value(),
    ensures
        size_of_real(real_of(r.y)) <= real_of(r.x),
{
    lemma_real_value_order(r.y, r.x);
    negation_is_an_involution(r.y);
    lemma_real_value_order(-r.y, r.x);
    lemma_real_negative(r.y);
}

/// The growth is positive.
proof fn lemma_growth(n: int)
    requires
        0 <= n <= 16,
    ensures
        squared_growth(n) >= 1real,
    decreases n,
{
    if n > 0 {
        let h = inverse_power((n - 1) as nat);
        lemma_growth(n - 1);
        lemma_non_negative_square(h);
        lemma_scaled(1real, squared_growth(n - 1), 1real + h * h);
    }
}

/// `n` rotations lengthen the square of the length by their factors, up to `n` parts in
/// `2^20`.
pub proof fn rotations_keep_length(start: Rotation, n: int)
    requires
        in_right_half(start),
        0 <= n <= 16,
        rotated(start, n).x.finite(),
    ensures
        8388608real * size_of_real(
            squared_length(rotated(start, n)) - squared_growth(n) * squared_length(start),
        ) <= 8real * ((n as real) * (squared_growth(n) * squared_length(start))),
    decreases n,
{
    let length = squared_length(start);
    lemma_length_is_not_negative(start);
    if n == 0 {
        assert(1real * length == length);
        assert(0real * (squared_growth(0) * length) == 0real) by (nonlinear_arith);
    } else {
        let before = rotated(start, n - 1);
        let next = rotated(start, n);
        let h = inverse_power((n - 1) as nat);
        let factor = 1real + h * h;
        let grown = squared_growth(n - 1) * length;
        let target = squared_growth(n) * length;
        let k = (n - 1) as real;
        lemma_finite_before(before, n - 1);
        rotations_keep_length(start, n - 1);
        rotations_align_vector(start, n);
        if n > 1 {
            rotations_align_vector(start, n - 1);
        }
        lemma_within_axis(next, (n - 1) as nat);
        lemma_rotation_length(before, n - 1);
        lemma_non_negative_square(h);
        lemma_growth(n);
        lemma_non_negative_product(squared_growth(n), length);
        assert(target == factor * grown) by (nonlinear_arith)
            requires
                target == (squared_growth(n - 1) * factor) * length,
                grown == squared_growth(n - 1) * length,
        ;
        let d = squared_length(before) - grown;
        lemma_size_of_product(factor, d, factor, size_of_real(d));
        assert(factor * d == factor * squared_length(before) - factor * grown) by (nonlinear_arith)
            requires
                d == squared_length(before) - grown,
        ;
        lemma_scaled(8388608real * size_of_real(d), 8real * (k * grown), factor);
        assert((8388608real * size_of_real(d)) * factor == 8388608real * (factor * size_of_real(d)))
            by (nonlinear_arith);
        assert((8real * (k * grown)) * factor == 8real * (k * (factor * grown)))
            by (nonlinear_arith);
        let w = k * target;
        lemma_scaled(0real, k, target);
        lemma_scaled(k, 16real, target);
        assert(0real * target == 0real) by (nonlinear_arith);
        lemma_one_more(squared_length(next), factor * squared_length(before), target, w);
        assert((n as real) * target == w + target) by (nonlinear_arith)
            requires
                w == k * target,
                n as real == k + 1real,
        ;
    }
}

proof fn lemma_non_negative_product(a: real, b: real)
    requires
        a >= 0real,
        b >= 0real,
    ensures
        a * b >= 0real,
{
    lemma_scaled(0real, a, b);
    assert(0real * b == 0real) by (nonlinear_arith);
}

proof fn lemma_length_is_not_negative(r: Rotation)
    ensures
        squared_length(r) >= 0real,
{
    lemma_non_negative_square(real_of(r.x));
    lemma_non_negative_square(real_of(r.y));
}

/// A vector near the axis has the smaller y coordinate.
proof fn lemma_within_axis(r: Rotation, k: nat)
    requires
        abs(r.y.value()) * pow2(k) <= r.x.value(),
    ensures
        abs(r.y.value()) <= r.x.value(),
{
    let y = abs(r.y.value()) as int;
    lemma_pow2_pos(k);
    assert(y <= y * pow2(k)) by (nonlinear_arith)
        requires
            y >= 0,
            pow2(k) >= 1,
    ;
}

/// The root by which one rotation lengthens a vector.
proof fn lemma_step_root(i: int)
    requires
        0 <= i < 16,
    ensures
        ({
            let factor = step_factor(i);
            let root = sqrt_of(b32(ONE) + factor * factor);
            let h = inverse_power(i as nat);
            let rr = real_of(root);
            &&& root.finite() && root > b32(ZERO)
            &&& 1real <= 2real * rr && rr <= 2real
            &&& 134217728real * size_of_real(rr * rr - (1real + h * h)) <= 81real * (rr * rr)
        }),
{
    let factor = step_factor(i);
    let square = factor * factor;
    let term = b32(ONE) + square;
    let root = sqrt_of(term);
    let h = inverse_power(i as nat);
    let t = real_of(term);
    let rr = real_of(root);
    lemma_real_factor(i);
    lemma_power_mag(0);
    assert(factor.mag() >= power_mag(-100));
    lemma_real_share(factor, i);
    lemma_around_one();
    lemma_size_of_product(h, h, 1real, 1real);
    lemma_non_negative_square(h);
    lemma_real_one();
    // The term is rounded to a number between one and two.
    lemma_step_term(i);
    finite_sum_rounds(b32(ONE), square);
    lemma_small_inverse();
    lemma_rounds_relatively(term, 1real + h * h, t);
    square_root_error_is_small(term);
    lemma_root_as_real(term);
    lemma_mag_units_order(0, 0);
    lemma_real_order(b32(ZERO), root);
    lemma_real_zero(b32(ZERO));
    lemma_root_bounds(rr, t);
}

/// One as a real.
proof fn lemma_real_one()
    ensures
        real_of(b32(ONE)) == 1real,
{
    let u = pow2(149) as real;
    lemma_around_one();
    lemma_pow2_pos(149);
    assert(u / u == 1real) by (nonlinear_arith)
        requires
            u > 0real,
    ;
}

/// A small bound.
proof fn lemma_small_inverse()
    ensures
        0real < inverse_power(120) <= 1real,
{
    let t = pow2(120) as real;
    let i = inverse_power(120);
    lemma_pow2_pos(120);
    assert(i * t == 1real) by (nonlinear_arith)
        requires
            i == 1real / t,
            t > 0real,
    ;
    assert(0real < i <= 1real) by (nonlinear_arith)
        requires
            i * t == 1real,
            t >= 1real,
    ;
}

/// The sum under the root lies between one and two.
proof fn lemma_step_term(i: int)
    requires
        0 <= i < 16,
    ensures
        ({
            let factor = step_factor(i);
            let term = b32(ONE) + factor * factor;
            &&& term.normal() && term > b32(ZERO)
            &&& 1real <= real_of(term) <= 2real
        }),
{
    let factor = step_factor(i);
    let square = factor * factor;
    let term = b32(ONE) + square;
    let h = inverse_power(i as nat);
    lemma_around_one();
    lemma_real_factor(i);
    lemma_power_mag(0);
    lemma_power_mag(1);
    lemma_pow2_unfold(150);
    lemma_real_share(factor, i);
    lemma_real_one();
    lemma_size_of_product(h, h, 1real, 1real);
    lemma_non_negative_square(h);
    lemma_mag_units_order(0, 0);
    lemma_pow2_pos(149);
    let u = pow2(149) as real;
    lemma_real_scaled(square);
    lemma_scaled(0real, real_of(square), u);
    lemma_scaled(real_of(square), 1real, u);
    assert(0real * u == 0real && 1real * u == u) by (nonlinear_arith);
    sum_error_is_at_most_half_spacing(b32(ONE), square, power_mag(1));
    lemma_sum_kind(b32(ONE), square);
    lemma_rounded_sum_exact(b32(ONE), false);
    lemma_rounded_sum_order(
        b32(ONE).value(),
        false,
        b32(ONE).value() + square.value(),
        b32(ONE).negative() && square.negative(),
    );
    order_is_value_order(b32(ONE), term);
    order_is_value_order(b32(ZERO), term);
    lemma_real_order(b32(ONE), term);
    lemma_mag_units_order(term.mag(), b32(ONE).mag());
    lemma_mag_units_order(power_mag(1), term.mag());
    lemma_real_scaled(term);
    lemma_unscaled(real_of(term), 2real, u);
}

/// The bounds of a rounded root.
proof fn lemma_root_bounds(r: real, t: real)
    requires
        r >= 0real,
        1real <= t <= 2real,
        2097152real * size_of_real(r * r - t) <= r * r,
    ensures
        1real <= 2real * r,
        r <= 2real,
        t <= 2real * (r * r),
{
    if 2real * r < 1real {
        lemma_size_of_product(r, r, 1real / 2real, 1real / 2real);
    }
    if r > 2real {
        lemma_scaled(2real, r, r);
        lemma_scaled(2real, r, 2real);
        assert(2real * r == r * 2real) by (nonlinear_arith);
    }
}

/// The growth of `n` rotations is at most `2^n`.
proof fn lemma_growth_bound(n: int)
    requires
        0 <= n <= 16,
    ensures
        squared_growth(n) <= pow2(n as nat) as real,
    decreases n,
{
    lemma2_to64();
    if n > 0 {
        let h = inverse_power((n - 1) as nat);
        lemma_growth_bound(n - 1);
        lemma_growth(n - 1);
        lemma_real_factor(n - 1);
        lemma_size_of_product(h, h, 1real, 1real);
        lemma_non_negative_square(h);
        lemma_size_of_product(
            squared_growth(n - 1),
            1real + h * h,
            pow2((n - 1) as nat) as real,
            2real,
        );
        lemma_pow2_unfold(n as nat);
        let p = pow2((n - 1) as nat) as real;
        assert((2 * pow2((n - 1) as nat)) as real == p * 2real);
    }
}

/// The square of the gain of `n` rotations is their growth, up to `n` parts in `2^20`.
proof fn lemma_gain_square(n: int)
    requires
        0 <= n <= 16,
    ensures
        gain_after(n).finite(),
        gain_after(n) > b32(ZERO),
        real_of(gain_after(n)) > 0real,
        8388608real * size_of_real(
            real_of(gain_after(n)) * real_of(gain_after(n)) - squared_growth(n),
        ) <= 8real * ((n as real) * squared_growth(n)),
    decreases n,
{
    lemma_real_one();
    lemma_around_one();
    lemma_mag_units_order(0, 0);
    if n == 0 {
        assert(1real * 1real == 1real);
        assert(0real * squared_growth(0) == 0real) by (nonlinear_arith);
        order_is_value_order(b32(ZERO), b32(ONE));
    } else {
        let i = n - 1;
        let factor = step_factor(i);
        let root = sqrt_of(b32(ONE) + factor * factor);
        let before = gain_after(i);
        let next = gain_after(n);
        let h = inverse_power(i as nat);
        let f = 1real + h * h;
        let g = real_of(before);
        let r = real_of(root);
        let grown = squared_growth(i);
        let target = squared_growth(n);
        let k = i as real;
        lemma_gain_square(i);
        lemma_step_root(i);
        lemma_growth(i);
        lemma_growth(n);
        lemma_growth_bound(i);
        lemma_pow2_bound(i);
        lemma_scaled(k, 16real, grown);
        lemma_gain_range(g, grown);
        lemma_size_of_product(g, r, 512real, 2real);
        lemma_product_low(g, r);
        lemma_gain_product(before, root);
        let m = real_of(next);
        let e = g * r;
        lemma_close_squares(m, e, m, 1real);
        lemma_gain_step(m, g, r, f);
        lemma_non_negative_square(h);
        // The square of the gain before, off by its parts.
        let d = g * g - grown;
        lemma_size_of_product(f, d, f, size_of_real(d));
        assert(f * d == (g * g) * f - grown * f) by (nonlinear_arith)
            requires
                d == g * g - grown,
        ;
        lemma_scaled(8388608real * size_of_real(d), 8real * (k * grown), f);
        assert((8388608real * size_of_real(d)) * f == 8388608real * (f * size_of_real(d)))
            by (nonlinear_arith);
        assert((8real * (k * grown)) * f == 8real * (k * (grown * f))) by (nonlinear_arith);
        let w = k * target;
        lemma_scaled(0real, k, target);
        lemma_scaled(k, 16real, target);
        assert(0real * target == 0real) by (nonlinear_arith);
        lemma_one_more(m * m, (g * g) * f, target, w);
        assert((n as real) * target == w + target) by (nonlinear_arith)
            requires
                w == k * target,
                n as real == k + 1real,
        ;
    }
}

/// The powers of two up to the number of rotations.
proof fn lemma_pow2_bound(i: int)
    requires
        0 <= i < 16,
    ensures
        pow2(i as nat) as real <= 65536real,
{
    lemma2_to64();
    lemma_pow2_strictly_increases(i as nat, 16);
}

/// The range of a gain whose square is known.
proof fn lemma_gain_range(g: real, grown: real)
    requires
        g > 0real,
        1real <= grown <= 65536real,
        8388608real * size_of_real(g * g - grown) <= 128real * grown,
    ensures
        g <= 512real,
        1real <= 2real * g,
{
    if g > 512real {
        lemma_scaled(512real, g, g);
        lemma_scaled(512real, g, 512real);
        assert(512real * g == g * 512real) by (nonlinear_arith);
    }
    if 2real * g < 1real {
        lemma_size_of_product(g, g, 1real / 2real, 1real / 2real);
    }
}

proof fn lemma_product_low(g: real, r: real)
    requires
        1real <= 2real * g,
        1real <= 2real * r,
    ensures
        1real <= 4real * (g * r),
{
    lemma_scaled(1real, 2real * g, 2real * r);
    assert((2real * g) * (2real * r) == 4real * (g * r)) by (nonlinear_arith);
    assert(1real * (2real * r) == 2real * r) by (nonlinear_arith);
}

/// The rounded product of a gain and a root.
proof fn lemma_gain_product(before: Binary32, root: Binary32)
    requires
        before.finite(),
        root.finite(),
        1real <= 4real * (real_of(before) * real_of(root)),
        size_of_real(real_of(before) * real_of(root)) <= 1024real,
    ensures
        (before * root).finite(),
        before * root > b32(ZERO),
        real_of(before * root) > 0real,
        8388608real * size_of_real(real_of(before * root) - real_of(before) * real_of(root))
            <= real_of(before * root),
{
    let e = real_of(before) * real_of(root);
    let r = before * root;
    let m = real_of(r);
    let k = part();
    let u = pow2(149) as real;
    lemma2_to64();
    lemma_pow2_strictly_increases(10, 122);
    product_rounds(before, root);
    lemma_small_inverse();
    lemma_pow2_pos(149);
    lemma_tiny_unit();
    assert(8388608real * (k * size_of_real(m)) == size_of_real(m)) by (nonlinear_arith)
        requires
            k == 1real / 8388608real,
    ;
    assert(8real * m >= 1real);
    lemma_tiny_inverse();
    lemma_rounds_relatively(r, e, m);
    lemma_real_scaled(r);
    assert(m * u > 0real) by (nonlinear_arith)
        requires
            m > 0real,
            u > 0real,
    ;
    lemma_mag_units_order(0, 0);
    order_is_value_order(b32(ZERO), r);
}

/// The smallest number is far below one.
proof fn lemma_tiny_unit()
    ensures
        536870912real * (1real / pow2(149) as real) <= 1real,
{
    lemma2_to64();
    lemma_pow2_strictly_increases(0, 120);
    lemma_pow2_strictly_increases(0, 110);
    assert(1real * pow2(120) as real == pow2(120) as real);
    lemma_least(1real);
}

/// A small bound, against an eighth.
proof fn lemma_tiny_inverse()
    ensures
        8real * inverse_power(120) <= 1real,
{
    let t = pow2(120) as real;
    let i = inverse_power(120);
    lemma2_to64();
    lemma_pow2_strictly_increases(3, 120);
    assert(i * t == 1real) by (nonlinear_arith)
        requires
            i == 1real / t,
            t > 0real,
    ;
    assert((8real * i) * t == 8real * (i * t)) by (nonlinear_arith);
    lemma_unscaled(8real * i, 1real, t);
}

/// The square of a rounded product of a gain and a root, against the exact one.
proof fn lemma_gain_step(m: real, g: real, r: real, f: real)
    requires
        134217728real * size_of_real(m * m - (g * r) * (g * r)) <= (33real * 1real) * (m * m),
        134217728real * size_of_real(r * r - f) <= 81real * (r * r),
    ensures
        134217728real * size_of_real(m * m - (g * g) * f) <= 120real * (m * m),
{
    let n = g * g;
    let d = r * r - f;
    lemma_non_negative_square(g);
    lemma_non_negative_square(m);
    assert((g * r) * (g * r) == n * (r * r)) by (nonlinear_arith)
        requires
            n == g * g,
    ;
    assert(n * d == n * (r * r) - n * f) by (nonlinear_arith)
        requires
            d == r * r - f,
    ;
    lemma_size_of_product(n, d, n, size_of_real(d));
    lemma_scaled(134217728real * size_of_real(d), 81real * (r * r), n);
    assert((134217728real * size_of_real(d)) * n == 134217728real * (n * size_of_real(d)))
        by (nonlinear_arith);
    assert((81real * (r * r)) * n == 81real * (n * (r * r))) by (nonlinear_arith);
}

/// A vector near the axis, by the square of its length.
proof fn lemma_axis_length(r: Rotation, k: nat)
    requires
        r.x.finite(),
        r.y.finite(),
        abs(r.y.value()) * pow2(k) <= r.x.value(),
    ensures
        ({
            let a = real_of(r.x);
            let q = inverse_power(k) * inverse_power(k);
            &&& a * a <= squared_length(r)
            &&& squared_length(r) <= (1real + q) * (a * a)
        }),
{
    let a = real_of(r.x);
    let b = real_of(r.y);
    let h = inverse_power(k);
    let p = pow2(k) as real;
    let u = pow2(149) as real;
    lemma_pow2_pos(k);
    lemma_pow2_pos(149);
    lemma_within_axis(r, k);
    lemma_below_axis(r);
    let y = abs(r.y.value()) as real;
    let x = r.x.value() as real;
    let n = size_of_real(b);
    lemma_real_product(abs(r.y.value()) as int, pow2(k) as int);
    lemma_real_scaled(r.x);
    lemma_real_scaled(r.y);
    lemma_size_of_product(b, u, n, u);
    assert(y == size_of_real(r.y.value() as real));
    assert((n * p) * u == (n * u) * p) by (nonlinear_arith);
    lemma_unscaled(n * p, a, u);
    assert(h * p == 1real) by (nonlinear_arith)
        requires
            h == 1real / p,
            p > 0real,
    ;
    assert((h * a) * p == (h * p) * a && 1real * a == a) by (nonlinear_arith);
    lemma_unscaled(n, h * a, p);
    assert(h > 0real) by (nonlinear_arith)
        requires
            h * p == 1real,
            p > 0real,
    ;
    lemma_size_of_product(b, b, h * a, h * a);
    assert((h * a) * (h * a) == (h * h) * (a * a)) by (nonlinear_arith);
    assert((1real + h * h) * (a * a) == a * a + (h * h) * (a * a)) by (nonlinear_arith);
    lemma_non_negative_square(b);
}

/// The rounded quotient of the end of the rotations and their gain.
proof fn lemma_magnitude_square(x: Binary32, gain: Binary32)
    requires
        x.finite(),
        x >= b32(ZERO),
        x.mag() >= power_mag(-100),
        gain.finite(),
        gain > b32(ZERO),
        0real < real_of(gain) <= 512real,
        (x / gain).finite(),
    ensures
        ({
            let m = real_of(x / gain);
            let a = real_of(x);
            let g = real_of(gain);
            134217728real * size_of_real((m * m) * (g * g) - a * a) <= 33real * ((m * m) * (g * g))
        }),
{
    let r = x / gain;
    let m = real_of(r);
    let a = real_of(x);
    let g = real_of(gain);
    let e = a / g;
    let k = part();
    finite_quotient_rounds(x, gain);
    lemma_long_size(x);
    assert(e * g == a) by (nonlinear_arith)
        requires
            e == a / g,
            g > 0real,
    ;
    let i = inverse_power(110);
    lemma_inverse_chain();
    assert(i >= 0real);
    // The quotient is at least 2^-110.
    lemma_scaled(g, 512real, i);
    assert(512real * i == i * 512real && g * i == i * g) by (nonlinear_arith);
    lemma_unscaled(i, e, g);
    assert(8388608real * (k * size_of_real(m)) == size_of_real(m)) by (nonlinear_arith)
        requires
            k == 1real / 8388608real,
    ;
    lemma_rounds_relatively(r, e, m);
    lemma_close_squares(m, e, m, 1real);
    let n = g * g;
    lemma_non_negative_square(g);
    let d = m * m - e * e;
    assert(d * n == (m * m) * n - (e * e) * n) by (nonlinear_arith)
        requires
            d == m * m - e * e,
    ;
    assert((e * g) * (e * g) == (e * e) * (g * g)) by (nonlinear_arith);
    lemma_size_of_product(d, n, size_of_real(d), n);
    lemma_scaled(134217728real * size_of_real(d), (33real * 1real) * (m * m), n);
    assert((134217728real * size_of_real(d)) * n == 134217728real * (size_of_real(d) * n))
        by (nonlinear_arith);
    assert(((33real * 1real) * (m * m)) * n == 33real * ((m * m) * n)) by (nonlinear_arith);
}

/// Powers of two far below one.
proof fn lemma_inverse_chain()
    ensures
        0real < inverse_power(120),
        2real * inverse_power(120) <= inverse_power(110),
        512real * inverse_power(110) <= inverse_power(100),
        536870912real * (1real / pow2(149) as real) <= inverse_power(120),
{
    let a = pow2(100) as real;
    let b = pow2(110) as real;
    let c = pow2(120) as real;
    let u = pow2(149) as real;
    lemma2_to64();
    lemma_pow2_pos(100);
    lemma_pow2_adds(100, 10);
    lemma_pow2_adds(110, 10);
    lemma_pow2_adds(120, 29);
    assert((pow2(100) * 1024) as real == a * 1024real);
    assert((pow2(110) * 1024) as real == b * 1024real);
    assert((pow2(120) * 536870912) as real == c * 536870912real);
    lemma_inverse_of_multiple(a, b, 1024real);
    lemma_inverse_of_multiple(b, c, 1024real);
    lemma_inverse_of_multiple(c, u, 536870912real);
}

proof fn lemma_inverse_of_multiple(a: real, b: real, k: real)
    requires
        a > 0real,
        k > 0real,
        b == a * k,
    ensures
        k * (1real / b) == 1real / a,
        1real / a > 0real,
        1real / b > 0real,
{
    let i = 1real / a;
    let j = 1real / b;
    assert(b > 0real) by (nonlinear_arith)
        requires
            a > 0real,
            k > 0real,
            b == a * k,
    ;
    assert(i * a == 1real) by (nonlinear_arith)
        requires
            i == 1real / a,
            a > 0real,
    ;
    assert(j * b == 1real) by (nonlinear_arith)
        requires
            j == 1real / b,
            b > 0real,
    ;
    assert((k * j) * a == j * b) by (nonlinear_arith)
        requires
            b == a * k,
    ;
    lemma_unscaled(k * j, i, a);
    lemma_unscaled(i, k * j, a);
    assert(i > 0real) by (nonlinear_arith)
        requires
            i * a == 1real,
            a > 0real,
    ;
    assert(j > 0real) by (nonlinear_arith)
        requires
            j * b == 1real,
            b > 0real,
    ;
}

/// The size of a number that CORDIC takes.
proof fn lemma_long_size(a: Binary32)
    requires
        a.finite(),
        a >= b32(ZERO),
        a.mag() >= power_mag(-100),
    ensures
        real_of(a) >= inverse_power(100),
{
    let u = pow2(149) as real;
    let t = pow2(100) as real;
    let n = a.value() as real;
    lemma_pow2_pos(149);
    lemma_pow2_pos(100);
    lemma_power_mag(-100);
    lemma_pow2_adds(100, 49);
    lemma_mag_units_order(0, 0);
    lemma_mag_units_order(power_mag(-100), a.mag());
    order_is_value_order(b32(ZERO), a);
    let low = pow2(49) as real;
    let v = real_of(a);
    let i = inverse_power(100);
    lemma_real_product(pow2(100) as int, pow2(49) as int);
    lemma_real_scaled(a);
    assert(i * t == 1real) by (nonlinear_arith)
        requires
            i == 1real / t,
            t > 0real,
    ;
    assert(i * (t * low) == (i * t) * low) by (nonlinear_arith);
    assert(1real * low == low);
    lemma_unscaled(i, v, u);
}

/// The square of the magnitude, from the squares of the parts it comes of.
proof fn lemma_magnitude(m2: real, g2: real, a2: real, length: real, grown: real, n0: real, b: real)
    requires
        134217728real * size_of_real(m2 * g2 - a2) <= 33real * (m2 * g2),
        8388608real * size_of_real(g2 - grown) <= 128real * grown,
        8388608real * size_of_real(length - grown * n0) <= 128real * (grown * n0),
        a2 <= length <= b * a2,
        m2 >= 0real,
        n0 >= 0real,
        b >= 1real,
        grown >= 1real,
    ensures
        16384real * (m2 - n0) <= n0,
        16384real * (n0 - b * m2) <= b * m2,
{
    let k = m2 * grown;
    let m = m2 * g2;
    let d = g2 - grown;
    lemma_size_of_product(m2, d, m2, size_of_real(d));
    assert(m2 * d == m - k) by (nonlinear_arith)
        requires
            d == g2 - grown,
            m == m2 * g2,
            k == m2 * grown,
    ;
    lemma_scaled(8388608real * size_of_real(d), 128real * grown, m2);
    assert((8388608real * size_of_real(d)) * m2 == 8388608real * (m2 * size_of_real(d)))
        by (nonlinear_arith);
    assert((128real * grown) * m2 == 128real * k) by (nonlinear_arith)
        requires
            k == m2 * grown,
    ;
    assert(8388608real * size_of_real(m - k) <= 128real * k);
    let t = grown * n0;
    assert(16384real * (k - t) <= t);
    assert((16384real * (m2 - n0)) * grown == 16384real * (k - t)) by (nonlinear_arith)
        requires
            k == m2 * grown,
            t == grown * n0,
    ;
    assert(n0 * grown == t) by (nonlinear_arith)
        requires
            t == grown * n0,
    ;
    lemma_unscaled(16384real * (m2 - n0), n0, grown);
    lemma_magnitude_low(m, k, a2, t, length, b);
    assert((16384real * (n0 - b * m2)) * grown == 16384real * (t - b * k)) by (nonlinear_arith)
        requires
            k == m2 * grown,
            t == grown * n0,
    ;
    assert((b * m2) * grown == b * k) by (nonlinear_arith)
        requires
            k == m2 * grown,
    ;
    lemma_unscaled(16384real * (n0 - b * m2), b * m2, grown);
}

proof fn lemma_magnitude_low(m: real, k: real, a2: real, t: real, length: real, b: real)
    requires
        134217728real * size_of_real(m - a2) <= 33real * m,
        8388608real * size_of_real(m - k) <= 128real * k,
        8388608real * size_of_real(length - t) <= 128real * t,
        length <= b * a2,
        b >= 1real,
    ensures
        16384real * (t - b * k) <= b * k,
{
    // a2 is at most k and 130 parts.
    assert(8388608real * a2 <= 8388739real * k);
    lemma_scaled(8388608real * a2, 8388739real * k, b);
    assert((8388608real * a2) * b == 8388608real * (b * a2) && (8388739real * k) * b == 8388739real
        * (b * k)) by (nonlinear_arith);
}

/// The vector that CORDIC rotates has the length of the one it is given.
proof fn lemma_folded_length(y: Binary32, x: Binary32)
    requires
        x.finite(),
        y.finite(),
    ensures
        squared_length(folded_start(y, x)) == real_of(x) * real_of(x) + real_of(y) * real_of(y),
        folded_start(y, x).x.finite(),
        folded_start(y, x).y.finite(),
        folded_start(y, x).x >= b32(ZERO),
{
    let a = real_of(x);
    let b = real_of(y);
    lemma_real_negative(x);
    lemma_real_negative(y);
    assert((-a) * (-a) == a * a && (-b) * (-b) == b * b) by (nonlinear_arith);
    negation_is_an_involution(x);
    lemma_mag_units_order(0, 0);
    order_is_value_order(x, b32(ZERO));
    order_is_value_order(b32(ZERO), x);
    order_is_value_order(b32(ZERO), -x);
}

/// The square of the length that CORDIC finds after `n` rotations is that of the vector, up
/// to one part in `2^14`; it may also be less by the part `4^-(n - 1)` that the rotations
/// have left.
pub proof fn cordic_magnitude_is_accurate(y: Binary32, x: Binary32, iterations: int)
    requires
        x.finite(),
        y.finite(),
        long_enough(folded_start(y, x)),
        rotated(folded_start(y, x), rotations(iterations)).x.finite(),
        cordic_of(y, x, iterations).magnitude.finite(),
    ensures
        ({
            let m = real_of(cordic_of(y, x, iterations).magnitude);
            let length = real_of(x) * real_of(x) + real_of(y) * real_of(y);
            let rest = inverse_power((rotations(iterations) - 1) as nat);
            &&& 16384real * (m * m - length) <= length
            &&& 16384real * (length - (1real + rest * rest) * (m * m)) <= (1real + rest * rest) * (m
                * m)
        }),
{
    let n = rotations(iterations);
    let start = folded_start(y, x);
    let end = rotated(start, n);
    let gain = gain_after(n);
    let g = real_of(gain);
    let m = real_of(end.x / gain);
    let a = real_of(end.x);
    let h = inverse_power((n - 1) as nat);
    let grown = squared_growth(n);
    let length = squared_length(start);
    lemma_folded_length(y, x);
    rotations_align_vector(start, n);
    rotations_keep_length(start, n);
    lemma_gain_square(n);
    lemma_growth(n);
    lemma_growth_bound(n);
    lemma2_to64();
    if n < 16 {
        lemma_pow2_strictly_increases(n as nat, 16);
    }
    lemma_length_is_not_negative(start);
    lemma_scaled(n as real, 16real, grown);
    lemma_gain_range(g, grown);
    lemma_non_negative_product(grown, length);
    lemma_scaled(n as real, 16real, grown * length);
    lemma_axis_length(end, (n - 1) as nat);
    lemma_magnitude_square(end.x, gain);
    lemma_non_negative_square(m);
    lemma_non_negative_square(h);
    lemma_long_vector(x, y);
    lemma_magnitude(m * m, g * g, a * a, squared_length(end), grown, length, 1real + h * h);
}

/// A vector that is long enough is not the zero vector.
proof fn lemma_long_vector(x: Binary32, y: Binary32)
    requires
        long_enough(folded_start(y, x)),
    ensures
        !(x.zero() && y.zero()),
{
}

} // verus!
