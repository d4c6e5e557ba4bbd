//! Equations in exact reals, up to rounding, and the lemmas that trace them.
use vstd::prelude::*;
use crate::adrc::EIGHT;
use crate::arithmetic::negation_is_an_involution;
use crate::binary32::b32;
use crate::binary32::Binary32;
use crate::binary32::HALF;
use crate::binary32::MINUS_ONE;
use crate::binary32::ONE;
use crate::binary32::THREE;
use crate::binary32::TWO;
use crate::binary32::ZERO;
use crate::exact::lemma_unscaled;
use crate::exact::real_of;
use crate::exact::size_of_real;
use crate::math::clamped;
use crate::near::lemma_inverse_powers;
use crate::near::lemma_real_constant;
use crate::real_rounding::lemma_real_scaled;
use crate::rounded_steps::lemma_share_of;
use crate::rounded_steps::share_of;
use crate::running_error::given;
use crate::running_error::minus;
use crate::running_error::off_by;
use crate::running_error::over;
use crate::running_error::plus;
use crate::running_error::times;
use crate::running_error::tiny;
use vstd::arithmetic::power2::pow2;

verus! {

/// Small constants as reals.
pub proof fn lemma_small_constants()
    ensures
        b32(ONE).finite() && !b32(ONE).zero() && real_of(b32(ONE)) == 1real,
        b32(TWO).finite() && real_of(b32(TWO)) == 2real,
        b32(THREE).finite() && !b32(THREE).zero() && real_of(b32(THREE)) == 3real,
        b32(HALF).finite() && real_of(b32(HALF)) == 1real / 2real,
        b32(EIGHT).finite() && real_of(b32(EIGHT)) == 8real,
        b32(MINUS_ONE).finite() && real_of(b32(MINUS_ONE)) == -1real,
{
    lemma_inverse_powers();
    lemma_real_constant(b32(ONE), 0x80_0000, 23);
    lemma_real_constant(b32(MINUS_ONE), 0x80_0000, 23);
    lemma_real_constant(b32(TWO), 0x80_0000, 22);
    lemma_real_constant(b32(THREE), 0xc0_0000, 22);
    lemma_real_constant(b32(HALF), 0x80_0000, 24);
    lemma_real_constant(b32(EIGHT), 0x80_0000, 20);
}

/// The negative of any number as a real.
pub proof fn lemma_negative_real(x: Binary32)
    ensures
        real_of(-x) == -real_of(x),
{
    let u = pow2(149) as real;
    negation_is_an_involution(x);
    lemma_real_scaled(x);
    lemma_real_scaled(-x);
    let a = real_of(x);
    assert((-a) * u == -(a * u)) by (nonlinear_arith);
    lemma_unscaled(-a, real_of(-x), u);
    lemma_unscaled(real_of(-x), -a, u);
}

/// Whether a number is `a + b * c`, rounded.
pub open spec fn is_offset_product(
    x: Binary32,
    a: Binary32,
    b: Binary32,
    c: Binary32,
) -> bool {
    let r_a = real_of(a);
    let r_b = real_of(b);
    let r_c = real_of(c);
    off_by(
        x,
        r_a + r_b * r_c,
        size_of_real(r_a) + (size_of_real(r_b) * size_of_real(r_c) + tiny()),
        2real,
    )
}

/// A finite result is rounded.
pub proof fn lemma_is_offset_product(
    a: Binary32,
    b: Binary32,
    c: Binary32,
)
    ensures
        (a + b * c).finite() ==> is_offset_product(
            a + b * c,
            a,
            b,
            c,
        ),
{
    let t_a = given(a);
    let t_b = given(b);
    let t_c = given(c);
    let v1 = times(t_b, t_c);
    let v2 = plus(t_a, v1);
    assert(v2.steps == 2real);
}

/// Whether a number is `a + b * c * d`, rounded.
pub open spec fn is_offset_product_of_three(
    x: Binary32,
    a: Binary32,
    b: Binary32,
    c: Binary32,
    d: Binary32,
) -> bool {
    let r_a = real_of(a);
    let r_b = real_of(b);
    let r_c = real_of(c);
    let r_d = real_of(d);
    off_by(
        x,
        r_a + r_b * r_c * r_d,
        size_of_real(r_a) + ((size_of_real(r_b) * size_of_real(r_c)
            + tiny()) * size_of_real(r_d) + tiny()),
        3real,
    )
}

/// A finite result is rounded.
pub proof fn lemma_is_offset_product_of_three(
    a: Binary32,
    b: Binary32,
    c: Binary32,
    d: Binary32,
)
    ensures
        (a + b * c * d).finite() ==> is_offset_product_of_three(
            a + b * c * d,
            a,
            b,
            c,
            d,
        ),
{
    let t_a = given(a);
    let t_b = given(b);
    let t_c = given(c);
    let v1 = times(t_b, t_c);
    let t_d = given(d);
    let v2 = times(v1, t_d);
    let v3 = plus(t_a, v2);
    assert(v3.steps == 3real);
}

/// Whether a number is `a + b * c * d * e`, rounded.
pub open spec fn is_offset_product_of_four(
    x: Binary32,
    a: Binary32,
    b: Binary32,
    c: Binary32,
    d: Binary32,
    e: Binary32,
) -> bool {
    let r_a = real_of(a);
    let r_b = real_of(b);
    let r_c = real_of(c);
    let r_d = real_of(d);
    let r_e = real_of(e);
    off_by(
        x,
        r_a + r_b * r_c * r_d * r_e,
        size_of_real(r_a) + (((size_of_real(r_b) * size_of_real(r_c)
            + tiny()) * size_of_real(r_d) + tiny()) * size_of_real(r_e) + tiny()),
        4real,
    )
}

/// A finite result is rounded.
pub proof fn lemma_is_offset_product_of_four(
    a: Binary32,
    b: Binary32,
    c: Binary32,
    d: Binary32,
    e: Binary32,
)
    ensures
        (a + b * c * d * e).finite() ==> is_offset_product_of_four(
            a + b * c * d * e,
            a,
            b,
            c,
            d,
            e,
        ),
{
    let t_a = given(a);
    let t_b = given(b);
    let t_c = given(c);
    let v1 = times(t_b, t_c);
    let t_d = given(d);
    let v2 = times(v1, t_d);
    let t_e = given(e);
    let v3 = times(v2, t_e);
    let v4 = plus(t_a, v3);
    assert(v4.steps == 4real);
}

/// Whether a number is `a - b * c`, rounded.
pub open spec fn is_reduced(
    x: Binary32,
    a: Binary32,
    b: Binary32,
    c: Binary32,
) -> bool {
    let r_a = real_of(a);
    let r_b = real_of(b);
    let r_c = real_of(c);
    off_by(
        x,
        r_a - r_b * r_c,
        size_of_real(r_a) + (size_of_real(r_b) * size_of_real(r_c) + tiny()),
        2real,
    )
}

/// A finite result is rounded.
pub proof fn lemma_is_reduced(
    a: Binary32,
    b: Binary32,
    c: Binary32,
)
    ensures
        (a - b * c).finite() ==> is_reduced(
            a - b * c,
            a,
            b,
            c,
        ),
{
    let t_a = given(a);
    let t_b = given(b);
    let t_c = given(c);
    let v1 = times(t_b, t_c);
    let v2 = minus(t_a, v1);
    assert(v2.steps == 2real);
}

/// Whether a number is `a * b + c`, rounded.
pub open spec fn is_product_plus(
    x: Binary32,
    a: Binary32,
    b: Binary32,
    c: Binary32,
) -> bool {
    let r_a = real_of(a);
    let r_b = real_of(b);
    let r_c = real_of(c);
    off_by(
        x,
        r_a * r_b + r_c,
        (size_of_real(r_a) * size_of_real(r_b) + tiny()) + size_of_real(r_c),
        2real,
    )
}

/// A finite result is rounded.
pub proof fn lemma_is_product_plus(
    a: Binary32,
    b: Binary32,
    c: Binary32,
)
    ensures
        (a * b + c).finite() ==> is_product_plus(
            a * b + c,
            a,
            b,
            c,
        ),
{
    let t_a = given(a);
    let t_b = given(b);
    let v1 = times(t_a, t_b);
    let t_c = given(c);
    let v2 = plus(v1, t_c);
    assert(v2.steps == 2real);
}

/// Whether a number is `a * b * c`, rounded.
pub open spec fn is_product_of_three(
    x: Binary32,
    a: Binary32,
    b: Binary32,
    c: Binary32,
) -> bool {
    let r_a = real_of(a);
    let r_b = real_of(b);
    let r_c = real_of(c);
    off_by(
        x,
        r_a * r_b * r_c,
        (size_of_real(r_a) * size_of_real(r_b) + tiny()) * size_of_real(r_c) + tiny(),
        2real,
    )
}

/// A finite result is rounded.
pub proof fn lemma_is_product_of_three(
    a: Binary32,
    b: Binary32,
    c: Binary32,
)
    ensures
        (a * b * c).finite() ==> is_product_of_three(
            a * b * c,
            a,
            b,
            c,
        ),
{
    let t_a = given(a);
    let t_b = given(b);
    let v1 = times(t_a, t_b);
    let t_c = given(c);
    let v2 = times(v1, t_c);
    assert(v2.steps == 2real);
}

/// Whether a number is `a * b * c + d`, rounded.
pub open spec fn is_product_of_three_plus(
    x: Binary32,
    a: Binary32,
    b: Binary32,
    c: Binary32,
    d: Binary32,
) -> bool {
    let r_a = real_of(a);
    let r_b = real_of(b);
    let r_c = real_of(c);
    let r_d = real_of(d);
    off_by(
        x,
        r_a * r_b * r_c + r_d,
        ((size_of_real(r_a) * size_of_real(r_b) + tiny()) * size_of_real(r_c) + tiny())
            + size_of_real(r_d),
        3real,
    )
}

/// A finite result is rounded.
pub proof fn lemma_is_product_of_three_plus(
    a: Binary32,
    b: Binary32,
    c: Binary32,
    d: Binary32,
)
    ensures
        (a * b * c + d).finite() ==> is_product_of_three_plus(
            a * b * c + d,
            a,
            b,
            c,
            d,
        ),
{
    let t_a = given(a);
    let t_b = given(b);
    let v1 = times(t_a, t_b);
    let t_c = given(c);
    let v2 = times(v1, t_c);
    let t_d = given(d);
    let v3 = plus(v2, t_d);
    assert(v3.steps == 3real);
}

/// Whether a number is `a + b`, rounded.
pub open spec fn is_sum(
    x: Binary32,
    a: Binary32,
    b: Binary32,
) -> bool {
    let r_a = real_of(a);
    let r_b = real_of(b);
    off_by(
        x,
        r_a + r_b,
        size_of_real(r_a) + size_of_real(r_b),
        1real,
    )
}

/// A finite result is rounded.
pub proof fn lemma_is_sum(
    a: Binary32,
    b: Binary32,
)
    ensures
        (a + b).finite() ==> is_sum(
            a + b,
            a,
            b,
        ),
{
    let t_a = given(a);
    let t_b = given(b);
    let v1 = plus(t_a, t_b);
    assert(v1.steps == 1real);
}

/// Whether a number is `(a - b) / t`, rounded.
pub open spec fn is_quotient_of_difference(
    x: Binary32,
    a: Binary32,
    b: Binary32,
    t: Binary32,
) -> bool {
    let r_a = real_of(a);
    let r_b = real_of(b);
    let r_t = real_of(t);
    off_by(
        x,
        (r_a - r_b) / r_t,
        (size_of_real(r_a) + size_of_real(r_b)) / size_of_real(r_t) + tiny(),
        2real,
    )
}

/// A finite result is rounded.
pub proof fn lemma_is_quotient_of_difference(
    a: Binary32,
    b: Binary32,
    t: Binary32,
)
    requires
        t.finite(),
        !t.zero(),
    ensures
        ((a - b) / t).finite() ==> is_quotient_of_difference(
            (a - b) / t,
            a,
            b,
            t,
        ),
{
    let t_a = given(a);
    let t_b = given(b);
    let v1 = minus(t_a, t_b);
    let v2 = over(v1, t);
    assert(v2.steps == 2real);
}

/// Whether a number is `a * b + c * d + e * f`, rounded.
pub open spec fn is_sum_of_three(
    x: Binary32,
    a: Binary32,
    b: Binary32,
    c: Binary32,
    d: Binary32,
    e: Binary32,
    f: Binary32,
) -> bool {
    let r_a = real_of(a);
    let r_b = real_of(b);
    let r_c = real_of(c);
    let r_d = real_of(d);
    let r_e = real_of(e);
    let r_f = real_of(f);
    off_by(
        x,
        r_a * r_b + r_c * r_d + r_e * r_f,
        ((size_of_real(r_a) * size_of_real(r_b) + tiny())
            + (size_of_real(r_c) * size_of_real(r_d) + tiny()))
            + (size_of_real(r_e) * size_of_real(r_f) + tiny()),
        3real,
    )
}

/// A finite result is rounded.
pub proof fn lemma_is_sum_of_three(
    a: Binary32,
    b: Binary32,
    c: Binary32,
    d: Binary32,
    e: Binary32,
    f: Binary32,
)
    ensures
        (a * b + c * d + e * f).finite() ==> is_sum_of_three(
            a * b + c * d + e * f,
            a,
            b,
            c,
            d,
            e,
            f,
        ),
{
    let t_a = given(a);
    let t_b = given(b);
    let v1 = times(t_a, t_b);
    let t_c = given(c);
    let t_d = given(d);
    let v2 = times(t_c, t_d);
    let v3 = plus(v1, v2);
    let t_e = given(e);
    let t_f = given(f);
    let v4 = times(t_e, t_f);
    let v5 = plus(v3, v4);
    assert(v5.steps == 3real);
}

/// Whether a number is `a * b + c * d + e * f + g * h`, rounded.
pub open spec fn is_sum_of_four(
    x: Binary32,
    a: Binary32,
    b: Binary32,
    c: Binary32,
    d: Binary32,
    e: Binary32,
    f: Binary32,
    g: Binary32,
    h: Binary32,
) -> bool {
    let r_a = real_of(a);
    let r_b = real_of(b);
    let r_c = real_of(c);
    let r_d = real_of(d);
    let r_e = real_of(e);
    let r_f = real_of(f);
    let r_g = real_of(g);
    let r_h = real_of(h);
    off_by(
        x,
        r_a * r_b + r_c * r_d + r_e * r_f + r_g * r_h,
        (((size_of_real(r_a) * size_of_real(r_b) + tiny())
            + (size_of_real(r_c) * size_of_real(r_d) + tiny()))
            + (size_of_real(r_e) * size_of_real(r_f) + tiny()))
            + (size_of_real(r_g) * size_of_real(r_h) + tiny()),
        4real,
    )
}

/// A finite result is rounded.
pub proof fn lemma_is_sum_of_four(
    a: Binary32,
    b: Binary32,
    c: Binary32,
    d: Binary32,
    e: Binary32,
    f: Binary32,
    g: Binary32,
    h: Binary32,
)
    ensures
        (a * b + c * d + e * f + g * h).finite() ==> is_sum_of_four(
            a * b + c * d + e * f + g * h,
            a,
            b,
            c,
            d,
            e,
            f,
            g,
            h,
        ),
{
    let t_a = given(a);
    let t_b = given(b);
    let v1 = times(t_a, t_b);
    let t_c = given(c);
    let t_d = given(d);
    let v2 = times(t_c, t_d);
    let v3 = plus(v1, v2);
    let t_e = given(e);
    let t_f = given(f);
    let v4 = times(t_e, t_f);
    let v5 = plus(v3, v4);
    let t_g = given(g);
    let t_h = given(h);
    let v6 = times(t_g, t_h);
    let v7 = plus(v5, v6);
    assert(v7.steps == 4real);
}

/// Whether a number is `a * b + c * d + e`, rounded.
pub open spec fn is_biased_sum_of_two(
    x: Binary32,
    a: Binary32,
    b: Binary32,
    c: Binary32,
    d: Binary32,
    e: Binary32,
) -> bool {
    let r_a = real_of(a);
    let r_b = real_of(b);
    let r_c = real_of(c);
    let r_d = real_of(d);
    let r_e = real_of(e);
    off_by(
        x,
        r_a * r_b + r_c * r_d + r_e,
        ((size_of_real(r_a) * size_of_real(r_b) + tiny())
            + (size_of_real(r_c) * size_of_real(r_d) + tiny())) + size_of_real(r_e),
        3real,
    )
}

/// A finite result is rounded.
pub proof fn lemma_is_biased_sum_of_two(
    a: Binary32,
    b: Binary32,
    c: Binary32,
    d: Binary32,
    e: Binary32,
)
    ensures
        (a * b + c * d + e).finite() ==> is_biased_sum_of_two(
            a * b + c * d + e,
            a,
            b,
            c,
            d,
            e,
        ),
{
    let t_a = given(a);
    let t_b = given(b);
    let v1 = times(t_a, t_b);
    let t_c = given(c);
    let t_d = given(d);
    let v2 = times(t_c, t_d);
    let v3 = plus(v1, v2);
    let t_e = given(e);
    let v4 = plus(v3, t_e);
    assert(v4.steps == 3real);
}

/// Whether a number is `a + b * c + d * e + f * g`, rounded.
pub open spec fn is_biased_sum_of_three(
    x: Binary32,
    a: Binary32,
    b: Binary32,
    c: Binary32,
    d: Binary32,
    e: Binary32,
    f: Binary32,
    g: Binary32,
) -> bool {
    let r_a = real_of(a);
    let r_b = real_of(b);
    let r_c = real_of(c);
    let r_d = real_of(d);
    let r_e = real_of(e);
    let r_f = real_of(f);
    let r_g = real_of(g);
    off_by(
        x,
        r_a + r_b * r_c + r_d * r_e + r_f * r_g,
        ((size_of_real(r_a) + (size_of_real(r_b) * size_of_real(r_c) + tiny()))
            + (size_of_real(r_d) * size_of_real(r_e) + tiny()))
            + (size_of_real(r_f) * size_of_real(r_g) + tiny()),
        4real,
    )
}

/// A finite result is rounded.
pub proof fn lemma_is_biased_sum_of_three(
    a: Binary32,
    b: Binary32,
    c: Binary32,
    d: Binary32,
    e: Binary32,
    f: Binary32,
    g: Binary32,
)
    ensures
        (a + b * c + d * e + f * g).finite() ==> is_biased_sum_of_three(
            a + b * c + d * e + f * g,
            a,
            b,
            c,
            d,
            e,
            f,
            g,
        ),
{
    let t_a = given(a);
    let t_b = given(b);
    let t_c = given(c);
    let v1 = times(t_b, t_c);
    let v2 = plus(t_a, v1);
    let t_d = given(d);
    let t_e = given(e);
    let v3 = times(t_d, t_e);
    let v4 = plus(v2, v3);
    let t_f = given(f);
    let t_g = given(g);
    let v5 = times(t_f, t_g);
    let v6 = plus(v4, v5);
    assert(v6.steps == 4real);
}

/// Whether a number is `a - b * c - d * e`, rounded.
pub open spec fn is_twice_reduced(
    x: Binary32,
    a: Binary32,
    b: Binary32,
    c: Binary32,
    d: Binary32,
    e: Binary32,
) -> bool {
    let r_a = real_of(a);
    let r_b = real_of(b);
    let r_c = real_of(c);
    let r_d = real_of(d);
    let r_e = real_of(e);
    off_by(
        x,
        r_a - r_b * r_c - r_d * r_e,
        (size_of_real(r_a) + (size_of_real(r_b) * size_of_real(r_c) + tiny()))
            + (size_of_real(r_d) * size_of_real(r_e) + tiny()),
        3real,
    )
}

/// A finite result is rounded.
pub proof fn lemma_is_twice_reduced(
    a: Binary32,
    b: Binary32,
    c: Binary32,
    d: Binary32,
    e: Binary32,
)
    ensures
        (a - b * c - d * e).finite() ==> is_twice_reduced(
            a - b * c - d * e,
            a,
            b,
            c,
            d,
            e,
        ),
{
    let t_a = given(a);
    let t_b = given(b);
    let t_c = given(c);
    let v1 = times(t_b, t_c);
    let v2 = minus(t_a, v1);
    let t_d = given(d);
    let t_e = given(e);
    let v3 = times(t_d, t_e);
    let v4 = minus(v2, v3);
    assert(v4.steps == 3real);
}

/// Whether a number is `a - b * c + d`, rounded.
pub open spec fn is_reduced_plus(
    x: Binary32,
    a: Binary32,
    b: Binary32,
    c: Binary32,
    d: Binary32,
) -> bool {
    let r_a = real_of(a);
    let r_b = real_of(b);
    let r_c = real_of(c);
    let r_d = real_of(d);
    off_by(
        x,
        r_a - r_b * r_c + r_d,
        (size_of_real(r_a) + (size_of_real(r_b) * size_of_real(r_c) + tiny())) + size_of_real(r_d),
        3real,
    )
}

/// A finite result is rounded.
pub proof fn lemma_is_reduced_plus(
    a: Binary32,
    b: Binary32,
    c: Binary32,
    d: Binary32,
)
    ensures
        (a - b * c + d).finite() ==> is_reduced_plus(
            a - b * c + d,
            a,
            b,
            c,
            d,
        ),
{
    let t_a = given(a);
    let t_b = given(b);
    let t_c = given(c);
    let v1 = times(t_b, t_c);
    let v2 = minus(t_a, v1);
    let t_d = given(d);
    let v3 = plus(v2, t_d);
    assert(v3.steps == 3real);
}

/// Whether a speed is the amplified error and the integral part after a step together,
/// rounded.
pub open spec fn is_proportional_and_integral(
    x: Binary32,
    kp: Binary32,
    e: Binary32,
    i: Binary32,
    ki: Binary32,
    ts: Binary32,
) -> bool {
    let r_kp = real_of(kp);
    let r_e = real_of(e);
    let r_i = real_of(i);
    let r_ki = real_of(ki);
    let r_ts = real_of(ts);
    off_by(
        x,
        r_kp * r_e + (r_i + r_ki * r_ts * r_e),
        (size_of_real(r_kp) * size_of_real(r_e) + tiny()) + (size_of_real(r_i)
            + ((size_of_real(r_ki) * size_of_real(r_ts) + tiny()) * size_of_real(r_e) + tiny())),
        4real,
    )
}

/// A finite result is rounded.
pub proof fn lemma_is_proportional_and_integral(
    kp: Binary32,
    e: Binary32,
    i: Binary32,
    ki: Binary32,
    ts: Binary32,
)
    ensures
        (kp * e + (i + ki * ts * e)).finite() ==> is_proportional_and_integral(
            kp * e + (i + ki * ts * e),
            kp,
            e,
            i,
            ki,
            ts,
        ),
{
    let t_kp = given(kp);
    let t_e = given(e);
    let v1 = times(t_kp, t_e);
    let t_i = given(i);
    let t_ki = given(ki);
    let t_ts = given(ts);
    let v2 = times(t_ki, t_ts);
    let v3 = times(v2, t_e);
    let v4 = plus(t_i, v3);
    let v5 = plus(v1, v4);
    assert(v5.steps == 4real);
}

/// Whether a number is the share `alpha` of `output + input - last`, rounded.
pub open spec fn is_high_passed(
    x: Binary32,
    alpha: Binary32,
    output: Binary32,
    input: Binary32,
    last: Binary32,
) -> bool {
    let r_alpha = share_of(alpha);
    let r_output = real_of(output);
    let r_input = real_of(input);
    let r_last = real_of(last);
    off_by(
        x,
        r_alpha * (r_output + r_input - r_last),
        r_alpha * ((size_of_real(r_output) + size_of_real(r_input)) + size_of_real(r_last))
            + tiny(),
        3real,
    )
}

/// A finite result is rounded.
pub proof fn lemma_is_high_passed(
    alpha: Binary32,
    output: Binary32,
    input: Binary32,
    last: Binary32,
)
    requires
        !alpha.nan(),
    ensures
        (clamped(alpha, b32(ZERO), b32(ONE)) * (output + input - last)).finite() ==> is_high_passed(
            clamped(alpha, b32(ZERO), b32(ONE)) * (output + input - last),
            alpha,
            output,
            input,
            last,
        ),
{
    lemma_share_of(alpha);
    let t_alpha = given(clamped(alpha, b32(ZERO), b32(ONE)));
    let t_output = given(output);
    let t_input = given(input);
    let v1 = plus(t_output, t_input);
    let t_last = given(last);
    let v2 = minus(v1, t_last);
    let v3 = times(t_alpha, v2);
    assert(v3.steps == 3real);
}

/// Whether a voltage is what resistance and inductance leave of a voltage, rounded.
pub open spec fn is_induced(
    x: Binary32,
    v: Binary32,
    r: Binary32,
    i: Binary32,
    l: Binary32,
    last: Binary32,
    t: Binary32,
) -> bool {
    let r_v = real_of(v);
    let r_r = real_of(r);
    let r_i = real_of(i);
    let r_l = real_of(l);
    let r_last = real_of(last);
    let r_t = real_of(t);
    off_by(
        x,
        r_v - r_r * r_i - r_l * ((r_i - r_last) / r_t),
        (size_of_real(r_v) + (size_of_real(r_r) * size_of_real(r_i) + tiny()))
            + (size_of_real(r_l) * ((size_of_real(r_i)
            + size_of_real(r_last)) / size_of_real(r_t) + tiny()) + tiny()),
        4real,
    )
}

/// A finite result is rounded.
pub proof fn lemma_is_induced(
    v: Binary32,
    r: Binary32,
    i: Binary32,
    l: Binary32,
    last: Binary32,
    t: Binary32,
)
    requires
        t.finite(),
        !t.zero(),
    ensures
        (v - r * i - l * ((i - last) / t)).finite() ==> is_induced(
            v - r * i - l * ((i - last) / t),
            v,
            r,
            i,
            l,
            last,
            t,
        ),
{
    let t_v = given(v);
    let t_r = given(r);
    let t_i = given(i);
    let v1 = times(t_r, t_i);
    let v2 = minus(t_v, v1);
    let t_l = given(l);
    let t_last = given(last);
    let v3 = minus(t_i, t_last);
    let v4 = over(v3, t);
    let v5 = times(t_l, v4);
    let v6 = minus(v2, v5);
    assert(v6.steps == 4real);
}

/// Whether a current moved by what resistance, induced voltage and force leave of a voltage,
/// over the inductance, rounded.
pub open spec fn is_driven(
    x: Binary32,
    i: Binary32,
    ts: Binary32,
    ls: Binary32,
    v: Binary32,
    rs: Binary32,
    emf: Binary32,
    force: Binary32,
) -> bool {
    let r_i = real_of(i);
    let r_ts = real_of(ts);
    let r_ls = real_of(ls);
    let r_v = real_of(v);
    let r_rs = real_of(rs);
    let r_emf = real_of(emf);
    let r_force = real_of(force);
    off_by(
        x,
        r_i + r_ts * (1real / r_ls) * (r_v - r_rs * r_i - r_emf - r_force),
        size_of_real(r_i) + ((size_of_real(r_ts) * (1real / size_of_real(r_ls) + tiny())
            + tiny()) * (((size_of_real(r_v) + (size_of_real(r_rs) * size_of_real(r_i)
            + tiny())) + size_of_real(r_emf)) + size_of_real(r_force)) + tiny()),
        8real,
    )
}

/// A finite result is rounded.
pub proof fn lemma_is_driven(
    i: Binary32,
    ts: Binary32,
    ls: Binary32,
    v: Binary32,
    rs: Binary32,
    emf: Binary32,
    force: Binary32,
)
    requires
        ls.finite(),
        !ls.zero(),
    ensures
        (i + ts * (b32(ONE) / ls) * (v - rs * i - emf - force)).finite() ==> is_driven(
            i + ts * (b32(ONE) / ls) * (v - rs * i - emf - force),
            i,
            ts,
            ls,
            v,
            rs,
            emf,
            force,
        ),
{
    lemma_small_constants();
    let t_i = given(i);
    let t_ts = given(ts);
    let t_one = given(b32(ONE));
    let v1 = over(t_one, ls);
    let v2 = times(t_ts, v1);
    let t_v = given(v);
    let t_rs = given(rs);
    let v3 = times(t_rs, t_i);
    let v4 = minus(t_v, v3);
    let t_emf = given(emf);
    let v5 = minus(v4, t_emf);
    let t_force = given(force);
    let v6 = minus(v5, t_force);
    let v7 = times(v2, v6);
    let v8 = plus(t_i, v7);
    assert(v8.steps == 8real);
}

/// Whether a gain moved by rate and period times what an error exceeds its target by,
/// rounded.
pub open spec fn is_adapted(
    x: Binary32,
    k: Binary32,
    rate: Binary32,
    e: Binary32,
    target: Binary32,
    ts: Binary32,
) -> bool {
    let r_k = real_of(k);
    let r_rate = real_of(rate);
    let r_e = real_of(e);
    let r_target = real_of(target);
    let r_ts = real_of(ts);
    off_by(
        x,
        r_k + r_rate * (r_e - r_target) * r_ts,
        size_of_real(r_k) + ((size_of_real(r_rate) * (size_of_real(r_e)
            + size_of_real(r_target)) + tiny()) * size_of_real(r_ts) + tiny()),
        4real,
    )
}

/// A finite result is rounded.
pub proof fn lemma_is_adapted(
    k: Binary32,
    rate: Binary32,
    e: Binary32,
    target: Binary32,
    ts: Binary32,
)
    ensures
        (k + rate * (e - target) * ts).finite() ==> is_adapted(
            k + rate * (e - target) * ts,
            k,
            rate,
            e,
            target,
            ts,
        ),
{
    let t_k = given(k);
    let t_rate = given(rate);
    let t_e = given(e);
    let t_target = given(target);
    let v1 = minus(t_e, t_target);
    let v2 = times(t_rate, v1);
    let t_ts = given(ts);
    let v3 = times(v2, t_ts);
    let v4 = plus(t_k, v3);
    assert(v4.steps == 4real);
}

/// Whether a number is `a - k * (x - b) - l * e`, rounded.
pub open spec fn is_stepped_back(
    x: Binary32,
    a: Binary32,
    k: Binary32,
    x2: Binary32,
    b: Binary32,
    l: Binary32,
    e: Binary32,
) -> bool {
    let r_a = real_of(a);
    let r_k = real_of(k);
    let r_x2 = real_of(x2);
    let r_b = real_of(b);
    let r_l = real_of(l);
    let r_e = real_of(e);
    off_by(
        x,
        r_a - r_k * (r_x2 - r_b) - r_l * r_e,
        (size_of_real(r_a) + (size_of_real(r_k) * (size_of_real(r_x2) + size_of_real(r_b))
            + tiny())) + (size_of_real(r_l) * size_of_real(r_e) + tiny()),
        4real,
    )
}

/// A finite result is rounded.
pub proof fn lemma_is_stepped_back(
    a: Binary32,
    k: Binary32,
    x2: Binary32,
    b: Binary32,
    l: Binary32,
    e: Binary32,
)
    ensures
        (a - k * (x2 - b) - l * e).finite() ==> is_stepped_back(
            a - k * (x2 - b) - l * e,
            a,
            k,
            x2,
            b,
            l,
            e,
        ),
{
    let t_a = given(a);
    let t_k = given(k);
    let t_x2 = given(x2);
    let t_b = given(b);
    let v1 = minus(t_x2, t_b);
    let v2 = times(t_k, v1);
    let v3 = minus(t_a, v2);
    let t_l = given(l);
    let t_e = given(e);
    let v4 = times(t_l, t_e);
    let v5 = minus(v3, v4);
    assert(v5.steps == 4real);
}

/// Whether a cost is `q * e * e + r * u * u`, rounded.
pub open spec fn is_cost(
    x: Binary32,
    q: Binary32,
    e: Binary32,
    r: Binary32,
    u: Binary32,
) -> bool {
    let r_q = real_of(q);
    let r_e = real_of(e);
    let r_r = real_of(r);
    let r_u = real_of(u);
    off_by(
        x,
        r_q * r_e * r_e + r_r * r_u * r_u,
        ((size_of_real(r_q) * size_of_real(r_e) + tiny()) * size_of_real(r_e) + tiny())
            + ((size_of_real(r_r) * size_of_real(r_u) + tiny()) * size_of_real(r_u) + tiny()),
        3real,
    )
}

/// A finite result is rounded.
pub proof fn lemma_is_cost(
    q: Binary32,
    e: Binary32,
    r: Binary32,
    u: Binary32,
)
    ensures
        (q * e * e + r * u * u).finite() ==> is_cost(
            q * e * e + r * u * u,
            q,
            e,
            r,
            u,
        ),
{
    let t_q = given(q);
    let t_e = given(e);
    let v1 = times(t_q, t_e);
    let v2 = times(v1, t_e);
    let t_r = given(r);
    let t_u = given(u);
    let v3 = times(t_r, t_u);
    let v4 = times(v3, t_u);
    let v5 = plus(v2, v4);
    assert(v5.steps == 3real);
}

/// Whether a model of first order moved by `t * (b * u - a * y)`, rounded.
pub open spec fn is_first_order_step(
    x: Binary32,
    y: Binary32,
    t: Binary32,
    a: Binary32,
    b: Binary32,
    u: Binary32,
) -> bool {
    let r_y = real_of(y);
    let r_t = real_of(t);
    let r_a = real_of(a);
    let r_b = real_of(b);
    let r_u = real_of(u);
    off_by(
        x,
        r_y + r_t * ((-r_a) * r_y + r_b * r_u),
        size_of_real(r_y) + (size_of_real(r_t) * ((size_of_real(r_a) * size_of_real(r_y)
            + tiny()) + (size_of_real(r_b) * size_of_real(r_u) + tiny())) + tiny()),
        4real,
    )
}

/// A finite result is rounded.
pub proof fn lemma_is_first_order_step(
    y: Binary32,
    t: Binary32,
    a: Binary32,
    b: Binary32,
    u: Binary32,
)
    ensures
        (y + t * (-a * y + b * u)).finite() ==> is_first_order_step(
            y + t * (-a * y + b * u),
            y,
            t,
            a,
            b,
            u,
        ),
{
    lemma_negative_real(a);
    let t_y = given(y);
    let t_t = given(t);
    let m_a = given(-a);
    let v1 = times(m_a, t_y);
    let t_b = given(b);
    let t_u = given(u);
    let v2 = times(t_b, t_u);
    let v3 = plus(v1, v2);
    let v4 = times(t_t, v3);
    let v5 = plus(t_y, v4);
    assert(v5.steps == 4real);
}

/// Whether a number is the mean of `a` and `b` and `s * m` together, rounded.
pub open spec fn is_mutated_mean(
    x: Binary32,
    a: Binary32,
    b: Binary32,
    s: Binary32,
    m: Binary32,
) -> bool {
    let r_a = real_of(a);
    let r_b = real_of(b);
    let r_s = real_of(s);
    let r_m = real_of(m);
    off_by(
        x,
        (1real / 2real) * (r_a + r_b) + r_s * r_m,
        (1real / 2real * (size_of_real(r_a) + size_of_real(r_b)) + tiny())
            + (size_of_real(r_s) * size_of_real(r_m) + tiny()),
        3real,
    )
}

/// A finite result is rounded.
pub proof fn lemma_is_mutated_mean(
    a: Binary32,
    b: Binary32,
    s: Binary32,
    m: Binary32,
)
    ensures
        (b32(HALF) * (a + b) + s * m).finite() ==> is_mutated_mean(
            b32(HALF) * (a + b) + s * m,
            a,
            b,
            s,
            m,
        ),
{
    lemma_small_constants();
    let t_half = given(b32(HALF));
    let t_a = given(a);
    let t_b = given(b);
    let v1 = plus(t_a, t_b);
    let v2 = times(t_half, v1);
    let t_s = given(s);
    let t_m = given(m);
    let v3 = times(t_s, t_m);
    let v4 = plus(v2, v3);
    assert(v4.steps == 3real);
}

/// Whether a duty is one half and half the share `m` of a sine together, rounded.
pub open spec fn is_modulated(
    x: Binary32,
    m: Binary32,
    s: Binary32,
) -> bool {
    let r_m = share_of(m);
    let r_s = real_of(s);
    off_by(
        x,
        (1real / 2real) + (1real / 2real) * r_m * r_s,
        1real / 2real + ((1real / 2real * r_m + tiny()) * size_of_real(r_s) + tiny()),
        3real,
    )
}

/// A finite result is rounded.
pub proof fn lemma_is_modulated(
    m: Binary32,
    s: Binary32,
)
    requires
        !m.nan(),
    ensures
        (b32(HALF) + b32(HALF) * clamped(m, b32(ZERO), b32(ONE)) * s).finite() ==> is_modulated(
            b32(HALF) + b32(HALF) * clamped(m, b32(ZERO), b32(ONE)) * s,
            m,
            s,
        ),
{
    lemma_share_of(m);
    lemma_small_constants();
    let t_half = given(b32(HALF));
    let t_m = given(clamped(m, b32(ZERO), b32(ONE)));
    let v1 = times(t_half, t_m);
    let t_s = given(s);
    let v2 = times(v1, t_s);
    let v3 = plus(t_half, v2);
    assert(v3.steps == 3real);
}

/// Whether a number is `w` parts of `a` and the rest of `b`, rounded.
pub open spec fn is_blended(
    x: Binary32,
    w: Binary32,
    a: Binary32,
    b: Binary32,
) -> bool {
    let r_w = real_of(w);
    let r_a = real_of(a);
    let r_b = real_of(b);
    off_by(
        x,
        r_w * r_a + (1real - r_w) * r_b,
        (size_of_real(r_w) * size_of_real(r_a) + tiny()) + ((1real
            + size_of_real(r_w)) * size_of_real(r_b) + tiny()),
        3real,
    )
}

/// A finite result is rounded.
pub proof fn lemma_is_blended(
    w: Binary32,
    a: Binary32,
    b: Binary32,
)
    ensures
        (w * a + (b32(ONE) - w) * b).finite() ==> is_blended(
            w * a + (b32(ONE) - w) * b,
            w,
            a,
            b,
        ),
{
    lemma_small_constants();
    let t_w = given(w);
    let t_a = given(a);
    let v1 = times(t_w, t_a);
    let t_one = given(b32(ONE));
    let v2 = minus(t_one, t_w);
    let t_b = given(b);
    let v3 = times(v2, t_b);
    let v4 = plus(v1, v3);
    assert(v4.steps == 3real);
}

/// Whether a variance is what the gain leaves of it, rounded.
pub open spec fn is_left_over(
    x: Binary32,
    k: Binary32,
    h: Binary32,
    p: Binary32,
) -> bool {
    let r_k = real_of(k);
    let r_h = real_of(h);
    let r_p = real_of(p);
    off_by(
        x,
        (1real - r_k * r_h) * r_p,
        (1real + (size_of_real(r_k) * size_of_real(r_h) + tiny())) * size_of_real(r_p) + tiny(),
        3real,
    )
}

/// A finite result is rounded.
pub proof fn lemma_is_left_over(
    k: Binary32,
    h: Binary32,
    p: Binary32,
)
    ensures
        ((b32(ONE) - k * h) * p).finite() ==> is_left_over(
            (b32(ONE) - k * h) * p,
            k,
            h,
            p,
        ),
{
    lemma_small_constants();
    let t_one = given(b32(ONE));
    let t_k = given(k);
    let t_h = given(h);
    let v1 = times(t_k, t_h);
    let v2 = minus(t_one, v1);
    let t_p = given(p);
    let v3 = times(v2, t_p);
    assert(v3.steps == 3real);
}

/// Whether a number lies the part `i / n` of the way from `a` to `b`, rounded.
pub open spec fn is_interpolated(
    x: Binary32,
    a: Binary32,
    i: Binary32,
    n: Binary32,
    b: Binary32,
) -> bool {
    let r_a = real_of(a);
    let r_i = real_of(i);
    let r_n = real_of(n);
    let r_b = real_of(b);
    off_by(
        x,
        r_a + r_i / r_n * (r_b - r_a),
        size_of_real(r_a) + ((size_of_real(r_i) / size_of_real(r_n)
            + tiny()) * (size_of_real(r_b) + size_of_real(r_a)) + tiny()),
        4real,
    )
}

/// A finite result is rounded.
pub proof fn lemma_is_interpolated(
    a: Binary32,
    i: Binary32,
    n: Binary32,
    b: Binary32,
)
    requires
        n.finite(),
        !n.zero(),
    ensures
        (a + i / n * (b - a)).finite() ==> is_interpolated(
            a + i / n * (b - a),
            a,
            i,
            n,
            b,
        ),
{
    let t_a = given(a);
    let t_i = given(i);
    let v1 = over(t_i, n);
    let t_b = given(b);
    let v2 = minus(t_b, t_a);
    let v3 = times(v1, v2);
    let v4 = plus(t_a, v3);
    assert(v4.steps == 4real);
}

/// Whether a voltage is twice the part of the period that is dead, times the bus voltage,
/// rounded.
pub open spec fn is_dead_time_loss(
    x: Binary32,
    dead: Binary32,
    period: Binary32,
    bus: Binary32,
) -> bool {
    let r_dead = real_of(dead);
    let r_period = real_of(period);
    let r_bus = real_of(bus);
    off_by(
        x,
        2real * r_dead / r_period * r_bus,
        ((2real * size_of_real(r_dead) + tiny()) / size_of_real(r_period)
            + tiny()) * size_of_real(r_bus) + tiny(),
        3real,
    )
}

/// A finite result is rounded.
pub proof fn lemma_is_dead_time_loss(
    dead: Binary32,
    period: Binary32,
    bus: Binary32,
)
    requires
        period.finite(),
        !period.zero(),
    ensures
        (b32(TWO) * dead / period * bus).finite() ==> is_dead_time_loss(
            b32(TWO) * dead / period * bus,
            dead,
            period,
            bus,
        ),
{
    lemma_small_constants();
    let t_two = given(b32(TWO));
    let t_dead = given(dead);
    let v1 = times(t_two, t_dead);
    let v2 = over(v1, period);
    let t_bus = given(bus);
    let v3 = times(v2, t_bus);
    assert(v3.steps == 3real);
}

/// Whether a number is the sum of `base` and three weighted products, rounded.
pub open spec fn is_weighted_square_sum(
    x: Binary32,
    base: Binary32,
    a: Binary32,
    d: Binary32,
    e: Binary32,
    b: Binary32,
    f: Binary32,
    g: Binary32,
    c: Binary32,
    h: Binary32,
    k: Binary32,
) -> bool {
    let r_base = real_of(base);
    let r_a = real_of(a);
    let r_d = real_of(d);
    let r_e = real_of(e);
    let r_b = real_of(b);
    let r_f = real_of(f);
    let r_g = real_of(g);
    let r_c = real_of(c);
    let r_h = real_of(h);
    let r_k = real_of(k);
    off_by(
        x,
        r_base + r_a * r_d * r_e + r_b * r_f * r_g + r_c * r_h * r_k,
        ((size_of_real(r_base) + ((size_of_real(r_a) * size_of_real(r_d)
            + tiny()) * size_of_real(r_e) + tiny()))
            + ((size_of_real(r_b) * size_of_real(r_f) + tiny()) * size_of_real(r_g)
            + tiny())) + ((size_of_real(r_c) * size_of_real(r_h)
            + tiny()) * size_of_real(r_k) + tiny()),
        5real,
    )
}

/// A finite result is rounded.
pub proof fn lemma_is_weighted_square_sum(
    base: Binary32,
    a: Binary32,
    d: Binary32,
    e: Binary32,
    b: Binary32,
    f: Binary32,
    g: Binary32,
    c: Binary32,
    h: Binary32,
    k: Binary32,
)
    ensures
        (base + a * d * e + b * f * g + c * h * k).finite() ==> is_weighted_square_sum(
            base + a * d * e + b * f * g + c * h * k,
            base,
            a,
            d,
            e,
            b,
            f,
            g,
            c,
            h,
            k,
        ),
{
    let t_base = given(base);
    let t_a = given(a);
    let t_d = given(d);
    let v1 = times(t_a, t_d);
    let t_e = given(e);
    let v2 = times(v1, t_e);
    let v3 = plus(t_base, v2);
    let t_b = given(b);
    let t_f = given(f);
    let v4 = times(t_b, t_f);
    let t_g = given(g);
    let v5 = times(v4, t_g);
    let v6 = plus(v3, v5);
    let t_c = given(c);
    let t_h = given(h);
    let v7 = times(t_c, t_h);
    let t_k = given(k);
    let v8 = times(v7, t_k);
    let v9 = plus(v6, v8);
    assert(v9.steps == 5real);
}

/// Whether a number is the sum of three weighted products, rounded.
pub open spec fn is_weighted_product_sum(
    x: Binary32,
    a: Binary32,
    d: Binary32,
    e: Binary32,
    b: Binary32,
    f: Binary32,
    g: Binary32,
    c: Binary32,
    h: Binary32,
    k: Binary32,
) -> bool {
    let r_a = real_of(a);
    let r_d = real_of(d);
    let r_e = real_of(e);
    let r_b = real_of(b);
    let r_f = real_of(f);
    let r_g = real_of(g);
    let r_c = real_of(c);
    let r_h = real_of(h);
    let r_k = real_of(k);
    off_by(
        x,
        r_a * r_d * r_e + r_b * r_f * r_g + r_c * r_h * r_k,
        (((size_of_real(r_a) * size_of_real(r_d) + tiny()) * size_of_real(r_e) + tiny())
            + ((size_of_real(r_b) * size_of_real(r_f) + tiny()) * size_of_real(r_g)
            + tiny())) + ((size_of_real(r_c) * size_of_real(r_h)
            + tiny()) * size_of_real(r_k) + tiny()),
        4real,
    )
}

/// A finite result is rounded.
pub proof fn lemma_is_weighted_product_sum(
    a: Binary32,
    d: Binary32,
    e: Binary32,
    b: Binary32,
    f: Binary32,
    g: Binary32,
    c: Binary32,
    h: Binary32,
    k: Binary32,
)
    ensures
        (a * d * e + b * f * g + c * h * k).finite() ==> is_weighted_product_sum(
            a * d * e + b * f * g + c * h * k,
            a,
            d,
            e,
            b,
            f,
            g,
            c,
            h,
            k,
        ),
{
    let t_a = given(a);
    let t_d = given(d);
    let v1 = times(t_a, t_d);
    let t_e = given(e);
    let v2 = times(v1, t_e);
    let t_b = given(b);
    let t_f = given(f);
    let v3 = times(t_b, t_f);
    let t_g = given(g);
    let v4 = times(v3, t_g);
    let v5 = plus(v2, v4);
    let t_c = given(c);
    let t_h = given(h);
    let v6 = times(t_c, t_h);
    let t_k = given(k);
    let v7 = times(v6, t_k);
    let v8 = plus(v5, v7);
    assert(v8.steps == 4real);
}

/// Whether a number is `a / b`, rounded.
pub open spec fn is_quotient(
    x: Binary32,
    a: Binary32,
    b: Binary32,
) -> bool {
    let r_a = real_of(a);
    let r_b = real_of(b);
    off_by(
        x,
        r_a / r_b,
        size_of_real(r_a) / size_of_real(r_b) + tiny(),
        1real,
    )
}

/// A finite result is rounded.
pub proof fn lemma_is_quotient(
    a: Binary32,
    b: Binary32,
)
    requires
        b.finite(),
        !b.zero(),
    ensures
        (a / b).finite() ==> is_quotient(
            a / b,
            a,
            b,
        ),
{
    let t_a = given(a);
    let v1 = over(t_a, b);
    assert(v1.steps == 1real);
}

/// Whether a number is one half over `b`, rounded.
pub open spec fn is_half_over(
    x: Binary32,
    b: Binary32,
) -> bool {
    let r_b = real_of(b);
    off_by(
        x,
        (1real / 2real) / r_b,
        1real / 2real / size_of_real(r_b) + tiny(),
        1real,
    )
}

/// A finite result is rounded.
pub proof fn lemma_is_half_over(
    b: Binary32,
)
    requires
        b.finite(),
        !b.zero(),
    ensures
        (b32(HALF) / b).finite() ==> is_half_over(
            b32(HALF) / b,
            b,
        ),
{
    lemma_small_constants();
    let t_half = given(b32(HALF));
    let v1 = over(t_half, b);
    assert(v1.steps == 1real);
}

/// Whether a number is `a * b / c`, rounded.
pub open spec fn is_quotient_of_product(
    x: Binary32,
    a: Binary32,
    b: Binary32,
    c: Binary32,
) -> bool {
    let r_a = real_of(a);
    let r_b = real_of(b);
    let r_c = real_of(c);
    off_by(
        x,
        r_a * r_b / r_c,
        (size_of_real(r_a) * size_of_real(r_b) + tiny()) / size_of_real(r_c) + tiny(),
        2real,
    )
}

/// A finite result is rounded.
pub proof fn lemma_is_quotient_of_product(
    a: Binary32,
    b: Binary32,
    c: Binary32,
)
    requires
        c.finite(),
        !c.zero(),
    ensures
        (a * b / c).finite() ==> is_quotient_of_product(
            a * b / c,
            a,
            b,
            c,
        ),
{
    let t_a = given(a);
    let t_b = given(b);
    let v1 = times(t_a, t_b);
    let v2 = over(v1, c);
    assert(v2.steps == 2real);
}

/// Whether a number is `a - b * c * d`, rounded.
pub open spec fn is_reduced_by_product_of_three(
    x: Binary32,
    a: Binary32,
    b: Binary32,
    c: Binary32,
    d: Binary32,
) -> bool {
    let r_a = real_of(a);
    let r_b = real_of(b);
    let r_c = real_of(c);
    let r_d = real_of(d);
    off_by(
        x,
        r_a - r_b * r_c * r_d,
        size_of_real(r_a) + ((size_of_real(r_b) * size_of_real(r_c)
            + tiny()) * size_of_real(r_d) + tiny()),
        3real,
    )
}

/// A finite result is rounded.
pub proof fn lemma_is_reduced_by_product_of_three(
    a: Binary32,
    b: Binary32,
    c: Binary32,
    d: Binary32,
)
    ensures
        (a - b * c * d).finite() ==> is_reduced_by_product_of_three(
            a - b * c * d,
            a,
            b,
            c,
            d,
        ),
{
    let t_a = given(a);
    let t_b = given(b);
    let t_c = given(c);
    let v1 = times(t_b, t_c);
    let t_d = given(d);
    let v2 = times(v1, t_d);
    let v3 = minus(t_a, v2);
    assert(v3.steps == 3real);
}

/// Whether a number is `s * s * (1 + k) - 1`, rounded.
pub open spec fn is_spread_excess(
    x: Binary32,
    s: Binary32,
    k: Binary32,
) -> bool {
    let r_s = real_of(s);
    let r_k = real_of(k);
    off_by(
        x,
        r_s * r_s * (1real + r_k) - 1real,
        ((size_of_real(r_s) * size_of_real(r_s) + tiny()) * (1real + size_of_real(r_k))
            + tiny()) + 1real,
        4real,
    )
}

/// A finite result is rounded.
pub proof fn lemma_is_spread_excess(
    s: Binary32,
    k: Binary32,
)
    ensures
        (s * s * (b32(ONE) + k) - b32(ONE)).finite() ==> is_spread_excess(
            s * s * (b32(ONE) + k) - b32(ONE),
            s,
            k,
        ),
{
    lemma_small_constants();
    let t_s = given(s);
    let v1 = times(t_s, t_s);
    let t_one = given(b32(ONE));
    let t_k = given(k);
    let v2 = plus(t_one, t_k);
    let v3 = times(v1, v2);
    let v4 = minus(v3, t_one);
    assert(v4.steps == 4real);
}

/// Whether a number is `m + (1 - s * s + b)`, rounded.
pub open spec fn is_central_weight(
    x: Binary32,
    m: Binary32,
    s: Binary32,
    b: Binary32,
) -> bool {
    let r_m = real_of(m);
    let r_s = real_of(s);
    let r_b = real_of(b);
    off_by(
        x,
        r_m + (1real - r_s * r_s + r_b),
        size_of_real(r_m) + ((1real + (size_of_real(r_s) * size_of_real(r_s) + tiny()))
            + size_of_real(r_b)),
        4real,
    )
}

/// A finite result is rounded.
pub proof fn lemma_is_central_weight(
    m: Binary32,
    s: Binary32,
    b: Binary32,
)
    ensures
        (m + (b32(ONE) - s * s + b)).finite() ==> is_central_weight(
            m + (b32(ONE) - s * s + b),
            m,
            s,
            b,
        ),
{
    lemma_small_constants();
    let t_m = given(m);
    let t_one = given(b32(ONE));
    let t_s = given(s);
    let v1 = times(t_s, t_s);
    let v2 = minus(t_one, v1);
    let t_b = given(b);
    let v3 = plus(v2, t_b);
    let v4 = plus(t_m, v3);
    assert(v4.steps == 4real);
}

/// Whether a number is `a - b + c`, rounded.
pub open spec fn is_ahead(
    x: Binary32,
    a: Binary32,
    b: Binary32,
    c: Binary32,
) -> bool {
    let r_a = real_of(a);
    let r_b = real_of(b);
    let r_c = real_of(c);
    off_by(
        x,
        r_a - r_b + r_c,
        (size_of_real(r_a) + size_of_real(r_b)) + size_of_real(r_c),
        2real,
    )
}

/// A finite result is rounded.
pub proof fn lemma_is_ahead(
    a: Binary32,
    b: Binary32,
    c: Binary32,
)
    ensures
        (a - b + c).finite() ==> is_ahead(
            a - b + c,
            a,
            b,
            c,
        ),
{
    let t_a = given(a);
    let t_b = given(b);
    let v1 = minus(t_a, t_b);
    let t_c = given(c);
    let v2 = plus(v1, t_c);
    assert(v2.steps == 2real);
}

/// Whether a number is `d * (d + 8 * y)`, rounded.
pub open spec fn is_reach_square(
    x: Binary32,
    d: Binary32,
    y: Binary32,
) -> bool {
    let r_d = real_of(d);
    let r_y = real_of(y);
    off_by(
        x,
        r_d * (r_d + 8real * r_y),
        size_of_real(r_d) * (size_of_real(r_d) + (8real * size_of_real(r_y) + tiny())) + tiny(),
        3real,
    )
}

/// A finite result is rounded.
pub proof fn lemma_is_reach_square(
    d: Binary32,
    y: Binary32,
)
    ensures
        (d * (d + b32(EIGHT) * y)).finite() ==> is_reach_square(
            d * (d + b32(EIGHT) * y),
            d,
            y,
        ),
{
    lemma_small_constants();
    let t_d = given(d);
    let t_eight = given(b32(EIGHT));
    let t_y = given(y);
    let v1 = times(t_eight, t_y);
    let v2 = plus(t_d, v1);
    let v3 = times(t_d, v2);
    assert(v3.steps == 3real);
}

/// Whether a number is `a + s * (b - d) / 2`, rounded.
pub open spec fn is_stopping_curve(
    x: Binary32,
    a: Binary32,
    s: Binary32,
    b: Binary32,
    d: Binary32,
) -> bool {
    let r_a = real_of(a);
    let r_s = real_of(s);
    let r_b = real_of(b);
    let r_d = real_of(d);
    off_by(
        x,
        r_a + r_s * (r_b - r_d) * (1real / 2real),
        size_of_real(r_a) + ((size_of_real(r_s) * (size_of_real(r_b) + size_of_real(r_d))
            + tiny()) * 1real / 2real + tiny()),
        4real,
    )
}

/// A finite result is rounded.
pub proof fn lemma_is_stopping_curve(
    a: Binary32,
    s: Binary32,
    b: Binary32,
    d: Binary32,
)
    ensures
        (a + s * (b - d) * b32(HALF)).finite() ==> is_stopping_curve(
            a + s * (b - d) * b32(HALF),
            a,
            s,
            b,
            d,
        ),
{
    lemma_small_constants();
    let t_a = given(a);
    let t_s = given(s);
    let t_b = given(b);
    let t_d = given(d);
    let v1 = minus(t_b, t_d);
    let v2 = times(t_s, v1);
    let t_half = given(b32(HALF));
    let v3 = times(v2, t_half);
    let v4 = plus(t_a, v3);
    assert(v4.steps == 4real);
}

} // verus!
