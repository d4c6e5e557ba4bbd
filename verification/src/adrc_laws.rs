//! What a step of active disturbance rejection does to exact reals, up to rounding: the
//! output cancels the estimated disturbance, and the estimates follow their equations.
use vstd::prelude::*;
use crate::adrc::AdrcFalParam;
use crate::adrc::AdrcFastTdParam;
use crate::adrc::AdrcFastTdState;
use crate::adrc::AdrcNonlinearParam;
use crate::adrc::AdrcParam;
use crate::adrc::AdrcState;
use crate::adrc::AdrcTuningParam;
use crate::adrc::bandwidth;
use crate::adrc::bounded_acceleration;
use crate::adrc::EIGHT;
use crate::adrc::fal_of;
use crate::adrc::input_gain;
use crate::adrc::inside;
use crate::adrc::lemma_inside;
use crate::adrc::tuned;
use crate::arithmetic::addition_is_commutative;
use crate::arithmetic::addition_keeps_order;
use crate::arithmetic::division_keeps_order;
use crate::arithmetic::lemma_div_kind;
use crate::arithmetic::lemma_mul_kind;
use crate::arithmetic::negation_is_an_involution;
use crate::arithmetic::negation_of_factor_negates_product;
use crate::arithmetic::one_is_neutral;
use crate::arithmetic::product_with_zero_is_zero;
use crate::arithmetic::zero_is_neutral;
use crate::binary32::b32;
use crate::binary32::Binary32;
use crate::binary32::HALF;
use crate::binary32::INFINITY;
use crate::binary32::MINUS_ONE;
use crate::binary32::ONE;
use crate::binary32::THREE;
use crate::binary32::TWO;
use crate::binary32::ZERO;
use crate::controller_laws::is_sum_of_two;
use crate::controller_laws::lemma_sum_of_two;
use crate::equations::is_ahead;
use crate::equations::is_product_of_three;
use crate::equations::is_reach_square;
use crate::equations::is_stopping_curve;
use crate::equations::lemma_is_ahead;
use crate::equations::lemma_is_product_of_three;
use crate::equations::lemma_is_reach_square;
use crate::equations::lemma_is_stopping_curve;
use crate::equations::lemma_negative_real;
use crate::equations::lemma_small_constants;
use crate::exact::lemma_scaled;
use crate::exact::lemma_size_of_product;
use crate::exact::real_of;
use crate::exact::size_of_real;
use crate::math::clamp_keeps_order;
use crate::math::clamped;
use crate::math::sign_of;
use crate::near::lemma_inverse_powers;
use crate::near::lemma_real_constant;
use crate::observer::advanced_smo_laws::plain_sign;
use crate::rounded_steps::differences_are_rounded;
use crate::rounded_steps::is_amplified;
use crate::rounded_steps::is_difference;
use crate::rounded_steps::lemma_no_limit;
use crate::rounded_steps::products_are_rounded;
use crate::running_error::given;
use crate::running_error::given_small;
use crate::running_error::lemma_off_by_more;
use crate::running_error::lemma_order_of_reals;
use crate::running_error::lemma_shares;
use crate::running_error::lemma_zero_real;
use crate::running_error::minus;
use crate::running_error::not_limited;
use crate::running_error::off_by;
use crate::running_error::ordinary;
use crate::running_error::ordinary_divisor;
use crate::running_error::over;
use crate::running_error::plus;
use crate::running_error::strictly_inside;
use crate::running_error::times;
use crate::running_error::tiny;
use crate::running_error::Traced;
use crate::square_root::sqrt_of;
use vstd::arithmetic::power2::lemma2_to64;

verus! {

/// The input gain as a real; zero stands for one.
pub open spec fn real_gain(param: AdrcParam) -> real {
    if param.b0.zero() {
        1real
    } else {
        real_of(param.b0)
    }
}

/// Whether an output together with an estimated disturbance makes up a control effort: the
/// plant sees the effort, and nothing of the disturbance.
pub open spec fn cancels_disturbance(gain: real, state: AdrcState) -> bool {
    let u = real_of(state.output);
    let z = real_of(state.z3);
    let effort = real_of(state.u0);
    8388608real * size_of_real(gain * u + z - effort) <= 2real * (size_of_real(effort)
        + size_of_real(z) + size_of_real(gain) * tiny())
}

proof fn lemma_gain(param: AdrcParam)
    requires
        param.b0.finite(),
    ensures
        input_gain(param).finite(),
        !input_gain(param).zero(),
        real_of(input_gain(param)) == real_gain(param),
        real_gain(param) != 0real,
{
    lemma_inverse_powers();
    lemma_real_constant(b32(ONE), 0x80_0000, 23);
    lemma_zero_real(input_gain(param));
}

proof fn lemma_cancels(state: AdrcState, param: AdrcParam, unlimited: Binary32)
    requires
        param.b0.finite(),
        unlimited == (state.u0 - state.z3) / input_gain(param),
        state.output == unlimited,
        state.output.finite(),
    ensures
        cancels_disturbance(real_gain(param), state),
{
    lemma_gain(param);
    let g = real_gain(param);
    let m = size_of_real(g);
    let effort = given(state.u0);
    let z = given(state.z3);
    let rest = minus(effort, z);
    let out = over(rest, input_gain(param));
    assert(off_by(out.number, out.exact, out.weight, 2real)) by {
        assert(out.steps == 2real);
    }
    let u = real_of(state.output);
    let x = rest.exact;
    let d = u - x / g;
    lemma_shares(x, g);
    lemma_shares(rest.weight, m);
    assert((u - x / g) * g == g * u - (x / g) * g) by (nonlinear_arith);
    let n = size_of_real(d);
    lemma_size_of_product(d, g, n, m);
    lemma_scaled(8388608real * n, 2real * out.weight, m);
    assert((8388608real * n) * m == 8388608real * (n * m)) by (nonlinear_arith);
    let w = rest.weight / m;
    assert((2real * (w + tiny())) * m == 2real * (w * m) + 2real * (m * tiny()))
        by (nonlinear_arith);
}

/// Where the output is not at a limit, input gain times output and the estimated disturbance
/// together are the control effort: the output cancels the disturbance.
pub proof fn adrc_cancels_disturbance(
    state: AdrcState,
    param: AdrcParam,
    reference: Binary32,
    feedback: Binary32,
)
    requires
        param.ts > b32(ZERO),
        param.b0.finite(),
        strictly_inside(
            state.updated(param, reference, feedback).output,
            param.out_min,
            param.out_max,
        ),
    ensures
        cancels_disturbance(real_gain(param), state.updated(param, reference, feedback)),
{
    let next = state.updated(param, reference, feedback);
    let unlimited = (next.u0 - next.z3) / input_gain(param);
    not_limited(unlimited, param.out_min, param.out_max);
    lemma_cancels(next, param, unlimited);
}

/// With nonlinear error feedback the output cancels the estimated disturbance too.
pub proof fn adrc_nonlinear_cancels_disturbance(
    state: AdrcState,
    param: AdrcNonlinearParam,
    reference: Binary32,
    feedback: Binary32,
    power1: Binary32,
    power2: Binary32,
)
    requires
        param.base.ts > b32(ZERO),
        param.base.b0.finite(),
        strictly_inside(
            state.updated_nonlinear(param, reference, feedback, power1, power2).output,
            param.base.out_min,
            param.base.out_max,
        ),
    ensures
        cancels_disturbance(
            real_gain(param.base),
            state.updated_nonlinear(param, reference, feedback, power1, power2),
        ),
{
    let next = state.updated_nonlinear(param, reference, feedback, power1, power2);
    let unlimited = (next.u0 - next.z3) / input_gain(param.base);
    not_limited(unlimited, param.base.out_min, param.base.out_max);
    lemma_cancels(next, param.base, unlimited);
}

proof fn lemma_larger_disturbance(
    u0: Binary32,
    small: Binary32,
    large: Binary32,
    param: AdrcParam,
)
    requires
        param.b0 > b32(ZERO) || param.b0.zero(),
        small <= large,
        !param.out_min.nan(),
        !param.out_max.nan(),
        !clamped((u0 - small) / input_gain(param), param.out_min, param.out_max).nan(),
        !clamped((u0 - large) / input_gain(param), param.out_min, param.out_max).nan(),
    ensures
        clamped((u0 - large) / input_gain(param), param.out_min, param.out_max) <= clamped(
            (u0 - small) / input_gain(param),
            param.out_min,
            param.out_max,
        ),
{
    let g = input_gain(param);
    let a = u0 - large;
    let b = u0 - small;
    lemma_div_kind(a, g);
    lemma_div_kind(b, g);
    negation_is_an_involution(small);
    negation_is_an_involution(large);
    addition_is_commutative(u0, -small);
    addition_is_commutative(u0, -large);
    addition_keeps_order(-large, -small, u0);
    division_keeps_order(a, b, g);
    clamp_keeps_order(a / g, b / g, param.out_min, param.out_max);
}

/// With a positive input gain and the same control effort, a larger estimated disturbance
/// never gives a larger output.
pub proof fn adrc_opposes_disturbance(
    first: AdrcState,
    second: AdrcState,
    param: AdrcParam,
    references: (Binary32, Binary32),
    feedbacks: (Binary32, Binary32),
)
    requires
        param.ts > b32(ZERO),
        param.b0 > b32(ZERO) || param.b0.zero(),
        !param.out_min.nan(),
        !param.out_max.nan(),
        ({
            let a = first.updated(param, references.0, feedbacks.0);
            let b = second.updated(param, references.1, feedbacks.1);
            &&& a.u0 == b.u0
            &&& a.z3 <= b.z3
            &&& !a.output.nan() && !b.output.nan()
        }),
    ensures
        second.updated(param, references.1, feedbacks.1).output <= first.updated(
            param,
            references.0,
            feedbacks.0,
        ).output,
{
    let a = first.updated(param, references.0, feedbacks.0);
    let b = second.updated(param, references.1, feedbacks.1);
    lemma_larger_disturbance(a.u0, a.z3, b.z3, param);
}

/// With nonlinear error feedback too, a larger estimated disturbance never gives a larger
/// output for the same control effort.
pub proof fn adrc_nonlinear_opposes_disturbance(
    first: AdrcState,
    second: AdrcState,
    param: AdrcNonlinearParam,
    references: (Binary32, Binary32),
    feedbacks: (Binary32, Binary32),
    powers1: (Binary32, Binary32),
    powers2: (Binary32, Binary32),
)
    requires
        param.base.ts > b32(ZERO),
        param.base.b0 > b32(ZERO) || param.base.b0.zero(),
        !param.base.out_min.nan(),
        !param.base.out_max.nan(),
        ({
            let a = first.updated_nonlinear(
                param,
                references.0,
                feedbacks.0,
                powers1.0,
                powers2.0,
            );
            let b = second.updated_nonlinear(
                param,
                references.1,
                feedbacks.1,
                powers1.1,
                powers2.1,
            );
            &&& a.u0 == b.u0
            &&& a.z3 <= b.z3
            &&& !a.output.nan() && !b.output.nan()
        }),
    ensures
        second.updated_nonlinear(
            param,
            references.1,
            feedbacks.1,
            powers1.1,
            powers2.1,
        ).output <= first.updated_nonlinear(
            param,
            references.0,
            feedbacks.0,
            powers1.0,
            powers2.0,
        ).output,
{
    let a = first.updated_nonlinear(param, references.0, feedbacks.0, powers1.0, powers2.0);
    let b = second.updated_nonlinear(param, references.1, feedbacks.1, powers1.1, powers2.1);
    lemma_larger_disturbance(a.u0, a.z3, b.z3, param.base);
}

/// Limits only limit the output, of both controllers.
pub proof fn adrc_limits_only_limit(
    state: AdrcState,
    param: AdrcNonlinearParam,
    reference: Binary32,
    feedback: Binary32,
    power1: Binary32,
    power2: Binary32,
)
    requires
        param.base.ts > b32(ZERO),
    ensures
        ({
            let base = AdrcParam {
                out_min: -b32(INFINITY),
                out_max: b32(INFINITY),
                ..param.base
            };
            let free = AdrcNonlinearParam { base, ..param };
            let linear = state.updated(base, reference, feedback);
            let nonlinear = state.updated_nonlinear(free, reference, feedback, power1, power2);
            &&& state.updated(param.base, reference, feedback) == (AdrcState {
                output: clamped(linear.output, param.base.out_min, param.base.out_max),
                ..linear
            })
            &&& state.updated_nonlinear(param, reference, feedback, power1, power2) == (AdrcState {
                output: clamped(nonlinear.output, param.base.out_min, param.base.out_max),
                ..nonlinear
            })
        }),
{
    let a = state.updated(param.base, reference, feedback);
    let b = state.updated_nonlinear(param, reference, feedback, power1, power2);
    lemma_no_limit((a.u0 - a.z3) / input_gain(param.base));
    lemma_no_limit((b.u0 - b.z3) / input_gain(param.base));
}

/// The smoothed reference moves with its derivative, and the derivative towards the
/// reference, with critical damping.
pub open spec fn tracks_reference(
    before: AdrcState,
    after: AdrcState,
    param: AdrcParam,
    reference: Binary32,
) -> bool {
    let t = real_of(param.ts);
    let r = real_of(param.td_r);
    let x = real_of(reference);
    let v1 = real_of(before.v1);
    let v2 = real_of(before.v2);
    let st = size_of_real(t);
    let sr = size_of_real(r);
    &&& after.v1.finite() ==> off_by(
        after.v1,
        v1 + t * v2,
        size_of_real(v1) + (st * size_of_real(v2) + tiny()),
        2real,
    )
    &&& after.v2.finite() ==> off_by(
        after.v2,
        v2 + t * (r * (x - v1) - (2real * r) * v2),
        size_of_real(v2) + (st * ((sr * (size_of_real(x) + size_of_real(v1)) + tiny()) + ((2real
            * sr + tiny()) * size_of_real(v2) + tiny())) + tiny()),
        5real,
    )
}

/// The estimates follow a plant of second order that the output and a disturbance drive, and
/// are drawn to the feedback by the gains of the observer.
pub open spec fn observes_plant(
    before: AdrcState,
    after: AdrcState,
    param: AdrcParam,
    feedback: Binary32,
) -> bool {
    let t = real_of(param.ts);
    let b1 = real_of(param.beta01);
    let b2 = real_of(param.beta02);
    let b3 = real_of(param.beta03);
    let g = real_gain(param);
    let u = real_of(before.output);
    let z1 = real_of(before.z1);
    let z2 = real_of(before.z2);
    let z3 = real_of(before.z3);
    let miss = z1 - real_of(feedback);
    let sm = size_of_real(z1) + size_of_real(real_of(feedback));
    let st = size_of_real(t);
    &&& after.z1.finite() ==> off_by(
        after.z1,
        z1 + t * (z2 - b1 * miss),
        size_of_real(z1) + (st * (size_of_real(z2) + (size_of_real(b1) * sm + tiny())) + tiny()),
        5real,
    )
    &&& after.z2.finite() ==> off_by(
        after.z2,
        z2 + t * (z3 - b2 * miss + g * u),
        size_of_real(z2) + (st * (size_of_real(z3) + (size_of_real(b2) * sm + tiny()) + (
        size_of_real(g) * size_of_real(u) + tiny())) + tiny()),
        6real,
    )
    &&& after.z3.finite() ==> off_by(
        after.z3,
        z3 + t * ((-b3) * miss),
        size_of_real(z3) + (st * (size_of_real(b3) * sm + tiny()) + tiny()),
        4real,
    )
}

/// The control effort answers the errors of the estimates against the smoothed reference.
pub open spec fn feeds_errors_back(after: AdrcState, param: AdrcParam) -> bool {
    let kp = real_of(param.kp);
    let kd = real_of(param.kd);
    let v1 = real_of(after.v1);
    let v2 = real_of(after.v2);
    let z1 = real_of(after.z1);
    let z2 = real_of(after.z2);
    &&& after.error.finite() ==> is_difference(after.error, after.v1, after.z1)
    &&& after.u0.finite() ==> off_by(
        after.u0,
        kp * (v1 - z1) + kd * (v2 - z2),
        (size_of_real(kp) * (size_of_real(v1) + size_of_real(z1)) + tiny()) + (size_of_real(kd) * (
        size_of_real(v2) + size_of_real(z2)) + tiny()),
        3real,
    )
}

proof fn lemma_tracks(before: AdrcState, param: AdrcParam, reference: Binary32, feedback: Binary32)
    ensures
        tracks_reference(before, before.observed(param, reference, feedback), param, reference),
{
    lemma_inverse_powers();
    lemma_real_constant(b32(TWO), 0x80_0000, 22);
    let t = given(param.ts);
    let r = given(param.td_r);
    let x = given(reference);
    let v1 = given(before.v1);
    let v2 = given(before.v2);
    let two = given(b32(TWO));
    let move1 = times(t, v2);
    let next1 = plus(v1, move1);
    assert(next1.steps == 2real);
    let miss = minus(x, v1);
    let pull = times(r, miss);
    let twice = times(two, r);
    let brake = times(twice, v2);
    let acceleration = minus(pull, brake);
    let move2 = times(t, acceleration);
    let next2 = plus(v2, move2);
    assert(next2.steps == 5real);
}

proof fn lemma_observes(
    before: AdrcState,
    param: AdrcParam,
    reference: Binary32,
    feedback: Binary32,
)
    requires
        param.b0.finite(),
    ensures
        observes_plant(before, before.observed(param, reference, feedback), param, feedback),
{
    lemma_gain(param);
    lemma_negative_real(param.beta03);
    let t = given(param.ts);
    let b1 = given(param.beta01);
    let b2 = given(param.beta02);
    let b3 = given(-param.beta03);
    let g = given(input_gain(param));
    let u = given(before.output);
    let z1 = given(before.z1);
    let z2 = given(before.z2);
    let z3 = given(before.z3);
    let y = given(feedback);
    let miss = minus(z1, y);
    let c1 = times(b1, miss);
    let rate1 = minus(z2, c1);
    let move1 = times(t, rate1);
    let next1 = plus(z1, move1);
    assert(next1.steps == 5real);
    let c2 = times(b2, miss);
    let rest = minus(z3, c2);
    let drive = times(g, u);
    let rate2 = plus(rest, drive);
    let move2 = times(t, rate2);
    let next2 = plus(z2, move2);
    assert(next2.steps == 6real);
    let rate3 = times(b3, miss);
    let move3 = times(t, rate3);
    let next3 = plus(z3, move3);
    assert(next3.steps == 4real);
}

/// A step of the controller tracks the reference, observes the plant and feeds the errors
/// back.
pub proof fn adrc_follows_equations(
    state: AdrcState,
    param: AdrcParam,
    reference: Binary32,
    feedback: Binary32,
)
    requires
        param.ts > b32(ZERO),
        param.b0.finite(),
    ensures
        ({
            let next = state.updated(param, reference, feedback);
            &&& tracks_reference(state, next, param, reference)
            &&& observes_plant(state, next, param, feedback)
            &&& feeds_errors_back(next, param)
        }),
{
    let next = state.updated(param, reference, feedback);
    lemma_tracks(state, param, reference, feedback);
    lemma_observes(state, param, reference, feedback);
    differences_are_rounded(next.v1, next.z1);
    let kp = given(param.kp);
    let kd = given(param.kd);
    let v1 = given(next.v1);
    let v2 = given(next.v2);
    let z1 = given(next.z1);
    let z2 = given(next.z2);
    let e1 = minus(v1, z1);
    let e2 = minus(v2, z2);
    let p = times(kp, e1);
    let q = times(kd, e2);
    let sum = plus(p, q);
    assert(sum.steps == 3real);
}

/// A step with nonlinear error feedback tracks the reference and observes the plant, and its
/// effort is the weighted sum of the error functions.
pub proof fn adrc_nonlinear_follows_equations(
    state: AdrcState,
    param: AdrcNonlinearParam,
    reference: Binary32,
    feedback: Binary32,
    power1: Binary32,
    power2: Binary32,
)
    requires
        param.base.ts > b32(ZERO),
        param.base.b0.finite(),
    ensures
        ({
            let next = state.updated_nonlinear(param, reference, feedback, power1, power2);
            &&& tracks_reference(state, next, param.base, reference)
            &&& observes_plant(state, next, param.base, feedback)
            &&& next.error.finite() ==> is_difference(next.error, next.v1, next.z1)
            &&& next.u0.finite() ==> is_sum_of_two(
                next.u0,
                param.base.kp,
                fal_of(next.v1 - next.z1, param.e1_fal, power1),
                param.base.kd,
                fal_of(next.v2 - next.z2, param.e2_fal, power2),
            )
        }),
{
    let next = state.updated_nonlinear(param, reference, feedback, power1, power2);
    lemma_tracks(state, param.base, reference, feedback);
    lemma_observes(state, param.base, reference, feedback);
    differences_are_rounded(next.v1, next.z1);
    lemma_sum_of_two(
        param.base.kp,
        fal_of(next.v1 - next.z1, param.e1_fal, power1),
        param.base.kd,
        fal_of(next.v2 - next.z2, param.e2_fal, power2),
    );
}

/// The error function has the sign of the error. Outside the linear region it is the power;
/// inside, the power times the function is the error.
pub proof fn fal_follows_error(error: Binary32, param: AdrcFalParam, power: Binary32)
    requires
        !error.nan(),
        !param.delta.nan(),
        power.finite(),
        power > b32(ZERO),
    ensures
        ({
            let f = fal_of(error, param, power);
            let p = real_of(power);
            let e = real_of(error);
            &&& error.size() > param.width() && error > b32(ZERO) ==> f == power
            &&& error.size() > param.width() && error < b32(ZERO) ==> f == -power
            &&& error.size() <= param.width() && f.finite() ==> 8388608real * size_of_real(
                p * real_of(f) - e,
            ) <= size_of_real(e) + p * tiny()
        }),
{
    let f = fal_of(error, param, power);
    let p = real_of(power);
    let x = real_of(error);
    lemma_zero_real(b32(ZERO));
    lemma_order_of_reals(b32(ZERO), power);
    one_is_neutral(power);
    negation_of_factor_negates_product(power, b32(ONE));
    lemma_mul_kind(power, b32(ONE));
    assert(-b32(ONE) == b32(MINUS_ONE));
    if error.size() <= param.width() && f.finite() {
        let e = given(error);
        let q = over(e, power);
        assert(q.steps == 1real);
        let r = real_of(f);
        let d = r - x / p;
        let n = size_of_real(d);
        lemma_shares(x, p);
        lemma_shares(size_of_real(x), p);
        assert((r - x / p) * p == p * r - (x / p) * p) by (nonlinear_arith);
        lemma_size_of_product(d, p, n, p);
        lemma_scaled(8388608real * n, q.weight, p);
        assert((8388608real * n) * p == 8388608real * (n * p)) by (nonlinear_arith);
        let w = size_of_real(x) / p;
        assert((w + tiny()) * p == w * p + p * tiny()) by (nonlinear_arith);
        assert(1real * q.weight == q.weight) by (nonlinear_arith);
    }
}

/// The fast differentiator moves with its derivative, and the derivative with the
/// acceleration.
pub proof fn fast_differentiator_follows_equations(
    state: AdrcFastTdState,
    param: AdrcFastTdParam,
    reference: Binary32,
)
    requires
        param.usable(),
    ensures
        ({
            let next = state.updated(param, reference);
            let t = real_of(param.ts);
            let v1 = real_of(state.v1);
            let v2 = real_of(state.v2);
            let a = real_of(next.fh);
            &&& next.v1.finite() ==> off_by(
                next.v1,
                v1 + t * v2,
                size_of_real(v1) + (size_of_real(t) * size_of_real(v2) + tiny()),
                2real,
            )
            &&& next.v2.finite() ==> off_by(
                next.v2,
                v2 + t * a,
                size_of_real(v2) + (size_of_real(t) * size_of_real(a) + tiny()),
                2real,
            )
        }),
{
    let next = state.updated(param, reference);
    let t = given(param.ts);
    let v1 = given(state.v1);
    let v2 = given(state.v2);
    let a = given(next.fh);
    let move1 = times(t, v2);
    let next1 = plus(v1, move1);
    let move2 = times(t, a);
    let next2 = plus(v2, move2);
    assert(next1.steps == 2real && next2.steps == 2real);
}

/// Whether the numbers of a step are ordinary.
pub open spec fn ordinary_adrc(
    state: AdrcState,
    param: AdrcParam,
    reference: Binary32,
    feedback: Binary32,
) -> bool {
    &&& ordinary(param.ts) && ordinary(param.td_r)
    &&& ordinary(param.beta01) && ordinary(param.beta02) && ordinary(param.beta03)
    &&& ordinary(param.kp) && ordinary(param.kd)
    &&& param.b0.zero() || ordinary_divisor(param.b0)
    &&& param.ts > b32(ZERO)
    &&& ordinary(state.v1) && ordinary(state.v2) && ordinary(state.output)
    &&& ordinary(state.z1) && ordinary(state.z2) && ordinary(state.z3)
    &&& ordinary(reference) && ordinary(feedback)
}

/// Traces of the smoothed reference and of the estimates.
proof fn lemma_traced_estimates(
    state: AdrcState,
    param: AdrcParam,
    reference: Binary32,
    feedback: Binary32,
) -> (r: (Traced, Traced, Traced, Traced, Traced))
    requires
        ordinary_adrc(state, param, reference, feedback),
    ensures
        ({
            let s = state.observed(param, reference, feedback);
            &&& r.0.number == s.v1 && r.0.holds() && r.0.fits && r.0.exponent == 42
            &&& r.1.number == s.v2 && r.1.holds() && r.1.fits && r.1.exponent == 66
            &&& r.2.number == s.z1 && r.2.holds() && r.2.fits && r.2.exponent == 65
            &&& r.3.number == s.z2 && r.3.holds() && r.3.fits && r.3.exponent == 66
            &&& r.4.number == s.z3 && r.4.holds() && r.4.fits && r.4.exponent == 64
            &&& r.0.steps == 2real && r.1.steps == 5real && r.2.steps == 5real
            &&& r.3.steps == 6real && r.4.steps == 4real
        }),
{
    lemma_inverse_powers();
    lemma_real_constant(b32(TWO), 0x80_0000, 22);
    let t = given(param.ts);
    let v1 = given(state.v1);
    let v2 = given(state.v2);
    let x = given(reference);
    let rate = given(param.td_r);
    let two = given_small(b32(TWO));
    let move1 = times(t, v2);
    let next1 = plus(v1, move1);
    let gap = minus(x, v1);
    let pull = times(rate, gap);
    let twice = times(two, rate);
    let brake = times(twice, v2);
    let acceleration = minus(pull, brake);
    let move2 = times(t, acceleration);
    let next2 = plus(v2, move2);
    let (z1, z2, z3) = lemma_traced_observer(state, param, reference, feedback);
    (next1, next2, z1, z2, z3)
}

proof fn lemma_traced_observer(
    state: AdrcState,
    param: AdrcParam,
    reference: Binary32,
    feedback: Binary32,
) -> (r: (Traced, Traced, Traced))
    requires
        ordinary_adrc(state, param, reference, feedback),
    ensures
        ({
            let s = state.observed(param, reference, feedback);
            &&& r.0.number == s.z1 && r.0.holds() && r.0.fits && r.0.exponent == 65
            &&& r.1.number == s.z2 && r.1.holds() && r.1.fits && r.1.exponent == 66
            &&& r.2.number == s.z3 && r.2.holds() && r.2.fits && r.2.exponent == 64
            &&& r.0.steps == 5real && r.1.steps == 6real && r.2.steps == 4real
        }),
{
    lemma_gain_is_ordinary(param);
    lemma_negative_real(param.beta03);
    negation_is_an_involution(param.beta03);
    let t = given(param.ts);
    let b1 = given(param.beta01);
    let b2 = given(param.beta02);
    let b3 = given(-param.beta03);
    let g = given(input_gain(param));
    let u = given(state.output);
    let z1 = given(state.z1);
    let z2 = given(state.z2);
    let z3 = given(state.z3);
    let y = given(feedback);
    let miss = minus(z1, y);
    let c1 = times(b1, miss);
    let rate1 = minus(z2, c1);
    let move1 = times(t, rate1);
    let next1 = plus(z1, move1);
    let c2 = times(b2, miss);
    let rest = minus(z3, c2);
    let drive = times(g, u);
    let rate2 = plus(rest, drive);
    let move2 = times(t, rate2);
    let next2 = plus(z2, move2);
    let rate3 = times(b3, miss);
    let move3 = times(t, rate3);
    let next3 = plus(z3, move3);
    (next1, next2, next3)
}

proof fn lemma_gain_is_ordinary(param: AdrcParam)
    requires
        param.b0.zero() || ordinary_divisor(param.b0),
    ensures
        ordinary_divisor(input_gain(param)),
        !input_gain(param).zero(),
{
    lemma2_to64();
    lemma_gain(param);
}

/// A step on ordinary numbers keeps estimates and effort finite, and the output too where
/// its limits are finite.
pub proof fn adrc_stays_finite(
    state: AdrcState,
    param: AdrcParam,
    reference: Binary32,
    feedback: Binary32,
)
    requires
        ordinary_adrc(state, param, reference, feedback),
        !param.out_min.nan(),
        !param.out_max.nan(),
    ensures
        ({
            let next = state.updated(param, reference, feedback);
            &&& next.v1.finite() && next.v2.finite()
            &&& next.z1.finite() && next.z2.finite() && next.z3.finite()
            &&& next.u0.finite()
            &&& !next.output.nan()
            &&& param.out_min.finite() && param.out_max.finite() ==> next.output.finite()
            &&& param.out_min == -b32(INFINITY) && param.out_max == b32(INFINITY)
                ==> next.output.finite()
        }),
{
    let next = state.updated(param, reference, feedback);
    let (v1, v2, z1, z2, z3) = lemma_traced_estimates(state, param, reference, feedback);
    lemma_gain_is_ordinary(param);
    let kp = given(param.kp);
    let kd = given(param.kd);
    let e1 = minus(v1, z1);
    let e2 = minus(v2, z2);
    let p = times(kp, e1);
    let q = times(kd, e2);
    let u0 = plus(p, q);
    let rest = minus(u0, z3);
    let out = over(rest, input_gain(param));
    assert(out.exponent == 111);
    assert(out.number.finite());
}

/// The gains that bandwidths lead to: all poles of the controller at the one bandwidth, all
/// poles of the observer at the other.
pub proof fn tuning_places_poles(param: AdrcTuningParam)
    requires
        param.control_bandwidth >= b32(ZERO),
        param.observer_bandwidth >= b32(ZERO),
    ensures
        ({
            let r = tuned(param);
            let c = real_of(param.control_bandwidth);
            let o = real_of(param.observer_bandwidth);
            let sc = size_of_real(c);
            let so = size_of_real(o);
            &&& r.kp.finite() ==> off_by(r.kp, c * c, sc * sc + tiny(), 1real)
            &&& r.kd.finite() ==> off_by(r.kd, 2real * c, 2real * sc + tiny(), 1real)
            &&& r.beta01.finite() ==> off_by(r.beta01, 3real * o, 3real * so + tiny(), 1real)
            &&& r.beta02.finite() ==> off_by(
                r.beta02,
                (3real * o) * o,
                (3real * so + tiny()) * so + tiny(),
                2real,
            )
            &&& r.beta03.finite() ==> off_by(
                r.beta03,
                (o * o) * o,
                (so * so + tiny()) * so + tiny(),
                2real,
            )
            &&& r.ts == param.ts && r.td_r == param.td_r && r.b0 == param.b0
            &&& r.out_min == param.out_min && r.out_max == param.out_max
        }),
{
    let wc = bandwidth(param.control_bandwidth);
    let wo = bandwidth(param.observer_bandwidth);
    lemma_small_constants();
    lemma_bandwidth_real(param.control_bandwidth);
    lemma_bandwidth_real(param.observer_bandwidth);
    let two = given(b32(TWO));
    let three = given(b32(THREE));
    let c = given(wc);
    let o = given(wo);
    let kp = times(c, c);
    let kd = times(two, c);
    let b1 = times(three, o);
    let b2 = times(b1, o);
    let square = times(o, o);
    let b3 = times(square, o);
    assert(kp.steps == 1real && kd.steps == 1real && b1.steps == 1real);
    assert(b2.steps == 2real && b3.steps == 2real);
}

/// A bandwidth that is not negative stands for itself.
proof fn lemma_bandwidth_real(w: Binary32)
    requires
        w >= b32(ZERO),
    ensures
        real_of(bandwidth(w)) == real_of(w),
{
    if w.zero() {
        lemma_zero_real(w);
        lemma_zero_real(bandwidth(w));
    }
}

/// The time-optimal differentiator looks ahead by its time scale. Within its reach it steers
/// by the distance ahead and by the derivative together; beyond, by the derivative and the
/// curve on which full acceleration stops in time.
pub proof fn fast_differentiator_steers_by_distance(
    state: AdrcFastTdState,
    param: AdrcFastTdParam,
    reference: Binary32,
)
    requires
        state.distance(param, reference).finite(),
        param.reach().finite(),
        param.reach() > b32(ZERO),
    ensures
        ({
            let d = param.reach();
            let a0 = param.h0 * state.v2;
            let y = state.v1 - reference + a0;
            let square = d * (d + b32(EIGHT) * y.size());
            let a1 = sqrt_of(square);
            let sign = plain_sign(y);
            let curve = a0 + sign * (a1 - d) * b32(HALF);
            let a = state.distance(param, reference);
            let sa = size_of_real(real_of(a0));
            let sy = size_of_real(real_of(y));
            let sc = size_of_real(real_of(curve));
            &&& is_product_of_three(d, param.r, param.h0, param.h0)
            &&& a0.finite() ==> is_amplified(a0, param.h0, state.v2)
            &&& y.finite() ==> is_ahead(y, state.v1, reference, a0)
            &&& square.finite() ==> is_reach_square(square, d, y.size())
            &&& curve.finite() ==> is_stopping_curve(curve, a0, sign, a1, d)
            &&& y.finite() && y.size() > d ==> a.same(curve)
            &&& y.finite() && y.size() < d ==> off_by(
                a,
                real_of(a0) + real_of(y),
                ((sa + sy + sc) + tiny()) + sc,
                4real,
            )
        }),
{
    let d = param.reach();
    let a0 = param.h0 * state.v2;
    let y = state.v1 - reference + a0;
    let square = d * (d + b32(EIGHT) * y.size());
    let a1 = sqrt_of(square);
    let sign = plain_sign(y);
    let curve = a0 + sign * (a1 - d) * b32(HALF);
    let a = state.distance(param, reference);
    let rest = a0 + y - curve;
    lemma_is_product_of_three(param.r, param.h0, param.h0);
    products_are_rounded(param.h0, state.v2);
    lemma_is_ahead(state.v1, reference, a0);
    lemma_is_reach_square(d, y.size());
    lemma_is_stopping_curve(a0, sign, a1, d);
    assert(a == rest * inside(y, d) + curve);
    if y.finite() {
        lemma_inside(y, d);
        if y.size() > d {
            lemma_beyond_reach(rest, inside(y, d), curve);
        }
        if y.size() < d {
            lemma_within_reach(a0, y, curve);
        }
    }
}

/// Beyond the reach only the curve counts.
proof fn lemma_beyond_reach(rest: Binary32, zero: Binary32, curve: Binary32)
    requires
        zero.zero(),
        (rest * zero + curve).finite(),
    ensures
        (rest * zero + curve).same(curve),
{
    assert((rest * zero).finite() && curve.finite()) by {
        reveal(Binary32::spec_add);
    }
    assert(rest.finite()) by {
        reveal(Binary32::spec_mul);
    }
    product_with_zero_is_zero(rest, zero);
    zero_is_neutral(curve, rest * zero);
    addition_is_commutative(curve, rest * zero);
}

/// Within the reach the curve cancels.
proof fn lemma_within_reach(a0: Binary32, y: Binary32, curve: Binary32)
    requires
        ((a0 + y - curve) * b32(ONE) + curve).finite(),
    ensures
        off_by(
            (a0 + y - curve) * b32(ONE) + curve,
            real_of(a0) + real_of(y),
            ((size_of_real(real_of(a0)) + size_of_real(real_of(y)) + size_of_real(real_of(curve)))
                + tiny()) + size_of_real(real_of(curve)),
            4real,
        ),
{
    lemma_small_constants();
    let ta = given(a0);
    let ty = given(y);
    let tc = given(curve);
    let one = given(b32(ONE));
    let first = plus(ta, ty);
    let second = minus(first, tc);
    let third = times(second, one);
    let all = plus(third, tc);
    assert(all.steps == 4real);
    let w = second.weight;
    let e = second.exact;
    assert(w * 1real == w && e * 1real == e) by (nonlinear_arith);
}

/// Within the reach the acceleration is the part of the full one that the distance is of the
/// reach, against the distance.
pub proof fn acceleration_is_proportional_within_reach(a: Binary32, d: Binary32, r: Binary32)
    requires
        a.finite(),
        d.finite(),
        d > b32(ZERO),
        a.size() < d,
        bounded_acceleration(a, d, r).finite(),
    ensures
        ({
            let ra = real_of(a);
            let rd = real_of(d);
            let rr = real_of(r);
            let sr = size_of_real(rr);
            off_by(
                bounded_acceleration(a, d, r),
                -(rr * (ra / rd)),
                (sr * ((size_of_real(ra) / size_of_real(rd) + tiny()) + 1real) + tiny()) + tiny()
                    + (sr + tiny()),
                5real,
            )
        }),
{
    let sign = sign_of(a);
    let ra = real_of(a);
    let rd = real_of(d);
    let rr = real_of(r);
    lemma_small_constants();
    lemma_zero_real(b32(ZERO));
    lemma_zero_real(d);
    lemma_inside(a, d);
    lemma_negative_real(r);
    let ta = given(a);
    let ts = given(sign);
    let tr = given(r);
    let minus_r = given(-r);
    let one = given(b32(ONE));
    let q = over(ta, d);
    let gap = minus(q, ts);
    let pull = times(minus_r, gap);
    let kept = times(pull, one);
    let full = times(tr, ts);
    let all = minus(kept, full);
    assert(all.steps == 5real);
    let x = ra / rd;
    let s = real_of(sign);
    let sr = size_of_real(rr);
    let w = size_of_real(ra) / size_of_real(rd) + tiny();
    let ss = size_of_real(s);
    let wide = (sr * (w + 1real) + tiny()) + tiny() + (sr + tiny());
    lemma_opposed(rr, x, s);
    lemma_opposed_weight(sr, w, ss);
    assert(all.exact == -(rr * x));
    assert(all.weight <= wide);
    lemma_off_by_more(all.number, all.exact, all.weight, wide, 5real);
}

/// The sign of the distance cancels.
proof fn lemma_opposed(r: real, x: real, s: real)
    ensures
        ((-r) * (x - s)) * 1real - r * s == -(r * x),
{
    assert(((-r) * (x - s)) * 1real - r * s == -(r * x)) by (nonlinear_arith);
}

/// A sign is at most one in size.
proof fn lemma_opposed_weight(r: real, w: real, s: real)
    requires
        0real <= r,
        0real <= s <= 1real,
    ensures
        (r * (w + s) + tiny()) * 1real + tiny() + (r * s + tiny()) <= (r * (w + 1real) + tiny())
            + tiny() + (r + tiny()),
{
    lemma_scaled(w + s, w + 1real, r);
    lemma_scaled(s, 1real, r);
    assert((w + s) * r == r * (w + s) && (w + 1real) * r == r * (w + 1real) && s * r == r * s
        && 1real * r == r) by (nonlinear_arith);
    let p = r * (w + s) + tiny();
    assert(p * 1real == p) by (nonlinear_arith);
}

} // verus!
