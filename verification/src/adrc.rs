//! Active disturbance rejection: a tracking differentiator smooths the reference, an
//! extended state observer estimates the plant and its disturbance, and the controller
//! compensates the disturbance.
use core::ops::Neg;
use vstd::prelude::*;
use crate::arithmetic::addition_is_commutative;
use crate::arithmetic::addition_keeps_order;
use crate::arithmetic::difference_with_itself_is_zero;
use crate::arithmetic::fraction_lies_between_zero_and_whole;
use crate::arithmetic::lemma_mul_kind;
use crate::arithmetic::lemma_power_mag;
use crate::arithmetic::lemma_rounded_mag_exact;
use crate::arithmetic::lemma_rounded_mag_order;
use crate::arithmetic::lemma_rounded_sum_exact;
use crate::arithmetic::lemma_rounded_sum_order;
use crate::arithmetic::lemma_sum_kind;
use crate::arithmetic::multiplication_is_commutative;
use crate::arithmetic::negation_of_dividend_negates_quotient;
use crate::arithmetic::negation_of_factor_negates_product;
use crate::arithmetic::one_is_neutral;
use crate::arithmetic::product_follows_signs;
use crate::arithmetic::product_with_zero_is_zero;
use crate::arithmetic::quotient_by_larger_is_fraction;
use crate::arithmetic::quotient_by_one_is_dividend;
use crate::arithmetic::quotient_by_smaller_is_at_least_one;
use crate::arithmetic::quotient_of_zero_is_zero;
use crate::arithmetic::sum_of_zeros_is_zero;
use crate::arithmetic::zero_is_neutral;
use crate::binary32::b32;
use crate::binary32::Binary32;
use crate::binary32::HALF;
use crate::binary32::MINUS_ONE;
use crate::binary32::ONE;
use crate::binary32::THREE;
use crate::binary32::TWO;
use crate::binary32::ZERO;
use crate::exact::usable;
use crate::math::clamp;
use crate::math::clamped;
use crate::math::limited;
use crate::math::sign;
use crate::math::sign_of;
use crate::nearest::lemma_mag_units_order;
use crate::nearest::rounding_is_exact;
use crate::square_root::sqrt_of;
use crate::square_root::square_root_is_finite;
use vstd::arithmetic::power2::lemma_pow2_pos;
use vstd::arithmetic::power2::lemma_pow2_unfold;
use vstd::arithmetic::power2::pow2;

verus! {

/// Encoding of `8.0`.
pub const EIGHT: u32 = 0x4100_0000;

/// Encoding of `1.0e-6`.
pub const MIN_DELTA: u32 = 0x3586_37bd;

/// Parameters of the controller.
#[derive(Clone, Copy, Debug, Default, PartialEq)]
pub struct AdrcParam {
    /// Sample period in seconds.
    pub ts: Binary32,
    /// Rate of the tracking differentiator.
    pub td_r: Binary32,
    pub beta01: Binary32,
    pub beta02: Binary32,
    pub beta03: Binary32,
    pub kp: Binary32,
    pub kd: Binary32,
    /// Gain from the output to the second derivative of the plant; zero stands for one.
    pub b0: Binary32,
    pub out_min: Binary32,
    pub out_max: Binary32,
}

/// Smoothed reference, estimated plant and last output.
#[derive(Clone, Copy, Debug, PartialEq)]
pub struct AdrcState {
    /// Smoothed reference.
    pub v1: Binary32,
    /// Its derivative.
    pub v2: Binary32,
    /// Estimated plant output.
    pub z1: Binary32,
    /// Its derivative.
    pub z2: Binary32,
    /// Estimated disturbance.
    pub z3: Binary32,
    /// Smoothed reference less estimated plant output.
    pub error: Binary32,
    /// Control effort before the disturbance is compensated.
    pub u0: Binary32,
    /// Last limited output.
    pub output: Binary32,
}

impl AdrcState {
    /// The state before the first step.
    pub open spec fn initial() -> AdrcState {
        AdrcState {
            v1: b32(ZERO),
            v2: b32(ZERO),
            z1: b32(ZERO),
            z2: b32(ZERO),
            z3: b32(ZERO),
            error: b32(ZERO),
            u0: b32(ZERO),
            output: b32(ZERO),
        }
    }

    /// Returns to the state before the first step.
    pub fn reset(&mut self)
        ensures
            *final(self) == AdrcState::initial(),
    {
        *self = AdrcState::default();
    }
}

impl Default for AdrcState {
    fn default() -> (r: AdrcState)
        ensures
            r == AdrcState::initial(),
    {
        AdrcState {
            v1: b32(ZERO),
            v2: b32(ZERO),
            z1: b32(ZERO),
            z2: b32(ZERO),
            z3: b32(ZERO),
            error: b32(ZERO),
            u0: b32(ZERO),
            output: b32(ZERO),
        }
    }
}

/// The input gain in effect.
pub open spec fn input_gain(param: AdrcParam) -> Binary32 {
    if param.b0.zero() {
        b32(ONE)
    } else {
        param.b0
    }
}

impl AdrcState {
    /// The smoothed reference and the estimates after a step.
    pub open spec fn observed(
        self,
        param: AdrcParam,
        reference: Binary32,
        feedback: Binary32,
    ) -> AdrcState {
        let miss = self.z1 - feedback;
        AdrcState {
            v1: self.v1 + param.ts * self.v2,
            v2: self.v2 + param.ts * (param.td_r * (reference - self.v1) - b32(TWO) * param.td_r
                * self.v2),
            z1: self.z1 + param.ts * (self.z2 - param.beta01 * miss),
            z2: self.z2 + param.ts * (self.z3 - param.beta02 * miss + input_gain(param)
                * self.output),
            z3: self.z3 + param.ts * (-param.beta03 * miss),
            ..self
        }
    }

    /// The state with the output for a control effort, compensated and limited.
    pub open spec fn compensated(self, param: AdrcParam, u0: Binary32) -> AdrcState {
        AdrcState {
            error: self.v1 - self.z1,
            u0,
            output: clamped(
                (u0 - self.z3) / input_gain(param),
                param.out_min,
                param.out_max,
            ),
            ..self
        }
    }

    /// The state after a step; a period that is zero or negative changes nothing.
    pub open spec fn updated(
        self,
        param: AdrcParam,
        reference: Binary32,
        feedback: Binary32,
    ) -> AdrcState {
        let s = self.observed(param, reference, feedback);
        if param.ts <= b32(ZERO) {
            self
        } else {
            s.compensated(param, param.kp * (s.v1 - s.z1) + param.kd * (s.v2 - s.z2))
        }
    }

    fn observe(
        &mut self,
        param: &AdrcParam,
        b0: Binary32,
        reference: Binary32,
        feedback: Binary32,
    )
        requires
            b0 == input_gain(*param),
        ensures
            *final(self) == old(self).observed(*param, reference, feedback),
    {
        let td_acc: Binary32 = param.td_r * (reference - self.v1) - b32(TWO) * param.td_r * self.v2;
        self.v1 = self.v1 + param.ts * self.v2;
        self.v2 = self.v2 + param.ts * td_acc;
        let eso_error: Binary32 = self.z1 - feedback;
        let z1_dot: Binary32 = self.z2 - param.beta01 * eso_error;
        let z2_dot: Binary32 = self.z3 - param.beta02 * eso_error + b0 * self.output;
        let z3_dot: Binary32 = param.beta03.neg() * eso_error;
        self.z1 = self.z1 + param.ts * z1_dot;
        self.z2 = self.z2 + param.ts * z2_dot;
        self.z3 = self.z3 + param.ts * z3_dot;
    }

    /// Makes one step and returns the limited output, or 0 where the period is not valid.
    pub fn update(
        &mut self,
        param: &AdrcParam,
        reference: Binary32,
        feedback: Binary32,
    ) -> (r: Binary32)
        ensures
            *final(self) == old(self).updated(*param, reference, feedback),
            r == (if param.ts <= b32(ZERO) {
                b32(ZERO)
            } else {
                final(self).output
            }),
    {
        if param.ts <= b32(ZERO) {
            return b32(ZERO);
        }
        let b0: Binary32 = if param.b0 == b32(ZERO) {
            b32(ONE)
        } else {
            param.b0
        };
        self.observe(param, b0, reference, feedback);
        self.error = self.v1 - self.z1;
        self.u0 = param.kp * (self.v1 - self.z1) + param.kd * (self.v2 - self.z2);
        self.output = clamp((self.u0 - self.z3) / b0, param.out_min, param.out_max);
        self.output
    }
}

/// Shape of the nonlinear error function.
#[derive(Clone, Copy, Debug, Default, PartialEq)]
pub struct AdrcFalParam {
    /// Exponent, from 0 to 1.
    pub alpha: Binary32,
    /// Half width of the linear region.
    pub delta: Binary32,
}

impl AdrcFalParam {
    /// The exponent in effect.
    pub open spec fn exponent(self) -> Binary32 {
        clamped(self.alpha, b32(ZERO), b32(ONE))
    }

    /// The half width in effect.
    pub open spec fn width(self) -> Binary32 {
        if self.delta <= b32(ZERO) {
            b32(MIN_DELTA)
        } else {
            self.delta
        }
    }
}

/// Whether an error lies in the linear region.
pub open spec fn fal_is_linear(error: Binary32, param: AdrcFalParam) -> bool {
    error.size() <= param.width()
}

/// Base and exponent of the power on which the error function rests.
pub open spec fn fal_power_arguments(error: Binary32, param: AdrcFalParam) -> (Binary32, Binary32) {
    if fal_is_linear(error, param) {
        (param.width(), b32(ONE) - param.exponent())
    } else {
        (error.size(), param.exponent())
    }
}

/// The error function for a given value of its power: the error over the power in the
/// linear region, the power with the sign of the error outside.
pub open spec fn fal_of(error: Binary32, param: AdrcFalParam, power: Binary32) -> Binary32 {
    if fal_is_linear(error, param) {
        error / power
    } else {
        power * sign_of(error)
    }
}

/// Base and exponent of the power that the error function needs.
pub fn adrc_fal_arguments(error: Binary32, param: &AdrcFalParam) -> (r: (Binary32, Binary32))
    ensures
        r == fal_power_arguments(error, *param),
{
    let alpha: Binary32 = clamp(param.alpha, b32(ZERO), b32(ONE));
    let delta: Binary32 = if param.delta <= b32(ZERO) {
        b32(MIN_DELTA)
    } else {
        param.delta
    };
    let abs_error: Binary32 = error.abs();
    if abs_error <= delta {
        (delta, b32(ONE) - alpha)
    } else {
        (abs_error, alpha)
    }
}

/// The error function from the power that it needs.
pub fn adrc_fal_from_power(error: Binary32, param: &AdrcFalParam, power: Binary32) -> (r: Binary32)
    ensures
        r == fal_of(error, *param, power),
{
    let delta: Binary32 = if param.delta <= b32(ZERO) {
        b32(MIN_DELTA)
    } else {
        param.delta
    };
    if error.abs() <= delta {
        error / power
    } else {
        power * sign(error)
    }
}

/// The nonlinear error function: linear for small errors, a power for large ones.
pub fn adrc_fal<P: Fn(Binary32, Binary32) -> Binary32>(
    error: Binary32,
    param: &AdrcFalParam,
    powf: &P,
) -> (r: Binary32)
    requires
        powf.requires(fal_power_arguments(error, *param)),
    ensures
        exists|p: Binary32|
            powf.ensures(fal_power_arguments(error, *param), p) && r == fal_of(error, *param, p),
{
    let (base, exponent) = adrc_fal_arguments(error, param);
    let p: Binary32 = powf(base, exponent);
    adrc_fal_from_power(error, param, p)
}

/// Parameters of the fast tracking differentiator.
#[derive(Clone, Copy, Debug, Default, PartialEq)]
pub struct AdrcFastTdParam {
    /// Sample period in seconds.
    pub ts: Binary32,
    /// Largest acceleration.
    pub r: Binary32,
    /// Time scale of the switching law.
    pub h0: Binary32,
}

/// Reference followed in the shortest time that the acceleration allows.
#[derive(Clone, Copy, Debug, PartialEq)]
pub struct AdrcFastTdState {
    /// Smoothed reference.
    pub v1: Binary32,
    /// Its derivative.
    pub v2: Binary32,
    /// Last acceleration.
    pub fh: Binary32,
}

impl AdrcFastTdState {
    /// At rest at zero.
    pub open spec fn initial() -> AdrcFastTdState {
        AdrcFastTdState {
            v1: b32(ZERO),
            v2: b32(ZERO),
            fh: b32(ZERO),
        }
    }
}

impl Default for AdrcFastTdState {
    fn default() -> (r: AdrcFastTdState)
        ensures
            r == AdrcFastTdState::initial(),
    {
        AdrcFastTdState {
            v1: b32(ZERO),
            v2: b32(ZERO),
            fh: b32(ZERO),
        }
    }
}

/// Half the difference of the signs of `a + d` and `a - d`: one where `a` is smaller than
/// `d`, zero where it is larger.
pub open spec fn inside(a: Binary32, d: Binary32) -> Binary32 {
    (sign_of(a + d) - sign_of(a - d)) * b32(HALF)
}

fn inside_selector(a: Binary32, d: Binary32) -> (r: Binary32)
    ensures
        r == inside(a, d),
{
    (sign(a + d) - sign(a - d)) * b32(HALF)
}

/// Full acceleration `r` against a distance of `d` or more, and a proportional part of it
/// against smaller ones.
pub open spec fn bounded_acceleration(a: Binary32, d: Binary32, r: Binary32) -> Binary32 {
    -r * (a / d - sign_of(a)) * inside(a, d) - r * sign_of(a)
}

impl AdrcFastTdParam {
    /// Whether all parameters are usable; one that is zero or negative is not.
    pub open spec fn usable(self) -> bool {
        !(self.ts <= b32(ZERO)) && !(self.r <= b32(ZERO)) && !(self.h0 <= b32(ZERO))
    }

    /// The largest distance that can be covered within the time scale `h0`.
    pub open spec fn reach(self) -> Binary32 {
        self.r * self.h0 * self.h0
    }
}

impl AdrcFastTdState {
    /// The state at rest at a reference.
    pub open spec fn started(reference: Binary32) -> AdrcFastTdState {
        AdrcFastTdState { v1: reference, v2: b32(ZERO), fh: b32(ZERO) }
    }

    /// The distance to the switching curve of the time-optimal control.
    pub open spec fn distance(self, param: AdrcFastTdParam, reference: Binary32) -> Binary32 {
        let d = param.reach();
        let a0 = param.h0 * self.v2;
        let y = self.v1 - reference + a0;
        let a1 = sqrt_of(d * (d + b32(EIGHT) * y.size()));
        let a2 = a0 + sign_of(y) * (a1 - d) * b32(HALF);
        (a0 + y - a2) * inside(y, d) + a2
    }

    /// The time-optimal acceleration towards the reference.
    pub open spec fn acceleration(self, param: AdrcFastTdParam, reference: Binary32) -> Binary32 {
        bounded_acceleration(self.distance(param, reference), param.reach(), param.r)
    }

    /// The state after a step; parameters that are not usable change nothing.
    pub open spec fn updated(self, param: AdrcFastTdParam, reference: Binary32) -> AdrcFastTdState {
        let fh = self.acceleration(param, reference);
        if param.usable() {
            AdrcFastTdState {
                v1: self.v1 + param.ts * self.v2,
                v2: self.v2 + param.ts * fh,
                fh,
            }
        } else {
            self
        }
    }

    /// A differentiator at rest at a reference.
    pub fn new(initial_ref: Binary32) -> (r: AdrcFastTdState)
        ensures
            r == AdrcFastTdState::started(initial_ref),
    {
        AdrcFastTdState { v1: initial_ref, v2: b32(ZERO), fh: b32(ZERO) }
    }

    /// Starts again, at rest at a reference.
    pub fn reset(&mut self, reference: Binary32)
        ensures
            *final(self) == AdrcFastTdState::started(reference),
    {
        *self = AdrcFastTdState::new(reference);
    }

    /// Makes one step and returns the smoothed reference, or 0 where a parameter is not
    /// usable.
    pub fn update(&mut self, param: &AdrcFastTdParam, reference: Binary32) -> (r: Binary32)
        ensures
            *final(self) == old(self).updated(*param, reference),
            r == (if param.usable() {
                final(self).v1
            } else {
                b32(ZERO)
            }),
    {
        if param.ts <= b32(ZERO) || param.r <= b32(ZERO) || param.h0 <= b32(ZERO) {
            return b32(ZERO);
        }
        let d: Binary32 = param.r * param.h0 * param.h0;
        let a0: Binary32 = param.h0 * self.v2;
        let y: Binary32 = self.v1 - reference + a0;
        let a1: Binary32 = (d * (d + b32(EIGHT) * y.abs())).sqrt();
        let a2: Binary32 = a0 + sign(y) * (a1 - d) * b32(HALF);
        let sy: Binary32 = inside_selector(y, d);
        let a: Binary32 = (a0 + y - a2) * sy + a2;
        let sa: Binary32 = inside_selector(a, d);
        self.fh = param.r.neg() * (a / d - sign(a)) * sa - param.r * sign(a);
        self.v1 = self.v1 + param.ts * self.v2;
        self.v2 = self.v2 + param.ts * self.fh;
        self.v1
    }
}

/// Parameters of the controller with nonlinear error feedback.
#[derive(Clone, Copy, Debug, Default, PartialEq)]
pub struct AdrcNonlinearParam {
    pub base: AdrcParam,
    /// Error function of the tracking error.
    pub e1_fal: AdrcFalParam,
    /// Error function of its derivative.
    pub e2_fal: AdrcFalParam,
}

impl AdrcState {
    /// The tracking error after the estimates were updated.
    pub open spec fn first_error(
        self,
        param: AdrcNonlinearParam,
        reference: Binary32,
        feedback: Binary32,
    ) -> Binary32 {
        let s = self.observed(param.base, reference, feedback);
        s.v1 - s.z1
    }

    /// The derivative of the tracking error after the estimates were updated.
    pub open spec fn second_error(
        self,
        param: AdrcNonlinearParam,
        reference: Binary32,
        feedback: Binary32,
    ) -> Binary32 {
        let s = self.observed(param.base, reference, feedback);
        s.v2 - s.z2
    }

    /// The state after a step with nonlinear error feedback, for given powers of the two
    /// error functions; a period that is zero or negative changes nothing.
    pub open spec fn updated_nonlinear(
        self,
        param: AdrcNonlinearParam,
        reference: Binary32,
        feedback: Binary32,
        power1: Binary32,
        power2: Binary32,
    ) -> AdrcState {
        let e1 = self.first_error(param, reference, feedback);
        let e2 = self.second_error(param, reference, feedback);
        let u0 = param.base.kp * fal_of(e1, param.e1_fal, power1) + param.base.kd * fal_of(
            e2,
            param.e2_fal,
            power2,
        );
        if param.base.ts <= b32(ZERO) {
            self
        } else {
            self.observed(param.base, reference, feedback).compensated(param.base, u0)
        }
    }

    /// Base and exponent of the powers that a step with nonlinear error feedback needs.
    pub fn nonlinear_arguments(
        &self,
        param: &AdrcNonlinearParam,
        reference: Binary32,
        feedback: Binary32,
    ) -> (r: ((Binary32, Binary32), (Binary32, Binary32)))
        ensures
            r.0 == fal_power_arguments(
                self.first_error(*param, reference, feedback),
                param.e1_fal,
            ),
            r.1 == fal_power_arguments(
                self.second_error(*param, reference, feedback),
                param.e2_fal,
            ),
    {
        let b0: Binary32 = if param.base.b0 == b32(ZERO) {
            b32(ONE)
        } else {
            param.base.b0
        };
        let mut next: AdrcState = *self;
        next.observe(&param.base, b0, reference, feedback);
        (
            adrc_fal_arguments(next.v1 - next.z1, &param.e1_fal),
            adrc_fal_arguments(next.v2 - next.z2, &param.e2_fal),
        )
    }

    /// Makes one step with nonlinear error feedback from the powers of its error functions.
    pub fn update_nonlinear_from_powers(
        &mut self,
        param: &AdrcNonlinearParam,
        reference: Binary32,
        feedback: Binary32,
        power1: Binary32,
        power2: Binary32,
    ) -> (r: Binary32)
        ensures
            *final(self) == old(self).updated_nonlinear(
                *param,
                reference,
                feedback,
                power1,
                power2,
            ),
            r == (if param.base.ts <= b32(ZERO) {
                b32(ZERO)
            } else {
                final(self).output
            }),
    {
        let base: &AdrcParam = &param.base;
        if base.ts <= b32(ZERO) {
            return b32(ZERO);
        }
        let b0: Binary32 = if base.b0 == b32(ZERO) {
            b32(ONE)
        } else {
            base.b0
        };
        self.observe(base, b0, reference, feedback);
        let e1: Binary32 = self.v1 - self.z1;
        let e2: Binary32 = self.v2 - self.z2;
        self.error = e1;
        self.u0 = base.kp * adrc_fal_from_power(e1, &param.e1_fal, power1) + base.kd
            * adrc_fal_from_power(e2, &param.e2_fal, power2);
        self.output = clamp((self.u0 - self.z3) / b0, base.out_min, base.out_max);
        self.output
    }

    /// Makes one step with nonlinear error feedback and returns the limited output, or 0
    /// where the period is not valid.
    pub fn update_nonlinear<P: Fn(Binary32, Binary32) -> Binary32>(
        &mut self,
        param: &AdrcNonlinearParam,
        reference: Binary32,
        feedback: Binary32,
        powf: &P,
    ) -> (r: Binary32)
        requires
            powf.requires(
                fal_power_arguments(
                    old(self).first_error(*param, reference, feedback),
                    param.e1_fal,
                ),
            ),
            powf.requires(
                fal_power_arguments(
                    old(self).second_error(*param, reference, feedback),
                    param.e2_fal,
                ),
            ),
        ensures
            param.base.ts <= b32(ZERO) ==> *final(self) == *old(self) && r == b32(ZERO),
            !(param.base.ts <= b32(ZERO)) ==> r == final(self).output && exists|
                p1: Binary32,
                p2: Binary32,
            |
                powf.ensures(
                    fal_power_arguments(
                        old(self).first_error(*param, reference, feedback),
                        param.e1_fal,
                    ),
                    p1,
                ) && powf.ensures(
                    fal_power_arguments(
                        old(self).second_error(*param, reference, feedback),
                        param.e2_fal,
                    ),
                    p2,
                ) && *final(self) == old(self).updated_nonlinear(
                    *param,
                    reference,
                    feedback,
                    p1,
                    p2,
                ),
    {
        if param.base.ts <= b32(ZERO) {
            return b32(ZERO);
        }
        let (first, second) = self.nonlinear_arguments(param, reference, feedback);
        let p1: Binary32 = powf(first.0, first.1);
        let p2: Binary32 = powf(second.0, second.1);
        self.update_nonlinear_from_powers(param, reference, feedback, p1, p2)
    }
}

/// Bandwidths from which the gains follow, and what is passed on.
#[derive(Clone, Copy, Debug, Default, PartialEq)]
pub struct AdrcTuningParam {
    pub ts: Binary32,
    pub control_bandwidth: Binary32,
    pub observer_bandwidth: Binary32,
    pub b0: Binary32,
    pub td_r: Binary32,
    pub out_min: Binary32,
    pub out_max: Binary32,
}

/// A bandwidth, zero for one that is negative or a NaN.
pub open spec fn bandwidth(w: Binary32) -> Binary32 {
    w.larger(b32(ZERO))
}

/// The gains that place all poles of the controller at the one bandwidth and all poles of
/// the observer at the other.
pub open spec fn tuned(param: AdrcTuningParam) -> AdrcParam {
    let wc = bandwidth(param.control_bandwidth);
    let wo = bandwidth(param.observer_bandwidth);
    AdrcParam {
        ts: param.ts,
        td_r: param.td_r,
        beta01: b32(THREE) * wo,
        beta02: b32(THREE) * wo * wo,
        beta03: wo * wo * wo,
        kp: wc * wc,
        kd: b32(TWO) * wc,
        b0: param.b0,
        out_min: param.out_min,
        out_max: param.out_max,
    }
}

/// Parameters of the controller for a control and an observer bandwidth.
pub fn tune_adrc_bandwidth(param: &AdrcTuningParam) -> (r: AdrcParam)
    ensures
        r == tuned(*param),
{
    let wc: Binary32 = param.control_bandwidth.max(b32(ZERO));
    let wo: Binary32 = param.observer_bandwidth.max(b32(ZERO));
    AdrcParam {
        ts: param.ts,
        td_r: param.td_r,
        beta01: b32(THREE) * wo,
        beta02: b32(THREE) * wo * wo,
        beta03: wo * wo * wo,
        kp: wc * wc,
        kd: b32(TWO) * wc,
        b0: param.b0,
        out_min: param.out_min,
        out_max: param.out_max,
    }
}

/// A step keeps the output limits.
pub proof fn adrc_output_is_limited(
    state: AdrcState,
    param: AdrcParam,
    reference: Binary32,
    feedback: Binary32,
)
    requires
        !param.out_min.nan(),
        !param.out_max.nan(),
        limited(state.output, param.out_min, param.out_max),
    ensures
        limited(
            state.updated(param, reference, feedback).output,
            param.out_min,
            param.out_max,
        ),
{
}

/// A step with nonlinear error feedback keeps the output limits, whatever the powers.
pub proof fn adrc_nonlinear_output_is_limited(
    state: AdrcState,
    param: AdrcNonlinearParam,
    reference: Binary32,
    feedback: Binary32,
    power1: Binary32,
    power2: Binary32,
)
    requires
        !param.base.out_min.nan(),
        !param.base.out_max.nan(),
        limited(state.output, param.base.out_min, param.base.out_max),
    ensures
        limited(
            state.updated_nonlinear(param, reference, feedback, power1, power2).output,
            param.base.out_min,
            param.base.out_max,
        ),
{
}

/// Both controllers smooth the reference and estimate the plant in the same way.
pub proof fn adrc_variants_share_observer(
    state: AdrcState,
    param: AdrcNonlinearParam,
    reference: Binary32,
    feedback: Binary32,
    power1: Binary32,
    power2: Binary32,
)
    ensures
        ({
            let linear = state.updated(param.base, reference, feedback);
            let nonlinear = state.updated_nonlinear(param, reference, feedback, power1, power2);
            &&& linear.v1 == nonlinear.v1
            &&& linear.v2 == nonlinear.v2
            &&& linear.z1 == nonlinear.z1
            &&& linear.z2 == nonlinear.z2
            &&& linear.z3 == nonlinear.z3
            &&& linear.error == nonlinear.error
        }),
{
}

/// Whether a power is what its exponent asks for where that is zero or one: one, or the
/// base itself.
pub open spec fn is_plain_power(arguments: (Binary32, Binary32), power: Binary32) -> bool {
    &&& arguments.1.zero() ==> power == b32(ONE)
    &&& arguments.1 == b32(ONE) ==> power == arguments.0
}

/// With the exponent one the error function is the error itself, bit for bit.
pub proof fn fal_with_exponent_one_is_linear(error: Binary32, param: AdrcFalParam, power: Binary32)
    requires
        !error.nan(),
        param.exponent() == b32(ONE),
        !param.delta.nan(),
        is_plain_power(fal_power_arguments(error, param), power),
    ensures
        fal_of(error, param, power) == error,
{
    let one = b32(ONE);
    difference_with_itself_is_zero(one);
    one_is_neutral(error);
    one_is_neutral(error.size());
    if fal_is_linear(error, param) {
        quotient_by_one_is_dividend(error);
    } else if error < b32(ZERO) {
        assert(-one == b32(MINUS_ONE));
        lemma_mul_kind(error.size(), one);
        negation_of_factor_negates_product(error.size(), one);
    }
}

/// With both exponents one, the nonlinear controller is the linear one, bit for bit.
pub proof fn adrc_with_exponents_one_is_linear(
    state: AdrcState,
    param: AdrcNonlinearParam,
    reference: Binary32,
    feedback: Binary32,
    power1: Binary32,
    power2: Binary32,
)
    requires
        param.e1_fal.exponent() == b32(ONE),
        param.e2_fal.exponent() == b32(ONE),
        !param.e1_fal.delta.nan(),
        !param.e2_fal.delta.nan(),
        !state.first_error(param, reference, feedback).nan(),
        !state.second_error(param, reference, feedback).nan(),
        is_plain_power(
            fal_power_arguments(state.first_error(param, reference, feedback), param.e1_fal),
            power1,
        ),
        is_plain_power(
            fal_power_arguments(state.second_error(param, reference, feedback), param.e2_fal),
            power2,
        ),
    ensures
        state.updated_nonlinear(param, reference, feedback, power1, power2) == state.updated(
            param.base,
            reference,
            feedback,
        ),
{
    fal_with_exponent_one_is_linear(
        state.first_error(param, reference, feedback),
        param.e1_fal,
        power1,
    );
    fal_with_exponent_one_is_linear(
        state.second_error(param, reference, feedback),
        param.e2_fal,
        power2,
    );
}

/// The error function needs the same power for opposite errors and gives opposite values.
pub proof fn fal_is_odd(error: Binary32, param: AdrcFalParam, power: Binary32)
    requires
        !error.nan(),
        !fal_of(error, param, power).nan(),
    ensures
        fal_power_arguments(-error, param) == fal_power_arguments(error, param),
        fal_of(-error, param, power).same(-fal_of(error, param, power)),
{
    assert((-error).size() == error.size());
    if fal_is_linear(error, param) {
        negation_of_dividend_negates_quotient(error, power);
    } else {
        negation_of_factor_negates_product(power, sign_of(error));
        if error.zero() {
            lemma_mul_kind(power, b32(ZERO));
            product_with_zero_is_zero(power, b32(ZERO));
        }
    }
}

/// Bandwidths that are negative leave all gains at zero.
pub proof fn negative_bandwidth_gives_zero_gains(param: AdrcTuningParam)
    requires
        param.control_bandwidth < b32(ZERO),
        param.observer_bandwidth < b32(ZERO),
    ensures
        tuned(param).kp.zero(),
        tuned(param).kd.zero(),
        tuned(param).beta01.zero(),
        tuned(param).beta02.zero(),
        tuned(param).beta03.zero(),
{
    let zero = b32(ZERO);
    product_with_zero_is_zero(zero, zero);
    product_with_zero_is_zero(b32(TWO), zero);
    product_with_zero_is_zero(b32(THREE), zero);
    product_with_zero_is_zero(b32(THREE) * zero, zero);
    product_with_zero_is_zero(zero * zero, zero);
}

/// Whether a rounded sum is positive, negative or zero is decided by the exact sum.
proof fn lemma_sum_sign(a: Binary32, b: Binary32)
    requires
        a.finite(),
        b.finite(),
    ensures
        a.value() + b.value() > 0 ==> sign_of(a + b) == b32(ONE),
        a.value() + b.value() < 0 ==> sign_of(a + b) == b32(MINUS_ONE),
        a.value() + b.value() == 0 ==> sign_of(a + b) == b32(ZERO),
{
    lemma_sum_kind(a, b);
    lemma_rounded_mag_exact(1);
    let s = a.value() + b.value();
    if s > 0 {
        lemma_rounded_mag_order(1, s as nat);
    } else if s < 0 {
        lemma_rounded_mag_order(1, (-s) as nat);
    }
}

/// The selector is one inside the band, one half at its ends and zero outside.
pub proof fn lemma_inside(a: Binary32, d: Binary32)
    requires
        a.finite(),
        d.finite(),
        d > b32(ZERO),
    ensures
        a.size() < d ==> inside(a, d) == b32(ONE),
        a.size().same(d) ==> inside(a, d) == b32(HALF),
        a.size() > d ==> inside(a, d).zero(),
{
    let one = b32(ONE);
    let minus = b32(MINUS_ONE);
    let zero = b32(ZERO);
    let half = b32(HALF);
    lemma_sum_sign(a, d);
    lemma_sum_sign(a, -d);
    lemma_mag_units_order(a.mag(), d.mag());
    lemma_mag_units_order(d.mag(), 0);
    lemma_mag_units_order(a.mag(), 0);
    assert(-minus == one);
    assert(-one == minus);
    // One half of one, and of two.
    one_is_neutral(half);
    multiplication_is_commutative(half, one);
    lemma_double_and_half();
    // Differences of signs.
    zero_is_neutral(one, -zero);
    zero_is_neutral(one, zero);
    addition_is_commutative(zero, one);
    difference_with_itself_is_zero(one);
    difference_with_itself_is_zero(minus);
    product_with_zero_is_zero(half, zero);
    multiplication_is_commutative(half, zero);
}

/// One less minus one is two, and half of two is one.
proof fn lemma_double_and_half()
    ensures
        (b32(ONE) - b32(MINUS_ONE)) * b32(HALF) == b32(ONE),
{
    let one = b32(ONE);
    let two = b32(TWO);
    let half = b32(HALF);
    lemma_power_mag(0);
    lemma_power_mag(1);
    lemma_power_mag(-1);
    lemma_pow2_unfold(150);
    lemma_pow2_unfold(149);
    assert(-b32(MINUS_ONE) == one);
    lemma_sum_kind(one, one);
    lemma_rounded_sum_exact(two, false);
    assert(one - b32(MINUS_ONE) == two);
    reveal(Binary32::spec_mul);
    assert(two.units() * half.units() == one.units() * pow2(149)) by (nonlinear_arith)
        requires
            two.units() == 2 * pow2(149),
            one.units() == pow2(149),
            pow2(149) == 2 * half.units(),
    ;
    lemma_pow2_pos(149);
    rounding_is_exact(one.mag(), pow2(149));
}

/// Within the band, at the fraction `x` of its width on the positive side.
proof fn lemma_positive_side(x: Binary32, r: Binary32)
    requires
        x.within(b32(ZERO), b32(ONE)),
        r.finite(),
        r > b32(ZERO),
    ensures
        (-r * (x - b32(ONE))).within(b32(ZERO), r),
        (-r * (x - b32(ONE)) - r).within(-r, b32(ZERO)),
{
    let zero = b32(ZERO);
    let one = b32(ONE);
    let t = x - one;
    let p = -r * t;
    lemma_sum_kind(x, -one);
    lemma_sum_kind(zero, -one);
    zero_is_neutral(-one, zero);
    addition_is_commutative(-one, zero);
    difference_with_itself_is_zero(one);
    addition_keeps_order(zero, x, -one);
    addition_keeps_order(x, one, -one);
    assert(t.within(-one, zero));
    fraction_lies_between_zero_and_whole(-t, r);
    multiplication_is_commutative(t, r);
    lemma_mul_kind(t, r);
    negation_of_factor_negates_product(t, r);
    negation_of_factor_negates_product(r, t);
    assert(p == -t * r);
    lemma_sum_kind(p, -r);
    lemma_sum_kind(zero, -r);
    zero_is_neutral(-r, zero);
    addition_is_commutative(-r, zero);
    difference_with_itself_is_zero(r);
    addition_keeps_order(zero, p, -r);
    addition_keeps_order(p, r, -r);
}

/// Within the band, at the fraction `x` of its width on the negative side.
proof fn lemma_negative_side(x: Binary32, r: Binary32)
    requires
        x.within(b32(MINUS_ONE), b32(ZERO)),
        r.finite(),
        r > b32(ZERO),
    ensures
        (-r * (x - b32(MINUS_ONE))).within(-r, b32(ZERO)),
        (-r * (x - b32(MINUS_ONE)) - (-r)).within(b32(ZERO), r),
{
    let zero = b32(ZERO);
    let one = b32(ONE);
    let minus = b32(MINUS_ONE);
    let t = x - minus;
    let p = -r * t;
    assert(-minus == one);
    lemma_sum_kind(x, one);
    lemma_sum_kind(zero, one);
    zero_is_neutral(one, zero);
    addition_is_commutative(one, zero);
    difference_with_itself_is_zero(minus);
    addition_keeps_order(minus, x, one);
    addition_keeps_order(x, zero, one);
    assert(t.within(zero, one));
    fraction_lies_between_zero_and_whole(t, r);
    multiplication_is_commutative(t, r);
    lemma_mul_kind(r, t);
    negation_of_factor_negates_product(r, t);
    assert(p == -(r * t));
    assert(-(-r) == r);
    lemma_sum_kind(p, r);
    lemma_sum_kind(zero, r);
    zero_is_neutral(r, zero);
    addition_is_commutative(r, zero);
    difference_with_itself_is_zero(-r);
    addition_keeps_order(-r, p, r);
    addition_keeps_order(p, zero, r);
}

/// At a distance of `d` or more only the full acceleration remains.
proof fn lemma_outside_band(a: Binary32, d: Binary32, r: Binary32)
    requires
        a.finite(),
        d.finite(),
        d > b32(ZERO),
        r.finite(),
        r > b32(ZERO),
        a.size() >= d,
    ensures
        bounded_acceleration(a, d, r).nan() || bounded_acceleration(a, d, r).same(
            -(r * sign_of(a)),
        ),
{
    let x = a / d;
    let sign = sign_of(a);
    let p = -r * (x - sign);
    let rest = p * inside(a, d);
    let full = -(r * sign);
    lemma_inside(a, d);
    lemma_mul_kind(p, inside(a, d));
    lemma_mul_kind(r, sign);
    lemma_sum_kind(rest, full);
    if !bounded_acceleration(a, d, r).nan() {
        if a.size().same(d) {
            if a > b32(ZERO) {
                quotient_by_larger_is_fraction(a, d);
                quotient_by_smaller_is_at_least_one(a, d);
            } else {
                quotient_by_larger_is_fraction(-a, d);
                quotient_by_smaller_is_at_least_one(-a, d);
                negation_of_dividend_negates_quotient(-a, d);
                assert(-(-a) == a);
            }
            assert(x == sign);
            difference_with_itself_is_zero(sign);
            product_with_zero_is_zero(-r, b32(ZERO));
            product_with_zero_is_zero(b32(HALF), p);
            multiplication_is_commutative(b32(HALF), p);
        } else {
            product_with_zero_is_zero(p, inside(a, d));
        }
        zero_is_neutral(full, rest);
        addition_is_commutative(full, rest);
    }
}

/// The acceleration is a NaN or keeps the bound `r`. It is a number at distances below `d`;
/// at those of `d` or more it is the full acceleration against the distance.
pub proof fn acceleration_is_bounded(a: Binary32, d: Binary32, r: Binary32)
    requires
        a.finite(),
        d.finite(),
        d > b32(ZERO),
        r.finite(),
        r > b32(ZERO),
    ensures
        limited(bounded_acceleration(a, d, r), -r, r),
        a.size() < d ==> !bounded_acceleration(a, d, r).nan(),
        a.size() >= d ==> bounded_acceleration(a, d, r).nan() || bounded_acceleration(a, d, r).same(
            -(r * sign_of(a)),
        ),
        a.zero() ==> bounded_acceleration(a, d, r).zero(),
{
    let x = a / d;
    let zero = b32(ZERO);
    let one = b32(ONE);
    let minus = b32(MINUS_ONE);
    assert(-one == minus);
    assert(-minus == one);
    assert(-(-r) == r);
    one_is_neutral(r);
    lemma_mul_kind(r, one);
    negation_of_factor_negates_product(r, one);
    product_with_zero_is_zero(r, zero);
    lemma_inside(a, d);
    if a.size() >= d {
        lemma_outside_band(a, d, r);
    } else if a.zero() {
        let t = x - zero;
        let p = -r * t;
        quotient_of_zero_is_zero(a, d);
        sum_of_zeros_is_zero(x, -zero);
        product_with_zero_is_zero(-r, t);
        one_is_neutral(p);
        sum_of_zeros_is_zero(p, -(r * zero));
    } else if a > zero {
        quotient_by_larger_is_fraction(a, d);
        lemma_positive_side(x, r);
        one_is_neutral(-r * (x - one));
    } else {
        quotient_by_larger_is_fraction(-a, d);
        negation_of_dividend_negates_quotient(-a, d);
        assert(-(-a) == a);
        lemma_negative_side(x, r);
        one_is_neutral(-r * (x - minus));
    }
}

/// A differentiator that rests on its reference stays there.
pub proof fn fast_differentiator_rests_on_reference(
    state: AdrcFastTdState,
    param: AdrcFastTdParam,
    reference: Binary32,
)
    requires
        state.v1 == reference,
        state.v2.zero(),
        reference.finite(),
        param.ts.finite(),
        param.r.finite(),
        param.h0.finite(),
        param.usable(),
        param.reach() > b32(ZERO),
        (param.reach() * param.reach()).finite(),
    ensures
        state.updated(param, reference).v1.same(reference),
        state.updated(param, reference).v2.zero(),
        state.updated(param, reference).fh.zero(),
{
    let zero = b32(ZERO);
    let d = param.reach();
    let a0 = param.h0 * state.v2;
    let off = state.v1 - reference;
    let y = off + a0;
    let square = d * (d + b32(EIGHT) * y.size());
    let a1 = sqrt_of(square);
    let turn = sign_of(y) * (a1 - d);
    let a2 = a0 + turn * b32(HALF);
    let rest = a0 + y - a2;
    let a = rest * inside(y, d) + a2;
    assert(d.finite()) by {
        reveal(Binary32::spec_mul);
    }
    product_with_zero_is_zero(param.h0, state.v2);
    difference_with_itself_is_zero(reference);
    sum_of_zeros_is_zero(off, a0);
    product_with_zero_is_zero(b32(EIGHT), y.size());
    zero_is_neutral(d, b32(EIGHT) * y.size());
    product_follows_signs(d, d);
    square_root_is_finite(square);
    lemma_difference_is_finite(a1, d);
    product_with_zero_is_zero(a1 - d, zero);
    multiplication_is_commutative(a1 - d, zero);
    product_with_zero_is_zero(b32(HALF), turn);
    multiplication_is_commutative(b32(HALF), turn);
    sum_of_zeros_is_zero(a0, turn * b32(HALF));
    sum_of_zeros_is_zero(a0, y);
    sum_of_zeros_is_zero(a0 + y, -a2);
    lemma_inside(y, d);
    one_is_neutral(rest);
    sum_of_zeros_is_zero(rest, a2);
    assert(a.zero());
    acceleration_is_bounded(a, d, param.r);
    let fh = bounded_acceleration(a, d, param.r);
    product_with_zero_is_zero(param.ts, state.v2);
    product_with_zero_is_zero(param.ts, fh);
    zero_is_neutral(state.v1, param.ts * state.v2);
    sum_of_zeros_is_zero(state.v2, param.ts * fh);
}

/// The difference of two finite numbers that are not negative is finite.
proof fn lemma_difference_is_finite(a: Binary32, b: Binary32)
    requires
        a.finite(),
        b.finite(),
        a >= b32(ZERO),
        b >= b32(ZERO),
    ensures
        (a - b).finite(),
{
    lemma_sum_kind(a, -b);
    lemma_mag_units_order(a.mag(), 0);
    lemma_mag_units_order(b.mag(), 0);
    lemma_rounded_sum_exact(a, false);
    lemma_rounded_sum_exact(-b, false);
    let rest = a.value() - b.value();
    let negative = a.negative() && (-b).negative();
    lemma_rounded_sum_order(rest, negative, a.value(), false);
    lemma_rounded_sum_order(-b.value(), false, rest, negative);
}

} // verus!
