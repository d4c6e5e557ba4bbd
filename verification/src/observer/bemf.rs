//! Back-electromotive-force observers: the voltage that the rotor induces gives its angle.
use core::ops::Neg;
use vstd::prelude::*;
use crate::arithmetic::addition_is_commutative;
use crate::arithmetic::addition_keeps_order;
use crate::arithmetic::difference_with_itself_is_zero;
use crate::arithmetic::fraction_lies_between_zero_and_whole;
use crate::arithmetic::lemma_sum_kind;
use crate::arithmetic::order_is_value_order;
use crate::arithmetic::product_with_zero_is_zero;
use crate::arithmetic::quotient_of_zero_is_zero;
use crate::arithmetic::sum_error_is_at_most_half_own_spacing;
use crate::arithmetic::zero_is_neutral;
use crate::binary32::b32;
use crate::binary32::Binary32;
use crate::binary32::ONE;
use crate::binary32::ZERO;
use crate::math::arctangent;
use crate::math::clamp;
use crate::math::clamped;
use crate::math::limited;
use crate::math::total;
use crate::math::wrap_angle_0_to_2pi;
use crate::math::wrappable;
use crate::math::wrapped_angle;
use crate::nearest::lemma_mag_units_order;
use crate::nearest::spacing;
use crate::observer::PllParam;
use crate::observer::PllState;
use crate::rounded_steps::differences_are_rounded;
use crate::rounded_steps::is_difference;
use crate::transform::AlphaBeta;

verus! {

/// Motor model and filter of the observer.
#[derive(Clone, Copy, Debug, Default, PartialEq)]
pub struct BemfParam {
    /// Stator resistance.
    pub rs: Binary32,
    /// Stator inductance.
    pub ls: Binary32,
    /// Sample period in seconds.
    pub ts: Binary32,
    /// Share of the newest voltage in the estimate, from 0 to 1.
    pub emf_filter_alpha: Binary32,
}

/// Estimated induced voltage and the rotor angle it stands for.
#[derive(Clone, Copy, Debug, PartialEq)]
pub struct BemfState {
    pub last_current: AlphaBeta,
    /// Filtered induced voltage.
    pub emf: AlphaBeta,
    /// Rotor angle in the first revolution.
    pub theta_emf_rad: Binary32,
    /// Not zero once a step has been made.
    pub initialized: i32,
}

impl BemfState {
    /// The state before the first step.
    pub open spec fn initial() -> BemfState {
        BemfState {
            last_current: AlphaBeta::initial(),
            emf: AlphaBeta::initial(),
            theta_emf_rad: b32(ZERO),
            initialized: 0,
        }
    }

    /// Returns to the state before the first step.
    pub fn reset(&mut self)
        ensures
            *final(self) == BemfState::initial(),
    {
        *self = BemfState::default();
    }
}

impl Default for BemfState {
    fn default() -> (r: BemfState)
        ensures
            r == BemfState::initial(),
    {
        BemfState {
            last_current: AlphaBeta::default(),
            emf: AlphaBeta::default(),
            theta_emf_rad: b32(ZERO),
            initialized: 0,
        }
    }
}

/// Voltage and current of one step.
#[derive(Clone, Copy, Debug, Default, PartialEq)]
pub struct BemfInput {
    pub voltage: AlphaBeta,
    pub current: AlphaBeta,
}

/// An estimate moved by the share `alpha`, limited to the range from 0 to 1, towards a raw
/// value.
pub open spec fn smoothed(estimate: Binary32, alpha: Binary32, raw: Binary32) -> Binary32 {
    estimate + clamped(alpha, b32(ZERO), b32(ONE)) * (raw - estimate)
}

/// The voltage that resistance and inductance leave for the rotor.
pub open spec fn induced(
    param: BemfParam,
    voltage: Binary32,
    current: Binary32,
    last_current: Binary32,
) -> Binary32 {
    voltage - param.rs * current - param.ls * ((current - last_current) / param.ts)
}

impl BemfState {
    /// The current against which the next difference is taken: the first step starts from
    /// its own current.
    pub open spec fn base_current(self, current: AlphaBeta) -> AlphaBeta {
        if self.initialized == 0 {
            current
        } else {
            self.last_current
        }
    }

    /// The state after a step but for the angle; a period that is zero or negative changes
    /// nothing.
    pub open spec fn vector_updated(self, param: BemfParam, input: BemfInput) -> BemfState {
        let base = self.base_current(input.current);
        if param.ts <= b32(ZERO) {
            self
        } else {
            BemfState {
                last_current: input.current,
                emf: AlphaBeta {
                    alpha: smoothed(
                        self.emf.alpha,
                        param.emf_filter_alpha,
                        induced(param, input.voltage.alpha, input.current.alpha, base.alpha),
                    ),
                    beta: smoothed(
                        self.emf.beta,
                        param.emf_filter_alpha,
                        induced(param, input.voltage.beta, input.current.beta, base.beta),
                    ),
                },
                theta_emf_rad: self.theta_emf_rad,
                initialized: if self.initialized == 0 {
                    1
                } else {
                    self.initialized
                },
            }
        }
    }

    /// The state with the angle that an arctangent gave.
    pub open spec fn with_angle(self, angle: Binary32) -> BemfState {
        BemfState { theta_emf_rad: wrapped_angle(angle), ..self }
    }

    /// Updates the induced voltage and returns it; zero where the period is not valid.
    pub fn update_vector(&mut self, param: &BemfParam, input: &BemfInput) -> (r: AlphaBeta)
        ensures
            *final(self) == old(self).vector_updated(*param, *input),
            r == (if param.ts <= b32(ZERO) {
                AlphaBeta::initial()
            } else {
                final(self).emf
            }),
    {
        if param.ts <= b32(ZERO) {
            return AlphaBeta::default();
        }
        if self.initialized == 0 {
            self.last_current = input.current;
            self.initialized = 1;
        }
        let di_alpha: Binary32 = (input.current.alpha - self.last_current.alpha) / param.ts;
        let di_beta: Binary32 = (input.current.beta - self.last_current.beta) / param.ts;
        let raw: AlphaBeta = AlphaBeta {
            alpha: input.voltage.alpha - param.rs * input.current.alpha - param.ls * di_alpha,
            beta: input.voltage.beta - param.rs * input.current.beta - param.ls * di_beta,
        };
        let alpha: Binary32 = clamp(param.emf_filter_alpha, b32(ZERO), b32(ONE));
        self.emf.alpha = self.emf.alpha + alpha * (raw.alpha - self.emf.alpha);
        self.emf.beta = self.emf.beta + alpha * (raw.beta - self.emf.beta);
        self.last_current = input.current;
        self.emf
    }

    /// Takes the angle that an arctangent gave.
    pub fn update_angle(&mut self, angle: Binary32)
        requires
            wrappable(angle),
        ensures
            *final(self) == old(self).with_angle(angle),
    {
        self.theta_emf_rad = wrap_angle_0_to_2pi(angle);
    }

    /// What a step with an arctangent may lead to: the angle is that of the induced voltage
    /// turned back by a quarter revolution.
    pub open spec fn steps_to<A: Fn(Binary32, Binary32) -> Binary32>(
        self,
        param: BemfParam,
        input: BemfInput,
        atan2: A,
        next: BemfState,
    ) -> bool {
        let vector = self.vector_updated(param, input);
        if param.ts <= b32(ZERO) {
            next == self
        } else {
            exists|a: Binary32|
                atan2.ensures((-vector.emf.alpha, vector.emf.beta), a) && next
                    == vector.with_angle(a)
        }
    }

    /// Makes one step and returns the induced voltage; zero where the period is not valid.
    pub fn update<A: Fn(Binary32, Binary32) -> Binary32>(
        &mut self,
        param: &BemfParam,
        input: &BemfInput,
        atan2: &A,
    ) -> (r: AlphaBeta)
        requires
            arctangent(*atan2),
        ensures
            old(self).steps_to(*param, *input, *atan2, *final(self)),
            r == (if param.ts <= b32(ZERO) {
                AlphaBeta::initial()
            } else {
                final(self).emf
            }),
    {
        if param.ts <= b32(ZERO) {
            return AlphaBeta::default();
        }
        let emf: AlphaBeta = self.update_vector(param, input);
        let a: Binary32 = atan2(emf.alpha.neg(), emf.beta);
        self.update_angle(a);
        self.emf
    }
}

/// Motor model, leakage and limits of the integrating observer.
#[derive(Clone, Copy, Debug, Default, PartialEq)]
pub struct BemfIntegralParam {
    /// Stator resistance.
    pub rs: Binary32,
    /// Sample period in seconds.
    pub ts: Binary32,
    /// Rate at which the flux decays.
    pub leakage: Binary32,
    pub flux_min: Binary32,
    pub flux_max: Binary32,
}

/// Integrated flux and the rotor angle it stands for.
#[derive(Clone, Copy, Debug, PartialEq)]
pub struct BemfIntegralState {
    pub flux: AlphaBeta,
    /// Rotor angle in the first revolution.
    pub theta_rad: Binary32,
}

impl BemfIntegralState {
    /// The state before the first step.
    pub open spec fn initial() -> BemfIntegralState {
        BemfIntegralState {
            flux: AlphaBeta::initial(),
            theta_rad: b32(ZERO),
        }
    }

    /// Returns to the state before the first step.
    pub fn reset(&mut self)
        ensures
            *final(self) == BemfIntegralState::initial(),
    {
        *self = BemfIntegralState::default();
    }
}

impl Default for BemfIntegralState {
    fn default() -> (r: BemfIntegralState)
        ensures
            r == BemfIntegralState::initial(),
    {
        BemfIntegralState {
            flux: AlphaBeta::default(),
            theta_rad: b32(ZERO),
        }
    }
}

/// The integrating observer takes the same input.
pub type BemfIntegralInput = BemfInput;

/// One axis of the flux after a step, limited.
pub open spec fn integrated_flux(
    param: BemfIntegralParam,
    flux: Binary32,
    voltage: Binary32,
    current: Binary32,
) -> Binary32 {
    clamped(
        flux + param.ts * (voltage - param.rs * current - param.leakage * flux),
        param.flux_min,
        param.flux_max,
    )
}

impl BemfIntegralState {
    /// The state after a step but for the angle; a period that is zero or negative changes
    /// nothing.
    pub open spec fn vector_updated(
        self,
        param: BemfIntegralParam,
        input: BemfIntegralInput,
    ) -> BemfIntegralState {
        if param.ts <= b32(ZERO) {
            self
        } else {
            BemfIntegralState {
                flux: AlphaBeta {
                    alpha: integrated_flux(
                        param,
                        self.flux.alpha,
                        input.voltage.alpha,
                        input.current.alpha,
                    ),
                    beta: integrated_flux(
                        param,
                        self.flux.beta,
                        input.voltage.beta,
                        input.current.beta,
                    ),
                },
                theta_rad: self.theta_rad,
            }
        }
    }

    /// The state with the angle that an arctangent gave.
    pub open spec fn with_angle(self, angle: Binary32) -> BemfIntegralState {
        BemfIntegralState { theta_rad: wrapped_angle(angle), ..self }
    }

    /// Updates the flux and returns it; zero where the period is not valid.
    pub fn update_vector(
        &mut self,
        param: &BemfIntegralParam,
        input: &BemfIntegralInput,
    ) -> (r: AlphaBeta)
        ensures
            *final(self) == old(self).vector_updated(*param, *input),
            r == (if param.ts <= b32(ZERO) {
                AlphaBeta::initial()
            } else {
                final(self).flux
            }),
    {
        if param.ts <= b32(ZERO) {
            return AlphaBeta::default();
        }
        self.flux.alpha = self.flux.alpha + param.ts * (input.voltage.alpha - param.rs
            * input.current.alpha - param.leakage * self.flux.alpha);
        self.flux.beta = self.flux.beta + param.ts * (input.voltage.beta - param.rs
            * input.current.beta - param.leakage * self.flux.beta);
        self.flux.alpha = clamp(self.flux.alpha, param.flux_min, param.flux_max);
        self.flux.beta = clamp(self.flux.beta, param.flux_min, param.flux_max);
        self.flux
    }

    /// Takes the angle that an arctangent gave.
    pub fn update_angle(&mut self, angle: Binary32)
        requires
            wrappable(angle),
        ensures
            *final(self) == old(self).with_angle(angle),
    {
        self.theta_rad = wrap_angle_0_to_2pi(angle);
    }

    /// What a step with an arctangent may lead to: the angle is that of the flux.
    pub open spec fn steps_to<A: Fn(Binary32, Binary32) -> Binary32>(
        self,
        param: BemfIntegralParam,
        input: BemfIntegralInput,
        atan2: A,
        next: BemfIntegralState,
    ) -> bool {
        let vector = self.vector_updated(param, input);
        if param.ts <= b32(ZERO) {
            next == self
        } else {
            exists|a: Binary32|
                atan2.ensures((vector.flux.beta, vector.flux.alpha), a) && next
                    == vector.with_angle(a)
        }
    }

    /// Makes one step and returns the flux; zero where the period is not valid.
    pub fn update<A: Fn(Binary32, Binary32) -> Binary32>(
        &mut self,
        param: &BemfIntegralParam,
        input: &BemfIntegralInput,
        atan2: &A,
    ) -> (r: AlphaBeta)
        requires
            arctangent(*atan2),
        ensures
            old(self).steps_to(*param, *input, *atan2, *final(self)),
            r == (if param.ts <= b32(ZERO) {
                AlphaBeta::initial()
            } else {
                final(self).flux
            }),
    {
        if param.ts <= b32(ZERO) {
            return AlphaBeta::default();
        }
        let flux: AlphaBeta = self.update_vector(param, input);
        let a: Binary32 = atan2(flux.beta, flux.alpha);
        self.update_angle(a);
        self.flux
    }
}

/// Noise band of the zero-crossing detector.
#[derive(Clone, Copy, Debug, Default, PartialEq)]
pub struct BemfZeroCrossParam {
    /// Size up to which a voltage has no sign.
    pub threshold: Binary32,
}

/// Zero-crossing detector of a floating phase.
#[derive(Clone, Copy, Debug, PartialEq)]
pub struct BemfZeroCrossState {
    /// Last sign outside the band: 1, -1, or 0 before there was one.
    pub last_sign: i32,
    /// 1 in the step of a crossing, else 0.
    pub crossing: i32,
    /// Sign after the crossing in the step of one, else 0.
    pub direction: i32,
    /// Last voltage.
    pub last_bemf: Binary32,
}

impl BemfZeroCrossState {
    /// The state before the first step.
    pub open spec fn initial() -> BemfZeroCrossState {
        BemfZeroCrossState {
            last_sign: 0,
            crossing: 0,
            direction: 0,
            last_bemf: b32(ZERO),
        }
    }

    /// Returns to the state before the first step.
    pub fn reset(&mut self)
        ensures
            *final(self) == BemfZeroCrossState::initial(),
    {
        *self = BemfZeroCrossState::default();
    }
}

impl Default for BemfZeroCrossState {
    fn default() -> (r: BemfZeroCrossState)
        ensures
            r == BemfZeroCrossState::initial(),
    {
        BemfZeroCrossState {
            last_sign: 0,
            crossing: 0,
            direction: 0,
            last_bemf: b32(ZERO),
        }
    }
}

/// The sign of a voltage outside the band, 0 inside it and for NaN.
pub open spec fn banded_sign(value: Binary32, threshold: Binary32) -> int {
    if value > threshold.size() {
        1
    } else if value < -threshold.size() {
        -1
    } else {
        0
    }
}

fn bemf_sign(value: Binary32, threshold: Binary32) -> (r: i32)
    ensures
        r == banded_sign(value, threshold),
{
    let threshold: Binary32 = threshold.abs();
    if value > threshold {
        1
    } else if value < threshold.neg() {
        -1
    } else {
        0
    }
}

impl BemfZeroCrossState {
    /// Whether a voltage has another sign than the last one that had a sign.
    pub open spec fn crosses(self, param: BemfZeroCrossParam, bemf: Binary32) -> bool {
        let sign = banded_sign(bemf, param.threshold);
        sign != 0 && self.last_sign != 0 && sign != self.last_sign
    }

    /// The state after a voltage.
    pub open spec fn updated(
        self,
        param: BemfZeroCrossParam,
        bemf: Binary32,
    ) -> BemfZeroCrossState {
        let sign = banded_sign(bemf, param.threshold);
        BemfZeroCrossState {
            last_sign: if sign != 0 {
                sign as i32
            } else {
                self.last_sign
            },
            crossing: if self.crosses(param, bemf) {
                1
            } else {
                0
            },
            direction: if self.crosses(param, bemf) {
                sign as i32
            } else {
                0
            },
            last_bemf: bemf,
        }
    }

    /// Takes one voltage and returns 1 where it crossed zero, else 0.
    pub fn update(&mut self, param: &BemfZeroCrossParam, bemf: Binary32) -> (r: i32)
        ensures
            *final(self) == old(self).updated(*param, bemf),
            r == final(self).crossing,
    {
        let current_sign: i32 = bemf_sign(bemf, param.threshold);
        self.crossing = 0;
        self.direction = 0;
        if current_sign != 0 && self.last_sign != 0 && current_sign != self.last_sign {
            self.crossing = 1;
            self.direction = current_sign;
        }
        if current_sign != 0 {
            self.last_sign = current_sign;
        }
        self.last_bemf = bemf;
        self.crossing
    }
}

/// Parameters of the observer and of the loop that smooths its angle.
#[derive(Clone, Copy, Debug, Default, PartialEq)]
pub struct BemfPllParam {
    pub bemf: BemfParam,
    pub pll: PllParam,
}

/// Observer of the induced voltage followed by a phase-locked loop.
#[derive(Clone, Copy, Debug, PartialEq)]
pub struct BemfPllState {
    pub bemf: BemfState,
    pub pll: PllState,
    /// Last induced voltage returned.
    pub emf: AlphaBeta,
    /// Smoothed angle.
    pub theta_rad: Binary32,
    /// Its speed.
    pub omega_rad_s: Binary32,
}

impl BemfPllState {
    /// The state before the first step.
    pub open spec fn initial() -> BemfPllState {
        BemfPllState {
            bemf: BemfState::initial(),
            pll: PllState::initial(),
            emf: AlphaBeta::initial(),
            theta_rad: b32(ZERO),
            omega_rad_s: b32(ZERO),
        }
    }

    /// Returns to the state before the first step.
    pub fn reset(&mut self)
        ensures
            *final(self) == BemfPllState::initial(),
    {
        *self = BemfPllState::default();
    }
}

impl Default for BemfPllState {
    fn default() -> (r: BemfPllState)
        ensures
            r == BemfPllState::initial(),
    {
        BemfPllState {
            bemf: BemfState::default(),
            pll: PllState::default(),
            emf: AlphaBeta::default(),
            theta_rad: b32(ZERO),
            omega_rad_s: b32(ZERO),
        }
    }
}

impl BemfPllState {
    /// The state with new inner states, whose results are copied out.
    pub open spec fn joined(emf: AlphaBeta, bemf: BemfState, pll: PllState) -> BemfPllState {
        BemfPllState {
            bemf,
            pll,
            emf,
            theta_rad: pll.theta_rad,
            omega_rad_s: pll.omega_rad_s,
        }
    }

    /// Makes one step of the loop for a phase error, after the observer made its step and
    /// returned `emf`.
    pub fn update_with_error(
        &mut self,
        param: &BemfPllParam,
        emf: AlphaBeta,
        phase_error: Binary32,
    ) -> (r: Binary32)
        requires
            old(self).pll.accepts(param.pll, phase_error),
        ensures
            *final(self) == BemfPllState::joined(
                emf,
                old(self).bemf,
                old(self).pll.updated(param.pll, phase_error),
            ),
            r == final(self).theta_rad,
    {
        self.emf = emf;
        self.theta_rad = self.pll.update_with_error(&param.pll, phase_error);
        self.omega_rad_s = self.pll.omega_rad_s;
        self.theta_rad
    }

    /// Makes one step of the observer and of the loop, and returns the smoothed angle.
    pub fn update<A: Fn(Binary32, Binary32) -> Binary32, S: Fn(Binary32) -> Binary32>(
        &mut self,
        param: &BemfPllParam,
        input: &BemfInput,
        atan2: &A,
        sin: &S,
    ) -> (r: Binary32)
        requires
            arctangent(*atan2),
            total(*sin),
            forall|bemf: BemfState, s: Binary32| #[trigger]
                old(self).bemf.steps_to(param.bemf, *input, *atan2, bemf) && #[trigger] sin.ensures(
                    (bemf.theta_emf_rad - old(self).pll.theta_rad,),
                    s,
                ) ==> old(self).pll.accepts(param.pll, s),
        ensures
            old(self).bemf.steps_to(param.bemf, *input, *atan2, final(self).bemf),
            exists|s: Binary32|
                sin.ensures((final(self).bemf.theta_emf_rad - old(self).pll.theta_rad,), s)
                    && *final(self) == BemfPllState::joined(
                    if param.bemf.ts <= b32(ZERO) {
                        AlphaBeta::initial()
                    } else {
                        final(self).bemf.emf
                    },
                    final(self).bemf,
                    old(self).pll.updated(param.pll, s),
                ),
            exists|gap: Binary32, s: Binary32|
                sin.ensures((gap,), s) && final(self).pll.phase_error == s && (gap.finite()
                    ==> is_difference(gap, final(self).bemf.theta_emf_rad,
                        old(self).pll.theta_rad)),
            r == final(self).theta_rad,
    {
        let emf: AlphaBeta = self.bemf.update(&param.bemf, input, atan2);
        let s: Binary32 = sin(self.bemf.theta_emf_rad - self.pll.theta_rad);
        proof {
            differences_are_rounded(self.bemf.theta_emf_rad, self.pll.theta_rad);
        }
        self.update_with_error(param, emf, s)
    }
}

/// The first step, from whatever current, has no inductive part: a finite inductance times
/// a change of zero.
pub proof fn bemf_first_step_has_no_inductive_part(
    param: BemfParam,
    voltage: Binary32,
    current: Binary32,
)
    requires
        param.ts > b32(ZERO),
        param.ls.finite(),
        current.finite(),
        !(voltage - param.rs * current).nan(),
    ensures
        induced(param, voltage, current, current).same(voltage - param.rs * current),
{
    difference_with_itself_is_zero(current);
    quotient_of_zero_is_zero(current - current, param.ts);
    product_with_zero_is_zero(param.ls, (current - current) / param.ts);
    zero_is_neutral(
        voltage - param.rs * current,
        -(param.ls * ((current - current) / param.ts)),
    );
}

/// Each axis of the integrated flux is a NaN or keeps its limits.
pub proof fn integrated_flux_is_limited(
    state: BemfIntegralState,
    param: BemfIntegralParam,
    input: BemfIntegralInput,
)
    requires
        !param.flux_min.nan(),
        !param.flux_max.nan(),
        !(param.ts <= b32(ZERO)),
    ensures
        limited(
            state.vector_updated(param, input).flux.alpha,
            param.flux_min,
            param.flux_max,
        ),
        limited(
            state.vector_updated(param, input).flux.beta,
            param.flux_min,
            param.flux_max,
        ),
{
}

/// A crossing is reported exactly where the sign differs from the last one outside the
/// band, with the new sign as its direction.
pub proof fn crossing_is_a_change_of_sign(
    state: BemfZeroCrossState,
    param: BemfZeroCrossParam,
    bemf: Binary32,
)
    ensures
        ({
            let next = state.updated(param, bemf);
            &&& next.crossing == 1 || next.crossing == 0
            &&& next.crossing == 1 <==> state.last_sign != 0 && next.last_sign != state.last_sign
            &&& next.crossing == 1 ==> next.direction == next.last_sign
            &&& next.crossing == 0 ==> next.direction == 0
        }),
{
}

/// Voltages inside the band, and NaN, neither cross nor change the remembered sign.
pub proof fn band_keeps_last_sign(
    state: BemfZeroCrossState,
    param: BemfZeroCrossParam,
    bemf: Binary32,
)
    requires
        bemf.nan() || bemf.within(-param.threshold.size(), param.threshold.size()),
    ensures
        state.updated(param, bemf).crossing == 0,
        state.updated(param, bemf).last_sign == state.last_sign,
{
}

/// The remembered sign is always 1, -1 or 0.
pub proof fn remembered_sign_is_a_sign(
    state: BemfZeroCrossState,
    param: BemfZeroCrossParam,
    bemf: Binary32,
)
    requires
        -1 <= state.last_sign <= 1,
    ensures
        -1 <= state.updated(param, bemf).last_sign <= 1,
{
}

/// Crossings alternate: after one, another can only come in the opposite direction.
pub proof fn crossings_alternate(
    state: BemfZeroCrossState,
    param: BemfZeroCrossParam,
    first: Binary32,
    second: Binary32,
)
    ensures
        ({
            let one = state.updated(param, first);
            let two = one.updated(param, second);
            one.crossing == 1 && two.crossing == 1 ==> two.direction == -one.direction
        }),
{
}

/// How far a number lies past another one, seen from a third.
pub open spec fn overshoot(start: Binary32, end: Binary32, x: Binary32) -> int {
    if start <= end {
        x.value() - end.value()
    } else {
        end.value() - x.value()
    }
}

/// Smoothing moves an estimate towards the raw value: never away from it, and past it by no
/// more than the roundings of the difference and of the sum.
pub proof fn smoothing_stays_between(estimate: Binary32, alpha: Binary32, raw: Binary32)
    requires
        !alpha.nan(),
        estimate.finite(),
        raw.finite(),
        (raw - estimate).finite(),
        smoothed(estimate, alpha, raw).finite(),
    ensures
        raw >= estimate ==> smoothed(estimate, alpha, raw) >= estimate,
        raw <= estimate ==> smoothed(estimate, alpha, raw) <= estimate,
        2 * overshoot(estimate, raw, smoothed(estimate, alpha, raw)) <= spacing(
            (raw - estimate).mag(),
        ) + spacing(smoothed(estimate, alpha, raw).mag()),
{
    let share = clamped(alpha, b32(ZERO), b32(ONE));
    let p = share * (raw - estimate);
    sum_error_is_at_most_half_own_spacing(raw, -estimate);
    lemma_share_of_way(estimate, share, raw);
    sum_error_is_at_most_half_own_spacing(estimate, p);
    order_is_value_order(estimate, raw);
    order_is_value_order(raw, estimate);
    lemma_step(estimate, p);
}

/// A share of the way from one number to another has its direction and is not longer.
proof fn lemma_share_of_way(estimate: Binary32, share: Binary32, raw: Binary32)
    requires
        share.within(b32(ZERO), b32(ONE)),
        estimate.finite(),
        raw.finite(),
        (raw - estimate).finite(),
    ensures
        (share * (raw - estimate)).finite(),
        raw >= estimate ==> 0 <= (share * (raw - estimate)).value() <= (raw - estimate).value(),
        raw <= estimate ==> (raw - estimate).value() <= (share * (raw - estimate)).value() <= 0,
{
    let zero = b32(ZERO);
    let d = raw - estimate;
    let p = share * d;
    lemma_mag_units_order(0, 0);
    difference_with_itself_is_zero(estimate);
    fraction_lies_between_zero_and_whole(share, d);
    if raw >= estimate {
        addition_keeps_order(estimate, raw, -estimate);
        assert(zero <= p && p <= d);
        order_is_value_order(zero, p);
        order_is_value_order(p, d);
    }
    if raw <= estimate {
        addition_keeps_order(raw, estimate, -estimate);
        assert(d <= p && p <= zero);
        order_is_value_order(p, zero);
        order_is_value_order(d, p);
    }
}

/// A step moves a number in its direction.
proof fn lemma_step(estimate: Binary32, p: Binary32)
    requires
        estimate.finite(),
        p.finite(),
    ensures
        p.value() >= 0 ==> estimate + p >= estimate,
        p.value() <= 0 ==> estimate + p <= estimate,
{
    let zero = b32(ZERO);
    lemma_mag_units_order(0, 0);
    lemma_sum_kind(estimate, p);
    lemma_sum_kind(estimate, zero);
    zero_is_neutral(estimate, zero);
    addition_is_commutative(estimate, zero);
    addition_is_commutative(estimate, p);
    if p.value() >= 0 {
        order_is_value_order(zero, p);
        addition_keeps_order(zero, p, estimate);
    }
    if p.value() <= 0 {
        order_is_value_order(p, zero);
        addition_keeps_order(p, zero, estimate);
    }
}

} // verus!
