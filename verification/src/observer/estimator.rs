//! State estimators: Kalman filter, Luenberger observer, and the extended and unscented
//! Kalman filters for nonlinear models, alone and feeding the current loop.
use vstd::prelude::*;
use crate::arithmetic::addition_is_commutative;
use crate::arithmetic::addition_keeps_order;
use crate::arithmetic::difference_with_itself_is_zero;
use crate::arithmetic::fraction_lies_between_zero_and_whole;
use crate::arithmetic::lemma_div_kind;
use crate::arithmetic::lemma_mul_kind;
use crate::arithmetic::lemma_sum_kind;
use crate::arithmetic::multiplication_is_commutative;
use crate::arithmetic::one_is_neutral;
use crate::arithmetic::product_follows_signs;
use crate::arithmetic::product_with_zero_is_zero;
use crate::arithmetic::quotient_by_larger_is_fraction;
use crate::arithmetic::quotient_follows_signs;
use crate::arithmetic::quotient_of_zero_is_zero;
use crate::arithmetic::sum_of_non_negatives;
use crate::arithmetic::sum_of_zeros_is_zero;
use crate::arithmetic::zero_is_neutral;
use crate::binary32::b32;
use crate::binary32::Binary32;
use crate::binary32::HALF;
use crate::binary32::ONE;
use crate::binary32::ZERO;
use crate::controller::PiParam;
use crate::foc::FocBasicInput;
use crate::foc::FocBasicParam;
use crate::foc::FocBasicState;
use crate::foc_laws::foc_turns_with_rotor;
use crate::foc_laws::turns_with;
use crate::math::angle_or_nan;
use crate::math::total;
use crate::math::wrap_angle_0_to_2pi;
use crate::math::wrappable;
use crate::math::wrapped_angle;
use crate::math::wrapped_angle_is_angle_or_nan;
use crate::modulation::SvpwmOutput;
use crate::modulation::SvpwmParam;
use crate::square_root::sqrt_of;

verus! {

/// Encoding of `0.001`.
pub const MIN_SPREAD: u32 = 0x3a83_126f;

/// A divisor, one in place of zero.
pub open spec fn nonzero(s: Binary32) -> Binary32 {
    if s.zero() {
        b32(ONE)
    } else {
        s
    }
}

fn nonzero_or_one(s: Binary32) -> (r: Binary32)
    ensures
        r == nonzero(s),
{
    if s == b32(ZERO) {
        b32(ONE)
    } else {
        s
    }
}

/// The gain for a predicted variance, a measurement slope and a measurement variance.
pub open spec fn gain_of(p_pred: Binary32, slope: Binary32, r: Binary32) -> Binary32 {
    p_pred * slope / nonzero(slope * p_pred * slope + r)
}

/// Linear model and noise of the filter.
#[derive(Clone, Copy, Debug, Default, PartialEq)]
pub struct KalmanParam {
    /// Weight of the state in the next state.
    pub a: Binary32,
    /// Weight of the input in the next state.
    pub b: Binary32,
    /// Weight of the state in the measurement.
    pub h: Binary32,
    /// Process noise variance.
    pub q: Binary32,
    /// Measurement noise variance.
    pub r: Binary32,
}

/// Estimate and variance of one state.
#[derive(Clone, Copy, Debug, PartialEq)]
pub struct KalmanState {
    /// Estimate.
    pub x: Binary32,
    /// Its variance.
    pub p: Binary32,
    /// Last gain.
    pub k: Binary32,
    /// Last measurement less its prediction.
    pub residual: Binary32,
}

impl KalmanState {
    /// Estimate and variance zero.
    pub open spec fn initial() -> KalmanState {
        KalmanState {
            x: b32(ZERO),
            p: b32(ZERO),
            k: b32(ZERO),
            residual: b32(ZERO),
        }
    }
}

impl Default for KalmanState {
    fn default() -> (r: KalmanState)
        ensures
            r == KalmanState::initial(),
    {
        KalmanState {
            x: b32(ZERO),
            p: b32(ZERO),
            k: b32(ZERO),
            residual: b32(ZERO),
        }
    }
}

impl KalmanState {
    /// The state with an estimate and a variance.
    pub open spec fn started(x: Binary32, p: Binary32) -> KalmanState {
        KalmanState { x, p, k: b32(ZERO), residual: b32(ZERO) }
    }

    /// The predicted state.
    pub open spec fn predicted(self, param: KalmanParam, u: Binary32) -> Binary32 {
        param.a * self.x + param.b * u
    }

    /// The predicted variance.
    pub open spec fn predicted_variance(self, param: KalmanParam) -> Binary32 {
        param.a * self.p * param.a + param.q
    }

    /// The state after prediction and correction.
    pub open spec fn updated(
        self,
        param: KalmanParam,
        u: Binary32,
        measurement: Binary32,
    ) -> KalmanState {
        let x_pred = self.predicted(param, u);
        let p_pred = self.predicted_variance(param);
        let k = gain_of(p_pred, param.h, param.r);
        let residual = measurement - param.h * x_pred;
        KalmanState {
            x: x_pred + k * residual,
            p: (b32(ONE) - k * param.h) * p_pred,
            k,
            residual,
        }
    }

    /// A filter with an estimate and a variance.
    pub fn new(initial_x: Binary32, initial_p: Binary32) -> (r: KalmanState)
        ensures
            r == KalmanState::started(initial_x, initial_p),
    {
        KalmanState { x: initial_x, p: initial_p, k: b32(ZERO), residual: b32(ZERO) }
    }

    /// Starts again with an estimate and a variance.
    pub fn reset(&mut self, x: Binary32, p: Binary32)
        ensures
            *final(self) == KalmanState::started(x, p),
    {
        *self = KalmanState::new(x, p);
    }

    /// Predicts under an input, corrects by a measurement and returns the estimate.
    pub fn update(
        &mut self,
        param: &KalmanParam,
        u: Binary32,
        measurement: Binary32,
    ) -> (r: Binary32)
        ensures
            *final(self) == old(self).updated(*param, u, measurement),
            r == final(self).x,
    {
        let x_pred: Binary32 = param.a * self.x + param.b * u;
        let p_pred: Binary32 = param.a * self.p * param.a + param.q;
        let s: Binary32 = nonzero_or_one(param.h * p_pred * param.h + param.r);
        self.k = p_pred * param.h / s;
        self.residual = measurement - param.h * x_pred;
        self.x = x_pred + self.k * self.residual;
        self.p = (b32(ONE) - self.k * param.h) * p_pred;
        self.x
    }
}

/// Linear model of two states, and gains of the observer.
#[derive(Clone, Copy, Debug, Default, PartialEq)]
pub struct LuenbergerParam {
    pub a00: Binary32,
    pub a01: Binary32,
    pub a10: Binary32,
    pub a11: Binary32,
    pub b0: Binary32,
    pub b1: Binary32,
    pub c0: Binary32,
    pub c1: Binary32,
    pub l0: Binary32,
    pub l1: Binary32,
}

/// Estimates of two states.
#[derive(Clone, Copy, Debug, PartialEq)]
pub struct LuenbergerState {
    pub x0: Binary32,
    pub x1: Binary32,
    /// Estimated measurement.
    pub y_hat: Binary32,
    /// Last measurement less its prediction.
    pub error: Binary32,
}

impl LuenbergerState {
    /// Both estimates zero.
    pub open spec fn initial() -> LuenbergerState {
        LuenbergerState {
            x0: b32(ZERO),
            x1: b32(ZERO),
            y_hat: b32(ZERO),
            error: b32(ZERO),
        }
    }
}

impl Default for LuenbergerState {
    fn default() -> (r: LuenbergerState)
        ensures
            r == LuenbergerState::initial(),
    {
        LuenbergerState {
            x0: b32(ZERO),
            x1: b32(ZERO),
            y_hat: b32(ZERO),
            error: b32(ZERO),
        }
    }
}

impl LuenbergerState {
    /// The state with two estimates.
    pub open spec fn started(x0: Binary32, x1: Binary32) -> LuenbergerState {
        LuenbergerState { x0, x1, y_hat: b32(ZERO), error: b32(ZERO) }
    }

    /// The measurement that the estimates lead to.
    pub open spec fn output(self, param: LuenbergerParam) -> Binary32 {
        param.c0 * self.x0 + param.c1 * self.x1
    }

    /// The state after a step: both estimates follow the model and the error at once.
    pub open spec fn updated(
        self,
        param: LuenbergerParam,
        input_u: Binary32,
        measured_y: Binary32,
    ) -> LuenbergerState {
        let error = measured_y - self.output(param);
        let x0 = param.a00 * self.x0 + param.a01 * self.x1 + param.b0 * input_u + param.l0 * error;
        let x1 = param.a10 * self.x0 + param.a11 * self.x1 + param.b1 * input_u + param.l1 * error;
        LuenbergerState { x0, x1, y_hat: param.c0 * x0 + param.c1 * x1, error }
    }

    /// An observer with two estimates.
    pub fn new(x0: Binary32, x1: Binary32) -> (r: LuenbergerState)
        ensures
            r == LuenbergerState::started(x0, x1),
    {
        LuenbergerState { x0, x1, y_hat: b32(ZERO), error: b32(ZERO) }
    }

    /// Starts again with two estimates.
    pub fn reset(&mut self, x0: Binary32, x1: Binary32)
        ensures
            *final(self) == LuenbergerState::started(x0, x1),
    {
        *self = LuenbergerState::new(x0, x1);
    }

    /// Makes one step and returns the estimated measurement.
    pub fn update(
        &mut self,
        param: &LuenbergerParam,
        input_u: Binary32,
        measured_y: Binary32,
    ) -> (r: Binary32)
        ensures
            *final(self) == old(self).updated(*param, input_u, measured_y),
            r == final(self).y_hat,
    {
        self.y_hat = param.c0 * self.x0 + param.c1 * self.x1;
        self.error = measured_y - self.y_hat;
        let next_x0: Binary32 = param.a00 * self.x0 + param.a01 * self.x1 + param.b0 * input_u
            + param.l0 * self.error;
        let next_x1: Binary32 = param.a10 * self.x0 + param.a11 * self.x1 + param.b1 * input_u
            + param.l1 * self.error;
        self.x0 = next_x0;
        self.x1 = next_x1;
        self.y_hat = param.c0 * self.x0 + param.c1 * self.x1;
        self.y_hat
    }
}

/// A function of two numbers that is defined everywhere.
pub open spec fn total_pair<F: Fn(Binary32, Binary32) -> Binary32>(f: F) -> bool {
    forall|x: Binary32, u: Binary32| #[trigger] f.requires((x, u))
}

/// Plain functions as next state of the extended filter and as its slope.
pub type EkfStateFunction = fn(Binary32, Binary32) -> Binary32;

/// Plain functions as measurement of the extended filter and as its slope.
pub type EkfMeasureFunction = fn(Binary32) -> Binary32;

/// Model and noise of the extended filter. Without one of the four functions there is no
/// model.
#[derive(Clone, Copy)]
pub struct EkfParam<F, D, H, J> {
    /// Next state under an input.
    pub f: Option<F>,
    /// Its slope in the state.
    pub df_dx: Option<D>,
    /// Measurement of a state.
    pub h: Option<H>,
    /// Its slope in the state.
    pub dh_dx: Option<J>,
    /// Process noise variance.
    pub q: Binary32,
    /// Measurement noise variance.
    pub r: Binary32,
}

impl<F, D, H, J> Default for EkfParam<F, D, H, J> {
    /// No model and no noise.
    fn default() -> (r: EkfParam<F, D, H, J>)
        ensures
            r.f is None && r.df_dx is None && r.h is None && r.dh_dx is None,
            r.q == b32(ZERO) && r.r == b32(ZERO),
    {
        EkfParam { f: None, df_dx: None, h: None, dh_dx: None, q: b32(ZERO), r: b32(ZERO) }
    }
}

impl<
    F: Fn(Binary32, Binary32) -> Binary32,
    D: Fn(Binary32, Binary32) -> Binary32,
    H: Fn(Binary32) -> Binary32,
    J: Fn(Binary32) -> Binary32,
> EkfParam<F, D, H, J> {
    /// Whether all four functions are there.
    pub open spec fn complete(self) -> bool {
        self.f is Some && self.df_dx is Some && self.h is Some && self.dh_dx is Some
    }

    /// Whether the functions that are there are defined everywhere.
    pub open spec fn defined(self) -> bool {
        &&& self.f is Some ==> total_pair(self.f->0)
        &&& self.df_dx is Some ==> total_pair(self.df_dx->0)
        &&& self.h is Some ==> total(self.h->0)
        &&& self.dh_dx is Some ==> total(self.dh_dx->0)
    }
}

/// Estimate and variance of one state of a nonlinear model.
#[derive(Clone, Copy, Debug, PartialEq)]
pub struct EkfState {
    /// Estimate.
    pub x: Binary32,
    /// Its variance.
    pub p: Binary32,
    /// Last gain.
    pub k: Binary32,
    /// Last measurement less its prediction.
    pub residual: Binary32,
}

impl EkfState {
    /// Estimate and variance zero.
    pub open spec fn initial() -> EkfState {
        EkfState {
            x: b32(ZERO),
            p: b32(ZERO),
            k: b32(ZERO),
            residual: b32(ZERO),
        }
    }
}

impl Default for EkfState {
    fn default() -> (r: EkfState)
        ensures
            r == EkfState::initial(),
    {
        EkfState {
            x: b32(ZERO),
            p: b32(ZERO),
            k: b32(ZERO),
            residual: b32(ZERO),
        }
    }
}

/// What the model says about one step: predicted state, its slope, predicted measurement
/// and its slope.
#[derive(Clone, Copy, Debug)]
pub struct EkfLinearization {
    pub x_pred: Binary32,
    pub f_jac: Binary32,
    pub h_value: Binary32,
    pub h_jac: Binary32,
}

impl EkfState {
    /// The state with an estimate and a variance.
    pub open spec fn started(x: Binary32, p: Binary32) -> EkfState {
        EkfState { x, p, k: b32(ZERO), residual: b32(ZERO) }
    }

    /// The state after prediction and correction along a linearized model.
    pub open spec fn updated(
        self,
        q: Binary32,
        r: Binary32,
        model: EkfLinearization,
        measurement: Binary32,
    ) -> EkfState {
        let p_pred = model.f_jac * self.p * model.f_jac + q;
        let k = gain_of(p_pred, model.h_jac, r);
        let residual = measurement - model.h_value;
        EkfState {
            x: model.x_pred + k * residual,
            p: (b32(ONE) - k * model.h_jac) * p_pred,
            k,
            residual,
        }
    }

    /// Whether a model may have given a linearization at an estimate.
    pub open spec fn linearizes<
        F: Fn(Binary32, Binary32) -> Binary32,
        D: Fn(Binary32, Binary32) -> Binary32,
        H: Fn(Binary32) -> Binary32,
        J: Fn(Binary32) -> Binary32,
    >(param: EkfParam<F, D, H, J>, x: Binary32, u: Binary32, model: EkfLinearization) -> bool {
        &&& param.f->0.ensures((x, u), model.x_pred)
        &&& param.df_dx->0.ensures((x, u), model.f_jac)
        &&& param.h->0.ensures((model.x_pred,), model.h_value)
        &&& param.dh_dx->0.ensures((model.x_pred,), model.h_jac)
    }

    /// What a step with a model may lead to; without a model nothing changes.
    #[verifier::opaque]
    pub open spec fn steps_to<
        F: Fn(Binary32, Binary32) -> Binary32,
        D: Fn(Binary32, Binary32) -> Binary32,
        H: Fn(Binary32) -> Binary32,
        J: Fn(Binary32) -> Binary32,
    >(
        self,
        param: EkfParam<F, D, H, J>,
        u: Binary32,
        measurement: Binary32,
        next: EkfState,
    ) -> bool {
        if param.complete() {
            exists|model: EkfLinearization| #[trigger]
                EkfState::linearizes(param, self.x, u, model) && next == self.updated(
                    param.q,
                    param.r,
                    model,
                    measurement,
                )
        } else {
            next == self
        }
    }

    /// A filter with an estimate and a variance.
    pub fn new(initial_x: Binary32, initial_p: Binary32) -> (r: EkfState)
        ensures
            r == EkfState::started(initial_x, initial_p),
    {
        EkfState { x: initial_x, p: initial_p, k: b32(ZERO), residual: b32(ZERO) }
    }

    /// Starts again with an estimate and a variance.
    pub fn reset(&mut self, x: Binary32, p: Binary32)
        ensures
            *final(self) == EkfState::started(x, p),
    {
        *self = EkfState::new(x, p);
    }

    /// Predicts and corrects along a linearized model, and returns the estimate.
    pub fn update_linearized(
        &mut self,
        q: Binary32,
        r: Binary32,
        model: EkfLinearization,
        measurement: Binary32,
    ) -> (estimate: Binary32)
        ensures
            *final(self) == old(self).updated(q, r, model, measurement),
            estimate == final(self).x,
    {
        let p_pred: Binary32 = model.f_jac * self.p * model.f_jac + q;
        let s: Binary32 = nonzero_or_one(model.h_jac * p_pred * model.h_jac + r);
        self.k = p_pred * model.h_jac / s;
        self.residual = measurement - model.h_value;
        self.x = model.x_pred + self.k * self.residual;
        self.p = (b32(ONE) - self.k * model.h_jac) * p_pred;
        self.x
    }

    /// Predicts under an input, corrects by a measurement and returns the estimate; 0
    /// without a model.
    pub fn update<
        F: Fn(Binary32, Binary32) -> Binary32,
        D: Fn(Binary32, Binary32) -> Binary32,
        H: Fn(Binary32) -> Binary32,
        J: Fn(Binary32) -> Binary32,
    >(
        &mut self,
        param: &EkfParam<F, D, H, J>,
        u: Binary32,
        measurement: Binary32,
    ) -> (r: Binary32)
        requires
            param.defined(),
        ensures
            old(self).steps_to(*param, u, measurement, *final(self)),
            r == (if param.complete() {
                final(self).x
            } else {
                b32(ZERO)
            }),
    {
        proof {
            reveal(EkfState::steps_to);
        }
        if let (Some(f), Some(df_dx), Some(h), Some(dh_dx)) = (
            &param.f,
            &param.df_dx,
            &param.h,
            &param.dh_dx,
        ) {
            let x_pred: Binary32 = f(self.x, u);
            let f_jac: Binary32 = df_dx(self.x, u);
            let h_value: Binary32 = h(x_pred);
            let h_jac: Binary32 = dh_dx(x_pred);
            let model: EkfLinearization = EkfLinearization { x_pred, f_jac, h_value, h_jac };
            assert(EkfState::linearizes(*param, self.x, u, model));
            self.update_linearized(param.q, param.r, model, measurement)
        } else {
            b32(ZERO)
        }
    }
}

/// Parameters of the filter and of the current loop.
#[derive(Clone, Copy)]
pub struct EkfFocParam<F, D, H, J> {
    pub ekf: EkfParam<F, D, H, J>,
    pub foc: FocBasicParam,
}

/// A controller whose gains, period and limits are zero.
pub open spec fn no_gains() -> PiParam {
    PiParam {
        kp: b32(ZERO),
        ki: b32(ZERO),
        ts: b32(ZERO),
        out_min: b32(ZERO),
        out_max: b32(ZERO),
        integrator_min: b32(ZERO),
        integrator_max: b32(ZERO),
    }
}

impl<F, D, H, J> Default for EkfFocParam<F, D, H, J> {
    /// No model, no noise, no gains and no bus voltage.
    fn default() -> (r: EkfFocParam<F, D, H, J>)
        ensures
            r.ekf.f is None && r.ekf.df_dx is None && r.ekf.h is None && r.ekf.dh_dx is None,
            r.ekf.q == b32(ZERO) && r.ekf.r == b32(ZERO),
            r.foc.id_pi == no_gains(),
            r.foc.iq_pi == no_gains(),
            r.foc.svpwm.v_bus == b32(ZERO),
    {
        let none: PiParam = PiParam {
            kp: b32(ZERO),
            ki: b32(ZERO),
            ts: b32(ZERO),
            out_min: b32(ZERO),
            out_max: b32(ZERO),
            integrator_min: b32(ZERO),
            integrator_max: b32(ZERO),
        };
        EkfFocParam {
            ekf: EkfParam::default(),
            foc: FocBasicParam {
                id_pi: none,
                iq_pi: none,
                svpwm: SvpwmParam { v_bus: b32(ZERO) },
            },
        }
    }
}

/// Inputs of the filter and of the current loop, whose angle is not used.
#[derive(Clone, Copy, Debug, Default, PartialEq)]
pub struct EkfFocInput {
    /// Input of the model.
    pub ekf_u: Binary32,
    /// Measured angle.
    pub theta_measurement_rad: Binary32,
    pub foc: FocBasicInput,
}

/// Extended filter whose estimate is the angle of the current loop.
#[derive(Clone, Copy, Debug, PartialEq)]
pub struct EkfFocState {
    pub ekf: EkfState,
    pub foc: FocBasicState,
    /// Estimated angle in the first revolution.
    pub theta_rad: Binary32,
    /// Last duties.
    pub pwm: SvpwmOutput,
}

impl EkfFocState {
    /// Both inner states initial, angle zero and all duties zero.
    pub open spec fn initial() -> EkfFocState {
        EkfFocState {
            ekf: EkfState::initial(),
            foc: FocBasicState::initial(),
            theta_rad: b32(ZERO),
            pwm: SvpwmOutput { duty_a: b32(ZERO), duty_b: b32(ZERO), duty_c: b32(ZERO), sector: 0 },
        }
    }
}

impl Default for EkfFocState {
    fn default() -> (r: EkfFocState)
        ensures
            r == EkfFocState::initial(),
    {
        EkfFocState {
            ekf: EkfState::default(),
            foc: FocBasicState::default(),
            theta_rad: b32(ZERO),
            pwm: SvpwmOutput { duty_a: b32(ZERO), duty_b: b32(ZERO), duty_c: b32(ZERO), sector: 0 },
        }
    }
}

impl EkfFocState {
    /// The state with an angle and a variance, and the duties at the centre of the bus.
    pub open spec fn started(theta_rad: Binary32, p: Binary32) -> EkfFocState {
        EkfFocState {
            ekf: EkfState::started(theta_rad, p),
            foc: FocBasicState::initial(),
            theta_rad: wrapped_angle(theta_rad),
            pwm: SvpwmOutput::initial(),
        }
    }

    /// The input of the current loop at an angle.
    pub open spec fn current_input(input: EkfFocInput, theta_rad: Binary32) -> FocBasicInput {
        FocBasicInput { theta_e_rad: theta_rad, ..input.foc }
    }

    /// The state with the filter after its step with result `estimate`, and the current loop
    /// after its step at that angle, for the sine and cosine of the angle.
    #[verifier::opaque]
    pub open spec fn joined(
        self,
        foc_param: FocBasicParam,
        input: EkfFocInput,
        ekf: EkfState,
        estimate: Binary32,
        sin: Binary32,
        cos: Binary32,
    ) -> EkfFocState {
        let theta_rad = wrapped_angle(estimate);
        let foc = self.foc.updated(
            foc_param,
            EkfFocState::current_input(input, theta_rad),
            sin,
            cos,
        );
        EkfFocState { ekf, foc, theta_rad, pwm: foc.pwm }
    }

    /// A chain with an angle and a variance.
    pub fn new(initial_theta_rad: Binary32, initial_p: Binary32) -> (r: EkfFocState)
        requires
            wrappable(initial_theta_rad),
        ensures
            r == EkfFocState::started(initial_theta_rad, initial_p),
    {
        let mut state: EkfFocState = EkfFocState::default();
        state.reset(initial_theta_rad, initial_p);
        state
    }

    /// Starts again with an angle and a variance.
    pub fn reset(&mut self, theta_rad: Binary32, p: Binary32)
        requires
            wrappable(theta_rad),
        ensures
            *final(self) == EkfFocState::started(theta_rad, p),
    {
        self.ekf.reset(theta_rad, p);
        self.foc.reset();
        self.theta_rad = wrap_angle_0_to_2pi(theta_rad);
        self.pwm = SvpwmOutput::default();
    }

    /// Makes one step of the current loop at the angle that the filter estimated, given its
    /// sine and cosine.
    pub fn update_rotated(
        &mut self,
        foc_param: &FocBasicParam,
        input: &EkfFocInput,
        estimate: Binary32,
        sin: Binary32,
        cos: Binary32,
    ) -> (r: SvpwmOutput)
        requires
            wrappable(estimate),
        ensures
            *final(self) == old(self).joined(
                *foc_param,
                *input,
                old(self).ekf,
                estimate,
                sin,
                cos,
            ),
            final(self).ekf == old(self).ekf,
            final(self).theta_rad == wrapped_angle(estimate),
            r == final(self).pwm,
    {
        proof {
            reveal(EkfFocState::joined);
        }
        self.theta_rad = wrap_angle_0_to_2pi(estimate);
        let mut foc_input: FocBasicInput = input.foc;
        foc_input.theta_e_rad = self.theta_rad;
        self.pwm = self.foc.update_rotated(foc_param, &foc_input, sin, cos);
        self.pwm
    }

    /// The result of the filter after a step: its estimate, or 0 without a model.
    pub open spec fn estimate<
        F: Fn(Binary32, Binary32) -> Binary32,
        D: Fn(Binary32, Binary32) -> Binary32,
        H: Fn(Binary32) -> Binary32,
        J: Fn(Binary32) -> Binary32,
    >(param: EkfParam<F, D, H, J>, ekf: EkfState) -> Binary32 {
        if param.complete() {
            ekf.x
        } else {
            b32(ZERO)
        }
    }

    /// Makes one step of the filter and of the current loop, and returns the duties.
    pub fn update<
        F: Fn(Binary32, Binary32) -> Binary32,
        D: Fn(Binary32, Binary32) -> Binary32,
        H: Fn(Binary32) -> Binary32,
        J: Fn(Binary32) -> Binary32,
        S: Fn(Binary32) -> Binary32,
        C: Fn(Binary32) -> Binary32,
    >(
        &mut self,
        param: &EkfFocParam<F, D, H, J>,
        input: &EkfFocInput,
        sin: &S,
        cos: &C,
    ) -> (r: SvpwmOutput)
        requires
            param.ekf.defined(),
            forall|next: EkfState| #[trigger]
                old(self).ekf.steps_to(
                    param.ekf,
                    input.ekf_u,
                    input.theta_measurement_rad,
                    next,
                ) ==> wrappable(EkfFocState::estimate(param.ekf, next)),
            total(*sin),
            total(*cos),
        ensures
            old(self).ekf.steps_to(
                param.ekf,
                input.ekf_u,
                input.theta_measurement_rad,
                final(self).ekf,
            ),
            exists|s: Binary32, c: Binary32|
                sin.ensures((final(self).theta_rad,), s) && cos.ensures(
                    (final(self).theta_rad,),
                    c,
                ) && *final(self) == old(self).joined(
                    param.foc,
                    *input,
                    final(self).ekf,
                    EkfFocState::estimate(param.ekf, final(self).ekf),
                    s,
                    c,
                ),
            exists|s: Binary32, c: Binary32|
                sin.ensures((final(self).theta_rad,), s) && cos.ensures(
                    (final(self).theta_rad,),
                    c,
                ) && turns_with(final(self).foc, s, c),
            r == final(self).pwm,
    {
        let estimate: Binary32 = self.ekf.update(
            &param.ekf,
            input.ekf_u,
            input.theta_measurement_rad,
        );
        let theta: Binary32 = wrap_angle_0_to_2pi(estimate);
        let s: Binary32 = sin(theta);
        let c: Binary32 = cos(theta);
        let pwm: SvpwmOutput = self.update_rotated(&param.foc, input, estimate, s, c);
        proof {
            reveal(EkfFocState::joined);
            assert(*self == old(self).joined(param.foc, *input, self.ekf, estimate, s, c));
            let current_input = EkfFocState::current_input(*input, theta);
            foc_turns_with_rotor(old(self).foc, param.foc, current_input, s, c);
            assert(turns_with(self.foc, s, c));
        }
        pwm
    }
}

/// Plain functions as next state of the unscented filter.
pub type UkfStateFunction = fn(Binary32, Binary32) -> Binary32;

/// Plain functions as measurement of the unscented filter.
pub type UkfMeasureFunction = fn(Binary32) -> Binary32;

/// Model, noise and spread of the unscented filter. Without one of the two functions there
/// is no model.
#[derive(Clone, Copy)]
pub struct UkfParam<F, H> {
    /// Next state under an input.
    pub f: Option<F>,
    /// Measurement of a state.
    pub h: Option<H>,
    /// Process noise variance.
    pub q: Binary32,
    /// Measurement noise variance.
    pub r: Binary32,
    /// Spread of the points.
    pub alpha: Binary32,
    /// Weight of prior knowledge in the variance of the central point.
    pub beta: Binary32,
    /// Second spread parameter.
    pub kappa: Binary32,
}

impl<F, H> Default for UkfParam<F, H> {
    /// No model, no noise and no spread.
    fn default() -> (r: UkfParam<F, H>)
        ensures
            r.f is None && r.h is None,
            r.q == b32(ZERO) && r.r == b32(ZERO),
            r.alpha == b32(ZERO) && r.beta == b32(ZERO) && r.kappa == b32(ZERO),
    {
        UkfParam {
            f: None,
            h: None,
            q: b32(ZERO),
            r: b32(ZERO),
            alpha: b32(ZERO),
            beta: b32(ZERO),
            kappa: b32(ZERO),
        }
    }
}

/// Noise and spread of the unscented filter, without its model.
#[derive(Clone, Copy, Debug)]
pub struct UkfNoise {
    pub q: Binary32,
    pub r: Binary32,
    pub alpha: Binary32,
    pub beta: Binary32,
    pub kappa: Binary32,
}

impl UkfNoise {
    /// The spread in effect: a small one in place of zero or less.
    pub open spec fn spread(self) -> Binary32 {
        if self.alpha <= b32(ZERO) {
            b32(MIN_SPREAD)
        } else {
            self.alpha
        }
    }

    /// The scaling parameter.
    pub open spec fn lambda(self) -> Binary32 {
        self.spread() * self.spread() * (b32(ONE) + self.kappa) - b32(ONE)
    }

    /// The scale of the spread: a small one in place of zero or less.
    pub open spec fn scale(self) -> Binary32 {
        if b32(ONE) + self.lambda() <= b32(ZERO) {
            b32(MIN_SPREAD)
        } else {
            b32(ONE) + self.lambda()
        }
    }

    /// The weight of the central point in a mean.
    pub open spec fn mean_weight(self) -> Binary32 {
        self.lambda() / self.scale()
    }

    /// The weight of the central point in a variance.
    pub open spec fn variance_weight(self) -> Binary32 {
        self.mean_weight() + (b32(ONE) - self.spread() * self.spread() + self.beta)
    }

    /// The weight of an outer point.
    pub open spec fn outer_weight(self) -> Binary32 {
        b32(HALF) / self.scale()
    }

    /// The weighted mean of three values, the central one first.
    pub open spec fn mean(self, v: (Binary32, Binary32, Binary32)) -> Binary32 {
        self.mean_weight() * v.0 + self.outer_weight() * v.1 + self.outer_weight() * v.2
    }

    /// A weighted sum of three products of deviations, added to a base.
    pub open spec fn variance(
        self,
        base: Binary32,
        d: (Binary32, Binary32, Binary32),
    ) -> Binary32 {
        base + self.variance_weight() * d.0 * d.0 + self.outer_weight() * d.1 * d.1
            + self.outer_weight() * d.2 * d.2
    }

    /// A weighted sum of three products of two kinds of deviations.
    pub open spec fn covariance(
        self,
        d: (Binary32, Binary32, Binary32),
        e: (Binary32, Binary32, Binary32),
    ) -> Binary32 {
        self.variance_weight() * d.0 * e.0 + self.outer_weight() * d.1 * e.1 + self.outer_weight()
            * d.2 * e.2
    }
}

/// Three values less their mean.
pub open spec fn deviations(v: (Binary32, Binary32, Binary32), mean: Binary32) -> (
    Binary32,
    Binary32,
    Binary32,
) {
    (v.0 - mean, v.1 - mean, v.2 - mean)
}

impl<F: Fn(Binary32, Binary32) -> Binary32, H: Fn(Binary32) -> Binary32> UkfParam<F, H> {
    /// Whether both functions are there.
    pub open spec fn complete(self) -> bool {
        self.f is Some && self.h is Some
    }

    /// Whether the functions that are there are defined everywhere.
    pub open spec fn defined(self) -> bool {
        &&& self.f is Some ==> total_pair(self.f->0)
        &&& self.h is Some ==> total(self.h->0)
    }

    /// The parameters without the model.
    pub open spec fn noise_part(self) -> UkfNoise {
        UkfNoise {
            q: self.q,
            r: self.r,
            alpha: self.alpha,
            beta: self.beta,
            kappa: self.kappa,
        }
    }

    /// The parameters without the model.
    pub fn noise(&self) -> (r: UkfNoise)
        ensures
            r == self.noise_part(),
    {
        UkfNoise {
            q: self.q,
            r: self.r,
            alpha: self.alpha,
            beta: self.beta,
            kappa: self.kappa,
        }
    }
}

/// Estimate and variance of one state of a nonlinear model.
#[derive(Clone, Copy, Debug, PartialEq)]
pub struct UkfState {
    /// Estimate.
    pub x: Binary32,
    /// Its variance.
    pub p: Binary32,
    /// Last gain.
    pub k: Binary32,
    /// Last measurement less its prediction.
    pub residual: Binary32,
}

impl UkfState {
    /// Estimate and variance zero.
    pub open spec fn initial() -> UkfState {
        UkfState {
            x: b32(ZERO),
            p: b32(ZERO),
            k: b32(ZERO),
            residual: b32(ZERO),
        }
    }
}

impl Default for UkfState {
    fn default() -> (r: UkfState)
        ensures
            r == UkfState::initial(),
    {
        UkfState {
            x: b32(ZERO),
            p: b32(ZERO),
            k: b32(ZERO),
            residual: b32(ZERO),
        }
    }
}

impl UkfState {
    /// The state with an estimate and a variance.
    pub open spec fn started(x: Binary32, p: Binary32) -> UkfState {
        UkfState { x, p, k: b32(ZERO), residual: b32(ZERO) }
    }

    /// The points at which the model is evaluated: the estimate and one on either side.
    pub open spec fn points(self, noise: UkfNoise) -> (Binary32, Binary32, Binary32) {
        let reach = sqrt_of(noise.scale() * self.p);
        (self.x, self.x + reach, self.x - reach)
    }

    /// The state after prediction and correction, for the next states of the three points
    /// and the measurements of those.
    pub open spec fn updated(
        noise: UkfNoise,
        moved: (Binary32, Binary32, Binary32),
        seen: (Binary32, Binary32, Binary32),
        measurement: Binary32,
    ) -> UkfState {
        let x_pred = noise.mean(moved);
        let z_pred = noise.mean(seen);
        let p_pred = noise.variance(noise.q, deviations(moved, x_pred));
        let pz = nonzero(noise.variance(noise.r, deviations(seen, z_pred)));
        let pxz = noise.covariance(deviations(moved, x_pred), deviations(seen, z_pred));
        let k = pxz / pz;
        let residual = measurement - z_pred;
        UkfState { x: x_pred + k * residual, p: p_pred - k * pz * k, k, residual }
    }

    /// A filter with an estimate and a variance.
    pub fn new(initial_x: Binary32, initial_p: Binary32) -> (r: UkfState)
        ensures
            r == UkfState::started(initial_x, initial_p),
    {
        UkfState { x: initial_x, p: initial_p, k: b32(ZERO), residual: b32(ZERO) }
    }

    /// Starts again with an estimate and a variance.
    pub fn reset(&mut self, x: Binary32, p: Binary32)
        ensures
            *final(self) == UkfState::started(x, p),
    {
        *self = UkfState::new(x, p);
    }

    /// The points at which the model is to be evaluated.
    pub fn sigma_points(&self, noise: &UkfNoise) -> (r: (Binary32, Binary32, Binary32))
        ensures
            r == self.points(*noise),
    {
        let alpha: Binary32 = if noise.alpha <= b32(ZERO) {
            b32(MIN_SPREAD)
        } else {
            noise.alpha
        };
        let lambda: Binary32 = alpha * alpha * (b32(ONE) + noise.kappa) - b32(ONE);
        let mut scale: Binary32 = b32(ONE) + lambda;
        if scale <= b32(ZERO) {
            scale = b32(MIN_SPREAD);
        }
        let sqrt_scale_p: Binary32 = (scale * self.p).sqrt();
        (self.x, self.x + sqrt_scale_p, self.x - sqrt_scale_p)
    }

    /// Predicts and corrects from the next states of the three points and the measurements
    /// of those, and returns the estimate.
    pub fn update_from_points(
        &mut self,
        noise: &UkfNoise,
        moved: (Binary32, Binary32, Binary32),
        seen: (Binary32, Binary32, Binary32),
        measurement: Binary32,
    ) -> (r: Binary32)
        ensures
            *final(self) == UkfState::updated(*noise, moved, seen, measurement),
            r == final(self).x,
    {
        let alpha: Binary32 = if noise.alpha <= b32(ZERO) {
            b32(MIN_SPREAD)
        } else {
            noise.alpha
        };
        let lambda: Binary32 = alpha * alpha * (b32(ONE) + noise.kappa) - b32(ONE);
        let mut scale: Binary32 = b32(ONE) + lambda;
        if scale <= b32(ZERO) {
            scale = b32(MIN_SPREAD);
        }
        let wm0: Binary32 = lambda / scale;
        let wc0: Binary32 = wm0 + (b32(ONE) - alpha * alpha + noise.beta);
        let wi: Binary32 = b32(HALF) / scale;
        let x_pred: Binary32 = wm0 * moved.0 + wi * moved.1 + wi * moved.2;
        let mut p_pred: Binary32 = noise.q;
        p_pred = p_pred + wc0 * (moved.0 - x_pred) * (moved.0 - x_pred);
        p_pred = p_pred + wi * (moved.1 - x_pred) * (moved.1 - x_pred);
        p_pred = p_pred + wi * (moved.2 - x_pred) * (moved.2 - x_pred);
        let z_pred: Binary32 = wm0 * seen.0 + wi * seen.1 + wi * seen.2;
        let mut pz: Binary32 = noise.r;
        pz = pz + wc0 * (seen.0 - z_pred) * (seen.0 - z_pred);
        pz = pz + wi * (seen.1 - z_pred) * (seen.1 - z_pred);
        pz = pz + wi * (seen.2 - z_pred) * (seen.2 - z_pred);
        let mut pxz: Binary32 = wc0 * (moved.0 - x_pred) * (seen.0 - z_pred);
        pxz = pxz + wi * (moved.1 - x_pred) * (seen.1 - z_pred);
        pxz = pxz + wi * (moved.2 - x_pred) * (seen.2 - z_pred);
        pz = nonzero_or_one(pz);
        self.k = pxz / pz;
        self.residual = measurement - z_pred;
        self.x = x_pred + self.k * self.residual;
        self.p = p_pred - self.k * pz * self.k;
        self.x
    }

    /// Whether a model may have moved and measured the three points of a state.
    pub open spec fn evaluates<
        F: Fn(Binary32, Binary32) -> Binary32,
        H: Fn(Binary32) -> Binary32,
    >(
        self,
        param: UkfParam<F, H>,
        u: Binary32,
        moved: (Binary32, Binary32, Binary32),
        seen: (Binary32, Binary32, Binary32),
    ) -> bool {
        let at = self.points(param.noise_part());
        &&& param.f->0.ensures((at.0, u), moved.0)
        &&& param.f->0.ensures((at.1, u), moved.1)
        &&& param.f->0.ensures((at.2, u), moved.2)
        &&& param.h->0.ensures((moved.0,), seen.0)
        &&& param.h->0.ensures((moved.1,), seen.1)
        &&& param.h->0.ensures((moved.2,), seen.2)
    }

    /// Predicts under an input, corrects by a measurement and returns the estimate; 0
    /// without a model.
    pub fn update<F: Fn(Binary32, Binary32) -> Binary32, H: Fn(Binary32) -> Binary32>(
        &mut self,
        param: &UkfParam<F, H>,
        u: Binary32,
        measurement: Binary32,
    ) -> (r: Binary32)
        requires
            param.defined(),
        ensures
            !param.complete() ==> *final(self) == *old(self) && r == b32(ZERO),
            param.complete() ==> r == final(self).x && exists|
                moved: (Binary32, Binary32, Binary32),
                seen: (Binary32, Binary32, Binary32),
            | #[trigger]
                old(self).evaluates(*param, u, moved, seen) && *final(self) == UkfState::updated(
                    param.noise_part(),
                    moved,
                    seen,
                    measurement,
                ),
    {
        if let (Some(f), Some(h)) = (&param.f, &param.h) {
            let noise: UkfNoise = param.noise();
            let at: (Binary32, Binary32, Binary32) = self.sigma_points(&noise);
            let m0: Binary32 = f(at.0, u);
            let m1: Binary32 = f(at.1, u);
            let m2: Binary32 = f(at.2, u);
            let s0: Binary32 = h(m0);
            let s1: Binary32 = h(m1);
            let s2: Binary32 = h(m2);
            assert(self.evaluates(*param, u, (m0, m1, m2), (s0, s1, s2)));
            self.update_from_points(&noise, (m0, m1, m2), (s0, s1, s2), measurement)
        } else {
            b32(ZERO)
        }
    }
}

/// A gain for a predicted variance of zero is zero.
proof fn lemma_no_gain(p_pred: Binary32, slope: Binary32, r: Binary32)
    requires
        p_pred.zero(),
        slope.finite(),
        !r.nan(),
    ensures
        gain_of(p_pred, slope, r).zero(),
{
    let left = slope * p_pred;
    product_with_zero_is_zero(slope, p_pred);
    product_with_zero_is_zero(slope, left);
    multiplication_is_commutative(slope, left);
    multiplication_is_commutative(slope, p_pred);
    zero_is_neutral(r, left * slope);
    addition_is_commutative(r, left * slope);
    quotient_of_zero_is_zero(p_pred * slope, nonzero(left * slope + r));
}

/// Without variance and process noise the filter trusts its prediction: no measurement
/// changes the estimate, and the variance stays zero.
pub proof fn kalman_without_variance_trusts_prediction(
    state: KalmanState,
    param: KalmanParam,
    u: Binary32,
    measurement: Binary32,
)
    requires
        state.p.zero(),
        param.q.zero(),
        param.a.finite(),
        param.h.finite(),
        !param.r.nan(),
        !state.predicted(param, u).nan(),
        (measurement - param.h * state.predicted(param, u)).finite(),
    ensures
        state.updated(param, u, measurement).x.same(state.predicted(param, u)),
        state.updated(param, u, measurement).p.zero(),
        state.updated(param, u, measurement).k.zero(),
{
    let x_pred = state.predicted(param, u);
    let p_pred = state.predicted_variance(param);
    let k = gain_of(p_pred, param.h, param.r);
    let residual = measurement - param.h * x_pred;
    product_with_zero_is_zero(param.a, state.p);
    product_with_zero_is_zero(param.a, param.a * state.p);
    multiplication_is_commutative(param.a, param.a * state.p);
    sum_of_zeros_is_zero(param.a * state.p * param.a, param.q);
    lemma_no_gain(p_pred, param.h, param.r);
    product_with_zero_is_zero(residual, k);
    multiplication_is_commutative(residual, k);
    zero_is_neutral(x_pred, k * residual);
    product_with_zero_is_zero(param.h, k);
    multiplication_is_commutative(param.h, k);
    zero_is_neutral(b32(ONE), -(k * param.h));
    product_with_zero_is_zero(b32(ONE) - k * param.h, p_pred);
}

/// A number times a square is not negative unless the number is.
proof fn lemma_square_weight(weight: Binary32, x: Binary32)
    requires
        x >= b32(ZERO),
        !(weight * x * weight).nan(),
    ensures
        weight * x * weight >= b32(ZERO),
{
    lemma_mul_kind(weight, x);
    lemma_mul_kind(weight * x, weight);
    product_follows_signs(weight, x);
    product_follows_signs(weight * x, weight);
}

/// The share of a measurement is not negative.
proof fn lemma_share(p_pred: Binary32, h: Binary32, r: Binary32)
    requires
        p_pred >= b32(ZERO),
        r > b32(ZERO),
        !(gain_of(p_pred, h, r) * h).nan(),
    ensures
        gain_of(p_pred, h, r) * h >= b32(ZERO),
{
    let s = h * p_pred * h + r;
    let k = gain_of(p_pred, h, r);
    lemma_mul_kind(k, h);
    lemma_div_kind(p_pred * h, nonzero(s));
    lemma_sum_kind(h * p_pred * h, r);
    lemma_square_weight(h, p_pred);
    sum_of_non_negatives(h * p_pred * h, r);
    product_follows_signs(p_pred, h);
    quotient_follows_signs(p_pred * h, s);
    product_follows_signs(k, h);
}

/// What remains of one after a share.
proof fn lemma_rest_of_one(share: Binary32)
    requires
        share.within(b32(ZERO), b32(ONE)),
    ensures
        (b32(ONE) - share).within(b32(ZERO), b32(ONE)),
{
    let zero = b32(ZERO);
    let one = b32(ONE);
    lemma_sum_kind(one, -share);
    lemma_sum_kind(one, -one);
    lemma_sum_kind(one, -zero);
    addition_is_commutative(one, -share);
    addition_is_commutative(one, -one);
    addition_is_commutative(one, -zero);
    difference_with_itself_is_zero(one);
    zero_is_neutral(one, -zero);
    addition_keeps_order(-one, -share, one);
    addition_keeps_order(-share, -zero, one);
}

/// With noise variances as they should be, the variance never becomes negative, and a
/// measurement never raises it, wherever the share of the measurement in the state, gain
/// times slope, is at most one after rounding.
pub proof fn kalman_variance_stays_non_negative(
    state: KalmanState,
    param: KalmanParam,
    u: Binary32,
    measurement: Binary32,
)
    requires
        state.p >= b32(ZERO),
        param.q >= b32(ZERO),
        param.r > b32(ZERO),
        state.predicted_variance(param).finite(),
        gain_of(state.predicted_variance(param), param.h, param.r) * param.h <= b32(ONE),
    ensures
        state.updated(param, u, measurement).p.within(
            b32(ZERO),
            state.predicted_variance(param),
        ),
{
    let a = param.a;
    let p_pred = state.predicted_variance(param);
    let share = gain_of(p_pred, param.h, param.r) * param.h;
    lemma_sum_kind(a * state.p * a, param.q);
    lemma_square_weight(a, state.p);
    sum_of_non_negatives(a * state.p * a, param.q);
    lemma_share(p_pred, param.h, param.r);
    lemma_rest_of_one(share);
    fraction_lies_between_zero_and_whole(b32(ONE) - share, p_pred);
}

/// Of a state that is measured directly, the gain lies between 0 and 1, and so does the
/// share of the measurement.
pub proof fn gain_of_direct_measurement_is_fraction(p_pred: Binary32, r: Binary32)
    requires
        p_pred >= b32(ZERO),
        r > b32(ZERO),
        (p_pred + r).finite(),
    ensures
        gain_of(p_pred, b32(ONE), r).within(b32(ZERO), b32(ONE)),
        gain_of(p_pred, b32(ONE), r) * b32(ONE) <= b32(ONE),
{
    let one = b32(ONE);
    one_is_neutral(p_pred);
    multiplication_is_commutative(p_pred, one);
    sum_of_non_negatives(p_pred, r);
    if p_pred.zero() {
        quotient_of_zero_is_zero(p_pred, p_pred + r);
    } else {
        quotient_by_larger_is_fraction(p_pred, p_pred + r);
    }
    one_is_neutral(gain_of(p_pred, one, r));
}

/// A measurement that agrees with its prediction leaves the predicted state.
pub proof fn kalman_keeps_confirmed_prediction(
    state: KalmanState,
    param: KalmanParam,
    u: Binary32,
)
    requires
        (param.h * state.predicted(param, u)).finite(),
        !state.predicted(param, u).nan(),
        gain_of(state.predicted_variance(param), param.h, param.r).finite(),
    ensures
        state.updated(param, u, param.h * state.predicted(param, u)).residual == b32(ZERO),
        state.updated(param, u, param.h * state.predicted(param, u)).x.same(
            state.predicted(param, u),
        ),
{
    let x_pred = state.predicted(param, u);
    let seen = param.h * x_pred;
    let k = gain_of(state.predicted_variance(param), param.h, param.r);
    difference_with_itself_is_zero(seen);
    product_with_zero_is_zero(k, seen - seen);
    zero_is_neutral(x_pred, k * (seen - seen));
}

/// The extended filter is the linear one where its model is linear.
pub proof fn extended_filter_of_linear_model(
    state: KalmanState,
    param: KalmanParam,
    u: Binary32,
    measurement: Binary32,
)
    ensures
        ({
            let linear = state.updated(param, u, measurement);
            let x_pred = state.predicted(param, u);
            let extended = EkfState {
                x: state.x,
                p: state.p,
                k: state.k,
                residual: state.residual,
            }.updated(
                param.q,
                param.r,
                EkfLinearization {
                    x_pred,
                    f_jac: param.a,
                    h_value: param.h * x_pred,
                    h_jac: param.h,
                },
                measurement,
            );
            &&& extended.x == linear.x
            &&& extended.p == linear.p
            &&& extended.k == linear.k
            &&& extended.residual == linear.residual
        }),
{
}

/// While its output agrees with the measurement, the observer follows its model alone.
pub proof fn luenberger_without_error_follows_model(
    state: LuenbergerState,
    param: LuenbergerParam,
    input_u: Binary32,
)
    requires
        state.output(param).finite(),
        param.l0.finite(),
        param.l1.finite(),
        !(param.a00 * state.x0 + param.a01 * state.x1 + param.b0 * input_u).nan(),
        !(param.a10 * state.x0 + param.a11 * state.x1 + param.b1 * input_u).nan(),
    ensures
        ({
            let next = state.updated(param, input_u, state.output(param));
            &&& next.error == b32(ZERO)
            &&& next.x0.same(param.a00 * state.x0 + param.a01 * state.x1 + param.b0 * input_u)
            &&& next.x1.same(param.a10 * state.x0 + param.a11 * state.x1 + param.b1 * input_u)
        }),
{
    let error = b32(ZERO);
    difference_with_itself_is_zero(state.output(param));
    product_with_zero_is_zero(param.l0, error);
    product_with_zero_is_zero(param.l1, error);
    zero_is_neutral(
        param.a00 * state.x0 + param.a01 * state.x1 + param.b0 * input_u,
        param.l0 * error,
    );
    zero_is_neutral(
        param.a10 * state.x0 + param.a11 * state.x1 + param.b1 * input_u,
        param.l1 * error,
    );
}

/// The angle that comes with the currents does not matter: the loop runs at the estimate,
/// wrapped into the first revolution.
pub proof fn estimated_angle_replaces_supplied_one(
    state: EkfFocState,
    foc_param: FocBasicParam,
    input: EkfFocInput,
    supplied: Binary32,
    ekf: EkfState,
    estimate: Binary32,
    sin: Binary32,
    cos: Binary32,
)
    ensures
        state.joined(
            foc_param,
            (EkfFocInput { foc: FocBasicInput { theta_e_rad: supplied, ..input.foc }, ..input }),
            ekf,
            estimate,
            sin,
            cos,
        ) == state.joined(foc_param, input, ekf, estimate, sin, cos),
        wrappable(estimate) ==> angle_or_nan(
            state.joined(foc_param, input, ekf, estimate, sin, cos).theta_rad,
        ),
{
    reveal(EkfFocState::joined);
    if wrappable(estimate) {
        wrapped_angle_is_angle_or_nan(estimate);
    }
}

/// Without variance all three points of the unscented filter are the estimate.
pub proof fn points_coincide_without_variance(state: UkfState, noise: UkfNoise)
    requires
        state.p.zero(),
        noise.scale().finite(),
        !state.x.nan(),
    ensures
        state.points(noise).0 == state.x,
        state.points(noise).1.same(state.x),
        state.points(noise).2.same(state.x),
{
    let square = noise.scale() * state.p;
    reveal(sqrt_of);
    product_with_zero_is_zero(noise.scale(), state.p);
    zero_is_neutral(state.x, sqrt_of(square));
    zero_is_neutral(state.x, -sqrt_of(square));
}

/// A measurement that agrees with its prediction leaves the state that the unscented filter
/// predicted.
pub proof fn unscented_filter_keeps_confirmed_prediction(
    noise: UkfNoise,
    moved: (Binary32, Binary32, Binary32),
    seen: (Binary32, Binary32, Binary32),
)
    requires
        noise.mean(seen).finite(),
        !noise.mean(moved).nan(),
        UkfState::updated(noise, moved, seen, noise.mean(seen)).k.finite(),
    ensures
        UkfState::updated(noise, moved, seen, noise.mean(seen)).residual == b32(ZERO),
        UkfState::updated(noise, moved, seen, noise.mean(seen)).x.same(noise.mean(moved)),
{
    let next = UkfState::updated(noise, moved, seen, noise.mean(seen));
    difference_with_itself_is_zero(noise.mean(seen));
    product_with_zero_is_zero(next.k, next.residual);
    zero_is_neutral(noise.mean(moved), next.k * next.residual);
}

} // verus!
