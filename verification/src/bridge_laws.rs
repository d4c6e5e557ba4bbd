//! What modulators and bridge do to exact reals, up to rounding, and how the phases of
//! six-step commutation relate.
use vstd::prelude::*;
use crate::binary32::b32;
use crate::binary32::Binary32;
use crate::binary32::HALF;
use crate::binary32::MINUS_ONE;
use crate::binary32::ONE;
use crate::binary32::THREE;
use crate::binary32::TWO;
use crate::binary32::ZERO;
use crate::commutation::six_step_of;
use crate::equations::is_dead_time_loss;
use crate::equations::is_modulated;
use crate::equations::is_sum;
use crate::equations::lemma_is_dead_time_loss;
use crate::equations::lemma_is_modulated;
use crate::equations::lemma_is_sum;
use crate::equations::lemma_small_constants;
use crate::exact::lemma_scaled;
use crate::exact::real_of;
use crate::exact::size_of_real;
use crate::inverter::dead_time_loss;
use crate::inverter::full_loss;
use crate::inverter::InverterLossParameters;
use crate::inverter::polarity;
use crate::math::clamped;
use crate::math::PI;
use crate::math::TWO_PI;
use crate::modulation::sine_duty;
use crate::modulation::svpwm_of;
use crate::modulation::SvpwmParam;
use crate::modulation::third_turn;
use crate::near::lemma_inverse_powers;
use crate::near::lemma_real_constant;
use crate::rounded_steps::saturation_follows_value;
use crate::running_error::given;
use crate::running_error::given_small;
use crate::running_error::lemma_zero_real;
use crate::running_error::not_limited;
use crate::running_error::off_by;
use crate::running_error::over;
use crate::running_error::strictly_inside;
use crate::running_error::times;
use crate::running_error::tiny;
use crate::transform::AlphaBeta;
use crate::transform::inverse_clarke_of;
use vstd::arithmetic::power2::lemma2_to64;
use vstd::arithmetic::power2::lemma_pow2_strictly_increases;
use vstd::arithmetic::power2::pow2;

verus! {

/// A sine duty that is not at a limit is one half, moved by half the modulation index times
/// the sine.
pub proof fn sine_duty_follows_sine(modulation: Binary32, sine: Binary32)
    requires
        !modulation.nan(),
    ensures
        strictly_inside(sine_duty(modulation, sine), b32(ZERO), b32(ONE)) ==> is_modulated(
            sine_duty(modulation, sine),
            modulation,
            sine,
        ),
{
    let m = clamped(modulation, b32(ZERO), b32(ONE));
    lemma_is_modulated(modulation, sine);
    if strictly_inside(sine_duty(modulation, sine), b32(ZERO), b32(ONE)) {
        not_limited(b32(HALF) + b32(HALF) * m * sine, b32(ZERO), b32(ONE));
    }
}

/// The phases of sine modulation lie a third of a revolution apart.
pub proof fn third_turn_is_third_of_revolution()
    ensures
        third_turn().finite(),
        3real * real_of(third_turn()) - real_of(b32(TWO_PI)) <= 1real / 500000real,
        real_of(b32(TWO_PI)) - 3real * real_of(third_turn()) <= 1real / 500000real,
{
    lemma_inverse_powers();
    lemma_small_constants();
    lemma_real_constant(b32(PI), 0xc9_0fdb, 22);
    lemma_real_constant(b32(TWO_PI), 0xc9_0fdb, 21);
    lemma2_to64();
    let two = given_small(b32(TWO));
    let pi = given(b32(PI));
    let both = times(two, pi);
    let third = over(both, b32(THREE));
    lemma_tiny_is_small();
    let p = 13176795real / 4194304real;
    assert(real_of(b32(PI)) == p && real_of(b32(TWO_PI)) == 2real * p);
    assert(both.exact == 2real * p && both.weight == 2real * p + tiny());
    assert(third.exact == (2real * p) / 3real);
    assert(third.weight == (2real * p + tiny()) / 3real + tiny());
    assert(off_by(third.number, third.exact, third.weight, 2real));
    assert(third.number == third_turn());
}

/// The smallest number with full precision is far below one.
proof fn lemma_tiny_is_small()
    ensures
        0real < tiny() <= 1real / 1000000000real,
{
    let u = pow2(149) as real;
    let h = 1real / u;
    lemma2_to64();
    lemma_pow2_strictly_increases(64, 149);
    assert(h * u == 1real) by (nonlinear_arith)
        requires
            h == 1real / u,
            u > 0real,
    ;
    assert(h > 0real) by (nonlinear_arith)
        requires
            h == 1real / u,
            u > 0real,
    ;
    lemma_scaled(8388608000000000real, u, h);
    assert(u * h == h * u) by (nonlinear_arith);
}

/// The polarity of a current is its sign outside the zero band, and the part of the band
/// that it makes up inside.
pub proof fn polarity_follows_current(current_a: Binary32, band: Binary32)
    requires
        current_a.finite(),
        band.finite(),
    ensures
        ({
            let p = polarity(current_a, band);
            let i = real_of(current_a);
            let b = real_of(band);
            let soft = band > b32(ZERO);
            &&& p.finite()
            &&& !soft && current_a > b32(ZERO) ==> p == b32(ONE)
            &&& !soft && current_a < b32(ZERO) ==> p == b32(MINUS_ONE)
            &&& current_a.zero() ==> p.zero()
            &&& soft && current_a >= band ==> p == b32(ONE)
            &&& soft && current_a <= -band ==> p == b32(MINUS_ONE)
            &&& soft && current_a.size() <= band ==> off_by(
                p,
                i / b,
                size_of_real(i) / b + tiny(),
                1real,
            )
        }),
{
    saturation_follows_value(current_a, band);
}

/// The loss outside the zero band is the bus voltage times twice the part of the period that
/// is dead, and the drop of the devices.
pub proof fn loss_follows_dead_time(parameters: InverterLossParameters, bus: Binary32)
    requires
        parameters.valid(),
    ensures
        ({
            let dead = dead_time_loss(parameters, bus);
            let loss = full_loss(parameters, bus);
            &&& dead.finite() ==> is_dead_time_loss(
                dead,
                parameters.dead_time_s,
                parameters.pwm_period_s,
                bus,
            )
            &&& loss.finite() ==> is_sum(loss, dead, parameters.device_drop_v)
        }),
{
    lemma_zero_real(b32(ZERO));
    lemma_is_dead_time_loss(parameters.dead_time_s, parameters.pwm_period_s, bus);
    lemma_is_sum(dead_time_loss(parameters, bus), parameters.device_drop_v);
}

/// Phase b repeats phase a two sectors later, and phase c four sectors later: the phases lie
/// a third of a revolution apart.
pub proof fn phases_follow_each_other(sector: int)
    ensures
        six_step_of(sector).phase_b == six_step_of(sector - 2).phase_a,
        six_step_of(sector).phase_c == six_step_of(sector - 4).phase_a,
        six_step_of(sector).phase_a == -six_step_of(sector + 3).phase_a,
{
}

/// Phase a drives the motor forward in the first and second of the six sectors, floats in the
/// third and sixth, and drives it back in the others.
pub proof fn first_phase_leads(sector: int)
    ensures
        ({
            let out = six_step_of(sector);
            &&& out.phase_a == 1 <==> out.sector == 1 || out.sector == 2
            &&& out.phase_a == -1 <==> out.sector == 4 || out.sector == 5
            &&& out.phase_a == 0 <==> out.sector == 3 || out.sector == 6
            &&& 1 <= out.sector <= 6
            &&& (out.sector - sector) % 6 == 0
        }),
{
}

/// The sector tells which phases of the vector are positive: one phase alone in an even
/// sector, and that phase with the next of the two neighbours in the odd sectors between.
pub proof fn sector_tells_positive_phases(v: AlphaBeta, param: SvpwmParam)
    requires
        param.v_bus > b32(ZERO),
    ensures
        ({
            let s = svpwm_of(v, param).sector;
            let phases = inverse_clarke_of(v);
            let a = phases.a > b32(ZERO);
            let b = phases.b > b32(ZERO);
            let c = phases.c > b32(ZERO);
            &&& s == 0 <==> a == b && b == c
            &&& a && s != 0 <==> s == 1 || s == 2 || s == 3
            &&& c && s != 0 <==> s == 3 || s == 4 || s == 5
            &&& b && s != 0 <==> s == 5 || s == 6 || s == 1
        }),
{
}

} // verus!
