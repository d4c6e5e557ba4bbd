# foc_algorithm

Verified algorithms for field-oriented motor control: Clarke and Park transforms, space
vector, sine and discontinuous modulation, six-step commutation, P to PID and cascaded
controllers, active disturbance rejection, sliding-mode, predictive, fuzzy and adaptive
control, phase-locked loops, sliding-mode, flux and induced-voltage observers, signal
injection, Kalman filters, inverter losses, a genetic search and two small learners.

Every number is an IEEE 754 binary32 value that the library computes on its encoding, with
rounding to nearest even. The contracts state every result bit for bit, over the same
operations as spec functions, so what is proved holds of rounded numbers, not of reals.

## Layout

- `src/binary32.rs`, `rounding.rs`, `nearest.rs`, `arithmetic.rs`, `square_root.rs`,
  `exact.rs`, `real_rounding.rs`, `near.rs`: the numbers, their operations, the laws of
  rounding, and how far roundings add up from exact reals.
- `src/math.rs`, `angle.rs`, `transform.rs`, `modulation.rs`, `commutation.rs`: angles,
  frames and switching.
- `src/arctangent.rs`: how close the fast arctangent polynomial comes to the arctangent.
- `src/accuracy.rs`, `cordic_accuracy.rs`, `series_accuracy.rs`, `line_voltage.rs`,
  `linear_range.rs`, `fuzzy_mean.rs`: how far rounding takes vectors on the way between
  frames, CORDIC lengths, fast sines and cosines, line voltages behind the modulators, and
  fuzzy means, from the exact ones.
- `src/controller.rs`, `foc.rs`, `adrc.rs`, `advanced_control.rs`, `filter.rs`,
  `inverter.rs`, `genetic.rs`, `learning.rs`: controllers and filters.
- `src/observer.rs`, `src/observer/`: the phase-locked loop and the observers.
- `tests/`: scenarios, laws on concrete values, and comparisons with hardware floats.
- `app/`: a front end in `f32` that supplies the elementary functions of `libm`.

Each step that needs a sine, cosine, arctangent, hyperbolic tangent or power takes the
function as an argument, and has beside it a step that takes the function's result. Laws
are public proof functions next to the code they speak of.

Angles are wrapped by whole revolutions, one at a time, so they must be finite and at most
2^27 in magnitude, or not finite at all. `is_wrappable`, `can_step`, `is_joinable`
and `can_join_at` test such conditions at run time.
