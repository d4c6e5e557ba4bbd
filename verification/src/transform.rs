//! Coordinate transforms between the three phases, the stationary frame and the rotor
//! frame.
use vstd::prelude::*;
use crate::arithmetic::addition_is_commutative;
use crate::arithmetic::negation_is_an_involution;
use crate::arithmetic::one_is_neutral;
use crate::arithmetic::product_with_zero_is_zero;
use crate::arithmetic::zero_is_neutral;
use crate::binary32::b32;
use crate::binary32::Binary32;
use crate::binary32::HALF;
use crate::binary32::MINUS_HALF;
use crate::binary32::ONE;
use crate::binary32::ZERO;
use crate::math::INV_SQRT_3;
use crate::math::SQRT_3;

verus! {

/// Quantities of the three phases.
#[derive(Clone, Copy, Debug, PartialEq)]
pub struct Abc {
    pub a: Binary32,
    pub b: Binary32,
    pub c: Binary32,
}

impl Abc {
    /// All phases zero.
    pub open spec fn initial() -> Abc {
        Abc {
            a: b32(ZERO),
            b: b32(ZERO),
            c: b32(ZERO),
        }
    }
}

impl Default for Abc {
    fn default() -> (r: Abc)
        ensures
            r == Abc::initial(),
    {
        Abc {
            a: b32(ZERO),
            b: b32(ZERO),
            c: b32(ZERO),
        }
    }
}

/// A vector in the stationary frame; `alpha` lies on phase a.
#[derive(Clone, Copy, Debug, PartialEq)]
pub struct AlphaBeta {
    pub alpha: Binary32,
    pub beta: Binary32,
}

impl AlphaBeta {
    /// The zero vector.
    pub open spec fn initial() -> AlphaBeta {
        AlphaBeta {
            alpha: b32(ZERO),
            beta: b32(ZERO),
        }
    }
}

impl Default for AlphaBeta {
    fn default() -> (r: AlphaBeta)
        ensures
            r == AlphaBeta::initial(),
    {
        AlphaBeta {
            alpha: b32(ZERO),
            beta: b32(ZERO),
        }
    }
}

/// A vector in the rotor frame; `d` lies on the rotor flux and `q` leads it by a quarter
/// revolution.
#[derive(Clone, Copy, Debug, PartialEq)]
pub struct Dq {
    pub d: Binary32,
    pub q: Binary32,
}

impl Dq {
    /// The zero vector.
    pub open spec fn initial() -> Dq {
        Dq {
            d: b32(ZERO),
            q: b32(ZERO),
        }
    }
}

impl Default for Dq {
    fn default() -> (r: Dq)
        ensures
            r == Dq::initial(),
    {
        Dq {
            d: b32(ZERO),
            q: b32(ZERO),
        }
    }
}

/// Three phases as a vector of the same amplitude: `alpha` is phase a, `beta` the scaled
/// difference of phases b and c.
pub open spec fn clarke_of(v: Abc) -> AlphaBeta {
    AlphaBeta { alpha: v.a, beta: (v.b - v.c) * b32(INV_SQRT_3) }
}

/// Turns three phase quantities into a stationary vector of the same amplitude.
pub fn clarke(v: Abc) -> (r: AlphaBeta)
    ensures
        r == clarke_of(v),
{
    AlphaBeta { alpha: v.a, beta: (v.b - v.c) * b32(INV_SQRT_3) }
}

/// A stationary vector as three phases of the same amplitude.
pub open spec fn inverse_clarke_of(v: AlphaBeta) -> Abc {
    Abc {
        a: v.alpha,
        b: b32(MINUS_HALF) * v.alpha + b32(HALF) * b32(SQRT_3) * v.beta,
        c: b32(MINUS_HALF) * v.alpha - b32(HALF) * b32(SQRT_3) * v.beta,
    }
}

/// Turns a stationary vector into three phase quantities of the same amplitude.
pub fn inverse_clarke(v: AlphaBeta) -> (r: Abc)
    ensures
        r == inverse_clarke_of(v),
{
    Abc {
        a: v.alpha,
        b: b32(MINUS_HALF) * v.alpha + b32(HALF) * b32(SQRT_3) * v.beta,
        c: b32(MINUS_HALF) * v.alpha - b32(HALF) * b32(SQRT_3) * v.beta,
    }
}

/// A stationary vector seen from a rotor at the angle with the given sine and cosine.
pub open spec fn park_of(v: AlphaBeta, sin: Binary32, cos: Binary32) -> Dq {
    Dq { d: v.alpha * cos + v.beta * sin, q: v.beta * cos - v.alpha * sin }
}

/// Turns a stationary vector into the rotor frame.
pub fn park(v: AlphaBeta, sin: Binary32, cos: Binary32) -> (r: Dq)
    ensures
        r == park_of(v, sin, cos),
{
    Dq { d: v.alpha * cos + v.beta * sin, q: v.beta * cos - v.alpha * sin }
}

/// A rotor-frame vector seen from the stationary frame.
pub open spec fn inverse_park_of(v: Dq, sin: Binary32, cos: Binary32) -> AlphaBeta {
    AlphaBeta { alpha: v.d * cos - v.q * sin, beta: v.d * sin + v.q * cos }
}

/// Turns a rotor-frame vector into the stationary frame.
pub fn inverse_park(v: Dq, sin: Binary32, cos: Binary32) -> (r: AlphaBeta)
    ensures
        r == inverse_park_of(v, sin, cos),
{
    AlphaBeta { alpha: v.d * cos - v.q * sin, beta: v.d * sin + v.q * cos }
}

/// Phase a survives the way into the stationary frame and back, bit for bit.
pub proof fn phase_a_survives_both_ways(v: Abc)
    ensures
        inverse_clarke_of(clarke_of(v)).a == v.a,
{
}

/// At angle zero the two frames coincide: neither direction changes a finite vector.
pub proof fn frames_coincide_at_angle_zero(v: AlphaBeta, w: Dq)
    requires
        v.alpha.finite(),
        v.beta.finite(),
        w.d.finite(),
        w.q.finite(),
    ensures
        park_of(v, b32(ZERO), b32(ONE)).d.same(v.alpha),
        park_of(v, b32(ZERO), b32(ONE)).q.same(v.beta),
        inverse_park_of(w, b32(ZERO), b32(ONE)).alpha.same(w.d),
        inverse_park_of(w, b32(ZERO), b32(ONE)).beta.same(w.q),
{
    lemma_kept_term(v.alpha, v.beta);
    lemma_kept_term(v.beta, v.alpha);
    lemma_kept_term(w.d, w.q);
    lemma_kept_term(w.q, w.d);
}

/// A number times one, plus or minus a number times zero, is the first number.
proof fn lemma_kept_term(x: Binary32, y: Binary32)
    requires
        x.finite(),
        y.finite(),
    ensures
        (x * b32(ONE) + y * b32(ZERO)).same(x),
        (y * b32(ZERO) + x * b32(ONE)).same(x),
        (x * b32(ONE) - y * b32(ZERO)).same(x),
{
    one_is_neutral(x);
    product_with_zero_is_zero(y, b32(ZERO));
    negation_is_an_involution(y * b32(ZERO));
    zero_is_neutral(x, y * b32(ZERO));
    zero_is_neutral(x, -(y * b32(ZERO)));
    addition_is_commutative(x, y * b32(ZERO));
}

} // verus!
