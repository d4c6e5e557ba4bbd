//! How the filters agree on a linear model.
//!
//! Exact values are reals, measured in units of the states, of the measurements and of
//! their products. Errors are in parts of `2^-23` of the unit.
use vstd::prelude::*;
use crate::accuracy::lemma_around_one;
use crate::arithmetic::addition_is_commutative;
use crate::arithmetic::difference_with_itself_is_zero;
use crate::arithmetic::multiplication_is_commutative;
use crate::arithmetic::one_is_neutral;
use crate::arithmetic::product_with_zero_is_zero;
use crate::arithmetic::quotient_by_one_is_dividend;
use crate::arithmetic::zero_is_neutral;
use crate::binary32::b32;
use crate::binary32::Binary32;
use crate::binary32::HALF;
use crate::binary32::ONE;
use crate::binary32::ZERO;
use crate::exact::about;
use crate::exact::lemma_about_difference;
use crate::exact::lemma_about_itself;
use crate::exact::lemma_about_plain_product;
use crate::exact::lemma_about_product;
use crate::exact::lemma_about_quotient;
use crate::exact::lemma_about_sum;
use crate::exact::lemma_about_zero;
use crate::exact::lemma_at_most_one;
use crate::exact::lemma_moderate_is_usable;
use crate::exact::lemma_moderate_product;
use crate::exact::lemma_scaled;
use crate::exact::lemma_size_of_product;
use crate::exact::lemma_unscaled;
use crate::exact::moderate;
use crate::exact::real_of;
use crate::exact::size_of_real;
use crate::exact::usable;
use crate::nearest::lemma_mag_units_order;
use crate::observer::estimator::deviations;
use crate::observer::estimator::gain_of;
use crate::observer::estimator::KalmanParam;
use crate::observer::estimator::KalmanState;
use crate::observer::estimator::nonzero;
use crate::observer::estimator::UkfNoise;
use crate::observer::estimator::UkfParam;
use crate::observer::estimator::UkfState;
use crate::square_root::sqrt_of;
use crate::square_root::square_root_error_is_small;
use vstd::arithmetic::power2::lemma2_to64;
use vstd::arithmetic::power2::lemma_pow2_pos;
use vstd::arithmetic::power2::pow2;
use vstd::math::abs;

verus! {

/// One half as a real.
pub open spec fn half() -> real {
    1real / 2real
}

/// Numbers that compare equal have the same value.
proof fn lemma_same_value(a: Binary32, b: Binary32)
    requires
        a.same(b),
        b.finite(),
    ensures
        a.finite(),
        a.value() == b.value(),
{
    lemma_mag_units_order(0, 0);
    assert(a.mag() == b.mag());
}

/// The weights of the unscented filter for spread one and no second spread.
proof fn lemma_plain_weights(noise: UkfNoise)
    requires
        noise.alpha == b32(ONE),
        noise.kappa == b32(ZERO),
        noise.beta.finite(),
    ensures
        noise.scale() == b32(ONE),
        noise.mean_weight().zero(),
        noise.outer_weight() == b32(HALF),
        noise.variance_weight().finite(),
        noise.variance_weight().value() == noise.beta.value(),
{
    let one = b32(ONE);
    let zero = b32(ZERO);
    lemma_around_one();
    one_is_neutral(one);
    zero_is_neutral(one, zero);
    difference_with_itself_is_zero(one);
    assert(noise.spread() == one);
    assert(noise.lambda() == zero);
    assert(noise.scale() == one);
    quotient_by_one_is_dividend(zero);
    quotient_by_one_is_dividend(b32(HALF));
    assert(one - one * one == zero);
    zero_is_neutral(noise.beta, zero);
    addition_is_commutative(zero, noise.beta);
    let inner = zero + noise.beta;
    zero_is_neutral(inner, noise.mean_weight());
    addition_is_commutative(noise.mean_weight(), inner);
    lemma_same_value(inner, noise.beta);
    lemma_same_value(noise.mean_weight() + inner, inner);
}

/// The constants one and one half.
proof fn lemma_constants()
    ensures
        about(b32(HALF), 1real, half(), 0real),
        about(b32(ONE), 1real, 1real, 0real),
{
    let u = pow2(149) as real;
    let h = b32(HALF).value() as real;
    lemma_around_one();
    lemma_pow2_pos(149);
    assert(h / u == 1real / 2real) by (nonlinear_arith)
        requires
            2real * h == u,
            u > 0real,
    ;
    assert(u / u == 1real) by (nonlinear_arith)
        requires
            u > 0real,
    ;
    assert(0real * 1real == 0real && half() * 1real == half() && 1real * 1real == 1real);
}

/// The mean of a value and of two on either side of it.
proof fn lemma_mean(
    noise: UkfNoise,
    v: (Binary32, Binary32, Binary32),
    unit: real,
    m: real,
    d: real,
    e0: real,
    e: real,
)
    requires
        noise.mean_weight().zero(),
        noise.outer_weight() == b32(HALF),
        usable(unit),
        about(v.0, unit, m, e0),
        about(v.1, unit, m + d, e),
        about(v.2, unit, m - d, e),
        size_of_real(m) <= 2real,
        size_of_real(d) <= 1real,
        0real <= e <= 100real,
    ensures
        about(noise.mean(v), unit, m, e + 9real),
{
    let h = b32(HALF);
    let none = noise.mean_weight() * v.0;
    let first = h * v.1;
    let second = h * v.2;
    let p = half() * (m + d);
    let q = half() * (m - d);
    lemma_constants();
    assert(1real * unit == unit);
    product_with_zero_is_zero(v.0, noise.mean_weight());
    multiplication_is_commutative(v.0, noise.mean_weight());
    lemma_about_zero(none, unit);
    lemma_half_of(v.1, unit, m + d, e);
    lemma_half_of(v.2, unit, m - d, e);
    lemma_about_sum(none, first, unit, 0real, p, 0real, half() * e + 2real, 2real);
    let part_sum = none + first;
    assert(p + q == m) by (nonlinear_arith)
        requires
            p == (1real / 2real) * (m + d),
            q == (1real / 2real) * (m - d),
    ;
    lemma_about_sum(part_sum, second, unit, p, q, half() * e + 4real, half() * e + 2real, 3real);
}

/// Half of a value up to three.
proof fn lemma_half_of(x: Binary32, unit: real, p: real, e: real)
    requires
        about(x, unit, p, e),
        usable(unit),
        size_of_real(p) <= 3real,
        0real <= e <= 100real,
    ensures
        about(b32(HALF) * x, unit, half() * p, half() * e + 2real),
        2real * size_of_real(half() * p) <= 3real,
{
    lemma_constants();
    assert(1real * unit == unit);
    lemma_size_of_product(half(), p, half(), 3real);
    assert(0real * e == 0real) by (nonlinear_arith);
    lemma_about_product(
        b32(HALF),
        x,
        1real,
        unit,
        half(),
        p,
        0real,
        e,
        half(),
        3real,
        2real,
        half() * e + 2real,
    );
}

/// The next states of the three points under a linear model: `a` times the points plus the
/// part `t` of the input.
proof fn lemma_moved(
    av: Binary32,
    xv: Binary32,
    sv: Binary32,
    tv: Binary32,
    ua: real,
    ux: real,
    a: real,
    x: real,
    s: real,
    t: real,
)
    requires
        ua > 0real,
        usable(ux),
        usable(ua * ux),
        about(av, ua, a, 0real),
        about(xv, ux, x, 0real),
        about(sv, ux, s, 0real),
        about(tv, ua * ux, t, 1real),
        size_of_real(a) <= 1real,
        size_of_real(x) <= 1real,
        size_of_real(s) <= 1real,
        size_of_real(t) <= 1real,
    ensures
        about(av * xv + tv, ua * ux, a * x + t, 6real),
        about(av * (xv + sv) + tv, ua * ux, (a * x + t) + a * s, 10real),
        about(av * (xv - sv) + tv, ua * ux, (a * x + t) - a * s, 10real),
        size_of_real(a * x + t) <= 2real,
        size_of_real(a * s) <= 1real,
{
    let unit = ua * ux;
    lemma_size_of_product(a, x, 1real, 1real);
    lemma_size_of_product(a, s, 1real, 1real);
    lemma_about_product(
        av,
        xv,
        ua,
        ux,
        a,
        x,
        0real,
        0real,
        1real,
        1real,
        2real,
        2real,
    );
    lemma_about_sum(av * xv, tv, unit, a * x, t, 2real, 1real, 3real);
    lemma_about_sum(xv, sv, ux, x, s, 0real, 0real, 2real);
    lemma_about_difference(xv, sv, ux, x, s, 0real, 0real, 2real);
    lemma_moved_side(av, xv + sv, tv, ua, ux, a, x + s, t);
    lemma_moved_side(av, xv - sv, tv, ua, ux, a, x - s, t);
    assert(a * (x + s) + t == (a * x + t) + a * s) by (nonlinear_arith);
    assert(a * (x - s) + t == (a * x + t) - a * s) by (nonlinear_arith);
}

/// The next state of a point off the estimate.
proof fn lemma_moved_side(
    av: Binary32,
    yv: Binary32,
    tv: Binary32,
    ua: real,
    ux: real,
    a: real,
    y: real,
    t: real,
)
    requires
        ua > 0real,
        usable(ux),
        usable(ua * ux),
        about(av, ua, a, 0real),
        about(yv, ux, y, 2real),
        about(tv, ua * ux, t, 1real),
        size_of_real(a) <= 1real,
        size_of_real(y) <= 2real,
        size_of_real(t) <= 1real,
    ensures
        about(av * yv + tv, ua * ux, a * y + t, 10real),
{
    lemma_size_of_product(a, y, 1real, 2real);
    lemma_about_product(
        av,
        yv,
        ua,
        ux,
        a,
        y,
        0real,
        2real,
        1real,
        2real,
        3real,
        5real,
    );
    lemma_about_sum(av * yv, tv, ua * ux, a * y, t, 5real, 1real, 4real);
}

/// The measurements of three states by a factor.
proof fn lemma_seen(
    cv: Binary32,
    v: (Binary32, Binary32, Binary32),
    uc: real,
    unit: real,
    c: real,
    m: real,
    d: real,
)
    requires
        uc > 0real,
        unit > 0real,
        usable(uc * unit),
        about(cv, uc, c, 0real),
        about(v.0, unit, m, 6real),
        about(v.1, unit, m + d, 10real),
        about(v.2, unit, m - d, 10real),
        size_of_real(c) <= 1real,
        size_of_real(m) <= 2real,
        size_of_real(d) <= 1real,
    ensures
        about(cv * v.0, uc * unit, c * m, 9real),
        about(cv * v.1, uc * unit, c * m + c * d, 14real),
        about(cv * v.2, uc * unit, c * m - c * d, 14real),
        size_of_real(c * m) <= 2real,
        size_of_real(c * d) <= 1real,
{
    lemma_size_of_product(c, m, 1real, 2real);
    lemma_size_of_product(c, d, 1real, 1real);
    assert(c * (m + d) == c * m + c * d) by (nonlinear_arith);
    assert(c * (m - d) == c * m - c * d) by (nonlinear_arith);
    lemma_about_product(
        cv,
        v.0,
        uc,
        unit,
        c,
        m,
        0real,
        6real,
        1real,
        2real,
        3real,
        9real,
    );
    lemma_about_product(
        cv,
        v.1,
        uc,
        unit,
        c,
        m + d,
        0real,
        10real,
        1real,
        3real,
        4real,
        14real,
    );
    lemma_about_product(
        cv,
        v.2,
        uc,
        unit,
        c,
        m - d,
        0real,
        10real,
        1real,
        3real,
        4real,
        14real,
    );
}

/// Whether three numbers are deviations: none of the central value, and one to either side.
pub open spec fn deviates(d: (Binary32, Binary32, Binary32), unit: real, exact: real) -> bool {
    &&& about(d.0, unit, 0real, 33real)
    &&& about(d.1, unit, exact, 39real)
    &&& about(d.2, unit, -exact, 39real)
}

/// A larger error.
proof fn lemma_wider(x: Binary32, unit: real, p: real, e: real, wide: real)
    requires
        about(x, unit, p, e),
        e <= wide,
        unit > 0real,
    ensures
        about(x, unit, p, wide),
{
    lemma_scaled(e, wide, unit);
}

/// The deviations of three values from their mean.
proof fn lemma_deviations(
    v: (Binary32, Binary32, Binary32),
    mean: Binary32,
    unit: real,
    m: real,
    d: real,
)
    requires
        usable(unit),
        about(v.0, unit, m, 9real),
        about(v.1, unit, m + d, 14real),
        about(v.2, unit, m - d, 14real),
        about(mean, unit, m, 23real),
        size_of_real(d) <= 1real,
    ensures
        deviates(deviations(v, mean), unit, d),
{
    lemma_about_difference(v.0, mean, unit, m, m, 9real, 23real, 1real);
    lemma_about_difference(v.1, mean, unit, m + d, m, 14real, 23real, 2real);
    lemma_about_difference(v.2, mean, unit, m - d, m, 14real, 23real, 2real);
    assert(m - m == 0real && (m + d) - m == d && (m - d) - m == -d);
}

/// The weighted product of two deviations of the central value is almost zero.
proof fn lemma_central_term(
    wv: Binary32,
    dv: Binary32,
    ev: Binary32,
    ud: real,
    ue: real,
    w: real,
)
    requires
        usable(ud),
        ue > 0real,
        usable(ud * ue),
        about(wv, 1real, w, 0real),
        size_of_real(w) <= 4096real,
        about(dv, ud, 0real, 33real),
        about(ev, ue, 0real, 33real),
    ensures
        about(wv * dv * ev, ud * ue, 0real, 2real),
{
    assert(1real * ud == ud);
    assert(w * 0real == 0real) by (nonlinear_arith);
    assert(0real * 0real == 0real);
    lemma_about_product(
        wv,
        dv,
        1real,
        ud,
        w,
        0real,
        0real,
        33real,
        4096real,
        0real,
        1real,
        135169real,
    );
    lemma_about_product(
        wv * dv,
        ev,
        ud,
        ue,
        0real,
        0real,
        135169real,
        33real,
        0real,
        0real,
        1real,
        2real,
    );
}

/// Half the product of two deviations.
proof fn lemma_outer_term(
    dv: Binary32,
    ev: Binary32,
    ud: real,
    ue: real,
    d: real,
    e: real,
)
    requires
        usable(ud),
        ue > 0real,
        usable(ud * ue),
        about(dv, ud, d, 39real),
        about(ev, ue, e, 39real),
        size_of_real(d) <= 1real,
        size_of_real(e) <= 1real,
    ensures
        about(b32(HALF) * dv * ev, ud * ue, half() * (d * e), 42real),
        size_of_real(half() * (d * e)) <= half(),
{
    lemma_constants();
    assert(1real * ud == ud);
    lemma_size_of_product(half(), d, half(), 1real);
    lemma_size_of_product(d, e, 1real, 1real);
    lemma_size_of_product(half(), d * e, half(), 1real);
    assert((half() * d) * e == half() * (d * e)) by (nonlinear_arith);
    lemma_about_product(
        b32(HALF),
        dv,
        1real,
        ud,
        half(),
        d,
        0real,
        39real,
        half(),
        1real,
        1real,
        21real,
    );
    lemma_about_product(
        b32(HALF) * dv,
        ev,
        ud,
        ue,
        half() * d,
        e,
        21real,
        39real,
        half(),
        1real,
        1real,
        42real,
    );
}

/// The weighted sum of the products of deviations, added to a base up to one.
proof fn lemma_weighted_sum(
    base: Binary32,
    t0: Binary32,
    t1: Binary32,
    t2: Binary32,
    unit: real,
    r: real,
    product: real,
)
    requires
        usable(unit),
        about(base, unit, r, 0real),
        about(t0, unit, 0real, 2real),
        about(t1, unit, half() * product, 42real),
        about(t2, unit, half() * product, 42real),
        size_of_real(r) <= 1real,
        size_of_real(half() * product) <= half(),
    ensures
        about(base + t0 + t1 + t2, unit, r + product, 93real),
        about(t0 + t1 + t2, unit, product, 93real),
{
    let h = half() * product;
    assert(h + h == product) by (nonlinear_arith)
        requires
            h == (1real / 2real) * product,
    ;
    lemma_about_sum(base, t0, unit, r, 0real, 0real, 2real, 2real);
    lemma_about_sum(base + t0, t1, unit, r, h, 4real, 42real, 2real);
    lemma_about_sum(base + t0 + t1, t2, unit, r + h, h, 48real, 42real, 3real);
    lemma_about_sum(t0, t1, unit, 0real, h, 2real, 42real, 2real);
    lemma_about_sum(t0 + t1, t2, unit, h, h, 46real, 42real, 2real);
    lemma_wider(t0 + t1 + t2, unit, product, 90real, 93real);
}

/// The variance of deviations.
proof fn lemma_variance(
    noise: UkfNoise,
    base: Binary32,
    d: (Binary32, Binary32, Binary32),
    ud: real,
    sigma: real,
    beta: real,
    rho: real,
)
    requires
        noise.outer_weight() == b32(HALF),
        about(noise.variance_weight(), 1real, beta, 0real),
        size_of_real(beta) <= 4096real,
        usable(ud),
        usable(ud * ud),
        deviates(d, ud, sigma),
        size_of_real(sigma) <= 1real,
        about(base, ud * ud, rho, 0real),
        size_of_real(rho) <= 1real,
    ensures
        about(noise.variance(base, d), ud * ud, rho + sigma * sigma, 93real),
{
    lemma_deviation_products(noise, base, d, d, ud, ud, sigma, sigma, beta, rho);
}

/// The weighted sum of the products of two kinds of deviations.
#[verifier::rlimit(40)]
proof fn lemma_deviation_products(
    noise: UkfNoise,
    base: Binary32,
    d: (Binary32, Binary32, Binary32),
    e: (Binary32, Binary32, Binary32),
    ud: real,
    ue: real,
    sigma: real,
    eta: real,
    beta: real,
    rho: real,
)
    requires
        noise.outer_weight() == b32(HALF),
        about(noise.variance_weight(), 1real, beta, 0real),
        size_of_real(beta) <= 4096real,
        usable(ud),
        usable(ue),
        usable(ud * ue),
        deviates(d, ud, sigma),
        deviates(e, ue, eta),
        size_of_real(sigma) <= 1real,
        size_of_real(eta) <= 1real,
        about(base, ud * ue, rho, 0real),
        size_of_real(rho) <= 1real,
    ensures
        about(
            base + noise.variance_weight() * d.0 * e.0 + noise.outer_weight() * d.1 * e.1
                + noise.outer_weight() * d.2 * e.2,
            ud * ue,
            rho + sigma * eta,
            93real,
        ),
        about(noise.covariance(d, e), ud * ue, sigma * eta, 93real),
{
    let w = noise.variance_weight();
    let h = b32(HALF);
    assert((-sigma) * (-eta) == sigma * eta) by (nonlinear_arith);
    lemma_central_term(w, d.0, e.0, ud, ue, beta);
    lemma_outer_term(d.1, e.1, ud, ue, sigma, eta);
    lemma_outer_term(d.2, e.2, ud, ue, -sigma, -eta);
    lemma_weighted_sum(
        base,
        w * d.0 * e.0,
        h * d.1 * e.1,
        h * d.2 * e.2,
        ud * ue,
        rho,
        sigma * eta,
    );
}

/// The exact gain for deviations `sigma` of the state and `eta` of the measurement.
pub open spec fn exact_gain(sigma: real, eta: real, rho: real) -> real {
    (sigma * eta) / (rho + eta * eta)
}

/// The powers of the ratio of the signal to the noise.
proof fn lemma_powers(q: real)
    requires
        1real <= q <= 64real,
    ensures
        q <= q * q <= 64real * q,
        q * q <= q * (q * q) <= 64real * (q * q),
        (q * q) * (q * q) <= 64real * (q * (q * q)),
{
    lemma_scaled(1real, q, q);
    lemma_scaled(q, 64real, q);
    lemma_scaled(1real, q, q * q);
    lemma_scaled(q, 64real, q * q);
    lemma_scaled(q * q, 64real * q, q * q);
    assert((64real * q) * (q * q) == 64real * (q * (q * q))) by (nonlinear_arith);
    assert(1real * q == q && 1real * (q * q) == q * q);
}

/// The exact gain is at most the ratio of the signal to the noise.
proof fn lemma_exact_gain(sigma: real, eta: real, rho: real, q: real)
    requires
        size_of_real(sigma) <= 1real,
        size_of_real(eta) <= 1real,
        0real < rho <= 1real,
        1real <= rho * q,
        1real <= q,
    ensures
        exact_gain(sigma, eta, rho) * (rho + eta * eta) == sigma * eta,
        size_of_real(exact_gain(sigma, eta, rho)) <= q,
        rho <= rho + eta * eta <= 2real,
        size_of_real(sigma * eta) <= 1real,
{
    let w = rho + eta * eta;
    let p = sigma * eta;
    let k = exact_gain(sigma, eta, rho);
    let n = size_of_real(k);
    lemma_size_of_product(eta, eta, 1real, 1real);
    lemma_size_of_product(sigma, eta, 1real, 1real);
    assert(eta * eta >= 0real) by (nonlinear_arith);
    assert(k * w == p) by (nonlinear_arith)
        requires
            k == p / w,
            w > 0real,
    ;
    lemma_size_of_product(k, w, n, w);
    lemma_scaled(rho, w, n);
    assert(rho * n <= 1real);
    lemma_scaled(rho * n, 1real, q);
    lemma_scaled(1real, rho * q, n);
    assert((rho * n) * q == (rho * q) * n && w * n == n * w && 1real * n == n && 1real * q == q)
        by (nonlinear_arith);
}

/// The gain of a covariance and a variance that are off by at most `g` parts.
proof fn lemma_gain(
    xv: Binary32,
    yv: Binary32,
    v: real,
    uy: real,
    k: real,
    w: real,
    rho: real,
    g: real,
    q: real,
    e: real,
)
    requires
        about(xv, v * uy, k * w, g),
        about(yv, uy, w, g),
        usable(v),
        uy > 0real,
        size_of_real(k) <= q,
        0real < rho <= w,
        1real <= rho * q,
        1real <= q <= 64real,
        0real <= g <= 93real,
        4real * g + 2real <= e <= 400real,
    ensures
        yv > b32(ZERO),
        about(xv / yv, v, k, e * (q * q)),
{
    let m = e * (q * q);
    let low = 2real * (g + q * g);
    lemma_powers(q);
    lemma_scaled(rho, rho, 1real);
    // The bound of the variance.
    lemma_scaled(q, 64real, rho);
    assert(q * rho == rho * q) by (nonlinear_arith);
    assert(2real * g <= 8388608real * rho);
    // The bound of the quotient.
    assert(low * q <= m - 2real * q) by {
        lemma_scaled(4real * g + 2real, e, q * q);
        lemma_scaled(q, q * q, g);
        assert((4real * g + 2real) * (q * q) == 4real * ((q * q) * g) + 2real * (q * q))
            by (nonlinear_arith);
        assert((2real * (g + q * g)) * q == 2real * (q * g) + 2real * ((q * q) * g))
            by (nonlinear_arith);
    }
    lemma_scaled(low * q, m - 2real * q, rho);
    assert(low >= 0real) by {
        lemma_scaled(0real, g, q);
        assert(0real * q == 0real && g * q == q * g) by (nonlinear_arith);
    }
    lemma_scaled(1real, rho * q, low);
    assert((low * q) * rho == (rho * q) * low && 1real * low == low && (m - 2real * q) * rho == rho
        * (m - 2real * q)) by (nonlinear_arith);
    lemma_scaled(e, 400real, q * q);
    lemma_about_quotient(xv, yv, v, uy, k, w, g, g, q, rho, 2real * q, m);
}

/// A prediction corrected by a gain times a residual.
proof fn lemma_corrected_estimate(
    xv: Binary32,
    kv: Binary32,
    rv: Binary32,
    ux: real,
    uz: real,
    v: real,
    f: real,
    k: real,
    r: real,
    q: real,
)
    requires
        usable(ux),
        uz > 0real,
        v > 0real,
        v * uz == ux,
        1real <= q <= 64real,
        about(xv, ux, f, 19real),
        about(kv, v, k, 374real * (q * q)),
        about(rv, uz, r, 27real),
        size_of_real(f) <= 2real,
        size_of_real(k) <= q,
        size_of_real(r) <= 3real,
    ensures
        about(xv + kv * rv, ux, f + k * r, 1179real * (q * q)),
{
    let n = q * q;
    lemma_powers(q);
    lemma_size_of_product(k, r, q, 3real);
    assert((374real * n) * 27real == 10098real * n);
    assert(q * 3real == 3real * q && q * 27real == 27real * q);
    lemma_about_product(
        kv,
        rv,
        v,
        uz,
        k,
        r,
        374real * n,
        27real,
        q,
        3real,
        4real * q,
        1154real * n,
    );
    lemma_about_sum(xv, kv * rv, ux, f, k * r, 19real, 1154real * n, 6real * q);
    lemma_wider(xv + kv * rv, ux, f + k * r, 19real + 1154real * n + 6real * q, 1179real * n);
}

/// The variance that the unscented filter keeps after a correction.
proof fn lemma_corrected_variance(
    pv: Binary32,
    kv: Binary32,
    yv: Binary32,
    ux: real,
    uz: real,
    v: real,
    p: real,
    k: real,
    w: real,
    q: real,
)
    requires
        usable(ux * ux),
        usable(ux * uz),
        ux > 0real,
        uz > 0real,
        v > 0real,
        v * uz == ux,
        1real <= q <= 64real,
        about(pv, ux * ux, p, 93real),
        about(kv, v, k, 374real * (q * q)),
        about(yv, uz * uz, w, 93real),
        size_of_real(k) <= q,
        size_of_real(w) <= 2real,
        size_of_real(k * w) <= 1real,
        size_of_real(p - (k * w) * k) <= 1real,
    ensures
        about(pv - kv * yv * kv, ux * ux, p - (k * w) * k, 1325real * (q * (q * q))),
{
    let n = q * q;
    let t = q * n;
    lemma_powers(q);
    assert(v * (uz * uz) == ux * uz) by (nonlinear_arith)
        requires
            v * uz == ux,
    ;
    assert((ux * uz) * v == ux * ux) by (nonlinear_arith)
        requires
            v * uz == ux,
    ;
    assert(uz * uz > 0real && ux * uz > 0real) by (nonlinear_arith)
        requires
            uz > 0real,
            ux > 0real,
    ;
    assert((374real * n) * 93real == 34782real * n && q * 2real == 2real * q && q * 93real == 93real
        * q && 2real * (374real * n) == 748real * n);
    lemma_about_product(
        kv,
        yv,
        v,
        uz * uz,
        k,
        w,
        374real * n,
        93real,
        q,
        2real,
        3real * q,
        850real * n,
    );
    assert((850real * n) * (374real * n) == 317900real * (n * n)) by (nonlinear_arith);
    assert(q * (850real * n) == 850real * t) by (nonlinear_arith)
        requires
            t == q * n,
    ;
    assert(1real * (374real * n) == 374real * n && 1real * q == q);
    lemma_about_product(
        kv * yv,
        kv,
        ux * uz,
        v,
        k * w,
        k,
        850real * n,
        374real * n,
        1real,
        q,
        2real * q,
        1230real * t,
    );
    lemma_about_difference(
        pv,
        kv * yv * kv,
        ux * ux,
        p,
        (k * w) * k,
        93real,
        1230real * t,
        2real * q,
    );
    lemma_wider(
        pv - kv * yv * kv,
        ux * ux,
        p - (k * w) * k,
        93real + 1230real * t + 2real * q,
        1325real * t,
    );
}

/// The variance that the linear filter keeps after a correction.
proof fn lemma_reduced_variance(
    pv: Binary32,
    kv: Binary32,
    cv: Binary32,
    up: real,
    uc: real,
    v: real,
    p: real,
    k: real,
    c: real,
    q: real,
)
    requires
        usable(up),
        uc > 0real,
        v > 0real,
        v * uc == 1real,
        1real <= q <= 64real,
        about(pv, up, p, 93real),
        about(kv, v, k, 374real * (q * q)),
        about(cv, uc, c, 0real),
        size_of_real(k) <= q,
        size_of_real(c) <= 1real,
        size_of_real(p) <= 1real,
        size_of_real(1real - k * c) <= 1real,
    ensures
        about((b32(ONE) - kv * cv) * pv, up, (1real - k * c) * p, 475real * (q * q)),
{
    let n = q * q;
    let rest = b32(ONE) - kv * cv;
    lemma_powers(q);
    lemma_constants();
    lemma_moderate_one();
    lemma_size_of_product(k, c, q, 1real);
    assert((374real * n) * 0real == 0real && q * 1real == q && q * 0real == 0real);
    lemma_about_product(
        kv,
        cv,
        v,
        uc,
        k,
        c,
        374real * n,
        0real,
        q,
        1real,
        2real * q,
        376real * n,
    );
    lemma_about_difference(
        b32(ONE),
        kv * cv,
        1real,
        1real,
        k * c,
        0real,
        376real * n,
        2real,
    );
    lemma_wider(rest, 1real, 1real - k * c, 0real + 376real * n + 2real, 378real * n);
    assert((378real * n) * 93real == 35154real * n && 1real * up == up);
    lemma_about_product(
        rest,
        pv,
        1real,
        up,
        1real - k * c,
        p,
        378real * n,
        93real,
        1real,
        1real,
        2real,
        475real * n,
    );
}

/// The unit one.
proof fn lemma_moderate_one()
    ensures
        usable(1real),
{
    lemma2_to64();
    assert(1real * pow2(0) as real == pow2(0) as real);
    lemma_moderate_is_usable(1real, 0);
}

/// Exact values of one step on a linear model, each in its unit.
pub struct LinearStep {
    /// Weight of the state in the next state.
    pub a: real,
    /// The estimate.
    pub x: real,
    /// The root of its variance.
    pub s: real,
    /// What the input adds to the next state.
    pub t: real,
    /// Weight of the state in the measurement.
    pub c: real,
    /// The measurement.
    pub z: real,
    /// The variance of the measurement noise.
    pub rho: real,
}

impl LinearStep {
    /// The predicted state.
    pub open spec fn f(self) -> real {
        self.a * self.x + self.t
    }

    /// The root of the predicted variance.
    pub open spec fn sigma(self) -> real {
        self.a * self.s
    }

    /// The root of its share in the variance of the measurement.
    pub open spec fn eta(self) -> real {
        self.c * self.sigma()
    }

    /// The gain.
    pub open spec fn k(self) -> real {
        exact_gain(self.sigma(), self.eta(), self.rho)
    }

    /// The measurement less its prediction.
    pub open spec fn residual(self) -> real {
        self.z - self.c * self.f()
    }

    /// The variance of the measurement.
    pub open spec fn w(self) -> real {
        self.rho + self.eta() * self.eta()
    }

    /// Whether all values are at most one and the ratio of the signal to the noise at most
    /// `q`.
    pub open spec fn fits(self, q: real) -> bool {
        &&& size_of_real(self.a) <= 1real
        &&& size_of_real(self.x) <= 1real
        &&& size_of_real(self.s) <= 1real
        &&& size_of_real(self.t) <= 1real
        &&& size_of_real(self.c) <= 1real
        &&& size_of_real(self.z) <= 1real
        &&& 0real < self.rho <= 1real
        &&& 1real <= self.rho * q
        &&& 1real <= q <= 64real
    }
}

/// Bounds of the exact values.
proof fn lemma_exact_step(e: LinearStep, q: real)
    requires
        e.fits(q),
    ensures
        size_of_real(e.f()) <= 2real,
        size_of_real(e.sigma()) <= 1real,
        size_of_real(e.eta()) <= 1real,
        size_of_real(e.k()) <= q,
        size_of_real(e.residual()) <= 3real,
        e.k() * e.w() == e.sigma() * e.eta(),
        e.rho <= e.w() <= 2real,
        size_of_real(e.sigma() * e.eta()) <= 1real,
        size_of_real(e.sigma() * e.sigma()) <= 1real,
        0real <= e.k() * e.c <= 1real,
{
    let w = e.w();
    lemma_size_of_product(e.a, e.x, 1real, 1real);
    lemma_size_of_product(e.a, e.s, 1real, 1real);
    lemma_size_of_product(e.c, e.sigma(), 1real, 1real);
    lemma_size_of_product(e.c, e.f(), 1real, 2real);
    lemma_size_of_product(e.sigma(), e.sigma(), 1real, 1real);
    lemma_exact_gain(e.sigma(), e.eta(), e.rho, q);
    let y = e.k() * e.c;
    let n = e.eta() * e.eta();
    assert(y * w == (e.k() * w) * e.c) by (nonlinear_arith)
        requires
            y == e.k() * e.c,
    ;
    assert((e.sigma() * e.eta()) * e.c == n) by (nonlinear_arith)
        requires
            n == e.eta() * e.eta(),
            e.eta() == e.c * e.sigma(),
    ;
    assert(n >= 0real) by (nonlinear_arith)
        requires
            n == e.eta() * e.eta(),
    ;
    assert(0real * w == 0real && 1real * w == w) by (nonlinear_arith);
    lemma_unscaled(0real, y, w);
    lemma_unscaled(y, 1real, w);
}

/// The variance that remains after a correction, in the two ways of the filters.
proof fn lemma_exact_variance(e: LinearStep, q: real)
    requires
        e.fits(q),
    ensures
        e.sigma() * e.sigma() - (e.k() * e.w()) * e.k() == (1real - e.k() * e.c) * (e.sigma()
            * e.sigma()),
        size_of_real((1real - e.k() * e.c) * (e.sigma() * e.sigma())) <= 1real,
        size_of_real(1real - e.k() * e.c) <= 1real,
{
    let p = e.sigma() * e.sigma();
    let k = e.k();
    lemma_exact_step(e, q);
    assert((e.sigma() * e.eta()) * k == (k * e.c) * p) by (nonlinear_arith)
        requires
            p == e.sigma() * e.sigma(),
            e.eta() == e.c * e.sigma(),
    ;
    assert((1real - k * e.c) * p == p - (k * e.c) * p) by (nonlinear_arith);
    lemma_size_of_product(1real - k * e.c, p, 1real, 1real);
}

/// The units of a step: of the state, of the measurement, and of their products.
proof fn lemma_units(ua: real, ux: real, uc: real) -> (v: real)
    requires
        moderate(ua, 18),
        moderate(ux, 18),
        moderate(uc, 18),
    ensures
        usable(ux),
        usable(ua * ux),
        usable(uc * (ua * ux)),
        usable((ua * ux) * (ua * ux)),
        usable((ua * ux) * (uc * (ua * ux))),
        usable((uc * (ua * ux)) * (uc * (ua * ux))),
        usable(ua * (ux * ux)),
        usable(v),
        v * uc == 1real,
        v * (uc * (ua * ux)) == ua * ux,
{
    let x = ua * ux;
    let z = uc * x;
    let v = 1real / uc;
    let p = pow2(18) as real;
    lemma_moderate_product(ua, ux, 18, 18);
    lemma_moderate_product(uc, x, 18, 36);
    lemma_moderate_product(x, x, 36, 36);
    lemma_moderate_product(x, z, 36, 54);
    lemma_moderate_product(z, z, 54, 54);
    lemma_moderate_product(ux, ux, 18, 18);
    lemma_moderate_product(ua, ux * ux, 18, 36);
    lemma_moderate_is_usable(ux, 18);
    lemma_moderate_is_usable(x, 36);
    lemma_moderate_is_usable(z, 54);
    lemma_moderate_is_usable(x * x, 72);
    lemma_moderate_is_usable(x * z, 90);
    lemma_moderate_is_usable(z * z, 108);
    lemma_moderate_is_usable(ua * (ux * ux), 54);
    assert(v * uc == 1real) by (nonlinear_arith)
        requires
            v == 1real / uc,
            uc > 0real,
    ;
    assert(v * (uc * x) == (v * uc) * x) by (nonlinear_arith);
    assert(1real * x == x);
    assert(v > 0real) by (nonlinear_arith)
        requires
            v * uc == 1real,
            uc > 0real,
    ;
    // One over the unit lies between the same powers.
    lemma_scaled(1real, uc * p, v);
    lemma_scaled(uc, p, v);
    assert((uc * p) * v == (v * uc) * p && uc * v == v * uc && p * v == v * p && 1real * v == v
        && 1real * p == p) by (nonlinear_arith);
    lemma_moderate_is_usable(v, 18);
    v
}

/// Whether numbers stand for the exact values of a step.
pub open spec fn stands_for(
    e: LinearStep,
    x: Binary32,
    p: Binary32,
    param: KalmanParam,
    u: Binary32,
    measurement: Binary32,
    ua: real,
    ux: real,
    uc: real,
) -> bool {
    let unit = ua * ux;
    let seen = uc * unit;
    &&& about(param.a, ua, e.a, 0real)
    &&& about(x, ux, e.x, 0real)
    &&& about(sqrt_of(p), ux, e.s, 0real)
    &&& about(param.b * u, unit, e.t, 1real)
    &&& about(param.h, uc, e.c, 0real)
    &&& about(measurement, seen, e.z, 0real)
    &&& about(param.r, seen * seen, e.rho, 0real)
    &&& param.q.zero()
}

/// The next states of three points under a linear model.
pub open spec fn linear_moved(
    param: KalmanParam,
    at: (Binary32, Binary32, Binary32),
    u: Binary32,
) -> (Binary32, Binary32, Binary32) {
    (
        param.a * at.0 + param.b * u,
        param.a * at.1 + param.b * u,
        param.a * at.2 + param.b * u,
    )
}

/// The measurements of three states under a linear model.
pub open spec fn linear_seen(param: KalmanParam, moved: (Binary32, Binary32, Binary32)) -> (
    Binary32,
    Binary32,
    Binary32,
) {
    (param.h * moved.0, param.h * moved.1, param.h * moved.2)
}

/// Whether the functions of an unscented filter are those of a linear model.
pub open spec fn is_linear<
    F: Fn(Binary32, Binary32) -> Binary32,
    H: Fn(Binary32) -> Binary32,
>(param: UkfParam<F, H>, model: KalmanParam) -> bool {
    &&& param.complete()
    &&& forall|x: Binary32, u: Binary32, r: Binary32| #[trigger]
        param.f->0.ensures((x, u), r) ==> r == model.a * x + model.b * u
    &&& forall|x: Binary32, r: Binary32| #[trigger]
        param.h->0.ensures((x,), r) ==> r == model.h * x
}

/// The functions of a linear model move and measure the points linearly.
pub proof fn linear_functions_evaluate_linearly<
    F: Fn(Binary32, Binary32) -> Binary32,
    H: Fn(Binary32) -> Binary32,
>(
    state: UkfState,
    param: UkfParam<F, H>,
    model: KalmanParam,
    u: Binary32,
    moved: (Binary32, Binary32, Binary32),
    seen: (Binary32, Binary32, Binary32),
)
    requires
        is_linear(param, model),
        state.evaluates(param, u, moved, seen),
    ensures
        moved == linear_moved(model, state.points(param.noise_part()), u),
        seen == linear_seen(model, moved),
{
}

/// The noise of a linear model, for an unscented filter of spread one.
pub open spec fn plain_noise(param: KalmanParam, beta: Binary32) -> UkfNoise {
    UkfNoise { q: param.q, r: param.r, alpha: b32(ONE), beta, kappa: b32(ZERO) }
}

/// What both filters compute, up to the parts that one of them is off.
pub open spec fn near_exact(
    e: LinearStep,
    x: Binary32,
    p: Binary32,
    k: Binary32,
    residual: Binary32,
    unit: real,
    seen: real,
    v: real,
    q: real,
) -> bool {
    &&& about(residual, seen, e.residual(), 27real)
    &&& about(k, v, e.k(), 374real * (q * q))
    &&& about(x, unit, e.f() + e.k() * e.residual(), 1179real * (q * q))
    &&& about(p, unit * unit, (1real - e.k() * e.c) * (e.sigma() * e.sigma()), 1325real * (q * (q
        * q)))
}

/// The mean of three states or measurements, and their deviations from it.
proof fn lemma_mean_and_deviations(
    noise: UkfNoise,
    v: (Binary32, Binary32, Binary32),
    unit: real,
    m: real,
    d: real,
    e: real,
)
    requires
        noise.mean_weight().zero(),
        noise.outer_weight() == b32(HALF),
        usable(unit),
        about(v.0, unit, m, 9real),
        about(v.1, unit, m + d, e),
        about(v.2, unit, m - d, e),
        size_of_real(m) <= 2real,
        size_of_real(d) <= 1real,
        0real <= e <= 14real,
    ensures
        about(noise.mean(v), unit, m, e + 9real),
        deviates(deviations(v, noise.mean(v)), unit, d),
{
    lemma_mean(noise, v, unit, m, d, 9real, e);
    lemma_wider(v.1, unit, m + d, e, 14real);
    lemma_wider(v.2, unit, m - d, e, 14real);
    lemma_wider(noise.mean(v), unit, m, e + 9real, 23real);
    lemma_deviations(v, noise.mean(v), unit, m, d);
}

/// The variances of the deviations of states and of measurements, and their covariance.
#[verifier::rlimit(40)]
proof fn lemma_variances(
    noise: UkfNoise,
    d: (Binary32, Binary32, Binary32),
    s: (Binary32, Binary32, Binary32),
    beta: real,
    ux: real,
    uz: real,
    sigma: real,
    eta: real,
    rho: real,
)
    requires
        noise.outer_weight() == b32(HALF),
        about(noise.variance_weight(), 1real, beta, 0real),
        size_of_real(beta) <= 4096real,
        usable(ux),
        usable(uz),
        usable(ux * ux),
        usable(ux * uz),
        usable(uz * uz),
        deviates(d, ux, sigma),
        deviates(s, uz, eta),
        size_of_real(sigma) <= 1real,
        size_of_real(eta) <= 1real,
        about(noise.q, ux * ux, 0real, 0real),
        about(noise.r, uz * uz, rho, 0real),
        size_of_real(rho) <= 1real,
    ensures
        about(noise.variance(noise.q, d), ux * ux, sigma * sigma, 93real),
        about(noise.variance(noise.r, s), uz * uz, rho + eta * eta, 93real),
        about(noise.covariance(d, s), ux * uz, sigma * eta, 93real),
{
    assert(about(noise.variance(noise.q, d), ux * ux, sigma * sigma, 93real)) by {
        assert(0real + sigma * sigma == sigma * sigma);
        lemma_variance(noise, noise.q, d, ux, sigma, beta, 0real);
    }
    assert(about(noise.variance(noise.r, s), uz * uz, rho + eta * eta, 93real)) by {
        lemma_variance(noise, noise.r, s, uz, eta, beta, rho);
    }
    assert(about(noise.covariance(d, s), ux * uz, sigma * eta, 93real)) by {
        lemma_about_zero(b32(ZERO), ux * uz);
        lemma_deviation_products(noise, b32(ZERO), d, s, ux, uz, sigma, eta, beta, 0real);
    }
}

/// The step of the unscented filter.
#[verifier::rlimit(40)]
proof fn lemma_unscented_step(
    e: LinearStep,
    noise: UkfNoise,
    moved: (Binary32, Binary32, Binary32),
    seen: (Binary32, Binary32, Binary32),
    measurement: Binary32,
    beta: real,
    ux: real,
    uz: real,
    v: real,
    q: real,
)
    requires
        e.fits(q),
        noise.mean_weight().zero(),
        noise.outer_weight() == b32(HALF),
        about(noise.variance_weight(), 1real, beta, 0real),
        size_of_real(beta) <= 4096real,
        usable(ux),
        usable(uz),
        usable(v),
        v * uz == ux,
        usable(ux * ux),
        usable(ux * uz),
        usable(uz * uz),
        about(moved.0, ux, e.f(), 6real),
        about(moved.1, ux, e.f() + e.sigma(), 10real),
        about(moved.2, ux, e.f() - e.sigma(), 10real),
        about(seen.0, uz, e.c * e.f(), 9real),
        about(seen.1, uz, e.c * e.f() + e.eta(), 14real),
        about(seen.2, uz, e.c * e.f() - e.eta(), 14real),
        about(noise.q, ux * ux, 0real, 0real),
        about(noise.r, uz * uz, e.rho, 0real),
        about(measurement, uz, e.z, 0real),
    ensures
        ({
            let next = UkfState::updated(noise, moved, seen, measurement);
            near_exact(e, next.x, next.p, next.k, next.residual, ux, uz, v, q)
        }),
{
    let next = UkfState::updated(noise, moved, seen, measurement);
    let d = deviations(moved, noise.mean(moved));
    let s = deviations(seen, noise.mean(seen));
    let p_pred = noise.variance(noise.q, d);
    let pz = noise.variance(noise.r, s);
    let pxz = noise.covariance(d, s);
    lemma_exact_step(e, q);
    lemma_exact_variance(e, q);
    lemma_size_of_product(e.c, e.f(), 1real, 2real);
    lemma_wider(moved.0, ux, e.f(), 6real, 9real);
    lemma_mean_and_deviations(noise, moved, ux, e.f(), e.sigma(), 10real);
    lemma_mean_and_deviations(noise, seen, uz, e.c * e.f(), e.eta(), 14real);
    lemma_variances(noise, d, s, beta, ux, uz, e.sigma(), e.eta(), e.rho);
    assert(v * (uz * uz) == ux * uz) by (nonlinear_arith)
        requires
            v * uz == ux,
    ;
    lemma_gain(pxz, pz, v, uz * uz, e.k(), e.w(), e.rho, 93real, q, 374real);
    assert(nonzero(pz) == pz);
    lemma_about_difference(
        measurement,
        noise.mean(seen),
        uz,
        e.z,
        e.c * e.f(),
        0real,
        23real,
        4real,
    );
    lemma_corrected_estimate(
        noise.mean(moved),
        next.k,
        next.residual,
        ux,
        uz,
        v,
        e.f(),
        e.k(),
        e.residual(),
        q,
    );
    lemma_corrected_variance(
        p_pred,
        next.k,
        pz,
        ux,
        uz,
        v,
        e.sigma() * e.sigma(),
        e.k(),
        e.w(),
        q,
    );
}

/// The variance that the linear filter predicts.
proof fn lemma_predicted_variance(
    av: Binary32,
    pv: Binary32,
    qv: Binary32,
    ua: real,
    ux: real,
    a: real,
    s: real,
    ph: real,
)
    requires
        ua > 0real,
        ux > 0real,
        usable(ua * (ux * ux)),
        usable((ua * ux) * (ua * ux)),
        about(av, ua, a, 0real),
        about(pv, ux * ux, ph, 0real),
        qv.zero(),
        size_of_real(a) <= 1real,
        size_of_real(s) <= 1real,
        2097152real * size_of_real(s * s - ph) <= s * s,
    ensures
        about(
            av * pv * av + qv,
            (ua * ux) * (ua * ux),
            (a * s) * (a * s),
            13real,
        ),
{
    let unit = (ua * ux) * (ua * ux);
    let square = ux * ux;
    let first = av * pv;
    let second = first * av;
    lemma_size_of_product(s, s, 1real, 1real);
    assert(square > 0real) by (nonlinear_arith)
        requires
            square == ux * ux,
            ux > 0real,
    ;
    lemma_size_of_product(a, ph, 1real, 2real);
    lemma_about_product(
        av,
        pv,
        ua,
        square,
        a,
        ph,
        0real,
        0real,
        1real,
        2real,
        3real,
        3real,
    );
    assert((ua * square) * ua == unit) by (nonlinear_arith)
        requires
            square == ux * ux,
            unit == (ua * ux) * (ua * ux),
    ;
    lemma_about_product(
        first,
        av,
        ua * square,
        ua,
        a * ph,
        a,
        3real,
        0real,
        2real,
        1real,
        3real,
        6real,
    );
    lemma_size_of_product(a * ph, a, 2real, 1real);
    lemma_about_zero(qv, unit);
    lemma_about_sum(second, qv, unit, (a * ph) * a, 0real, 6real, 0real, 3real);
    // The root of the variance is rounded too.
    let d = s * s - ph;
    lemma_size_of_product(a, a, 1real, 1real);
    lemma_size_of_product(a * a, 2097152real * d, 1real, 1real);
    assert((a * s) * (a * s) - (a * ph) * a == (a * a) * d) by (nonlinear_arith)
        requires
            d == s * s - ph,
    ;
    assert((a * a) * (2097152real * d) == 2097152real * ((a * a) * d)) by (nonlinear_arith);
    lemma_moved_target(second + qv, unit, (a * ph) * a, (a * s) * (a * s), 9real, 4real);
}

/// A number about a real is about one close to it.
proof fn lemma_moved_target(
    x: Binary32,
    unit: real,
    p: real,
    q: real,
    e: real,
    more: real,
)
    requires
        about(x, unit, p, e),
        unit > 0real,
        8388608real * size_of_real(q - p) <= more,
    ensures
        about(x, unit, q, e + more),
{
    let n = size_of_real(q - p);
    assert((q - p) * unit == q * unit - p * unit) by (nonlinear_arith);
    lemma_size_of_product(q - p, unit, n, unit);
    lemma_scaled(8388608real * n, more, unit);
    assert((8388608real * n) * unit == 8388608real * (n * unit)) by (nonlinear_arith);
    assert((e + more) * unit == e * unit + more * unit) by (nonlinear_arith);
}

/// The gain of the linear filter.
proof fn lemma_linear_gain(
    e: LinearStep,
    pv: Binary32,
    param: KalmanParam,
    ux: real,
    uc: real,
    v: real,
    q: real,
)
    requires
        e.fits(q),
        uc > 0real,
        ux > 0real,
        usable(v),
        v * (uc * ux) == ux,
        usable(ux * ux),
        usable(ux * (uc * ux)),
        usable((uc * ux) * (uc * ux)),
        about(pv, ux * ux, e.sigma() * e.sigma(), 13real),
        about(param.h, uc, e.c, 0real),
        about(param.r, (uc * ux) * (uc * ux), e.rho, 0real),
    ensures
        about(gain_of(pv, param.h, param.r), v, e.k(), 374real * (q * q)),
{
    let cv = param.h;
    let square = ux * ux;
    let uz = uc * ux;
    let p = e.sigma() * e.sigma();
    let left = cv * pv;
    let right = pv * cv;
    let twice = left * cv;
    let variance = twice + param.r;
    lemma_exact_step(e, q);
    assert(uc * square == ux * uz && square * uc == ux * uz) by (nonlinear_arith)
        requires
            square == ux * ux,
            uz == uc * ux,
    ;
    assert((ux * uz) * uc == uz * uz) by (nonlinear_arith)
        requires
            uz == uc * ux,
    ;
    assert(v * (uz * uz) == ux * uz) by (nonlinear_arith)
        requires
            v * uz == ux,
    ;
    assert(uz * uz > 0real && ux * uz > 0real && square > 0real) by (nonlinear_arith)
        requires
            square == ux * ux,
            uz == uc * ux,
            uc > 0real,
            ux > 0real,
    ;
    assert(e.c * p == e.sigma() * e.eta() && p * e.c == e.sigma() * e.eta()) by (nonlinear_arith)
        requires
            p == e.sigma() * e.sigma(),
            e.eta() == e.c * e.sigma(),
    ;
    assert((e.sigma() * e.eta()) * e.c == e.eta() * e.eta()) by (nonlinear_arith)
        requires
            e.eta() == e.c * e.sigma(),
    ;
    lemma_about_product(
        cv,
        pv,
        uc,
        square,
        e.c,
        p,
        0real,
        13real,
        1real,
        1real,
        2real,
        15real,
    );
    lemma_about_product(
        pv,
        cv,
        square,
        uc,
        p,
        e.c,
        13real,
        0real,
        1real,
        1real,
        2real,
        15real,
    );
    lemma_about_product(
        left,
        cv,
        ux * uz,
        uc,
        e.sigma() * e.eta(),
        e.c,
        15real,
        0real,
        1real,
        1real,
        2real,
        17real,
    );
    lemma_about_sum(
        twice,
        param.r,
        uz * uz,
        e.eta() * e.eta(),
        e.rho,
        17real,
        0real,
        3real,
    );
    assert(e.eta() * e.eta() + e.rho == e.w());
    lemma_wider(right, ux * uz, e.sigma() * e.eta(), 15real, 20real);
    lemma_gain(right, variance, v, uz * uz, e.k(), e.w(), e.rho, 20real, q, 374real);
    assert(nonzero(variance) == variance);
}

/// The step of the linear filter.
#[verifier::rlimit(40)]
proof fn lemma_linear_step(
    e: LinearStep,
    state: KalmanState,
    param: KalmanParam,
    u: Binary32,
    measurement: Binary32,
    ux: real,
    uc: real,
    v: real,
    q: real,
)
    requires
        e.fits(q),
        uc > 0real,
        usable(ux),
        usable(uc * ux),
        usable(v),
        v * uc == 1real,
        v * (uc * ux) == ux,
        usable(ux * ux),
        usable(ux * (uc * ux)),
        usable((uc * ux) * (uc * ux)),
        about(state.predicted(param, u), ux, e.f(), 6real),
        about(state.predicted_variance(param), ux * ux, e.sigma() * e.sigma(), 13real),
        about(param.h, uc, e.c, 0real),
        about(param.r, (uc * ux) * (uc * ux), e.rho, 0real),
        about(measurement, uc * ux, e.z, 0real),
    ensures
        ({
            let next = state.updated(param, u, measurement);
            near_exact(e, next.x, next.p, next.k, next.residual, ux, uc * ux, v, q)
        }),
{
    let next = state.updated(param, u, measurement);
    let x_pred = state.predicted(param, u);
    let p_pred = state.predicted_variance(param);
    let uz = uc * ux;
    let n = q * q;
    let p = e.sigma() * e.sigma();
    lemma_powers(q);
    lemma_exact_step(e, q);
    lemma_exact_variance(e, q);
    lemma_linear_gain(e, p_pred, param, ux, uc, v, q);
    lemma_size_of_product(e.c, e.f(), 1real, 2real);
    lemma_about_product(
        param.h,
        x_pred,
        uc,
        ux,
        e.c,
        e.f(),
        0real,
        6real,
        1real,
        2real,
        3real,
        9real,
    );
    lemma_about_difference(
        measurement,
        param.h * x_pred,
        uz,
        e.z,
        e.c * e.f(),
        0real,
        9real,
        4real,
    );
    lemma_wider(next.residual, uz, e.residual(), 13real, 27real);
    lemma_wider(x_pred, ux, e.f(), 6real, 19real);
    lemma_wider(p_pred, ux * ux, p, 13real, 93real);
    lemma_corrected_estimate(
        x_pred,
        next.k,
        next.residual,
        ux,
        uz,
        v,
        e.f(),
        e.k(),
        e.residual(),
        q,
    );
    lemma_reduced_variance(p_pred, next.k, param.h, ux * ux, uc, v, p, e.k(), e.c, q);
    lemma_wider(next.p, ux * ux, (1real - e.k() * e.c) * p, 475real * n, 1325real * (q * n));
}

/// The square of the rounded root of a variance, in units.
proof fn lemma_root_in_units(p: Binary32, ux: real, s: real) -> (ph: real)
    requires
        p.zero() || (p.normal() && p > b32(ZERO)),
        ux > 0real,
        s * ux == real_of(sqrt_of(p)),
    ensures
        about(p, ux * ux, ph, 0real),
        2097152real * size_of_real(s * s - ph) <= s * s,
{
    let square = ux * ux;
    let root = sqrt_of(p);
    let sr = real_of(root);
    let pr = real_of(p);
    assert(square > 0real) by (nonlinear_arith)
        requires
            square == ux * ux,
            ux > 0real,
    ;
    lemma_pow2_pos(149);
    let ph = lemma_about_itself(p, square);
    assert(2097152real * size_of_real(sr * sr - pr) <= sr * sr) by {
        lemma_root_as_real(p);
    }
    let d = s * s - ph;
    let n = size_of_real(d);
    assert(sr * sr == (s * s) * square) by (nonlinear_arith)
        requires
            sr == s * ux,
            square == ux * ux,
    ;
    assert(d * square == (s * s) * square - ph * square) by (nonlinear_arith)
        requires
            d == s * s - ph,
    ;
    lemma_size_of_product(d, square, n, square);
    assert((2097152real * n) * square == 2097152real * (n * square)) by (nonlinear_arith);
    lemma_unscaled(2097152real * n, s * s, square);
    ph
}

/// The square of the rounded root of a variance.
pub proof fn lemma_root_as_real(p: Binary32)
    requires
        p.zero() || (p.normal() && p > b32(ZERO)),
    ensures
        ({
            let sr = real_of(sqrt_of(p));
            2097152real * size_of_real(sr * sr - real_of(p)) <= sr * sr
        }),
{
    let u = pow2(149) as real;
    let root = sqrt_of(p).value();
    let n = p.value();
    let sr = real_of(sqrt_of(p));
    let pr = real_of(p);
    lemma_pow2_pos(149);
    assert(sr * u == root as real) by (nonlinear_arith)
        requires
            sr == root as real / u,
            u > 0real,
    ;
    assert(pr * u == n as real) by (nonlinear_arith)
        requires
            pr == n as real / u,
            u > 0real,
    ;
    assert(2097152 * abs(root * root - n * pow2(149)) <= root * root) by {
        if p.zero() {
            reveal(sqrt_of);
            lemma_mag_units_order(0, 0);
            assert(root * root == 0 && n * pow2(149) == 0) by (nonlinear_arith)
                requires
                    root == 0,
                    n == 0,
            ;
        } else {
            square_root_error_is_small(p);
        }
    }
    let a = root * root;
    let b = n * pow2(149);
    assert(a as real == (sr * sr) * (u * u)) by (nonlinear_arith)
        requires
            a == root * root,
            sr * u == root as real,
    ;
    assert(b as real == pr * (u * u)) by (nonlinear_arith)
        requires
            b == n * pow2(149),
            u == pow2(149) as real,
            pr * u == n as real,
    ;
    let square = u * u;
    assert(square > 0real) by (nonlinear_arith)
        requires
            square == u * u,
            u > 0real,
    ;
    let d = sr * sr - pr;
    let m = size_of_real(d);
    assert(d * square == (sr * sr) * square - pr * square) by (nonlinear_arith)
        requires
            d == sr * sr - pr,
    ;
    lemma_size_of_product(d, square, m, square);
    assert(2097152real * (m * square) <= (sr * sr) * square);
    assert((2097152real * m) * square == 2097152real * (m * square)) by (nonlinear_arith);
    lemma_unscaled(2097152real * m, sr * sr, square);
}

/// A linear step whose values stay clear of overflow and underflow: the model, the estimate
/// and the root of its variance are at most `slope`, `measure` and `reach` in size, the
/// input adds at most as much as the state, and the measurement noise is neither above the
/// signal nor below one part in `ratio` of it.
pub open spec fn linear_case(
    x: Binary32,
    p: Binary32,
    param: KalmanParam,
    beta: Binary32,
    u: Binary32,
    measurement: Binary32,
    slope: real,
    reach: real,
    measure: real,
    ratio: real,
) -> bool {
    let state = slope * reach;
    let seen = measure * state;
    &&& moderate(slope, 18) && moderate(reach, 18) && moderate(measure, 18)
    &&& 1real <= ratio <= 64real
    &&& param.a.finite() && size_of_real(real_of(param.a)) <= slope
    &&& param.h.finite() && size_of_real(real_of(param.h)) <= measure
    &&& x.finite() && size_of_real(real_of(x)) <= reach
    &&& p.zero() || (p.normal() && p > b32(ZERO))
    &&& sqrt_of(p).finite() && size_of_real(real_of(sqrt_of(p))) <= reach
    &&& param.b.finite() && u.finite()
    &&& size_of_real(real_of(param.b) * real_of(u)) <= state
    &&& measurement.finite() && size_of_real(real_of(measurement)) <= seen
    &&& param.r.finite() && 0real < real_of(param.r) <= seen * seen
    &&& seen * seen <= ratio * real_of(param.r)
    &&& beta.finite() && size_of_real(real_of(beta)) <= 4096real
    &&& param.q.zero()
}

/// The exact values of a step.
proof fn lemma_exact_values(
    x: Binary32,
    p: Binary32,
    param: KalmanParam,
    beta: Binary32,
    u: Binary32,
    measurement: Binary32,
    ua: real,
    ux: real,
    uc: real,
    q: real,
) -> (e: LinearStep)
    requires
        linear_case(x, p, param, beta, u, measurement, ua, ux, uc, q),
        usable(ua * ux),
        usable(uc * (ua * ux)),
        usable((uc * (ua * ux)) * (uc * (ua * ux))),
    ensures
        e.fits(q),
        stands_for(e, x, p, param, u, measurement, ua, ux, uc),
        e.s * ux == real_of(sqrt_of(p)),
{
    let unit = ua * ux;
    let seen = uc * unit;
    let square = seen * seen;
    let a = lemma_about_itself(param.a, ua);
    let xs = lemma_about_itself(x, ux);
    let s = lemma_about_itself(sqrt_of(p), ux);
    let c = lemma_about_itself(param.h, uc);
    let z = lemma_about_itself(measurement, seen);
    let rho = lemma_about_itself(param.r, square);
    lemma_at_most_one(a, ua);
    lemma_at_most_one(xs, ux);
    lemma_at_most_one(s, ux);
    lemma_at_most_one(c, uc);
    lemma_at_most_one(z, seen);
    lemma_at_most_one(rho, square);
    let product = real_of(param.b) * real_of(u);
    let t = product / unit;
    assert(t * unit == product) by (nonlinear_arith)
        requires
            t == product / unit,
            unit > 0real,
    ;
    lemma_at_most_one(t, unit);
    lemma_about_plain_product(param.b, u, unit, t);
    assert(rho > 0real) by {
        assert(0real * square == 0real) by (nonlinear_arith);
        lemma_unscaled(0real, rho, square);
    }
    assert(1real <= rho * q) by {
        assert(q * (rho * square) == (rho * q) * square) by (nonlinear_arith);
        assert(1real * square == square);
        lemma_unscaled(1real, rho * q, square);
    }
    LinearStep { a, x: xs, s, t, c, z, rho }
}

/// The step of the unscented filter from its state.
#[verifier::rlimit(40)]
proof fn lemma_unscented_of_linear(
    e: LinearStep,
    state: UkfState,
    param: KalmanParam,
    beta: Binary32,
    u: Binary32,
    measurement: Binary32,
    ua: real,
    ux: real,
    uc: real,
    v: real,
    q: real,
)
    requires
        e.fits(q),
        stands_for(e, state.x, state.p, param, u, measurement, ua, ux, uc),
        !state.p.nan(),
        ua > 0real,
        uc > 0real,
        usable(ux),
        usable(ua * ux),
        usable(uc * (ua * ux)),
        usable((ua * ux) * (ua * ux)),
        usable((ua * ux) * (uc * (ua * ux))),
        usable((uc * (ua * ux)) * (uc * (ua * ux))),
        usable(v),
        v * (uc * (ua * ux)) == ua * ux,
        beta.finite(),
        size_of_real(real_of(beta)) <= 4096real,
    ensures
        ({
            let noise = plain_noise(param, beta);
            let moved = linear_moved(param, state.points(noise), u);
            let next = UkfState::updated(noise, moved, linear_seen(param, moved), measurement);
            near_exact(
                e,
                next.x,
                next.p,
                next.k,
                next.residual,
                ua * ux,
                uc * (ua * ux),
                v,
                q,
            )
        }),
{
    let noise = plain_noise(param, beta);
    let unit = ua * ux;
    let seen = uc * unit;
    let root = sqrt_of(state.p);
    let moved = linear_moved(param, state.points(noise), u);
    lemma_plain_weights(noise);
    one_is_neutral(state.p);
    multiplication_is_commutative(b32(ONE), state.p);
    assert(state.points(noise) == (state.x, state.x + root, state.x - root));
    let b = lemma_about_itself(noise.variance_weight(), 1real);
    assert(b * 1real == b);
    assert(real_of(noise.variance_weight()) == real_of(beta));
    lemma_moved(param.a, state.x, root, param.b * u, ua, ux, e.a, e.x, e.s, e.t);
    lemma_seen(param.h, moved, uc, unit, e.c, e.f(), e.sigma());
    lemma_about_zero(param.q, unit * unit);
    lemma_unscented_step(
        e,
        noise,
        moved,
        linear_seen(param, moved),
        measurement,
        b,
        unit,
        seen,
        v,
        q,
    );
}

/// Two numbers about the same real are close to each other.
proof fn lemma_close(
    x: Binary32,
    y: Binary32,
    unit: real,
    p: real,
    e: real,
    more: real,
    scale: real,
)
    requires
        about(x, unit, p, e),
        about(y, unit, p, e),
        unit > 0real,
        2real * e <= more * scale,
    ensures
        8388608real * size_of_real(real_of(x) - real_of(y)) <= more * (scale * unit),
{
    lemma_scaled(2real * e, more * scale, unit);
    assert((2real * e) * unit == 2real * (e * unit)) by (nonlinear_arith);
    assert((more * scale) * unit == more * (scale * unit)) by (nonlinear_arith);
}

/// On a linear model without process noise, the unscented filter of spread one agrees with
/// the linear filter, whatever its weight `beta`: the residuals up to one part in `2^17` of
/// the size of the measurements, and the gains, estimates and variances up to one part in
/// `2^13`, `2^11` and `2^11` of their sizes, times two or three powers of the ratio of the
/// signal to the noise.
#[verifier::rlimit(40)]
pub proof fn unscented_filter_of_linear_model(
    state: UkfState,
    param: KalmanParam,
    beta: Binary32,
    u: Binary32,
    measurement: Binary32,
    slope: real,
    reach: real,
    measure: real,
    ratio: real,
)
    requires
        linear_case(
            state.x,
            state.p,
            param,
            beta,
            u,
            measurement,
            slope,
            reach,
            measure,
            ratio,
        ),
    ensures
        ({
            let noise = plain_noise(param, beta);
            let moved = linear_moved(param, state.points(noise), u);
            let seen = linear_seen(param, moved);
            let next = UkfState::updated(noise, moved, seen, measurement);
            let linear = KalmanState::started(state.x, state.p).updated(param, u, measurement);
            let unit = slope * reach;
            let q2 = ratio * ratio;
            let q3 = ratio * q2;
            &&& next.x.finite() && next.p.finite() && next.k.finite() && next.residual.finite()
            &&& linear.x.finite() && linear.p.finite() && linear.k.finite()
            &&& linear.residual.finite()
            &&& 131072real * size_of_real(real_of(next.residual) - real_of(linear.residual))
                <= measure * unit
            &&& 8192real * (size_of_real(real_of(next.k) - real_of(linear.k)) * measure) <= q2
            &&& 2048real * size_of_real(real_of(next.x) - real_of(linear.x)) <= q2 * unit
            &&& 2048real * size_of_real(real_of(next.p) - real_of(linear.p)) <= q3 * (unit * unit)
        }),
{
    let q = ratio;
    let unit = slope * reach;
    let seen = measure * unit;
    let n = q * q;
    let t = q * n;
    let v = lemma_units(slope, reach, measure);
    let e = lemma_exact_values(
        state.x,
        state.p,
        param,
        beta,
        u,
        measurement,
        slope,
        reach,
        measure,
        q,
    );
    let start = KalmanState::started(state.x, state.p);
    let ph = lemma_root_in_units(state.p, reach, e.s);
    lemma_unscented_of_linear(
        e,
        state,
        param,
        beta,
        u,
        measurement,
        slope,
        reach,
        measure,
        v,
        q,
    );
    lemma_moved(
        param.a,
        state.x,
        sqrt_of(state.p),
        param.b * u,
        slope,
        reach,
        e.a,
        e.x,
        e.s,
        e.t,
    );
    lemma_predicted_variance(param.a, state.p, param.q, slope, reach, e.a, e.s, ph);
    lemma_linear_step(e, start, param, u, measurement, unit, measure, v, q);
    let noise = plain_noise(param, beta);
    let moved = linear_moved(param, state.points(noise), u);
    let next = UkfState::updated(noise, moved, linear_seen(param, moved), measurement);
    let linear = start.updated(param, u, measurement);
    lemma_powers(q);
    let p = (1real - e.k() * e.c) * (e.sigma() * e.sigma());
    lemma_close(next.residual, linear.residual, seen, e.residual(), 27real, 64real, 1real);
    lemma_close(next.k, linear.k, v, e.k(), 374real * n, 1024real, n);
    lemma_close(
        next.x,
        linear.x,
        unit,
        e.f() + e.k() * e.residual(),
        1179real * n,
        4096real,
        n,
    );
    lemma_close(next.p, linear.p, unit * unit, p, 1325real * t, 4096real, t);
    assert(1real * seen == seen);
    let d = size_of_real(real_of(next.k) - real_of(linear.k));
    lemma_scaled(8388608real * d, 1024real * (n * v), measure);
    assert((8388608real * d) * measure == 8388608real * (d * measure)) by (nonlinear_arith);
    assert((1024real * (n * v)) * measure == 1024real * n) by (nonlinear_arith)
        requires
            v * measure == 1real,
    ;
}

} // verus!
