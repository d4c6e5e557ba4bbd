//! The mean of the fuzzy rules: between the smallest and the largest, and not beyond what
//! the scale of an input stands for.
//!
//! Values are integers in units of `2^-149`, so one is `2^149` and a product of two values
//! is in units of `2^-298`.
use vstd::prelude::*;
use crate::accuracy::lemma_around_one;
use crate::accuracy::lemma_bound;
use crate::accuracy::lemma_doubled_mag;
use crate::accuracy::lemma_product_of_difference;
use crate::accuracy::lemma_product_of_sum;
use crate::accuracy::lemma_share_error;
use crate::advanced_control::fuzzy_weights_are_finite;
use crate::advanced_control::fuzzy_weights_are_positive;
use crate::advanced_control::fuzzy_weights_sum_to_one;
use crate::advanced_control::FuzzyParam;
use crate::advanced_control::FuzzyState;
use crate::advanced_control::membership;
use crate::advanced_control::membership_lies_between_zero_and_one;
use crate::advanced_control::rule_weight;
use crate::advanced_control::rule_weights;
use crate::advanced_control::scale_or_one;
use crate::advanced_control::weighted_rules;
use crate::arithmetic::division_keeps_order;
use crate::arithmetic::fraction_lies_between_zero_and_whole;
use crate::arithmetic::lemma_div_kind;
use crate::arithmetic::lemma_sum_kind;
use crate::arithmetic::multiplication_is_commutative;
use crate::arithmetic::negation_of_dividend_negates_quotient;
use crate::arithmetic::order_is_value_order;
use crate::arithmetic::power_mag;
use crate::arithmetic::quotient_error_is_at_most_half_own_spacing;
use crate::arithmetic::quotient_error_is_at_most_half_spacing;
use crate::arithmetic::quotient_with_itself_is_one;
use crate::arithmetic::sum_error_is_at_most_half_own_spacing;
use crate::arithmetic::sum_error_is_at_most_half_spacing;
use crate::arithmetic::sum_of_non_negatives;
use crate::binary32::b32;
use crate::binary32::Binary32;
use crate::binary32::ONE;
use crate::binary32::ZERO;
use crate::math::clamped;
use crate::nearest::lemma_mag_units_order;
use crate::nearest::lemma_relative_spacing;
use crate::nearest::lemma_spacing;
use crate::nearest::spacing;
use crate::rounding::INF_MAG;
use vstd::arithmetic::power2::pow2;
use vstd::math::abs;

verus! {

/// The exact sum of the first `n` rounded weights.
spec fn sum_of_weights(e_mu: Seq<Binary32>, de_mu: Seq<Binary32>, n: int) -> int
    decreases n,
{
    if n <= 0 {
        0
    } else {
        sum_of_weights(e_mu, de_mu, n - 1) + rule_weight(e_mu, de_mu, n - 1).value()
    }
}

/// The value of rule `n`, counted row by row.
spec fn rule_of(rules: [[Binary32; 3]; 3], n: int) -> Binary32 {
    rules[n / 3][n % 3]
}

/// The exact sum of the first `n` rules, each times its rounded weight.
spec fn sum_of_rules(
    e_mu: Seq<Binary32>,
    de_mu: Seq<Binary32>,
    rules: [[Binary32; 3]; 3],
    n: int,
) -> int
    decreases n,
{
    if n <= 0 {
        0
    } else {
        sum_of_rules(e_mu, de_mu, rules, n - 1) + rule_weight(e_mu, de_mu, n - 1).value()
            * rule_of(rules, n - 1).value()
    }
}

/// Whether all weights lie between 0 and 1, and their rounded sum below two.
spec fn weighs(e_mu: Seq<Binary32>, de_mu: Seq<Binary32>) -> bool {
    &&& forall|k: int|
        0 <= k < 9 ==> (#[trigger] rule_weight(e_mu, de_mu, k)).within(b32(ZERO), b32(ONE))
    &&& rule_weights(e_mu, de_mu, 9).mag() <= 0x3fff_ffff
    &&& !rule_weights(e_mu, de_mu, 9).negative()
}

/// The memberships of two numbers weigh the rules.
proof fn lemma_weighs(e: Binary32, de: Binary32)
    requires
        !e.nan(),
        !de.nan(),
        0x8_0000 * abs(rule_weights(membership(e), membership(de), 9).value() - pow2(149)) <= pow2(
            149,
        ),
        rule_weights(membership(e), membership(de), 9).finite(),
    ensures
        weighs(membership(e), membership(de)),
{
    let e_mu = membership(e);
    let de_mu = membership(de);
    assert forall|k: int| 0 <= k < 9 implies (#[trigger] rule_weight(e_mu, de_mu, k)).within(
        b32(ZERO),
        b32(ONE),
    ) by {
        membership_lies_between_zero_and_one(e, k / 3);
        membership_lies_between_zero_and_one(de, k % 3);
        fraction_lies_between_zero_and_whole(e_mu[k / 3], de_mu[k % 3]);
    }
    let w = rule_weights(e_mu, de_mu, 9);
    lemma_around_one();
    lemma_mag_units_order(w.mag(), 0x3fff_ffff);
}

/// Partial sums of weights only grow.
proof fn lemma_partial_weights(e_mu: Seq<Binary32>, de_mu: Seq<Binary32>, n: int, m: int)
    requires
        weighs(e_mu, de_mu),
        0 <= n <= m <= 9,
    ensures
        rule_weights(e_mu, de_mu, n) >= b32(ZERO),
        rule_weights(e_mu, de_mu, n) <= rule_weights(e_mu, de_mu, m),
    decreases m,
{
    if n < m {
        lemma_partial_weights(e_mu, de_mu, n, m - 1);
        lemma_partial_weights(e_mu, de_mu, m - 1, m - 1);
        assert(rule_weight(e_mu, de_mu, m - 1).within(b32(ZERO), b32(ONE)));
        sum_of_non_negatives(rule_weights(e_mu, de_mu, m - 1), rule_weight(e_mu, de_mu, m - 1));
    } else if n > 0 {
        lemma_partial_weights(e_mu, de_mu, n - 1, n - 1);
        assert(rule_weight(e_mu, de_mu, n - 1).within(b32(ZERO), b32(ONE)));
        sum_of_non_negatives(rule_weights(e_mu, de_mu, n - 1), rule_weight(e_mu, de_mu, n - 1));
    }
}

/// The rounded sum of the first weights, against the exact one.
proof fn lemma_weight_sum(e_mu: Seq<Binary32>, de_mu: Seq<Binary32>, n: int)
    requires
        weighs(e_mu, de_mu),
        0 <= n <= 9,
    ensures
        rule_weights(e_mu, de_mu, n).finite(),
        abs(rule_weights(e_mu, de_mu, n).value() - sum_of_weights(e_mu, de_mu, n)) <= n * pow2(125),
        0 <= sum_of_weights(e_mu, de_mu, n) <= sum_of_weights(e_mu, de_mu, 9),
    decreases n,
{
    let e = pow2(125);
    lemma_around_one();
    lemma_mag_units_order(0, 0);
    lemma_partial_weights(e_mu, de_mu, n, 9);
    lemma_sum_of_weights_grows(e_mu, de_mu, 0, n);
    lemma_sum_of_weights_grows(e_mu, de_mu, n, 9);
    if n > 0 {
        let k = n - 1;
        let w = rule_weight(e_mu, de_mu, k);
        assert(w.within(b32(ZERO), b32(ONE)));
        lemma_weight_sum(e_mu, de_mu, k);
        let next = rule_weights(e_mu, de_mu, n);
        sum_error_is_at_most_half_own_spacing(rule_weights(e_mu, de_mu, k), w);
        lemma_spacing(next.mag(), 0x3fff_ffff);
        assert(n * e == k * e + e) by (nonlinear_arith)
            requires
                n == k + 1,
        ;
    } else {
        assert(0 * e == 0);
    }
}

proof fn lemma_sum_of_weights_grows(e_mu: Seq<Binary32>, de_mu: Seq<Binary32>, n: int, m: int)
    requires
        weighs(e_mu, de_mu),
        0 <= n <= m <= 9,
    ensures
        sum_of_weights(e_mu, de_mu, n) <= sum_of_weights(e_mu, de_mu, m),
    decreases m,
{
    if n < m {
        lemma_sum_of_weights_grows(e_mu, de_mu, n, m - 1);
        lemma_weight_value(e_mu, de_mu, m - 1);
    }
}

proof fn lemma_weight_value(e_mu: Seq<Binary32>, de_mu: Seq<Binary32>, k: int)
    requires
        weighs(e_mu, de_mu),
        0 <= k < 9,
    ensures
        rule_weight(e_mu, de_mu, k).finite(),
        0 <= rule_weight(e_mu, de_mu, k).value() <= pow2(149),
{
    let w = rule_weight(e_mu, de_mu, k);
    assert(w.within(b32(ZERO), b32(ONE)));
    lemma_around_one();
    lemma_mag_units_order(0, 0);
    order_is_value_order(b32(ZERO), w);
    order_is_value_order(w, b32(ONE));
}

/// Whether all rules lie between two numbers, within a limit.
pub open spec fn rules_within(
    rules: [[Binary32; 3]; 3],
    low: Binary32,
    high: Binary32,
    limit: Binary32,
) -> bool {
    &&& forall|i: int, j: int|
        0 <= i < 3 && 0 <= j < 3 ==> (#[trigger] rules[i][j]).within(low, high)
    &&& low.within(-limit, limit) && high.within(-limit, limit)
}

/// The exact sum of the first rules lies between its ends, each times the weights.
proof fn lemma_sum_of_rules(
    e_mu: Seq<Binary32>,
    de_mu: Seq<Binary32>,
    rules: [[Binary32; 3]; 3],
    n: int,
    low: Binary32,
    high: Binary32,
    limit: Binary32,
)
    requires
        weighs(e_mu, de_mu),
        rules_within(rules, low, high, limit),
        limit.finite(),
        0 <= n <= 9,
    ensures
        low.value() * sum_of_weights(e_mu, de_mu, n) <= sum_of_rules(e_mu, de_mu, rules, n),
        sum_of_rules(e_mu, de_mu, rules, n) <= high.value() * sum_of_weights(e_mu, de_mu, n),
        abs(sum_of_rules(e_mu, de_mu, rules, n)) <= limit.value() * sum_of_weights(e_mu, de_mu, n),
    decreases n,
{
    let l = low.value();
    let h = high.value();
    let m = limit.value();
    lemma_bound(low, limit);
    lemma_bound(high, limit);
    if n > 0 {
        let k = n - 1;
        let w = rule_weight(e_mu, de_mu, k).value();
        let rule = rule_of(rules, k);
        let s = sum_of_weights(e_mu, de_mu, k);
        lemma_sum_of_rules(e_mu, de_mu, rules, k, low, high, limit);
        lemma_weight_value(e_mu, de_mu, k);
        assert(rules[k / 3][k % 3].within(low, high));
        order_is_value_order(low, rule);
        order_is_value_order(rule, high);
        let r = rule.value();
        assert(l * w <= w * r && w * r <= h * w && abs(w * r) <= m * w) by (nonlinear_arith)
            requires
                l <= r <= h,
                -m <= l,
                h <= m,
                0 <= w,
        ;
        assert(l * (s + w) == l * s + l * w) by (nonlinear_arith);
        assert(h * (s + w) == h * s + h * w) by (nonlinear_arith);
        assert(m * (s + w) == m * s + m * w) by (nonlinear_arith);
    } else {
        assert(l * 0 == 0 && h * 0 == 0 && m * 0 == 0);
    }
}

/// The rounded sum of the first weighted rules, against the exact one.
proof fn lemma_rules_error(
    e_mu: Seq<Binary32>,
    de_mu: Seq<Binary32>,
    rules: [[Binary32; 3]; 3],
    n: int,
    low: Binary32,
    high: Binary32,
    limit: Binary32,
)
    requires
        weighs(e_mu, de_mu),
        8 * sum_of_weights(e_mu, de_mu, 9) <= 9 * pow2(149),
        rules_within(rules, low, high, limit),
        limit.normal(),
        !limit.negative(),
        limit.mag() < power_mag(127) || weighted_rules(e_mu, de_mu, rules, n).finite(),
        0 <= n <= 9,
    ensures
        weighted_rules(e_mu, de_mu, rules, n).finite(),
        2 * abs(
            weighted_rules(e_mu, de_mu, rules, n).value() * pow2(149) - sum_of_rules(
                e_mu,
                de_mu,
                rules,
                n,
            ),
        ) <= (3 * n) * (spacing(limit.mag()) * pow2(149)),
    decreases n,
{
    let u = pow2(149);
    let gap = spacing(limit.mag());
    let g = gap * u;
    lemma_around_one();
    lemma_mag_units_order(0, 0);
    if n > 0 {
        let k = n - 1;
        let w = rule_weight(e_mu, de_mu, k);
        let rule = rule_of(rules, k);
        let sum = weighted_rules(e_mu, de_mu, rules, k);
        let p = w * rule;
        lemma_weight_value(e_mu, de_mu, k);
        lemma_rule_is_finite(rules, k, low, high, limit);
        fraction_lies_between_zero_and_whole(w, rule);
        lemma_sum_kind(sum, p);
        lemma_rules_error(e_mu, de_mu, rules, k, low, high, limit);
        lemma_weight_sum(e_mu, de_mu, n);
        lemma_sum_of_rules(e_mu, de_mu, rules, n, low, high, limit);
        assert(rules[k / 3][k % 3].within(low, high));
        lemma_bound(low, limit);
        lemma_bound(high, limit);
        order_is_value_order(low, rule);
        order_is_value_order(rule, high);
        multiplication_is_commutative(w, rule);
        lemma_share_error(rule, w, limit);
        assert(w.value() * rule.value() == rule.value() * w.value()) by (nonlinear_arith);
        lemma_relative_spacing(limit.mag());
        lemma_mag_units_order(p.mag(), limit.mag());
        lemma_next_sum(
            sum.value(),
            p.value(),
            sum_of_rules(e_mu, de_mu, rules, n),
            sum_of_weights(e_mu, de_mu, n),
            limit.value(),
            gap as int,
            k,
            u as int,
        );
        lemma_wide_sum(sum, p, limit);
        let next = weighted_rules(e_mu, de_mu, rules, n).value();
        let rest = next - (sum.value() + p.value());
        assert(2 * abs(rest * u) <= 2 * g) by (nonlinear_arith)
            requires
                2 * abs(rest) <= 2 * gap,
                g == gap * u,
        ;
        lemma_product_of_difference(next, sum.value() + p.value(), u as int);
        lemma_product_of_sum(sum.value(), p.value(), u as int);
        assert((3 * n) * g == (3 * k) * g + 3 * g) by (nonlinear_arith)
            requires
                n == k + 1,
        ;
    } else {
        assert(0 * u == 0);
        assert(0 * g == 0);
    }
}

/// Rules within a limit are finite.
proof fn lemma_rule_is_finite(
    rules: [[Binary32; 3]; 3],
    k: int,
    low: Binary32,
    high: Binary32,
    limit: Binary32,
)
    requires
        rules_within(rules, low, high, limit),
        limit.finite(),
        0 <= k < 9,
    ensures
        rule_of(rules, k).finite(),
{
    let rule = rule_of(rules, k);
    assert(rules[k / 3][k % 3].within(low, high));
    lemma_bound(low, limit);
    lemma_bound(high, limit);
}

/// The spacing at numbers up to twice a limit, or as far as the numbers go.
proof fn lemma_wide_spacing(mag: nat, limit: Binary32)
    requires
        limit.normal(),
        mag < INF_MAG,
        mag <= limit.mag() + 0x80_0000 || limit.mag() >= power_mag(127),
    ensures
        spacing(mag) <= 2 * spacing(limit.mag()),
{
    lemma_doubled_mag(limit.mag());
    lemma_spacing(mag, limit.mag() + 0x80_0000);
}

/// A sum up to twice a limit that does not overflow.
proof fn lemma_wide_sum(x: Binary32, y: Binary32, limit: Binary32)
    requires
        x.finite(),
        y.finite(),
        limit.normal(),
        !limit.negative(),
        abs(x.value() + y.value()) <= 2 * limit.value(),
        limit.mag() < power_mag(127) || (x + y).finite(),
    ensures
        (x + y).finite(),
        2 * abs((x + y).value() - (x.value() + y.value())) <= 2 * spacing(limit.mag()),
{
    lemma_doubled_mag(limit.mag());
    if limit.mag() < power_mag(127) {
        sum_error_is_at_most_half_spacing(x, y, limit.mag() + 0x80_0000);
    } else {
        sum_error_is_at_most_half_own_spacing(x, y);
        lemma_wide_spacing((x + y).mag(), limit);
    }
}

/// A quotient up to twice a limit that does not overflow.
proof fn lemma_wide_quotient(x: Binary32, y: Binary32, limit: Binary32)
    requires
        x.finite(),
        y.finite(),
        y > b32(ZERO),
        limit.normal(),
        !limit.negative(),
        abs(x.value()) * pow2(149) <= (2 * limit.value()) * y.value(),
        limit.mag() < power_mag(127) || (x / y).finite(),
    ensures
        (x / y).finite(),
        2 * abs((x / y).value() * y.value() - x.value() * pow2(149)) <= (2 * spacing(limit.mag()))
            * y.value(),
{
    lemma_doubled_mag(limit.mag());
    if limit.mag() < power_mag(127) {
        quotient_error_is_at_most_half_spacing(x, y, limit.mag() + 0x80_0000);
    } else {
        let gap = spacing((x / y).mag()) as int;
        let wide = 2 * spacing(limit.mag());
        quotient_error_is_at_most_half_own_spacing(x, y);
        lemma_wide_spacing((x / y).mag(), limit);
        lemma_mag_units_order(0, 0);
        order_is_value_order(b32(ZERO), y);
        assert(gap * y.value() <= wide * y.value()) by (nonlinear_arith)
            requires
                gap <= wide,
                y.value() > 0,
        ;
    }
}

/// The exact sum of two rounded numbers stays below twice the limit.
proof fn lemma_next_sum(
    sum: int,
    p: int,
    exact: int,
    weights: int,
    limit: int,
    gap: int,
    k: int,
    u: int,
)
    requires
        2 * abs(sum * u + p * u - exact) <= (3 * k) * (gap * u) + gap * u,
        abs(exact) <= limit * weights,
        0 <= weights,
        8 * weights <= 9 * u,
        0x80_0000 * gap <= limit,
        0 <= gap,
        0 <= k <= 8,
        u > 0,
    ensures
        abs(sum + p) <= 2 * limit,
{
    let g = gap * u;
    assert(g >= 0) by (nonlinear_arith)
        requires
            g == gap * u,
            gap >= 0,
            u > 0,
    ;
    assert((3 * k) * g + g <= 25 * g) by (nonlinear_arith)
        requires
            0 <= k <= 8,
            g >= 0,
    ;
    assert(8 * (limit * weights) <= 9 * (limit * u)) by (nonlinear_arith)
        requires
            8 * weights <= 9 * u,
            limit >= 0,
    ;
    assert(0x80_0000 * g <= limit * u) by (nonlinear_arith)
        requires
            g == gap * u,
            0x80_0000 * gap <= limit,
            u > 0,
    ;
    assert((sum + p) * u == sum * u + p * u) by (nonlinear_arith);
    assert(abs(sum + p) <= 2 * limit) by (nonlinear_arith)
        requires
            abs((sum + p) * u) <= 2 * (limit * u),
            u > 0,
    ;
}

/// The weighted sum of the rules.
pub open spec fn sum_of_weighted_rules(
    param: FuzzyParam,
    error: Binary32,
    error_delta: Binary32,
) -> Binary32 {
    let e_mu = membership(error / scale_or_one(param.e_scale));
    let de_mu = membership(error_delta / scale_or_one(param.de_scale));
    weighted_rules(e_mu, de_mu, param.rules, 9)
}

/// The weighted mean of the rules.
pub open spec fn mean_of_rules(
    param: FuzzyParam,
    error: Binary32,
    error_delta: Binary32,
) -> Binary32 {
    let e_mu = membership(error / scale_or_one(param.e_scale));
    let de_mu = membership(error_delta / scale_or_one(param.de_scale));
    weighted_rules(e_mu, de_mu, param.rules, 9) / rule_weights(e_mu, de_mu, 9)
}

/// The mean of the rules, from sums that are off by little.
proof fn lemma_mean_bound(
    mean: int,
    num: int,
    den: int,
    exact: int,
    weights: int,
    bound: int,
    limit: int,
    gap: int,
    e: int,
)
    requires
        2 * abs(mean * den - num * (0x100_0000 * e)) <= (2 * gap) * den,
        2 * abs(num * (0x100_0000 * e) - exact) <= 27 * (gap * (0x100_0000 * e)),
        exact <= bound * weights,
        abs(den - weights) <= 9 * e,
        abs(bound) <= limit,
        0x80_0000 * gap <= limit,
        0 <= gap,
        e > 0,
        0xff_ff00 * e <= den,
    ensures
        0x4_0000 * (mean - bound) <= limit,
{
    let u = 0x100_0000 * e;
    assert((2 * gap) * den == 2 * (gap * den)) by (nonlinear_arith);
    assert(bound * weights <= bound * den + 9 * (limit * e)) by (nonlinear_arith)
        requires
            abs(den - weights) <= 9 * e,
            abs(bound) <= limit,
            e > 0,
    ;
    assert(0x80_0000 * (gap * den) <= limit * den) by (nonlinear_arith)
        requires
            0x80_0000 * gap <= limit,
            den >= 0,
    ;
    assert(0x80_0000 * (gap * u) <= limit * u) by (nonlinear_arith)
        requires
            0x80_0000 * gap <= limit,
            u >= 0,
    ;
    assert(limit * u == 0x100_0000 * (limit * e)) by (nonlinear_arith)
        requires
            u == 0x100_0000 * e,
    ;
    assert(0xff_ff00 * (limit * e) <= limit * den) by (nonlinear_arith)
        requires
            0xff_ff00 * e <= den,
            limit >= 0,
    ;
    assert((mean - bound) * den == mean * den - bound * den) by (nonlinear_arith);
    assert(0x4_0000 * (mean - bound) <= limit) by (nonlinear_arith)
        requires
            0x4_0000 * ((mean - bound) * den) <= limit * den,
            den > 0,
    ;
}

/// The output is the limited and scaled mean of the rules, which lies between the smallest
/// and the largest, up to one part in `2^18` of a limit of all rules. Rules below `2^127`
/// never overflow on the way; beyond it the law holds wherever they do not.
pub proof fn fuzzy_mean_lies_between_rules(
    param: FuzzyParam,
    error: Binary32,
    error_delta: Binary32,
    low: Binary32,
    high: Binary32,
    limit: Binary32,
)
    requires
        !(error / scale_or_one(param.e_scale)).nan(),
        !(error_delta / scale_or_one(param.de_scale)).nan(),
        rules_within(param.rules, low, high, limit),
        limit.normal(),
        limit > b32(ZERO),
        limit.mag() < power_mag(127) || (sum_of_weighted_rules(param, error, error_delta).finite()
            && mean_of_rules(param, error, error_delta).finite()),
    ensures
        ({
            let mean = mean_of_rules(param, error, error_delta);
            &&& mean.finite()
            &&& 0x4_0000 * (mean.value() - high.value()) <= limit.value()
            &&& 0x4_0000 * (low.value() - mean.value()) <= limit.value()
            &&& FuzzyState::updated(param, error, error_delta).output == clamped(
                mean * param.out_scale,
                param.out_min,
                param.out_max,
            )
        }),
{
    let e_mu = membership(error / scale_or_one(param.e_scale));
    let de_mu = membership(error_delta / scale_or_one(param.de_scale));
    let num = weighted_rules(e_mu, de_mu, param.rules, 9);
    let den = rule_weights(e_mu, de_mu, 9);
    let exact = sum_of_rules(e_mu, de_mu, param.rules, 9);
    let weights = sum_of_weights(e_mu, de_mu, 9);
    let mean = num / den;
    let gap = spacing(limit.mag());
    let u = pow2(149);
    let e = pow2(125);
    lemma_around_one();
    fuzzy_weights_are_positive(param, error, error_delta);
    fuzzy_weights_sum_to_one(param, error, error_delta);
    fuzzy_weights_are_finite(param, error, error_delta);
    lemma_weighs(error / scale_or_one(param.e_scale), error_delta / scale_or_one(param.de_scale));
    lemma_weight_sum(e_mu, de_mu, 9);
    lemma_sum_of_rules(e_mu, de_mu, param.rules, 9, low, high, limit);
    lemma_rules_error(e_mu, de_mu, param.rules, 9, low, high, limit);
    lemma_relative_spacing(limit.mag());
    lemma_bound(low, limit);
    lemma_bound(high, limit);
    lemma_mean_limit(
        num.value(),
        den.value(),
        exact,
        weights,
        limit.value(),
        gap as int,
        e as int,
    );
    lemma_wide_quotient(num, den, limit);
    lemma_mean_bound(
        mean.value(),
        num.value(),
        den.value(),
        exact,
        weights,
        high.value(),
        limit.value(),
        gap as int,
        e as int,
    );
    lemma_opposite(mean.value(), den.value());
    lemma_opposite(num.value(), u as int);
    lemma_opposite(low.value(), weights);
    lemma_mean_bound(
        -mean.value(),
        -num.value(),
        den.value(),
        -exact,
        weights,
        -low.value(),
        limit.value(),
        gap as int,
        e as int,
    );
}

proof fn lemma_opposite(a: int, b: int)
    ensures
        (-a) * b == -(a * b),
{
    assert((-a) * b == -(a * b)) by (nonlinear_arith);
}

/// The mean of rules within a limit is at most twice the limit.
proof fn lemma_mean_limit(
    num: int,
    den: int,
    exact: int,
    weights: int,
    limit: int,
    gap: int,
    e: int,
)
    requires
        2 * abs(num * (0x100_0000 * e) - exact) <= 27 * (gap * (0x100_0000 * e)),
        abs(exact) <= limit * weights,
        abs(den - weights) <= 9 * e,
        0 <= weights,
        0x80_0000 * gap <= limit,
        0 <= gap,
        e > 0,
        0xff_ff00 * e <= den,
    ensures
        abs(num) * (0x100_0000 * e) <= (2 * limit) * den,
{
    let u = 0x100_0000 * e;
    assert(abs(num) * u == abs(num * u)) by (nonlinear_arith)
        requires
            u > 0,
    ;
    assert(limit * weights <= limit * den + 9 * (limit * e)) by (nonlinear_arith)
        requires
            abs(den - weights) <= 9 * e,
            limit >= 0,
    ;
    assert(0x80_0000 * (gap * u) <= limit * u) by (nonlinear_arith)
        requires
            0x80_0000 * gap <= limit,
            u >= 0,
    ;
    assert(limit * u == 0x100_0000 * (limit * e)) by (nonlinear_arith)
        requires
            u == 0x100_0000 * e,
    ;
    assert(0xff_ff00 * (limit * e) <= limit * den) by (nonlinear_arith)
        requires
            0xff_ff00 * e <= den,
            limit >= 0,
    ;
    assert(limit * e >= 0) by (nonlinear_arith)
        requires
            limit >= 0,
            e > 0,
    ;
    assert((2 * limit) * den == 2 * (limit * den)) by (nonlinear_arith);
}

/// A quotient by a divisor of the opposite sign is the opposite quotient.
proof fn lemma_negated_divisor(a: Binary32, b: Binary32)
    requires
        !(a / b).nan(),
    ensures
        a / (-b) == -(a / b),
{
    reveal(Binary32::spec_euclidean_or_real_div);
}

/// Beyond a scale, an input belongs to the tiers as the scale itself does.
proof fn lemma_saturated_membership(x: Binary32, scale: Binary32)
    requires
        !x.nan(),
        scale.finite(),
        !scale.zero(),
    ensures
        membership(x / scale) == membership(clamped(x, -scale.size(), scale.size()) / scale),
{
    let size = scale.size();
    quotient_with_itself_is_one(size);
    lemma_div_kind(x, size);
    lemma_div_kind(x, scale);
    negation_of_dividend_negates_quotient(size, size);
    if x > size {
        division_keeps_order(size, x, size);
    }
    if x < -size {
        division_keeps_order(x, -size, size);
    }
    if scale.negative() {
        assert(scale == -size);
        lemma_negated_divisor(x, size);
        lemma_negated_divisor(size, size);
        lemma_negated_divisor(-size, size);
    } else {
        assert(scale == size);
    }
}

/// An error beyond its scale gives the result of the scale itself, and so does its change:
/// the table saturates and never extrapolates.
pub proof fn fuzzy_inputs_saturate_at_scale(
    param: FuzzyParam,
    error: Binary32,
    error_delta: Binary32,
)
    requires
        !error.nan(),
        !error_delta.nan(),
        param.e_scale.finite(),
        param.de_scale.finite(),
        !param.e_scale.zero(),
        !param.de_scale.zero(),
    ensures
        FuzzyState::updated(param, error, error_delta) == FuzzyState::updated(
            param,
            clamped(error, -param.e_scale.size(), param.e_scale.size()),
            clamped(error_delta, -param.de_scale.size(), param.de_scale.size()),
        ),
{
    lemma_saturated_membership(error, param.e_scale);
    lemma_saturated_membership(error_delta, param.de_scale);
}

} // verus!
