//! Score arithmetic: the comparator that decides when one claimed score
//! improves on another by a configured relative threshold, and the evaluation
//! of a support set into an election score.

use vstd::prelude::*;
use crate::types::{ElectionScore, ExtendedBalance, Support, PARTS_ONE};

verus! {

/// `a + b`, saturating at the numeric bound.
pub open spec fn sat_add_spec(a: u128, b: u128) -> u128 {
    if a + b > u128::MAX {
        u128::MAX
    } else {
        (a + b) as u128
    }
}

/// `a * b`, saturating at the numeric bound.
pub open spec fn sat_mul_spec(a: u128, b: u128) -> u128 {
    if a * b > u128::MAX {
        u128::MAX
    } else {
        (a * b) as u128
    }
}

/// `x + x * (parts / PARTS_ONE)`, with the fractional product rounded up and
/// the sum saturating at the numeric bound: the least score that counts as a
/// `parts`-relative improvement over `x`.
pub open spec fn spec_threshold_scaled(x: u128, parts: u32) -> u128 {
    let extra = (x * parts + (PARTS_ONE - 1)) / (PARTS_ONE as int);
    if x + extra > u128::MAX {
        u128::MAX
    } else {
        (x + extra) as u128
    }
}

/// `a + b`, saturating.
pub fn sat_add(a: u128, b: u128) -> (r: u128)
    ensures
        r == sat_add_spec(a, b),
{
    if a > u128::MAX - b {
        u128::MAX
    } else {
        a + b
    }
}

/// `a * b`, saturating.
pub fn sat_mul(a: u128, b: u128) -> (r: u128)
    ensures
        r == sat_mul_spec(a, b),
{
    if b == 0 {
        0
    } else if a > u128::MAX / b {
        proof {
            assert(a * b > u128::MAX) by (nonlinear_arith)
                requires
                    b > 0,
                    a > u128::MAX / b,
                    u128::MAX / b == u128::MAX as int / b as int,
            {
                vstd::arithmetic::div_mod::lemma_fundamental_div_mod(u128::MAX as int, b as int);
            }
        }
        u128::MAX
    } else {
        proof {
            assert(a * b <= u128::MAX) by (nonlinear_arith)
                requires
                    b > 0,
                    a <= u128::MAX / b,
                    u128::MAX / b == u128::MAX as int / b as int,
            {
                vstd::arithmetic::div_mod::lemma_fundamental_div_mod(u128::MAX as int, b as int);
            }
        }
        a * b
    }
}

/// Scale `x` up by the relative threshold `parts / PARTS_ONE`, rounding the
/// fractional part up and saturating.
pub fn threshold_scaled(x: u128, parts: u32) -> (r: u128)
    requires
        parts <= PARTS_ONE,
    ensures
        r == spec_threshold_scaled(x, parts),
{
    let d: u128 = PARTS_ONE as u128;
    let q: u128 = x / d;
    let rem: u128 = x % d;
    proof {
        lemma_extra_split(x, parts);
    }
    let whole: u128 = q * (parts as u128);
    let frac: u128 = (rem * (parts as u128) + (d - 1)) / d;
    let extra: u128 = sat_add(whole, frac);
    sat_add(x, extra)
}

/// The fractional extra of `threshold_scaled`, computed on the whole and the
/// remainder part separately, equals the directly rounded-up product, and is
/// suitably bounded.
proof fn lemma_extra_split(x: u128, parts: u32)
    requires
        parts <= PARTS_ONE,
    ensures
        (x as int / (PARTS_ONE as int)) * parts + ((x as int % (PARTS_ONE as int)) * parts + (
        PARTS_ONE - 1)) / (PARTS_ONE as int) == (x * parts + (PARTS_ONE - 1)) / (PARTS_ONE as int),
        (x as int / (PARTS_ONE as int)) * parts <= x,
        0 <= ((x as int % (PARTS_ONE as int)) * parts + (PARTS_ONE - 1)) / (PARTS_ONE as int)
            <= PARTS_ONE,
        (x as int % (PARTS_ONE as int)) * parts + (PARTS_ONE - 1) < (PARTS_ONE as int) * (
        PARTS_ONE as int),
{
    let d = PARTS_ONE as int;
    let q = x as int / d;
    let r = x as int % d;
    let p = parts as int;
    vstd::arithmetic::div_mod::lemma_fundamental_div_mod(x as int, d);
    assert(x as int * p == (q * p) * d + r * p) by (nonlinear_arith)
        requires
            x as int == d * q + r,
    ;
    vstd::arithmetic::div_mod::lemma_hoist_over_denominator(r * p + (d - 1), q * p, d as nat);
    assert(q * p <= q * d) by (nonlinear_arith)
        requires
            0 <= q,
            0 <= p <= d,
    ;
    assert(q * d <= q * d + r);
    assert(r * p <= (d - 1) * d) by (nonlinear_arith)
        requires
            0 <= r <= d - 1,
            0 <= p <= d,
    ;
    assert((r * p + (d - 1)) / d <= ((d - 1) * d + (d - 1)) / d) by {
        vstd::arithmetic::div_mod::lemma_div_is_ordered(r * p + (d - 1), (d - 1) * d + (d - 1), d);
    }
    assert(((d - 1) * d + (d - 1)) / d == (d - 1) / d + (d - 1)) by {
        vstd::arithmetic::div_mod::lemma_hoist_over_denominator(d - 1, d - 1, d as nat);
    }
    assert((d - 1) / d == 0) by {
        vstd::arithmetic::div_mod::lemma_basic_div(d - 1, d);
    }
    assert(0 <= (r * p + (d - 1)) / d) by {
        vstd::arithmetic::div_mod::lemma_div_is_ordered(0, r * p + (d - 1), d);
    }
}

/// Scaling by a threshold never lowers a value.
pub proof fn lemma_threshold_scaled_expansive(x: u128, parts: u32)
    requires
        parts <= PARTS_ONE,
    ensures
        spec_threshold_scaled(x, parts) >= x,
{
    let d = PARTS_ONE as int;
    assert(x * parts + (d - 1) >= 0) by (nonlinear_arith)
        requires
            x >= 0,
            parts >= 0,
            d >= 1,
    ;
    vstd::arithmetic::div_mod::lemma_div_is_ordered(0, x * parts + (d - 1), d);
}

/// Scaling by a threshold is monotone in the value scaled.
pub proof fn lemma_threshold_scaled_monotone(x: u128, y: u128, parts: u32)
    requires
        parts <= PARTS_ONE,
        x <= y,
    ensures
        spec_threshold_scaled(x, parts) <= spec_threshold_scaled(y, parts),
{
    let d = PARTS_ONE as int;
    assert(x * parts <= y * parts) by (nonlinear_arith)
        requires
            x <= y,
            parts >= 0,
    ;
    vstd::arithmetic::div_mod::lemma_div_is_ordered(
        x * parts + (d - 1),
        y * parts + (d - 1),
        d,
    );
    lemma_threshold_scaled_expansive(x, parts);
    lemma_threshold_scaled_expansive(y, parts);
}

/// `x * (parts / PARTS_ONE)`, rounded down.
pub open spec fn spec_parts_mul_floor(x: u128, parts: u32) -> int {
    (x * parts) / (PARTS_ONE as int)
}

/// Multiply `x` by the fraction `parts / PARTS_ONE`, rounding down.
pub fn parts_mul_floor(x: u128, parts: u32) -> (r: u128)
    requires
        parts <= PARTS_ONE,
    ensures
        r == spec_parts_mul_floor(x, parts),
        r <= x,
{
    let d: u128 = PARTS_ONE as u128;
    let q: u128 = x / d;
    let rem: u128 = x % d;
    proof {
        lemma_floor_split(x, parts);
    }
    q * (parts as u128) + (rem * (parts as u128)) / d
}

/// The floor fractional product, computed on the whole and the remainder
/// part separately, equals the directly rounded-down product.
proof fn lemma_floor_split(x: u128, parts: u32)
    requires
        parts <= PARTS_ONE,
    ensures
        (x as int / (PARTS_ONE as int)) * parts + ((x as int % (PARTS_ONE as int)) * parts)
            / (PARTS_ONE as int) == (x * parts) / (PARTS_ONE as int),
        (x as int / (PARTS_ONE as int)) * parts + ((x as int % (PARTS_ONE as int)) * parts)
            / (PARTS_ONE as int) <= x,
        0 <= ((x as int % (PARTS_ONE as int)) * parts) / (PARTS_ONE as int) <= PARTS_ONE,
{
    let d = PARTS_ONE as int;
    let q = x as int / d;
    let r = x as int % d;
    let p = parts as int;
    vstd::arithmetic::div_mod::lemma_fundamental_div_mod(x as int, d);
    assert(x as int * p == (q * p) * d + r * p) by (nonlinear_arith)
        requires
            x as int == d * q + r,
    ;
    vstd::arithmetic::div_mod::lemma_hoist_over_denominator(r * p, q * p, d as nat);
    assert(q * p <= q * d) by (nonlinear_arith)
        requires
            0 <= q,
            0 <= p <= d,
    ;
    assert(q * d <= q * d + r);
    assert(r * p <= (d - 1) * d) by (nonlinear_arith)
        requires
            0 <= r <= d - 1,
            0 <= p <= d,
    ;
    assert((r * p) / d <= ((d - 1) * d + (d - 1)) / d) by {
        vstd::arithmetic::div_mod::lemma_div_is_ordered(r * p, (d - 1) * d + (d - 1), d);
    }
    assert(((d - 1) * d + (d - 1)) / d == (d - 1) / d + (d - 1)) by {
        vstd::arithmetic::div_mod::lemma_hoist_over_denominator(d - 1, d - 1, d as nat);
    }
    assert((d - 1) / d == 0) by {
        vstd::arithmetic::div_mod::lemma_basic_div(d - 1, d);
    }
    assert(0 <= (r * p) / d) by {
        vstd::arithmetic::div_mod::lemma_div_is_ordered(0, r * p, d);
    }
    assert((r * p) / d <= r) by {
        assert(r * p <= r * d) by (nonlinear_arith)
            requires
                0 <= r,
                0 <= p <= d,
        ;
        vstd::arithmetic::div_mod::lemma_div_is_ordered(r * p, r * d, d);
        assert((r * d) / d == r) by {
            vstd::arithmetic::div_mod::lemma_div_multiples_vanish(r, d);
        }
    }
}

/// Whether the score `this` improves on the score `that` by at least the
/// relative threshold `epsilon_parts / PARTS_ONE`, judged on the primary
/// score element alone.
pub open spec fn spec_is_score_better(this: ElectionScore, that: ElectionScore, epsilon_parts: u32) -> bool {
    this.minimal_stake >= spec_threshold_scaled(that.minimal_stake, epsilon_parts)
}

/// Decide whether `this` improves on `that` by at least the relative
/// threshold `epsilon_parts / PARTS_ONE`.
pub fn is_score_better(this: ElectionScore, that: ElectionScore, epsilon_parts: u32) -> (r: bool)
    requires
        epsilon_parts <= PARTS_ONE,
    ensures
        r == spec_is_score_better(this, that, epsilon_parts),
{
    this.minimal_stake >= threshold_scaled(that.minimal_stake, epsilon_parts)
}

/// The improvement relation is antisymmetric: if each of two scores improves
/// on the other, their primary elements are equal.
pub proof fn lemma_is_score_better_antisymmetric(
    a: ElectionScore,
    b: ElectionScore,
    epsilon_parts: u32,
)
    requires
        epsilon_parts <= PARTS_ONE,
        spec_is_score_better(a, b, epsilon_parts),
        spec_is_score_better(b, a, epsilon_parts),
    ensures
        a.minimal_stake == b.minimal_stake,
{
    lemma_threshold_scaled_expansive(a.minimal_stake, epsilon_parts);
    lemma_threshold_scaled_expansive(b.minimal_stake, epsilon_parts);
}

/// The improvement relation is transitive.
pub proof fn lemma_is_score_better_transitive(
    a: ElectionScore,
    b: ElectionScore,
    c: ElectionScore,
    epsilon_parts: u32,
)
    requires
        epsilon_parts <= PARTS_ONE,
        spec_is_score_better(a, b, epsilon_parts),
        spec_is_score_better(b, c, epsilon_parts),
    ensures
        spec_is_score_better(a, c, epsilon_parts),
{
    lemma_threshold_scaled_expansive(b.minimal_stake, epsilon_parts);
}

/// The election score of a sequence of supports: the least total, the
/// saturating sum of totals, and the saturating sum of squared totals. An
/// empty support set scores the numeric maximum as its least total.
pub open spec fn spec_evaluate(s: Seq<(u64, Support)>) -> ElectionScore
    decreases s.len(),
{
    if s.len() == 0 {
        ElectionScore { minimal_stake: u128::MAX, sum_stake: 0, sum_stake_squared: 0 }
    } else {
        let rest = spec_evaluate(s.drop_last());
        let t = s.last().1.total;
        ElectionScore {
            minimal_stake: if t < rest.minimal_stake {
                t
            } else {
                rest.minimal_stake
            },
            sum_stake: sat_add_spec(rest.sum_stake, t),
            sum_stake_squared: sat_add_spec(rest.sum_stake_squared, sat_mul_spec(t, t)),
        }
    }
}

/// Evaluate a support set into an election score.
pub fn evaluate_supports(supports: &Vec<(u64, Support)>) -> (r: ElectionScore)
    ensures
        r == spec_evaluate(supports@),
{
    let mut minimal_stake: u128 = u128::MAX;
    let mut sum_stake: u128 = 0;
    let mut sum_stake_squared: u128 = 0;
    let mut i: usize = 0;
    while i < supports.len()
        invariant
            i <= supports.len(),
            spec_evaluate(supports@.take(i as int)) == (ElectionScore {
                minimal_stake,
                sum_stake,
                sum_stake_squared,
            }),
        decreases supports.len() - i,
    {
        let t = supports[i].1.total;
        proof {
            assert(supports@.take(i + 1).drop_last() =~= supports@.take(i as int));
        }
        if t < minimal_stake {
            minimal_stake = t;
        }
        sum_stake = sat_add(sum_stake, t);
        sum_stake_squared = sat_add(sum_stake_squared, sat_mul(t, t));
        i = i + 1;
    }
    proof {
        assert(supports@.take(supports@.len() as int) =~= supports@);
    }
    ElectionScore { minimal_stake, sum_stake, sum_stake_squared }
}

} // verus!
