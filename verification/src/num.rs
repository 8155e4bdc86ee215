//! Fixed-point numeric base of the simulation.
//!
//! A real-valued quantity `x` is represented by the integer `x * SCALE`,
//! rounded to an integer. Ratios are bounded by `RATIO_LIMIT` and moods by
//! `MOOD_LIMIT`; mood updates saturate at the mood bound, every other
//! operation is exact.

use vstd::prelude::*;

verus! {

/// Fixed-point unit: the integer standing for the real value 1.0.
pub const SCALE: i64 = 1_000_000;

/// Largest magnitude a ratio (population share or subgroup share) may take:
/// the real value 100.0.
pub const RATIO_LIMIT: i64 = 100_000_000;

/// Largest magnitude a mood may take: the real value 1_000_000.0.
/// Mood updates saturate here instead of overflowing.
pub const MOOD_LIMIT: i64 = 1_000_000_000_000;

/// Most subgroups one interest group may hold.
pub const MAX_SUBGROUPS: usize = 10_000;

/// Most interest groups one society may hold.
pub const MAX_GROUPS: usize = 10_000;

/// A mood delta clipped into the mood bound.
pub open spec fn clip_mood(x: int) -> int {
    if x > MOOD_LIMIT as int {
        MOOD_LIMIT as int
    } else if x < -(MOOD_LIMIT as int) {
        -(MOOD_LIMIT as int)
    } else {
        x
    }
}

/// Saturating fixed-point mood addition.
pub fn mood_add(mood: i64, delta: i64) -> (r: i64)
    requires
        -MOOD_LIMIT <= mood <= MOOD_LIMIT,
    ensures
        r == clip_mood(mood + delta),
        -MOOD_LIMIT <= r <= MOOD_LIMIT,
{
    let s: i128 = mood as i128 + delta as i128;
    if s > MOOD_LIMIT as i128 {
        MOOD_LIMIT
    } else if s < -(MOOD_LIMIT as i128) {
        -MOOD_LIMIT
    } else {
        s as i64
    }
}

/// A ratio clipped into the ratio bound.
pub open spec fn clip_ratio(x: int) -> int {
    if x > RATIO_LIMIT as int {
        RATIO_LIMIT as int
    } else if x < -(RATIO_LIMIT as int) {
        -(RATIO_LIMIT as int)
    } else {
        x
    }
}

/// Division truncating toward zero, for a positive divisor.
pub open spec fn div_trunc(a: int, d: int) -> int
    recommends
        d > 0,
{
    if a >= 0 {
        a / d
    } else {
        -((-a) / d)
    }
}

/// `div_trunc` on machine integers.
pub fn div_trunc_i128(a: i128, d: i128) -> (r: i128)
    requires
        d > 0,
        a > i128::MIN,
    ensures
        r == div_trunc(a as int, d as int),
{
    if a >= 0 {
        proof {
            vstd::arithmetic::div_mod::lemma_div_pos_is_pos(a as int, d as int);
            vstd::arithmetic::div_mod::lemma_div_is_ordered(a as int, i128::MAX as int, d as int);
            vstd::arithmetic::div_mod::lemma_div_nonincreasing(i128::MAX as int, d as int);
        }
        ((a as u128) / (d as u128)) as i128
    } else {
        let neg: i128 = -a;
        proof {
            vstd::arithmetic::div_mod::lemma_div_pos_is_pos(neg as int, d as int);
            vstd::arithmetic::div_mod::lemma_div_is_ordered(neg as int, i128::MAX as int, d as int);
            vstd::arithmetic::div_mod::lemma_div_nonincreasing(i128::MAX as int, d as int);
        }
        -(((neg as u128) / (d as u128)) as i128)
    }
}

/// For nonnegative `a` and `b` and a positive divisor, the quotients of the
/// parts never exceed the quotient of the sum.
pub proof fn lemma_div_add_le(a: int, b: int, d: int)
    requires
        a >= 0,
        b >= 0,
        d > 0,
    ensures
        a / d + b / d <= (a + b) / d,
{
    vstd::arithmetic::div_mod::lemma_fundamental_div_mod(a, d);
    vstd::arithmetic::div_mod::lemma_fundamental_div_mod(b, d);
    vstd::arithmetic::div_mod::lemma_mod_bound(a, d);
    vstd::arithmetic::div_mod::lemma_mod_bound(b, d);
    let q = a / d + b / d;
    assert(a + b == d * q + (a % d + b % d)) by (nonlinear_arith)
        requires
            a == d * (a / d) + a % d,
            b == d * (b / d) + b % d,
            q == a / d + b / d,
    ;
    vstd::arithmetic::div_mod::lemma_div_multiples_vanish(q, d);
    assert(d * q / d == q);
    vstd::arithmetic::div_mod::lemma_div_is_ordered(d * q, a + b, d);
}

} // verus!
