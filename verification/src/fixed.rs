//! Fixed-point quantities.
//!
//! Similarity scores and confidences are exact integers counted in millionths:
//! `UNIT` stands for 1.0, `950_000` for 0.95, and so on. Every formula below is
//! integer arithmetic with a stated rounding, so that two runs on the same data
//! always agree and every bound can be proved.

use vstd::prelude::*;

verus! {

/// One whole: the fixed-point representation of 1.0.
pub const UNIT: i64 = 1_000_000;

/// Milliseconds in a day.
pub const MILLIS_PER_DAY: i64 = 86_400_000;

/// A value forced into the range of a confidence, `0 ..= UNIT`.
pub open spec fn clamp_unit_spec(value: int) -> int {
    if value < 0 {
        0
    } else if value > UNIT as int {
        UNIT as int
    } else {
        value
    }
}

/// Clamps a fixed-point value into `0 ..= UNIT`.
pub fn clamp_unit(value: i64) -> (clamped: i64)
    ensures
        clamped == clamp_unit_spec(value as int),
        0 <= clamped <= UNIT,
{
    if value < 0 {
        0
    } else if value > UNIT {
        UNIT
    } else {
        value
    }
}

/// Whole days from `earlier` to `later` (both in milliseconds since the epoch).
/// A span that runs backwards counts as zero days.
pub open spec fn days_between_spec(earlier: i64, later: i64) -> int {
    if later <= earlier {
        0
    } else {
        (later - earlier) / (MILLIS_PER_DAY as int)
    }
}

/// Whole days from `earlier` to `later`.
pub fn days_between(earlier: i64, later: i64) -> (days: u64)
    ensures
        days == days_between_spec(earlier, later),
{
    if later <= earlier {
        0
    } else {
        let span: i128 = later as i128 - earlier as i128;
        (span / 86_400_000) as u64
    }
}

/// `value * rate / UNIT`, rounded down: one multiplication by a fixed-point factor.
pub open spec fn scale_spec(value: int, rate: int) -> int {
    (value * rate) / (UNIT as int)
}

/// Multiplies a confidence by a fixed-point factor, rounding down.
pub fn scale(value: i64, rate: i64) -> (scaled: i64)
    requires
        0 <= value <= UNIT,
        0 <= rate <= UNIT,
    ensures
        scaled == scale_spec(value as int, rate as int),
        0 <= scaled <= value,
{
    proof {
        lemma_scale_shrinks(value as int, rate as int);
    }
    assert(value * rate <= 1_000_000 * 1_000_000) by (nonlinear_arith)
        requires
            0 <= value <= 1_000_000,
            0 <= rate <= 1_000_000,
    ;
    assert(0 <= value * rate) by (nonlinear_arith)
        requires
            0 <= value,
            0 <= rate,
    ;
    (value * rate) / UNIT
}

/// Scaling by a factor of at most one never increases a non-negative value.
pub proof fn lemma_scale_shrinks(value: int, rate: int)
    requires
        0 <= value,
        0 <= rate <= UNIT,
    ensures
        0 <= scale_spec(value, rate) <= value,
{
    assert(0 <= value * rate <= value * 1_000_000) by (nonlinear_arith)
        requires
            0 <= value,
            0 <= rate <= 1_000_000,
    ;
    assert((value * 1_000_000) / 1_000_000 == value) by (nonlinear_arith);
    assert((value * rate) / 1_000_000 <= (value * 1_000_000) / 1_000_000) by (nonlinear_arith)
        requires
            value * rate <= value * 1_000_000,
    ;
    assert(0 <= (value * rate) / 1_000_000) by (nonlinear_arith)
        requires
            0 <= value * rate,
    ;
}

/// Scaling is monotone in the value being scaled.
pub proof fn lemma_scale_monotone(low: int, high: int, rate: int)
    requires
        0 <= low <= high,
        0 <= rate,
    ensures
        scale_spec(low, rate) <= scale_spec(high, rate),
{
    assert(low * rate <= high * rate) by (nonlinear_arith)
        requires
            low <= high,
            0 <= rate,
    ;
    assert((low * rate) / 1_000_000 <= (high * rate) / 1_000_000) by (nonlinear_arith)
        requires
            low * rate <= high * rate,
    ;
}

/// `value` scaled by `rate` over and over, `times` times, rounding down each time.
pub open spec fn decay_spec(value: int, rate: int, times: nat) -> int
    decreases times,
{
    if times == 0 {
        value
    } else {
        decay_spec(scale_spec(value, rate), rate, (times - 1) as nat)
    }
}

/// Repeated scaling stays between zero and the starting value.
pub proof fn lemma_decay_bounds(value: int, rate: int, times: nat)
    requires
        0 <= value,
        0 <= rate <= UNIT,
    ensures
        0 <= decay_spec(value, rate, times) <= value,
    decreases times,
{
    if times > 0 {
        lemma_scale_shrinks(value, rate);
        lemma_decay_bounds(scale_spec(value, rate), rate, (times - 1) as nat);
    }
}

/// Repeated scaling is monotone in the starting value.
pub proof fn lemma_decay_monotone_value(low: int, high: int, rate: int, times: nat)
    requires
        0 <= low <= high,
        0 <= rate <= UNIT,
    ensures
        decay_spec(low, rate, times) <= decay_spec(high, rate, times),
    decreases times,
{
    if times > 0 {
        lemma_scale_monotone(low, high, rate);
        lemma_scale_shrinks(low, rate);
        lemma_decay_monotone_value(
            scale_spec(low, rate),
            scale_spec(high, rate),
            rate,
            (times - 1) as nat,
        );
    }
}

/// Scaling more often never gives more.
pub proof fn lemma_decay_monotone_times(value: int, rate: int, fewer: nat, more: nat)
    requires
        0 <= value,
        0 <= rate <= UNIT,
        fewer <= more,
    ensures
        decay_spec(value, rate, more) <= decay_spec(value, rate, fewer),
    decreases fewer,
{
    if fewer == 0 {
        lemma_decay_bounds(value, rate, more);
    } else {
        lemma_scale_shrinks(value, rate);
        lemma_decay_monotone_times(
            scale_spec(value, rate),
            rate,
            (fewer - 1) as nat,
            (more - 1) as nat,
        );
    }
}

/// Once a decaying value has reached zero it stays there.
pub proof fn lemma_decay_of_zero(rate: int, times: nat)
    requires
        0 <= rate <= UNIT,
    ensures
        decay_spec(0, rate, times) == 0,
{
    lemma_decay_bounds(0, rate, times);
}

/// Scales `value` by `rate`, `times` times over. Stops early once the value has
/// reached zero, which changes nothing in the result.
pub fn decay(value: i64, rate: i64, times: u64) -> (decayed: i64)
    requires
        0 <= value <= UNIT,
        0 <= rate <= UNIT,
    ensures
        decayed == decay_spec(value as int, rate as int, times as nat),
        0 <= decayed <= value,
{
    let mut current: i64 = value;
    let mut done: u64 = 0;
    proof {
        lemma_decay_bounds(value as int, rate as int, times as nat);
    }
    while done < times && current > 0
        invariant
            0 <= current <= value <= UNIT,
            0 <= rate <= UNIT,
            done <= times,
            decay_spec(current as int, rate as int, (times - done) as nat) == decay_spec(
                value as int,
                rate as int,
                times as nat,
            ),
        decreases times - done,
    {
        current = scale(current, rate);
        done = done + 1;
    }
    proof {
        if done < times {
            lemma_decay_of_zero(rate as int, (times - done) as nat);
        }
    }
    current
}

} // verus!
