//! Fixed-point geometry helpers.
//!
//! The simulation keeps all positions in tenths of a play-field unit and all
//! directions as one of [`DIR_STEPS`] compass steps of a full turn, so the
//! spiral storms and plant stems need no floating point: a direction step
//! maps to a unit vector in thousandths through a quarter-wave sine.

use vstd::prelude::*;

verus! {

/// Number of discrete direction steps in a full turn.
pub const DIR_STEPS: u64 = 64;

/// A quarter turn, in direction steps.
pub const QUARTER_TURN: u64 = 16;

/// Sine of `step` sixty-fourths of a turn for the first quadrant,
/// in thousandths; `step` past the quadrant saturates at one.
pub open spec fn spec_quarter_sin(step: u64) -> i64 {
    if step == 0 { 0 }
    else if step == 1 { 98 }
    else if step == 2 { 195 }
    else if step == 3 { 290 }
    else if step == 4 { 383 }
    else if step == 5 { 471 }
    else if step == 6 { 556 }
    else if step == 7 { 634 }
    else if step == 8 { 707 }
    else if step == 9 { 773 }
    else if step == 10 { 831 }
    else if step == 11 { 882 }
    else if step == 12 { 924 }
    else if step == 13 { 957 }
    else if step == 14 { 981 }
    else if step == 15 { 995 }
    else { 1000 }
}

/// Sine of `step` sixty-fourths of a turn, in thousandths.
pub open spec fn spec_sin_milli(step: u64) -> i64 {
    let s = step % DIR_STEPS;
    if s < 16 { spec_quarter_sin(s) }
    else if s < 32 { spec_quarter_sin((32 - s) as u64) }
    else if s < 48 { (-spec_quarter_sin((s - 32) as u64)) as i64 }
    else { (-spec_quarter_sin((64 - s) as u64)) as i64 }
}

/// Cosine of `step` sixty-fourths of a turn, in thousandths.
pub open spec fn spec_cos_milli(step: u64) -> i64 {
    spec_sin_milli(((step % DIR_STEPS) + QUARTER_TURN) as u64)
}

fn quarter_sin(step: u64) -> (r: i64)
    ensures
        r == spec_quarter_sin(step),
        0 <= r <= 1000,
{
    if step == 0 { 0 }
    else if step == 1 { 98 }
    else if step == 2 { 195 }
    else if step == 3 { 290 }
    else if step == 4 { 383 }
    else if step == 5 { 471 }
    else if step == 6 { 556 }
    else if step == 7 { 634 }
    else if step == 8 { 707 }
    else if step == 9 { 773 }
    else if step == 10 { 831 }
    else if step == 11 { 882 }
    else if step == 12 { 924 }
    else if step == 13 { 957 }
    else if step == 14 { 981 }
    else if step == 15 { 995 }
    else { 1000 }
}

/// Sine of a direction step, in thousandths.
pub fn sin_milli(step: u64) -> (r: i64)
    ensures
        r == spec_sin_milli(step),
        -1000 <= r <= 1000,
{
    let s = step % DIR_STEPS;
    if s < 16 { quarter_sin(s) }
    else if s < 32 { quarter_sin(32 - s) }
    else if s < 48 { -quarter_sin(s - 32) }
    else { -quarter_sin(64 - s) }
}

/// Cosine of a direction step, in thousandths.
pub fn cos_milli(step: u64) -> (r: i64)
    ensures
        r == spec_cos_milli(step),
        -1000 <= r <= 1000,
{
    sin_milli((step % DIR_STEPS) + QUARTER_TURN)
}

/// `value` scaled by `milli` thousandths, truncated toward zero.
pub open spec fn spec_scale_milli(value: int, milli: int) -> int {
    if value * milli >= 0 {
        (value * milli) / 1000
    } else {
        -((-(value * milli)) / 1000)
    }
}

/// Scale `value` by `milli` thousandths (for example a radius by a unit
/// direction component), truncating toward zero.
pub fn scale_milli(value: i64, milli: i64) -> (r: i64)
    requires
        -2000000 <= value <= 2000000,
        -1000 <= milli <= 1000,
    ensures
        r == spec_scale_milli(value as int, milli as int),
        -2000000 <= r <= 2000000,
{
    proof {
        assert(-2000000000 <= value * milli <= 2000000000) by (nonlinear_arith)
            requires
                -2000000 <= value <= 2000000,
                -1000 <= milli <= 1000,
        ;
    }
    let prod = value * milli;
    if prod >= 0 {
        prod / 1000
    } else {
        -((-prod) / 1000)
    }
}

/// The smoothed ramp `3 t^2 - 2 t^3` over a `0..=1000` fixed-point domain,
/// in thousandths; inputs past the ends clamp.
pub open spec fn spec_smooth_step_milli(t: i64) -> i64 {
    if t <= 0 { 0 }
    else if t >= 1000 { 1000 }
    else { ((3000 * t * t - 2 * t * t * t) / 1000000) as i64 }
}

/// Evaluate the smoothed ramp used by the scale-up animation.
pub fn smooth_step_milli(t: i64) -> (r: i64)
    ensures
        r == spec_smooth_step_milli(t),
        0 <= r <= 1000,
{
    if t <= 0 {
        0
    } else if t >= 1000 {
        1000
    } else {
        assert(0 <= t * t <= 1000000) by (nonlinear_arith)
            requires 0 < t < 1000;
        let t2 = t * t;
        assert(0 <= t2 * t <= 1000000000 && 2 * (t2 * t) <= 3000 * t2) by (nonlinear_arith)
            requires 0 < t < 1000, t2 == t * t;
        let t3 = t2 * t;
        let r = (3000 * t2 - 2 * t3) / 1000000;
        assert(r == spec_smooth_step_milli(t) && 0 <= r <= 1000) by (nonlinear_arith)
            requires 0 < t < 1000, t2 == t * t, t3 == t2 * t, r == (3000 * t2 - 2 * t3) / 1000000;
        r
    }
}

} // verus!
