//! Time as integers.
//!
//! A time is a number of ticks and a position inside a clip is a fraction of
//! two of them. Sums saturate at the ends of the range.
use vstd::arithmetic::div_mod::{lemma_fundamental_div_mod, lemma_fundamental_div_mod_converse};
use vstd::prelude::*;

pub mod laws;

verus! {

/// A time or a duration, in ticks.
pub type Ticks = i64;

/// The number of ticks in a second.
pub const TICKS_PER_SECOND: i64 = 705_600_000;

/// Durations up to this many ticks have no extent to interpolate over.
pub const TICKS_EPSILON: i64 = 84;

/// A position inside a clip, in parts of [`PHASE_ONE`].
pub type Phase = i64;

/// The end of a clip as a [`Phase`].
pub const PHASE_ONE: i64 = 0x1_0000_0000;

/// Two phases this close have no extent between them.
pub const PHASE_EPSILON: i64 = 512;

/// The tick that is nearest to `t`.
pub open spec fn saturated(t: int) -> Ticks {
    if t > i64::MAX {
        i64::MAX
    } else if t < i64::MIN {
        i64::MIN
    } else {
        t as i64
    }
}

/// `a + b`, held inside the range.
pub fn ticks_add(a: Ticks, b: Ticks) -> (sum: Ticks)
    ensures
        sum == saturated(a + b),
{
    let exact: i128 = a as i128 + b as i128;
    if exact > i64::MAX as i128 {
        i64::MAX
    } else if exact < i64::MIN as i128 {
        i64::MIN
    } else {
        exact as i64
    }
}

/// `a - b`, held inside the range.
pub fn ticks_sub(a: Ticks, b: Ticks) -> (difference: Ticks)
    ensures
        difference == saturated(a - b),
{
    let exact: i128 = a as i128 - b as i128;
    if exact > i64::MAX as i128 {
        i64::MAX
    } else if exact < i64::MIN as i128 {
        i64::MIN
    } else {
        exact as i64
    }
}

/// The later of two times.
pub open spec fn later(a: Ticks, b: Ticks) -> Ticks {
    if a >= b {
        a
    } else {
        b
    }
}

/// The earlier of two times.
pub open spec fn earlier(a: Ticks, b: Ticks) -> Ticks {
    if a <= b {
        a
    } else {
        b
    }
}

/// The later of two times.
pub fn ticks_max(a: Ticks, b: Ticks) -> (max: Ticks)
    ensures
        max == later(a, b),
{
    if a >= b {
        a
    } else {
        b
    }
}

/// The earlier of two times.
pub fn ticks_min(a: Ticks, b: Ticks) -> (min: Ticks)
    ensures
        min == earlier(a, b),
{
    if a <= b {
        a
    } else {
        b
    }
}

/// The part `elapsed / length` of a whole, rounded down. It is `None` where
/// the whole has no positive length.
pub open spec fn phase_at(elapsed: int, length: int) -> Option<Phase> {
    if length <= 0 {
        None
    } else {
        Some(saturated(elapsed * PHASE_ONE / length))
    }
}

/// The part `elapsed / length` of a whole, rounded down.
pub fn phase_of(elapsed: i64, length: i64) -> (phase: Option<Phase>)
    ensures
        phase == phase_at(elapsed as int, length as int),
{
    if length <= 0 {
        return None;
    }
    let whole: u128 = length as u128;
    if elapsed >= 0 {
        let quotient: u128 = (elapsed as u128 * 0x1_0000_0000u128) / whole;
        if quotient > i64::MAX as u128 {
            Some(i64::MAX)
        } else {
            Some(quotient as i64)
        }
    } else {
        let missing: u128 = (-(elapsed as i128)) as u128 * 0x1_0000_0000u128;
        let quotient: u128 = (missing + (whole - 1)) / whole;
        proof {
            round_up_is_round_down(missing as int, whole as int, quotient as int);
        }
        if quotient > i64::MAX as u128 {
            Some(i64::MIN)
        } else {
            Some(-(quotient as i64))
        }
    }
}

/// Rounding a magnitude up rounds its negation down.
proof fn round_up_is_round_down(magnitude: int, whole: int, quotient: int)
    requires
        whole > 0,
        quotient == (magnitude + (whole - 1)) / whole,
    ensures
        (-magnitude) / whole == -quotient,
{
    let rest = (magnitude + (whole - 1)) % whole;
    lemma_fundamental_div_mod(magnitude + (whole - 1), whole);
    let over = (whole - 1) - rest;
    assert(-magnitude == (-quotient) * whole + over) by (nonlinear_arith)
        requires
            magnitude + (whole - 1) == whole * quotient + rest,
            over == (whole - 1) - rest,
    ;
    lemma_fundamental_div_mod_converse(-magnitude, whole, -quotient, over);
}

/// A phase held inside `0..=1`.
pub open spec fn clamped_phase(phase: Phase) -> Phase {
    if phase < 0 {
        0
    } else if phase > PHASE_ONE {
        PHASE_ONE
    } else {
        phase
    }
}

/// Holds a phase inside `0..=1`.
pub fn clamp_phase(phase: Phase) -> (clamped: Phase)
    ensures
        clamped == clamped_phase(phase),
{
    if phase < 0 {
        0
    } else if phase > PHASE_ONE {
        PHASE_ONE
    } else {
        phase
    }
}

} // verus!
