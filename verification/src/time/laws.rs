//! What holds of times and of parts of them.
use crate::action::ActionClip;
use crate::time::{clamped_phase, earlier, later, phase_at, saturated, Phase, Ticks, PHASE_ONE};
use vstd::arithmetic::div_mod::{lemma_div_is_ordered, lemma_fundamental_div_mod};
use vstd::prelude::*;

verus! {

/// A sum that is held inside the range is the time nearest to it: itself where it is
/// a time, and then no other.
pub proof fn saturating_is_nearest(t: int, other: Ticks)
    ensures
        i64::MIN <= t <= i64::MAX ==> saturated(t) == t,
        t <= saturated(t) ==> saturated(t) - t <= (if other >= t {
            other - t
        } else {
            t - other
        }),
        t >= saturated(t) ==> t - saturated(t) <= (if other >= t {
            other - t
        } else {
            t - other
        }),
{
}

/// Holding sums inside the range keeps them in order.
pub proof fn saturating_keeps_order(a: int, b: int)
    requires
        a <= b,
    ensures
        saturated(a) <= saturated(b),
{
}

/// The later of two times is one of them, and neither is after it; the earlier one is
/// one of them, and neither is before it.
pub proof fn later_and_earlier_are_bounds(a: Ticks, b: Ticks)
    ensures
        later(a, b) == a || later(a, b) == b,
        a <= later(a, b),
        b <= later(a, b),
        earlier(a, b) == a || earlier(a, b) == b,
        earlier(a, b) <= a,
        earlier(a, b) <= b,
        later(a, b) + earlier(a, b) == a + b,
{
}

/// A clip plays as long as its duration says: it ends that much after its start.
pub proof fn clips_last_their_duration(clip: ActionClip)
    requires
        i64::MIN <= clip.start + clip.duration <= i64::MAX,
    ensures
        clip.end() - clip.start == clip.duration,
{
}

/// Moving a clip moves its start, and neither changes what plays nor for how long.
pub proof fn moving_keeps_the_rest(clip: ActionClip, by: Ticks)
    ensures
        i64::MIN <= clip.start + by <= i64::MAX ==> clip.delayed(by).start - clip.start == by,
        clip.delayed(by).id == clip.id,
        clip.delayed(by).duration == clip.duration,
{
}

/// Whether a phase is the part that `elapsed` is of `whole`, to the phase below it.
/// A whole without extent has no parts.
pub open spec fn is_part(phase: Option<Phase>, elapsed: int, whole: int) -> bool {
    match phase {
        None => whole <= 0,
        Some(p) => whole > 0 && p * whole <= elapsed * PHASE_ONE < (p + 1) * whole,
    }
}

/// The part that an elapsed time is of a whole is that to the phase below it. It is
/// zero at the start, all of it at the end, and never less later.
pub proof fn phases_are_parts(elapsed: int, whole: int, after: int)
    requires
        0 <= elapsed <= whole <= i64::MAX,
        elapsed <= after <= whole,
    ensures
        is_part(phase_at(elapsed, whole), elapsed, whole),
        whole > 0 ==> {
            &&& phase_at(0, whole) == Some(0i64)
            &&& phase_at(whole, whole) == Some(PHASE_ONE)
            &&& phase_at(elapsed, whole) is Some
            &&& phase_at(after, whole) is Some
            &&& 0 <= phase_at(elapsed, whole)->0 <= phase_at(after, whole)->0 <= PHASE_ONE
        },
{
    if whole > 0 {
        let all = elapsed * PHASE_ONE;
        let p = all / whole;
        lemma_fundamental_div_mod(all, whole);
        assert(p * whole <= all < (p + 1) * whole) by (nonlinear_arith)
            requires
                all == whole * p + all % whole,
                0 <= all % whole < whole,
        ;
        assert(0 <= elapsed * PHASE_ONE <= after * PHASE_ONE <= whole * PHASE_ONE)
            by (nonlinear_arith)
            requires
                0 <= elapsed <= after <= whole,
        ;
        lemma_div_is_ordered(0, all, whole);
        lemma_div_is_ordered(all, after * PHASE_ONE, whole);
        lemma_div_is_ordered(after * PHASE_ONE, whole * PHASE_ONE, whole);
        assert(whole * PHASE_ONE / whole == PHASE_ONE) by (nonlinear_arith)
            requires
                whole > 0,
        ;
        assert(0 * PHASE_ONE / whole == 0) by (nonlinear_arith)
            requires
                whole > 0,
        ;
    }
}

/// The same part of the same whole is one phase.
pub proof fn parts_are_unique(a: Option<Phase>, b: Option<Phase>, elapsed: int, whole: int)
    requires
        is_part(a, elapsed, whole),
        is_part(b, elapsed, whole),
    ensures
        a == b,
{
    if whole > 0 {
        let (p, q) = (a->0 as int, b->0 as int);
        assert(p == q) by (nonlinear_arith)
            requires
                whole > 0,
                p * whole <= elapsed * PHASE_ONE < (p + 1) * whole,
                q * whole <= elapsed * PHASE_ONE < (q + 1) * whole,
        ;
    }
}

/// A phase that is held inside a clip is the phase of the clip nearest to it.
pub proof fn clamping_is_nearest(phase: Phase)
    ensures
        0 <= clamped_phase(phase) <= PHASE_ONE,
        0 <= phase <= PHASE_ONE ==> clamped_phase(phase) == phase,
        phase <= 0 ==> clamped_phase(phase) == 0,
        phase >= PHASE_ONE ==> clamped_phase(phase) == PHASE_ONE,
{
}

} // verus!
