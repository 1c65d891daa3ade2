//! How players move timelines.
use crate::bevy_motiongfx::controller::{advanced, frame_ticks, next_frame};
use crate::time::{Ticks, TICKS_PER_SECOND};
use crate::timeline::TimelineModel;
use vstd::prelude::*;

verus! {

/// A player moves the target time by the time that has passed, forwards or backwards, as
/// far as the target track goes. It changes nothing else.
pub proof fn players_move_by_what_passed(model: TimelineModel, delta: Ticks)
    requires
        model.playable(),
        model.tracks[model.target_index as int].duration() >= 0,
    ensures
        ({
            let after = advanced(model, delta);
            let duration = model.tracks[model.target_index as int].duration();
            &&& 0 <= model.target_time + delta <= duration ==> after.target_time
                == model.target_time + delta
            &&& model.target_time + delta <= 0 ==> after.target_time == 0
            &&& model.target_time + delta >= duration ==> after.target_time == duration
            &&& after == (TimelineModel { target_time: after.target_time, ..model })
        }),
{
}

/// Moving by two times is moving by both together, inside the target track.
pub proof fn players_move_step_by_step(model: TimelineModel, a: Ticks, b: Ticks)
    requires
        model.playable(),
        0 <= model.target_time + a <= model.tracks[model.target_index as int].duration(),
        i64::MIN <= a + b <= i64::MAX,
    ensures
        advanced(advanced(model, a), b) == advanced(model, (a + b) as i64),
{
}

/// As many frames as there are to a second take a second, but for less than a tick each.
pub proof fn frames_fill_a_second(fps: u16)
    requires
        fps > 0,
    ensures
        fps * frame_ticks(fps) <= TICKS_PER_SECOND < fps * (frame_ticks(fps) + 1),
        frame_ticks(fps) > 0,
{
    let n = fps as int;
    let q = TICKS_PER_SECOND as int / n;
    vstd::arithmetic::div_mod::lemma_fundamental_div_mod(TICKS_PER_SECOND as int, n);
    assert(n * q <= TICKS_PER_SECOND < n * (q + 1)) by (nonlinear_arith)
        requires
            n > 0,
            TICKS_PER_SECOND as int == n * q + TICKS_PER_SECOND as int % n,
            0 <= TICKS_PER_SECOND as int % n < n,
    ;
    assert(q > 0) by (nonlinear_arith)
        requires
            0 < n <= 65535,
            TICKS_PER_SECOND < n * (q + 1),
    ;
}

/// Every frame is counted.
pub proof fn frames_are_counted(frame: u64)
    requires
        frame < u64::MAX,
    ensures
        next_frame(frame) == frame + 1,
{
}

} // verus!
