//! Where the playhead is sent.
use crate::time::Ticks;
use crate::timeline::{clamped_index, clamped_time, completed, TimelineModel};
use vstd::prelude::*;

verus! {

/// Every track can be reached by its index, and an index behind the last one reaches
/// the last one.
pub proof fn every_track_is_reached(index: usize, len: int)
    requires
        0 < len <= usize::MAX,
    ensures
        index < len ==> clamped_index(index, len) == index,
        index >= len ==> clamped_index(index, len) == len - 1,
{
}

/// Every time of a track can be reached, and a time outside of it reaches the end of it
/// that is nearer.
pub proof fn every_time_is_reached(time: Ticks, duration: Ticks)
    requires
        duration >= 0,
    ensures
        0 <= time <= duration ==> clamped_time(time, duration) == time,
        time <= 0 ==> clamped_time(time, duration) == 0,
        time >= duration ==> clamped_time(time, duration) == duration,
{
}

/// A timeline is complete exactly when no track is behind the one that it is on and no
/// time of that one is left.
pub proof fn complete_is_nothing_left(model: TimelineModel)
    requires
        model.playable(),
    ensures
        completed(model) <==> {
            &&& forall|t: int| 0 <= t < model.tracks.len() ==> #[trigger] before_or_on(model, t)
            &&& forall|time: Ticks|
                model.curr_time < time ==> #[trigger] no_time_of(model, time)
        },
{
    if completed(model) {
        assert forall|t: int| 0 <= t < model.tracks.len() implies #[trigger] before_or_on(
            model,
            t,
        ) by {}
        assert forall|time: Ticks| model.curr_time < time implies #[trigger] no_time_of(
            model,
            time,
        ) by {}
    } else {
        let duration = model.tracks[model.curr_index as int].duration();
        if model.curr_time < duration {
            assert(!no_time_of(model, duration));
        } else {
            assert(!before_or_on(model, model.tracks.len() - 1));
        }
    }
}

/// Whether a track is not behind the one that the playhead is on.
pub open spec fn before_or_on(model: TimelineModel, t: int) -> bool {
    t <= model.curr_index
}

/// Whether a time is after the end of the track that the playhead is on.
pub open spec fn no_time_of(model: TimelineModel, time: Ticks) -> bool {
    time > model.tracks[model.curr_index as int].duration()
}

} // verus!
