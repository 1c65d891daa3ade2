//! What a move of the playhead shows of a lane.
use crate::action::{ActionClip, ActionId, ActionKey, SampleMode};
use crate::pipeline::Range;
use crate::sequence::{clips_are_in_order, forward_only, non_overlapping};
use crate::time::laws::{is_part, phases_are_parts};
use crate::time::Ticks;
use crate::timeline::queue::{are_picks, arrived, has_arrived, is_pick, is_place, moved_range, pick};
use crate::timeline::queue_laws::{
    arrival, arriving_marks, jumped, keyed, lane_keyed, passed, picked_of, track_keyed, Picked,
};
use crate::timeline::TimelineModel;
use crate::track::Track;
use vstd::prelude::*;

verus! {

/// Whether a mark is the one that shows a lane at a time: of the clip at `i`, its start
/// if the time is before all clips, its end if it is the last one that has ended by
/// then, and else the part of it that has passed.
pub open spec fn shows_at(clips: Seq<ActionClip>, time: Ticks, i: int, mode: SampleMode) -> bool {
    &&& 0 <= i < clips.len()
    &&& match mode {
        SampleMode::Start => i == 0 && time < clips[0].start,
        SampleMode::End => clips[i].end() < time && (i + 1 < clips.len() ==> time < clips[i
            + 1].start),
        SampleMode::Interp(phase) => {
            &&& clips[i].start <= time <= clips[i].end()
            &&& is_part(phase, time - clips[i].start, clips[i].end() - clips[i].start)
        },
    }
}

/// Whether a clip plays at some time between two times, ends included.
pub open spec fn is_touched(clip: ActionClip, from: Ticks, to: Ticks) -> bool {
    if from <= to {
        clip.start <= to && from <= clip.end()
    } else {
        clip.start <= from && to <= clip.end()
    }
}

/// Whether a pick shows a lane at a time.
pub open spec fn pick_shows(clips: Seq<ActionClip>, time: Ticks, picked: Picked) -> bool {
    exists|i: int| #[trigger] picks_at(clips, time, picked, i)
}

/// Whether a pick is of the clip at `i` and shows the lane at a time.
pub open spec fn picks_at(clips: Seq<ActionClip>, time: Ticks, picked: Picked, i: int) -> bool {
    picked matches Some((id, mode)) && shows_at(clips, time, i, mode) && clips[i].id == id
}

/// A move to a time picks what shows a lane then, whenever a clip plays on the way. It
/// leaves a lane alone of which no clip does: that one shows what it did.
pub proof fn moves_pick_what_shows(
    clips: Seq<ActionClip>,
    range: Range,
    time: Ticks,
    picked: Picked,
)
    requires
        clips.len() > 0,
        non_overlapping(clips),
        forward_only(clips),
        range.start <= time <= range.end,
        is_pick(clips, range, time, picked),
    ensures
        picked is Some <==> exists|i: int|
            0 <= i < clips.len() && is_touched(#[trigger] clips[i], range.start, range.end),
        picked is Some ==> pick_shows(clips, time, picked),
{
    let found = choose|found: Result<usize, usize>| #[trigger]
        is_place(clips, time, found) && picked == pick(clips, range, time, found);
    assert forall|i: int, j: int| 0 <= i < j < clips.len() implies (#[trigger] clips[i]).end() <= (
    #[trigger] clips[j]).start by {
        clips_are_in_order(clips, i, j);
    }
    assert forall|i: int| 0 <= i < clips.len() implies (#[trigger] clips[i]).start
        <= clips[i].end() && clips[i].end() - clips[i].start <= clips[i].duration by {
        assert(clips[i].duration >= 0);
    }
    assert forall|i: int| 0 <= i < clips.len() implies clips.first().start <= (
    #[trigger] clips[i]).start && clips[i].end() <= clips.last().end() by {
        assert(clips.first() == clips[0]);
        assert(clips.last() == clips[clips.len() - 1]);
        if 0 < i {
            assert(clips[0].end() <= clips[i].start);
        }
        if i < clips.len() - 1 {
            assert(clips[i].end() <= clips[clips.len() - 1].start);
        }
    }
    match found {
        Ok(index) => {
            let i = index as int;
            let clip = clips[i];
            phases_are_parts(time - clip.start, clip.end() - clip.start, time - clip.start);
            assert(is_touched(clips[i], range.start, range.end));
            assert(picks_at(clips, time, picked, i));
        },
        Err(index) => {
            let i = if index > 0 {
                index - 1
            } else {
                0
            };
            if picked is Some {
                if index > 0 {
                    assert(clips[i].end() < time);
                }
                if index < clips.len() {
                    assert(time < clips[index as int].start);
                }
                assert(picks_at(clips, time, picked, i));
                if is_touched(clips[i], range.start, range.end) {
                } else {
                    assert(is_touched(clips[index as int], range.start, range.end));
                }
            }
            if exists|k: int|
                0 <= k < clips.len() && is_touched(#[trigger] clips[k], range.start, range.end) {
                let k = choose|k: int|
                    0 <= k < clips.len() && is_touched(
                        #[trigger] clips[k],
                        range.start,
                        range.end,
                    );
                assert(clips.first().start <= clips[k].start);
                if k < index {
                    assert(clips[k].end() < time);
                    assert(k <= i);
                    if k < i {
                        assert(clips[k].end() <= clips[i].start);
                        assert(clips[i].end() < time);
                    }
                    assert(clips[k].end() <= clips[i].end());
                    assert(is_touched(clips[i], range.start, range.end));
                } else {
                    assert(time < clips[k].start);
                    if k > index {
                        assert(clips[index as int].end() <= clips[k].start);
                    }
                    assert(clips[index as int].start <= clips[k].start);
                    assert(time < clips[index as int].start);
                }
            }
        },
    }
}

/// Where on the target track a move starts: where the playhead is, or at the end of the
/// track that it comes from.
pub open spec fn comes_from(model: TimelineModel) -> Ticks {
    if model.curr_index < model.target_index {
        0
    } else if model.curr_index == model.target_index {
        model.curr_time
    } else {
        model.tracks[model.target_index as int].duration()
    }
}

/// What is picked of a lane is the pick of its span.
proof fn picked_is_of_span(track: Track, picks: Seq<Picked>, s: int, n: int)
    requires
        track.laid_out(),
        0 <= s < track.spans().len(),
        picks.len() == track.spans().len(),
        0 <= n <= picks.len(),
    ensures
        picked_of(track.spans(), picks.take(n), track.spans()[s].0) == if s < n {
            picks[s]
        } else {
            None
        },
    decreases n,
{
    if n > 0 {
        let some = picks.take(n);
        assert(some.drop_last() =~= picks.take(n - 1));
        assert(some.last() == picks[n - 1]);
        picked_is_of_span(track, picks, s, n - 1);
        if n - 1 < s {
            assert(track.spans()[n - 1].0 != track.spans()[s].0);
        } else if n - 1 > s {
            assert(track.spans()[s].0 != track.spans()[n - 1].0);
        }
    }
}

/// Whether the clip of a lane that shows it at a time is marked so, and no other action
/// of its key is marked.
pub open spec fn lane_marked(
    model: TimelineModel,
    key: ActionKey,
    clips: Seq<ActionClip>,
    time: Ticks,
    i: int,
    mode: SampleMode,
) -> bool {
    &&& shows_at(clips, time, i, mode)
    &&& model.actions.actions[clips[i].id].mark == Some(mode)
    &&& forall|other: ActionId|
        other != clips[i].id && #[trigger] model.actions.has(other)
            && model.actions.actions[other].key == key ==> model.actions.actions[other].mark is None
}

/// After a move of the playhead, a lane of the target track of which a clip plays
/// anywhere on the way is marked with what shows it at the target time: in a gap the end
/// of the last clip before it, its start only before the first clip. A lane of which no
/// clip plays on the way along one track has no mark.
pub proof fn arriving_shows_lanes(before: TimelineModel, after: TimelineModel, key: ActionKey)
    requires
        before.playable(),
        keyed(before),
        has_arrived(before, after),
        before.tracks[before.target_index as int].lanes().contains_key(key),
        ({
            let clips = before.tracks[before.target_index as int].lanes()[key];
            &&& non_overlapping(clips)
            &&& forward_only(clips)
            &&& forall|i: int|
                0 <= i < clips.len() ==> before.actions.has((#[trigger] clips[i]).id)
        }),
    ensures
        ({
            let clips = before.tracks[before.target_index as int].lanes()[key];
            let touched = exists|i: int|
                0 <= i < clips.len() && is_touched(
                    #[trigger] clips[i],
                    comes_from(before),
                    before.target_time,
                );
            &&& touched ==> exists|i: int, mode: SampleMode| #[trigger]
                lane_marked(after, key, clips, before.target_time, i, mode)
            &&& !touched && before.curr_index == before.target_index ==> forall|other: ActionId|
                before.actions.has(other) && before.actions.actions[other].key == key
                    ==> #[trigger] after.actions.actions[other].mark is None
        }),
        after.curr_time == before.target_time,
        after.curr_index == before.target_index,
{
    let picks = choose|picks: Seq<Picked>| #[trigger]
        are_picks(before, picks) && after == arrived(before, picks);
    let track = before.tracks[before.target_index as int];
    let clips = track.lanes()[key];
    let time = before.target_time;
    arriving_marks(before, picks);
    assert(track_keyed(before.actions, track));
    assert(lane_keyed(before.actions, key, clips));
    let s = choose|s: int| 0 <= s < track.spans().len() && (#[trigger] track.spans()[s]).0 == key;
    track.lane_at(s);
    let range = moved_range(before);
    assert(is_pick(track.clips_in(track.spans()[s].1), range, time, picks[s]));
    moves_pick_what_shows(clips, range, time, picks[s]);
    picked_is_of_span(track, picks, s, picks.len() as int);
    assert(picks.take(picks.len() as int) =~= picks);
    assert forall|i: int| 0 <= i < clips.len() implies is_touched(
        #[trigger] clips[i],
        range.start,
        range.end,
    ) == is_touched(clips[i], comes_from(before), time) by {}
    match picks[s] {
        Some((id, mode)) => {
            let i = choose|i: int| #[trigger] picks_at(clips, time, picks[s], i);
            assert(before.actions.has(clips[i].id));
            assert(arrival(before, picks, key) == Some((id, mode)));
            assert(lane_marked(after, key, clips, time, i, mode)) by {
                assert forall|other: ActionId|
                    other != clips[i].id && #[trigger] after.actions.has(other)
                        && after.actions.actions[other].key
                        == key implies after.actions.actions[other].mark is None by {
                    assert(after.actions.actions.dom().contains(other));
                    assert(before.actions.has(other));
                }
            }
        },
        None => {
            if before.curr_index == before.target_index {
                assert(arrival(before, picks, key) is None);
            }
        },
    }
}

/// What is passed last of a lane that the tracks behind it do not have.
proof fn passed_last(
    tracks: Seq<Track>,
    from: int,
    to: int,
    forwards: bool,
    key: ActionKey,
    u: int,
)
    requires
        from <= u < to,
        tracks[u].lanes().contains_key(key),
        forall|t: int| u < t < to ==> !(#[trigger] tracks[t]).lanes().contains_key(key),
    ensures
        jumped(tracks, from, to, forwards, key) == passed(tracks[u], forwards, key),
    decreases to - from,
{
    if u < to - 1 {
        assert(!tracks[to - 1].lanes().contains_key(key));
        passed_last(tracks, from, to - 1, forwards, key, u);
    }
}

/// What is picked is of a lane of the target track.
proof fn no_lane_no_pick(track: Track, picks: Seq<Picked>, key: ActionKey, n: int)
    requires
        track.laid_out(),
        !track.lanes().contains_key(key),
        picks.len() == track.spans().len(),
        0 <= n <= picks.len(),
    ensures
        picked_of(track.spans(), picks.take(n), key) is None,
    decreases n,
{
    if n > 0 {
        let some = picks.take(n);
        assert(some.drop_last() =~= picks.take(n - 1));
        no_lane_no_pick(track, picks, key, n - 1);
        track.lane_at(n - 1);
        assert(track.spans()[n - 1].0 != key);
    }
}

/// A lane of a track that the playhead leaves on its way to a later one is marked with
/// the end of its last clip, and of one that it leaves on its way back with the start
/// of its first clip, unless a track that is reached after it has that lane too.
pub proof fn leaving_shows_lanes(
    before: TimelineModel,
    after: TimelineModel,
    key: ActionKey,
    u: int,
)
    requires
        before.playable(),
        keyed(before),
        has_arrived(before, after),
        0 <= u < before.tracks.len(),
        before.tracks[u].lanes().contains_key(key),
        forall|i: int|
            0 <= i < before.tracks[u].lanes()[key].len() ==> before.actions.has(
                (#[trigger] before.tracks[u].lanes()[key][i]).id,
            ),
    ensures
        ({
            let clips = before.tracks[u].lanes()[key];
            let (curr, target) = (before.curr_index as int, before.target_index as int);
            &&& clips.len() > 0
            &&& curr <= u < target && (forall|t: int|
                u < t <= target ==> !(#[trigger] before.tracks[t]).lanes().contains_key(key))
                ==> after.actions.actions[clips[clips.len() - 1].id].mark == Some(
                SampleMode::End,
            )
            &&& target < u <= curr && !before.tracks[target].lanes().contains_key(key) && (forall|
                t: int,
            |
                u < t <= curr ==> !(#[trigger] before.tracks[t]).lanes().contains_key(key))
                ==> after.actions.actions[clips[0].id].mark == Some(SampleMode::Start)
        }),
{
    let picks = choose|picks: Seq<Picked>| #[trigger]
        are_picks(before, picks) && after == arrived(before, picks);
    let clips = before.tracks[u].lanes()[key];
    let (curr, target) = (before.curr_index as int, before.target_index as int);
    arriving_marks(before, picks);
    assert(track_keyed(before.actions, before.tracks[u]));
    assert(lane_keyed(before.actions, key, clips));
    assert(track_keyed(before.actions, before.tracks[target]));
    assert(picks.take(picks.len() as int) =~= picks);
    assert(before.actions.has(clips[0].id));
    assert(before.actions.has(clips[clips.len() - 1].id));
    if curr <= u < target && (forall|t: int|
        u < t <= target ==> !(#[trigger] before.tracks[t]).lanes().contains_key(key)) {
        no_lane_no_pick(before.tracks[target], picks, key, picks.len() as int);
        passed_last(before.tracks, curr, target, true, key, u);
    }
    if target < u <= curr && !before.tracks[target].lanes().contains_key(key) && (forall|t: int|
        u < t <= curr ==> !(#[trigger] before.tracks[t]).lanes().contains_key(key)) {
        no_lane_no_pick(before.tracks[target], picks, key, picks.len() as int);
        passed_last(before.tracks, target + 1, curr + 1, false, key, u);
    }
}

} // verus!
