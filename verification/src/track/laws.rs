//! What holds of clips however they are put together and moved.
use crate::action::{ActionClip, ActionId, ActionKey};
use crate::remote::RemoteEditError;
use crate::seqs::{ascending, stable_sort_is_sound};
use crate::sequence::{delay_keeps_clips_apart, forward_only, non_overlapping};
use crate::time::Ticks;
use crate::track::ordering::{
    all_fit, all_lanes, chain_duration, chain_fits, chain_lanes, flow_delay, flow_fits, flow_lanes,
    longest, shortest,
};
use crate::track::{
    appended, append_start, delayed_lanes, has_clip, joined, lane, lanes_apart, lanes_join, others,
    reschedule_outcome, rescheduled, retimed, sort_by_start, without_clip, Lanes, TrackFragment,
};
use vstd::prelude::*;

verus! {

/// Putting a clip behind a lane keeps the clips of all lanes apart.
pub proof fn appending_keeps_apart(lanes: Lanes, key: ActionKey, clip: ActionClip, start_at: Ticks)
    requires
        lanes_apart(lanes),
        clip.duration >= 0,
    ensures
        lanes_apart(appended(lanes, key, clip, start_at)),
{
    let after = appended(lanes, key, clip, start_at);
    let placed = ActionClip { start: append_start(lanes, key, start_at), ..clip };
    let clips = lane(lanes, key).push(placed);
    assert forall|i: int| 0 < i < clips.len() implies clips[i - 1].end() <= (
    #[trigger] clips[i]).start by {
        if i < clips.len() - 1 {
            assert(lanes[key][i] == clips[i]);
        }
    }
    assert forall|i: int| 0 <= i < clips.len() implies (#[trigger] clips[i]).duration >= 0 by {
        if i < clips.len() - 1 {
            assert(lanes[key][i] == clips[i]);
        }
    }
    assert forall|other: ActionKey| #[trigger] after.contains_key(other) implies non_overlapping(
        after[other],
    ) && forward_only(after[other]) by {
        if other != key {
            assert(lanes.contains_key(other));
        }
    }
}

/// Clips that are apart stay so when some are taken out, and each that is left
/// was there.
proof fn filtering_keeps_apart(clips: Seq<ActionClip>, id: ActionId)
    requires
        non_overlapping(clips),
        forward_only(clips),
    ensures
        non_overlapping(others(clips, id)),
        forward_only(others(clips, id)),
        others(clips, id).len() > 0 ==> clips.len() > 0 && others(clips, id).last().end()
            <= clips.last().end(),
    decreases clips.len(),
{
    reveal(Seq::filter);
    if clips.len() > 0 {
        let rest = clips.drop_last();
        assert forall|i: int| 0 < i < rest.len() implies rest[i - 1].end() <= (
        #[trigger] rest[i]).start by {
            assert(clips[i] == rest[i]);
        }
        assert forall|i: int| 0 <= i < rest.len() implies (#[trigger] rest[i]).duration >= 0 by {
            assert(clips[i] == rest[i]);
        }
        filtering_keeps_apart(rest, id);
        let kept = others(rest, id);
        let last = clips.last();
        assert(last == clips[clips.len() - 1]);
        assert(last.duration >= 0);
        if kept.len() > 0 {
            assert(rest.last() == clips[clips.len() - 2]);
            assert(clips[clips.len() - 2].end() <= clips[clips.len() - 1].start);
        }
        if last.id != id {
            let after = kept.push(last);
            assert(others(clips, id) == after);
            assert forall|i: int| 0 < i < after.len() implies after[i - 1].end() <= (
            #[trigger] after[i]).start by {
                if i < kept.len() {
                    assert(after[i] == kept[i]);
                } else {
                    assert(after[i - 1] == kept.last());
                }
            }
            assert forall|i: int| 0 <= i < after.len() implies (
            #[trigger] after[i]).duration >= 0 by {
                if i < kept.len() {
                    assert(after[i] == kept[i]);
                }
            }
        }
    }
}

/// Taking a clip out keeps the clips of all lanes apart.
pub proof fn removing_keeps_apart(lanes: Lanes, key: ActionKey, id: ActionId)
    requires
        lanes_apart(lanes),
        lanes.contains_key(key),
    ensures
        lanes_apart(without_clip(lanes, key, id)),
{
    let after = without_clip(lanes, key, id);
    filtering_keeps_apart(lanes[key], id);
    assert forall|other: ActionKey| #[trigger] after.contains_key(other) implies non_overlapping(
        after[other],
    ) && forward_only(after[other]) by {
        assert(lanes.contains_key(other));
    }
}

/// The clips that are moved when one is given another time.
pub open spec fn moved_clips(
    clips: Seq<ActionClip>,
    id: ActionId,
    start: Ticks,
    duration: Option<Ticks>,
) -> Seq<ActionClip> {
    clips.map_values(
        |clip: ActionClip|
            if clip.id == id {
                retimed(clip, start, duration)
            } else {
                clip
            },
    )
}

/// Sorting clips by their start keeps them from running backwards.
proof fn sorting_keeps_forward(clips: Seq<ActionClip>)
    requires
        forward_only(clips),
    ensures
        forward_only(sort_by_start(clips)),
{
    let sorted = sort_by_start(clips);
    stable_sort_is_sound(clips, |clip: ActionClip| clip.start as int);
    assert forall|i: int| 0 <= i < sorted.len() implies (#[trigger] sorted[i]).duration >= 0 by {
        assert(sorted.contains(sorted[i]));
        assert(clips.contains(sorted[i]));
        let k = choose|k: int| 0 <= k < clips.len() && clips[k] == sorted[i];
        assert(clips[k].duration >= 0);
    }
}

/// Giving a clip another time keeps the clips of all lanes apart.
pub proof fn rescheduling_keeps_apart(
    before: Lanes,
    after: Lanes,
    id: ActionId,
    start: Ticks,
    duration: Option<Ticks>,
    result: Result<(), RemoteEditError>,
)
    requires
        lanes_apart(before),
        reschedule_outcome(before, after, id, start, duration, result),
    ensures
        lanes_apart(after),
{
    if result is Ok {
        let key = choose|key: ActionKey| #[trigger]
            before.contains_key(key) && has_clip(before[key], id) && non_overlapping(
                rescheduled(before[key], id, start, duration),
            ) && after == before.insert(key, rescheduled(before[key], id, start, duration));
        let clips = before[key];
        let moved = moved_clips(clips, id, start, duration);
        assert forall|i: int| 0 <= i < moved.len() implies (#[trigger] moved[i]).duration >= 0 by {
            assert(clips[i].duration >= 0);
        }
        sorting_keeps_forward(moved);
        assert(rescheduled(clips, id, start, duration) == sort_by_start(moved));
        assert forall|other: ActionKey| #[trigger] after.contains_key(other) implies non_overlapping(
            after[other],
        ) && forward_only(after[other]) by {
            if other != key {
                assert(before.contains_key(other));
            }
        }
    }
}

/// Lanes that are apart, and that can be put behind one another, are apart
/// together.
pub proof fn joining_keeps_apart(a: Lanes, b: Lanes)
    requires
        lanes_apart(a),
        lanes_apart(b),
        lanes_join(a, b),
    ensures
        lanes_apart(joined(a, b)),
{
    let both = joined(a, b);
    assert forall|key: ActionKey| #[trigger] both.contains_key(key) implies non_overlapping(
        both[key],
    ) && forward_only(both[key]) by {
        let first = lane(a, key);
        let second = lane(b, key);
        let clips = first + second;
        assert(a.contains_key(key) || b.contains_key(key));
        assert forall|i: int| 0 < i < clips.len() implies clips[i - 1].end() <= (
        #[trigger] clips[i]).start by {
            if i < first.len() {
                assert(first[i] == clips[i]);
            } else if i > first.len() {
                assert(second[i - first.len()] == clips[i]);
            } else {
                assert(clips[i] == second.first());
                assert(clips[i - 1] == first.last());
            }
        }
        assert forall|i: int| 0 <= i < clips.len() implies (#[trigger] clips[i]).duration >= 0 by {
            if i < first.len() {
                assert(first[i] == clips[i]);
            } else {
                assert(second[i - first.len()] == clips[i]);
            }
        }
    }
}

/// Running lanes later keeps them apart.
pub proof fn delaying_keeps_apart(lanes: Lanes, by: Ticks)
    requires
        lanes_apart(lanes),
        by >= 0,
    ensures
        lanes_apart(delayed_lanes(lanes, by)),
{
    let later_lanes = delayed_lanes(lanes, by);
    assert forall|key: ActionKey| #[trigger] later_lanes.contains_key(key) implies non_overlapping(
        later_lanes[key],
    ) && forward_only(later_lanes[key]) by {
        assert(lanes.contains_key(key));
        delay_keeps_clips_apart(lanes[key], by);
    }
}

/// Whether fragments can be put together: the clips of each are apart, and
/// none has a negative duration.
pub open spec fn fragments_apart(tracks: Seq<TrackFragment>) -> bool {
    forall|i: int|
        0 <= i < tracks.len() ==> lanes_apart((#[trigger] tracks[i]).lanes())
            && tracks[i].duration() >= 0
}

proof fn fewer_apart(tracks: Seq<TrackFragment>)
    requires
        fragments_apart(tracks),
        tracks.len() > 0,
    ensures
        fragments_apart(tracks.drop_last()),
        lanes_apart(tracks.last().lanes()),
        tracks.last().duration() >= 0,
{
    assert(tracks.last() == tracks[tracks.len() - 1]);
    assert forall|i: int| 0 <= i < tracks.drop_last().len() implies lanes_apart(
        (#[trigger] tracks.drop_last()[i]).lanes(),
    ) && tracks.drop_last()[i].duration() >= 0 by {
        assert(tracks.drop_last()[i] == tracks[i]);
    }
}

/// Running fragments one after another keeps their clips apart.
pub proof fn chaining_keeps_apart(tracks: Seq<TrackFragment>)
    requires
        fragments_apart(tracks),
        chain_fits(tracks),
    ensures
        lanes_apart(chain_lanes(tracks)),
        chain_duration(tracks) >= 0,
    decreases tracks.len(),
{
    if tracks.len() > 0 {
        fewer_apart(tracks);
        chaining_keeps_apart(tracks.drop_last());
        delaying_keeps_apart(tracks.last().lanes(), chain_duration(tracks.drop_last()));
        joining_keeps_apart(
            chain_lanes(tracks.drop_last()),
            delayed_lanes(tracks.last().lanes(), chain_duration(tracks.drop_last())),
        );
    }
}

/// Running fragments at the same time keeps their clips apart.
pub proof fn running_all_keeps_apart(tracks: Seq<TrackFragment>)
    requires
        fragments_apart(tracks),
        all_fit(tracks),
    ensures
        lanes_apart(all_lanes(tracks)),
    decreases tracks.len(),
{
    if tracks.len() > 0 {
        fewer_apart(tracks);
        running_all_keeps_apart(tracks.drop_last());
        joining_keeps_apart(all_lanes(tracks.drop_last()), tracks.last().lanes());
    }
}

proof fn flow_delay_is_natural(delay: Ticks, index: nat)
    requires
        delay >= 0,
    ensures
        flow_delay(delay, index) >= 0,
    decreases index,
{
    if index > 0 {
        flow_delay_is_natural(delay, (index - 1) as nat);
    }
}

/// Starting fragments one delay after another keeps their clips apart.
pub proof fn flowing_keeps_apart(delay: Ticks, tracks: Seq<TrackFragment>)
    requires
        fragments_apart(tracks),
        flow_fits(delay, tracks),
        delay >= 0,
    ensures
        lanes_apart(flow_lanes(delay, tracks)),
    decreases tracks.len(),
{
    if tracks.len() > 0 {
        fewer_apart(tracks);
        flowing_keeps_apart(delay, tracks.drop_last());
        let by = flow_delay(delay, (tracks.len() - 1) as nat);
        flow_delay_is_natural(delay, (tracks.len() - 1) as nat);
        delaying_keeps_apart(tracks.last().lanes(), by);
        joining_keeps_apart(
            flow_lanes(delay, tracks.drop_last()),
            delayed_lanes(tracks.last().lanes(), by),
        );
    }
}

/// Waiting for all of some fragments takes as long as one of them, and no one
/// takes longer.
pub proof fn waiting_for_all_takes_the_longest(tracks: Seq<TrackFragment>)
    requires
        tracks.len() > 0,
    ensures
        forall|i: int|
            0 <= i < tracks.len() ==> (#[trigger] tracks[i]).duration() <= longest(tracks),
        exists|i: int|
            0 <= i < tracks.len() && (#[trigger] tracks[i]).duration() == longest(tracks),
    decreases tracks.len(),
{
    if tracks.len() > 1 {
        let rest = tracks.drop_last();
        waiting_for_all_takes_the_longest(rest);
        let k = choose|k: int| 0 <= k < rest.len() && (#[trigger] rest[k]).duration() == longest(
            rest,
        );
        assert(tracks[k] == rest[k]);
        assert(tracks[tracks.len() - 1] == tracks.last());
        assert forall|i: int| 0 <= i < tracks.len() implies (#[trigger] tracks[i]).duration()
            <= longest(tracks) by {
            if i < rest.len() {
                assert(rest[i] == tracks[i]);
            }
        }
    } else {
        assert(tracks[0].duration() == longest(tracks));
    }
}

/// Waiting for any of some fragments takes as long as one of them, and no one
/// takes less.
pub proof fn waiting_for_any_takes_the_shortest(tracks: Seq<TrackFragment>)
    requires
        tracks.len() > 0,
    ensures
        forall|i: int|
            0 <= i < tracks.len() ==> (#[trigger] tracks[i]).duration() >= shortest(tracks),
        exists|i: int|
            0 <= i < tracks.len() && (#[trigger] tracks[i]).duration() == shortest(tracks),
    decreases tracks.len(),
{
    if tracks.len() > 1 {
        let rest = tracks.drop_last();
        waiting_for_any_takes_the_shortest(rest);
        let k = choose|k: int| 0 <= k < rest.len() && (#[trigger] rest[k]).duration() == shortest(
            rest,
        );
        assert(tracks[k] == rest[k]);
        assert(tracks[tracks.len() - 1] == tracks.last());
        assert forall|i: int| 0 <= i < tracks.len() implies (#[trigger] tracks[i]).duration()
            >= shortest(tracks) by {
            if i < rest.len() {
                assert(rest[i] == tracks[i]);
            }
        }
    } else {
        assert(tracks[0].duration() == shortest(tracks));
    }
}

/// Taking the clip out again that was put behind a lane leaves the lanes as
/// they were.
pub proof fn removing_undoes_appending(
    lanes: Lanes,
    key: ActionKey,
    clip: ActionClip,
    start_at: Ticks,
)
    requires
        lanes.contains_key(key) ==> lanes[key].len() > 0,
        !has_clip(lane(lanes, key), clip.id),
    ensures
        without_clip(appended(lanes, key, clip, start_at), key, clip.id) == lanes,
{
    reveal(Seq::filter);
    let before = lane(lanes, key);
    let placed = ActionClip { start: append_start(lanes, key, start_at), ..clip };
    let clips = before.push(placed);
    assert(clips.drop_last() =~= before);
    without_any(before, clip.id);
    assert(others(clips, clip.id) == before);
    let after = without_clip(appended(lanes, key, clip, start_at), key, clip.id);
    assert(after =~= lanes);
}

/// Taking out clips of an id that none has takes out nothing.
proof fn without_any(clips: Seq<ActionClip>, id: ActionId)
    requires
        !has_clip(clips, id),
    ensures
        others(clips, id) == clips,
    decreases clips.len(),
{
    reveal(Seq::filter);
    if clips.len() > 0 {
        let rest = clips.drop_last();
        assert(clips[clips.len() - 1].id != id);
        assert forall|i: int| 0 <= i < rest.len() implies (#[trigger] rest[i]).id != id by {
            assert(clips[i] == rest[i]);
        }
        without_any(rest, id);
        assert(rest.push(clips.last()) =~= clips);
    } else {
        assert(others(clips, id) =~= clips);
    }
}

/// Whether every clip starts later than the one in front of it.
pub open spec fn starts_ascend(clips: Seq<ActionClip>) -> bool {
    forall|i: int, j: int|
        0 <= i < j < clips.len() ==> (#[trigger] clips[i]).start < (#[trigger] clips[j]).start
}

/// Changing the elements of two lists with the same elements leaves lists with
/// the same elements.
proof fn mapping_keeps_elements(
    a: Seq<ActionClip>,
    b: Seq<ActionClip>,
    f: spec_fn(ActionClip) -> ActionClip,
)
    requires
        a.to_multiset() == b.to_multiset(),
    ensures
        a.map_values(f).to_multiset() == b.map_values(f).to_multiset(),
    decreases a.len(),
{
    a.to_multiset_ensures();
    b.to_multiset_ensures();
    assert(a.len() == b.len());
    if a.len() == 0 {
        assert(a.map_values(f) =~= b.map_values(f));
    } else {
        let x = a.last();
        let rest = a.drop_last();
        assert(a =~= rest.push(x));
        assert(a.contains(x)) by {
            assert(a[a.len() - 1] == x);
        }
        assert(a.to_multiset().count(x) > 0);
        assert(b.contains(x));
        let j = choose|j: int| 0 <= j < b.len() && b[j] == x;
        let fewer = b.remove(j);
        rest.to_multiset_ensures();
        assert(a.to_multiset() =~= rest.to_multiset().insert(x));
        assert(fewer.to_multiset() =~= b.to_multiset().remove(x));
        assert(rest.to_multiset() =~= fewer.to_multiset());
        mapping_keeps_elements(rest, fewer, f);
        let fa = rest.map_values(f);
        let fb = fewer.map_values(f);
        fa.to_multiset_ensures();
        b.map_values(f).to_multiset_ensures();
        assert(a.map_values(f) =~= fa.push(f(x)));
        assert(b.map_values(f).remove(j) =~= fb);
        assert(b.map_values(f)[j] == f(x));
        assert(b.map_values(f).contains(f(x)));
        assert(b.map_values(f).to_multiset() =~= fb.to_multiset().insert(f(x)));
        assert(a.map_values(f).to_multiset() =~= fa.to_multiset().insert(f(x)));
    }
}

/// Lists with the same clips, one of which has ascending starts and the other
/// starts that do not descend, are the same.
proof fn order_is_unique(sorted: Seq<ActionClip>, clips: Seq<ActionClip>)
    requires
        ascending(sorted, |clip: ActionClip| clip.start as int),
        starts_ascend(clips),
        sorted.to_multiset() == clips.to_multiset(),
    ensures
        sorted == clips,
    decreases clips.len(),
{
    let key = |clip: ActionClip| clip.start as int;
    sorted.to_multiset_ensures();
    clips.to_multiset_ensures();
    assert(sorted.len() == clips.len());
    if clips.len() > 0 {
        let n = clips.len() - 1;
        let x = clips.last();
        let y = sorted.last();
        assert(clips[n] == x && sorted[n] == y);
        assert(clips.contains(x));
        assert(clips.to_multiset().count(x) > 0);
        assert(sorted.contains(x));
        let i = choose|i: int| 0 <= i < sorted.len() && sorted[i] == x;
        assert(sorted.contains(y));
        assert(sorted.to_multiset().count(y) > 0);
        assert(clips.contains(y));
        let j = choose|j: int| 0 <= j < clips.len() && clips[j] == y;
        if i < n {
            assert(key(sorted[i]) <= key(sorted[n]));
        }
        if j < n {
            assert(clips[j].start < clips[n].start);
        }
        assert(x == y);
        let a = sorted.drop_last();
        let b = clips.drop_last();
        assert(sorted =~= a.push(x));
        assert(clips =~= b.push(x));
        a.to_multiset_ensures();
        b.to_multiset_ensures();
        assert(a.to_multiset().insert(x) =~= b.to_multiset().insert(x));
        assert(a.to_multiset() =~= b.to_multiset()) by {
            assert(a.to_multiset() =~= a.to_multiset().insert(x).remove(x));
            assert(b.to_multiset() =~= b.to_multiset().insert(x).remove(x));
        }
        assert forall|k: int, l: int| 0 <= k < l < a.len() implies key(#[trigger] a[k]) <= key(
            #[trigger] a[l],
        ) by {
            assert(a[k] == sorted[k] && a[l] == sorted[l]);
        }
        assert forall|k: int, l: int| 0 <= k < l < b.len() implies (#[trigger] b[k]).start < (
        #[trigger] b[l]).start by {
            assert(b[k] == clips[k] && b[l] == clips[l]);
        }
        order_is_unique(a, b);
    } else {
        assert(sorted =~= clips);
    }
}

/// Giving a clip the time back that it had leaves its lane as it was, where
/// only this clip has its id and every clip starts later than the one in front
/// of it.
pub proof fn moving_back_restores(
    clips: Seq<ActionClip>,
    at: int,
    start: Ticks,
    duration: Option<Ticks>,
)
    requires
        0 <= at < clips.len(),
        starts_ascend(clips),
        clips[at].start >= 0,
        clips[at].duration >= 0,
        forall|i: int|
            0 <= i < clips.len() && i != at ==> (#[trigger] clips[i]).id != clips[at].id,
    ensures
        rescheduled(
            rescheduled(clips, clips[at].id, start, duration),
            clips[at].id,
            clips[at].start,
            Some(clips[at].duration),
        ) == clips,
{
    let id = clips[at].id;
    let key = |clip: ActionClip| clip.start as int;
    let there = |clip: ActionClip|
        if clip.id == id {
            retimed(clip, start, duration)
        } else {
            clip
        };
    let back = |clip: ActionClip|
        if clip.id == id {
            retimed(clip, clips[at].start, Some(clips[at].duration))
        } else {
            clip
        };
    let moved = clips.map_values(there);
    let sorted = rescheduled(clips, id, start, duration);
    assert(sorted == sort_by_start(moved));
    stable_sort_is_sound(moved, key);
    mapping_keeps_elements(sorted, moved, back);
    assert(moved.map_values(back) =~= clips);
    let returned = sorted.map_values(back);
    let again = rescheduled(sorted, id, clips[at].start, Some(clips[at].duration));
    assert(again == sort_by_start(returned));
    stable_sort_is_sound(returned, key);
    order_is_unique(again, clips);
}

} // verus!
