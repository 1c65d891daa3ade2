//! What editing the clips of a track comes to.
use crate::action::world::ActionModel;
use crate::action::{
    clamped_keyframe, sorted_keyframes, ActionClip, ActionId, ActionKey, ActionRecord, Keyframe,
};
use crate::remote::RemoteEditError;
use crate::seqs::{ascending, stable_sort_is_sound};
use crate::sequence::non_overlapping;
use crate::time::{Ticks, PHASE_ONE};
use crate::track::{
    append_start, appended, conflict_at, first_overlap, has_clip, others, reschedule_outcome,
    rescheduled, retimed, without_clip, Lanes,
};
use vstd::prelude::*;

verus! {

/// A clip that is put behind a lane starts as soon as it may: not before the time that is
/// asked for, not before the last clip of the lane has ended, and in an empty lane not
/// before zero. It is the same clip otherwise, it is the last one of its lane, and
/// nothing else moves.
pub proof fn appended_clips_start_as_soon_as_they_may(
    lanes: Lanes,
    key: ActionKey,
    clip: ActionClip,
    start_at: Ticks,
    other: ActionKey,
)
    requires
        lanes.contains_key(key) ==> lanes[key].len() > 0,
    ensures
        ({
            let after = appended(lanes, key, clip, start_at);
            let last = after[key][after[key].len() - 1];
            &&& after.contains_key(key)
            &&& last.id == clip.id && last.duration == clip.duration
            &&& last.start == append_start(lanes, key, start_at)
            &&& last.start >= start_at
            &&& lanes.contains_key(key) ==> {
                let had = lanes[key];
                let end = had[had.len() - 1].end();
                &&& last.start >= end
                &&& last.start == start_at || last.start == end
                &&& after[key].len() == had.len() + 1
                &&& forall|i: int| 0 <= i < had.len() ==> #[trigger] after[key][i] == had[i]
            }
            &&& !lanes.contains_key(key) ==> {
                &&& last.start >= 0
                &&& last.start == start_at || last.start == 0
                &&& after[key].len() == 1
            }
            &&& other != key ==> after.contains_key(other) == lanes.contains_key(other)
                && after[other] == lanes[other]
        }),
{
}

/// Whether a clip has the time that was asked for: that start, not before zero, and that
/// duration, not less than nothing, or else the one that it had.
pub open spec fn has_time(
    clip: ActionClip,
    had: ActionClip,
    start: Ticks,
    duration: Option<Ticks>,
) -> bool {
    &&& start >= 0 ==> clip.start == start
    &&& start < 0 ==> clip.start == 0
    &&& match duration {
        None => clip.duration == had.duration,
        Some(asked) => (asked >= 0 ==> clip.duration == asked) && (asked < 0 ==> clip.duration
            == 0),
    }
}

/// Whether a lane is another one in which the clips of an action were moved: those have
/// the time that was asked for, all others stay as they are, none comes or goes, and
/// none overlaps the next.
#[verifier::opaque]
pub open spec fn is_moved(
    before: Seq<ActionClip>,
    after: Seq<ActionClip>,
    id: ActionId,
    start: Ticks,
    duration: Option<Ticks>,
) -> bool {
    &&& after.len() == before.len()
    &&& forall|clip: ActionClip|
        clip.id != id ==> (#[trigger] after.contains(clip) <==> before.contains(clip))
    &&& forall|i: int|
        0 <= i < after.len() && (#[trigger] after[i]).id == id ==> exists|j: int|
            0 <= j < before.len() && (#[trigger] before[j]).id == id && has_time(
                after[i],
                before[j],
                start,
                duration,
            )
    &&& exists|i: int| 0 <= i < after.len() && (#[trigger] after[i]).id == id
    &&& forall|i: int| 0 < i < after.len() ==> after[i - 1].end() <= (#[trigger] after[i]).start
    &&& forall|i: int, j: int|
        0 <= i < j < after.len() ==> (#[trigger] after[i]).start <= (#[trigger] after[j]).start
}

/// Clips that are given another time are those of one action.
proof fn rescheduling_moves(
    clips: Seq<ActionClip>,
    id: ActionId,
    start: Ticks,
    duration: Option<Ticks>,
)
    requires
        has_clip(clips, id),
    ensures
        ({
            let after = rescheduled(clips, id, start, duration);
            &&& after.len() == clips.len()
            &&& forall|clip: ActionClip|
                clip.id != id ==> (#[trigger] after.contains(clip) <==> clips.contains(clip))
            &&& forall|i: int|
                0 <= i < after.len() && (#[trigger] after[i]).id == id ==> exists|j: int|
                    0 <= j < clips.len() && (#[trigger] clips[j]).id == id && has_time(
                        after[i],
                        clips[j],
                        start,
                        duration,
                    )
            &&& exists|i: int| 0 <= i < after.len() && (#[trigger] after[i]).id == id
            &&& forall|i: int, j: int|
                0 <= i < j < after.len() ==> (#[trigger] after[i]).start <= (
                #[trigger] after[j]).start
            &&& forall|i: int| 0 <= i < after.len() ==> has_clip(clips, (#[trigger] after[i]).id)
        }),
{
    let change = |clip: ActionClip|
        if clip.id == id {
            retimed(clip, start, duration)
        } else {
            clip
        };
    let key = |clip: ActionClip| clip.start as int;
    let moved = clips.map_values(change);
    let after = rescheduled(clips, id, start, duration);
    stable_sort_is_sound(moved, key);
    assert forall|clip: ActionClip|
        clip.id != id implies (#[trigger] after.contains(clip) <==> clips.contains(clip)) by {
        if moved.contains(clip) {
            let j = choose|j: int| 0 <= j < moved.len() && moved[j] == clip;
            assert(clips[j] == clip);
        }
        if clips.contains(clip) {
            let j = choose|j: int| 0 <= j < clips.len() && clips[j] == clip;
            assert(moved[j] == clip);
        }
    }
    assert forall|i: int|
        #![trigger after[i]]
        0 <= i < after.len() implies exists|j: int|
        0 <= j < clips.len() && (#[trigger] clips[j]).id == after[i].id && after[i] == change(
            clips[j],
        ) by {
        assert(after.contains(after[i]));
        assert(moved.contains(after[i]));
        let j = choose|j: int| 0 <= j < moved.len() && moved[j] == after[i];
        assert(clips[j].id == after[i].id);
    }
    assert forall|i: int| 0 <= i < after.len() && (#[trigger] after[i]).id == id implies exists|
        j: int,
    |
        0 <= j < clips.len() && (#[trigger] clips[j]).id == id && has_time(
            after[i],
            clips[j],
            start,
            duration,
        ) by {
        let j = choose|j: int|
            0 <= j < clips.len() && (#[trigger] clips[j]).id == after[i].id && after[i] == change(
                clips[j],
            );
        assert(has_time(after[i], clips[j], start, duration));
    }
    let k = choose|k: int| 0 <= k < clips.len() && (#[trigger] clips[k]).id == id;
    assert(moved[k].id == id);
    assert(moved.contains(moved[k]));
    assert(after.contains(moved[k]));
    let i = choose|i: int| 0 <= i < after.len() && after[i] == moved[k];
    assert(after[i].id == id);
    assert forall|i: int, j: int| 0 <= i < j < after.len() implies (#[trigger] after[i]).start <= (
    #[trigger] after[j]).start by {
        assert(ascending(after, key));
        assert(key(after[i]) <= key(after[j]));
    }
}

/// A clip that is given another time has it.
pub proof fn moved_clips_have_their_time(
    clips: Seq<ActionClip>,
    id: ActionId,
    start: Ticks,
    duration: Option<Ticks>,
)
    requires
        has_clip(clips, id),
    ensures
        exists|i: int|
            0 <= i < rescheduled(clips, id, start, duration).len() && (#[trigger] rescheduled(
                clips,
                id,
                start,
                duration,
            )[i]).id == id && (start >= 0 ==> rescheduled(clips, id, start, duration)[i].start
                == start),
{
    rescheduling_moves(clips, id, start, duration);
}

/// Whether an action has at most one of some clips.
pub open spec fn holds_at_most_once(clips: Seq<ActionClip>, id: ActionId) -> bool {
    forall|i: int, j: int|
        0 <= i < j < clips.len() && (#[trigger] clips[i]).id == id ==> (#[trigger] clips[j]).id
            != id
}

/// A clip that is given another time has it afterwards, in its lane, which stays in order;
/// nothing else moves. It is refused where there is no such clip, or where another clip
/// of the lane is in the way, which is told; then nothing moves.
pub proof fn rescheduling_moves_one_clip(
    before: Lanes,
    after: Lanes,
    id: ActionId,
    start: Ticks,
    duration: Option<Ticks>,
    result: Result<(), RemoteEditError>,
)
    requires
        reschedule_outcome(before, after, id, start, duration, result),
        forall|key: ActionKey| #[trigger]
            before.contains_key(key) ==> holds_at_most_once(before[key], id),
    ensures
        result is Ok ==> exists|key: ActionKey| #[trigger]
            before.contains_key(key) && is_moved(before[key], after[key], id, start, duration)
                && after.dom() == before.dom() && forall|other: ActionKey|
                other != key ==> #[trigger] after[other] == before[other],
        result is Err ==> after == before,
        result == Err::<(), RemoteEditError>(RemoteEditError::NotFound) <==> forall|
            key: ActionKey,
        | #[trigger]
            before.contains_key(key) ==> !has_clip(before[key], id),
        result matches Err(RemoteEditError::Overlap { conflict }) ==> conflict != id && exists|
            key: ActionKey,
        | #[trigger]
            before.contains_key(key) && has_clip(before[key], conflict),
{
    match result {
        Ok(()) => {
            let key = choose|key: ActionKey| #[trigger]
                before.contains_key(key) && has_clip(before[key], id) && non_overlapping(
                    rescheduled(before[key], id, start, duration),
                ) && after == before.insert(key, rescheduled(before[key], id, start, duration));
            clip_was_moved(before, after, id, start, duration, key);
        },
        Err(RemoteEditError::NotFound) => {},
        Err(RemoteEditError::Overlap { conflict }) => {
            let (key, at) = choose|key: ActionKey, at: int| #[trigger]
                before.contains_key(key) && has_clip(before[key], id) && #[trigger] first_overlap(
                    rescheduled(before[key], id, start, duration),
                    at,
                ) && conflict == conflict_at(
                    rescheduled(before[key], id, start, duration),
                    at,
                    id,
                );
            conflict_is_another(before[key], id, start, duration, at);
        },
        Err(_) => {},
    }
}

/// The lane of a clip that was moved.
proof fn clip_was_moved(
    before: Lanes,
    after: Lanes,
    id: ActionId,
    start: Ticks,
    duration: Option<Ticks>,
    key: ActionKey,
)
    requires
        before.contains_key(key),
        has_clip(before[key], id),
        non_overlapping(rescheduled(before[key], id, start, duration)),
        after == before.insert(key, rescheduled(before[key], id, start, duration)),
    ensures
        is_moved(before[key], after[key], id, start, duration),
        after.dom() == before.dom(),
        forall|other: ActionKey| other != key ==> #[trigger] after[other] == before[other],
        exists|i: int| 0 <= i < before[key].len() && (#[trigger] before[key][i]).id == id,
{
    reveal(is_moved);
    rescheduling_moves(before[key], id, start, duration);
    assert(after.dom() =~= before.dom());
}

/// Of two clips that overlap, the one that is told is not the one that was moved.
proof fn conflict_is_another(
    clips: Seq<ActionClip>,
    id: ActionId,
    start: Ticks,
    duration: Option<Ticks>,
    at: int,
)
    requires
        has_clip(clips, id),
        first_overlap(rescheduled(clips, id, start, duration), at),
        holds_at_most_once(clips, id),
    ensures
        has_clip(clips, conflict_at(rescheduled(clips, id, start, duration), at, id)),
        conflict_at(rescheduled(clips, id, start, duration), at, id) != id,
{
    let sorted = rescheduled(clips, id, start, duration);
    let conflict = conflict_at(sorted, at, id);
    rescheduling_moves(clips, id, start, duration);
    assert(has_clip(clips, sorted[at].id));
    assert(has_clip(clips, sorted[at - 1].id));
    if conflict == id {
        ids_stay_apart(clips, id, start, duration, at);
    }
}

/// An action that has one clip has one afterwards.
proof fn ids_stay_apart(
    clips: Seq<ActionClip>,
    id: ActionId,
    start: Ticks,
    duration: Option<Ticks>,
    at: int,
)
    requires
        0 < at < rescheduled(clips, id, start, duration).len(),
        rescheduled(clips, id, start, duration)[at].id == id,
        rescheduled(clips, id, start, duration)[at - 1].id == id,
    ensures
        exists|i: int, j: int|
            0 <= i < j < clips.len() && (#[trigger] clips[i]).id == id && (#[trigger] clips[j]).id
                == id,
{
    let change = |clip: ActionClip|
        if clip.id == id {
            retimed(clip, start, duration)
        } else {
            clip
        };
    let key = |clip: ActionClip| clip.start as int;
    let moved = clips.map_values(change);
    let after = rescheduled(clips, id, start, duration);
    stable_sort_is_sound(moved, key);
    let is = |clip: ActionClip| clip.id == id;
    let (a, b) = (after[at - 1], after[at]);
    assert(after.contains(a) && after.contains(b));
    let i = choose|i: int| 0 <= i < moved.len() && moved[i] == a;
    if a != b {
        assert(moved.contains(b));
        let j = choose|j: int| 0 <= j < moved.len() && moved[j] == b;
        assert(i != j);
        assert(clips[i].id == id && clips[j].id == id);
        if i < j {
            assert(clips[i].id == id && clips[j].id == id);
        } else {
            assert(clips[j].id == id && clips[i].id == id);
        }
    } else {
        counted_twice(after, at - 1, at);
        if !(exists|j: int| 0 <= j < moved.len() && j != i && moved[j] == a) {
            counted_once(moved, i);
        }
        let j = choose|j: int| 0 <= j < moved.len() && j != i && moved[j] == a;
        assert(clips[i].id == id && clips[j].id == id);
        if i < j {
            assert(clips[i].id == id && clips[j].id == id);
        } else {
            assert(clips[j].id == id && clips[i].id == id);
        }
    }
}

/// What stands at two places is counted twice.
proof fn counted_twice(s: Seq<ActionClip>, i: int, j: int)
    requires
        0 <= i < j < s.len(),
        s[i] == s[j],
    ensures
        s.to_multiset().count(s[i]) >= 2,
{
    let rest = s.remove(j);
    s.to_multiset_ensures();
    rest.to_multiset_ensures();
    assert(rest[i] == s[i]);
    assert(rest.contains(s[i]));
    assert(rest.to_multiset().count(s[i]) > 0);
    assert(s.remove(j).to_multiset() =~= s.to_multiset().remove(s[j]));
}

/// What stands at one place is counted once.
proof fn counted_once(s: Seq<ActionClip>, i: int)
    requires
        0 <= i < s.len(),
        forall|j: int| 0 <= j < s.len() && j != i ==> s[j] != s[i],
    ensures
        s.to_multiset().count(s[i]) == 1,
{
    let rest = s.remove(i);
    s.to_multiset_ensures();
    rest.to_multiset_ensures();
    assert(s.remove(i).to_multiset() =~= s.to_multiset().remove(s[i]));
    if rest.contains(s[i]) {
        let k = choose|k: int| 0 <= k < rest.len() && rest[k] == s[i];
        let j = if k < i {
            k
        } else {
            k + 1
        };
        assert(s[j] == rest[k]);
    }
    assert(!rest.contains(s[i]));
    assert(rest.to_multiset().count(s[i]) == 0);
    assert(s.contains(s[i]));
    assert(s.to_multiset().count(s[i]) > 0);
    assert(s.to_multiset().remove(s[i]).count(s[i]) == s.to_multiset().count(s[i]) - 1);
}

/// Taking the clips of an action out of a lane leaves every other clip there, and none of
/// the action. A lane without clips is gone, and no other lane changes.
pub proof fn removing_takes_out_one_action(
    lanes: Lanes,
    key: ActionKey,
    id: ActionId,
    clip: ActionClip,
    other: ActionKey,
)
    requires
        lanes.contains_key(key),
    ensures
        ({
            let after = without_clip(lanes, key, id);
            let left = if after.contains_key(key) {
                after[key]
            } else {
                Seq::empty()
            };
            &&& left.contains(clip) <==> lanes[key].contains(clip) && clip.id != id
            &&& after.contains_key(key) ==> after[key].len() > 0
            &&& other != key ==> after.contains_key(other) == lanes.contains_key(other)
                && after[other] == lanes[other]
        }),
{
    let keep = |clip: ActionClip| clip.id != id;
    let clips = lanes[key];
    let kept = others(clips, id);
    clips.filter_lemma(keep);
    if kept.contains(clip) {
        clips.lemma_filter_contains_rev(keep, clip);
        let i = choose|i: int| 0 <= i < kept.len() && kept[i] == clip;
        assert(keep(kept[i]));
        assert(kept.len() > 0);
    }
    if clips.contains(clip) && clip.id != id {
        let i = choose|i: int| 0 <= i < clips.len() && clips[i] == clip;
        assert(keep(clips[i]));
        assert(kept.contains(clips[i]));
        assert(kept.len() > 0);
    }
}

/// Whether a point is another one with its time held inside the clip.
pub open spec fn is_held<T>(point: Keyframe<T>, given: Keyframe<T>) -> bool {
    &&& point.value == given.value
    &&& point.ease == given.ease
    &&& point.hold == given.hold
    &&& 0 <= given.t <= PHASE_ONE ==> point.t == given.t
    &&& given.t < 0 ==> point.t == 0
    &&& given.t > PHASE_ONE ==> point.t == PHASE_ONE
}

/// The keyframes that are kept are those that were given, in the order of their times,
/// each at the time that it was given, or at the end of the clip that is nearer.
pub proof fn keyframes_are_kept_in_order<T>(points: Seq<Keyframe<T>>)
    ensures
        ({
            let kept = sorted_keyframes(points);
            &&& kept.len() == points.len()
            &&& forall|i: int, j: int|
                0 <= i < j < kept.len() ==> (#[trigger] kept[i]).t <= (#[trigger] kept[j]).t
            &&& forall|i: int|
                #![trigger kept[i]]
                0 <= i < kept.len() ==> exists|j: int|
                    #![trigger points[j]]
                    0 <= j < points.len() && is_held(kept[i], points[j])
            &&& forall|j: int|
                #![trigger points[j]]
                0 <= j < points.len() ==> exists|i: int|
                    #![trigger kept[i]]
                    0 <= i < kept.len() && is_held(kept[i], points[j])
        }),
{
    let clamp = |point: Keyframe<T>| clamped_keyframe(point);
    let key = |point: Keyframe<T>| point.t as int;
    let held = points.map_values(clamp);
    let kept = sorted_keyframes(points);
    stable_sort_is_sound(held, key);
    assert forall|i: int, j: int| 0 <= i < j < kept.len() implies (#[trigger] kept[i]).t <= (
    #[trigger] kept[j]).t by {
        assert(ascending(kept, key));
        assert(key(kept[i]) <= key(kept[j]));
    }
    assert forall|i: int|
        #![trigger kept[i]]
        0 <= i < kept.len() implies exists|j: int|
        #![trigger points[j]]
        0 <= j < points.len() && is_held(kept[i], points[j]) by {
        assert(kept.contains(kept[i]));
        assert(held.contains(kept[i]));
        let j = choose|j: int| 0 <= j < held.len() && held[j] == kept[i];
        assert(is_held(kept[i], points[j]));
    }
    assert forall|j: int|
        #![trigger points[j]]
        0 <= j < points.len() implies exists|i: int|
        #![trigger kept[i]]
        0 <= i < kept.len() && is_held(kept[i], points[j]) by {
        assert(held.contains(held[j]));
        assert(kept.contains(held[j]));
        let i = choose|i: int| 0 <= i < kept.len() && kept[i] == held[j];
        assert(is_held(kept[i], points[j]));
    }
}

/// Changing the record of an action changes that one and no other, and neither subjects
/// nor baselines.
pub proof fn records_change_alone(
    model: ActionModel,
    id: ActionId,
    record: ActionRecord,
    other: ActionId,
)
    ensures
        model.with_record(id, record).actions[id] == record,
        other != id ==> model.with_record(id, record).has(other) == model.has(other)
            && model.with_record(id, record).actions[other] == model.actions[other],
        model.with_record(id, record).subjects == model.subjects,
        model.with_record(id, record).known == model.known,
        model.with_record(id, record).baselines == model.baselines,
{
}

} // verus!
