//! What undoing a removal brings back.
use crate::action::subjects::slot_of;
use crate::action::world::{claimed, is_uid_for};
use crate::action::{ActionClip, ActionId, ActionKey, Ease, InterpFn};
use crate::bevy_motiongfx::manager::TimelineId;
use crate::bevy_motiongfx::remote::batch::apply::op_applied;
use crate::bevy_motiongfx::remote::batch::clear_laws::{lane_holds, restorable, snapshots_describe};
use crate::bevy_motiongfx::remote::batch::insert::{
    insert_recorded, is_inserted, is_placed, made_room, muted, room_taken, start_of,
    timeline_placed, Applied, InsertTarget,
};
use crate::bevy_motiongfx::remote::batch::laws::{
    baking_keeps_clips, clips_alike, in_order, lane_in_order,
};
use crate::bevy_motiongfx::remote::batch::op::{EditOp, OpResult, Placement};
use crate::bevy_motiongfx::remote::batch::restore_laws::{
    described_is_planned, inserting_adds, is_planned, key_is_of_owner, labels_owned, labels_stay,
    lane_is_of_actions, lane_neat, lanes_of, neat, owner_of, owners_stay, record_is, room_is_empty,
    shown_clip, shown_lane,
};
use crate::bevy_motiongfx::remote::batch::show_laws::{
    lane_shown_in, lanes_shown_in, neat_clip, shown_at, shows_alike,
};
use crate::bevy_motiongfx::remote::batch::snapshot::{is_snapshot, remove_stepped};
use crate::bevy_motiongfx::remote::batch::update_laws::reads_back;
use crate::bevy_motiongfx::remote::batch::walk::{clip_on, clip_on_is_of_a_lane};
use crate::bevy_motiongfx::remote::fault::Fault;
use crate::bevy_motiongfx::remote::host::RemoteHost;
use crate::bevy_motiongfx::remote::persist::export::placement_of;
use crate::bevy_motiongfx::remote::studio::{baked, StudioModel};
use crate::pipeline::PipelineKey;
use crate::remote::{keyframes_fault, RemoteEditError, RemoteFieldKey};
use crate::seqs::{insert_by_at, sorting_keeps_order};
use crate::sequence::non_overlapping;
use crate::subject::{Subject, UntypedField};
use crate::time::Ticks;
use crate::timeline::edit::bumped;
use crate::timeline::TimelineModel;
use crate::track::laws::starts_ascend;
use crate::track::{
    first_overlap, furthest_end, has_clip, lane, others, reschedule_outcome, rescheduled, retimed,
    without_clip, Lanes,
};
use vstd::prelude::*;

verus! {

/// Where no clip is of an action, all are those of others.
proof fn all_are_others(clips: Seq<ActionClip>, id: ActionId)
    requires
        forall|i: int| 0 <= i < clips.len() ==> (#[trigger] clips[i]).id != id,
    ensures
        others(clips, id) == clips,
    decreases clips.len(),
{
    reveal(Seq::filter);
    if clips.len() > 0 {
        let front = clips.drop_last();
        assert forall|i: int| 0 <= i < front.len() implies (#[trigger] front[i]).id != id by {
            assert(front[i] == clips[i]);
        }
        all_are_others(front, id);
        assert(clips =~= front.push(clips.last()));
    }
}

/// The others are what is left without the one.
pub proof fn others_without_one(clips: Seq<ActionClip>, i: int)
    requires
        0 <= i < clips.len(),
        forall|j: int|
            0 <= j < clips.len() && j != i ==> (#[trigger] clips[j]).id != clips[i].id,
    ensures
        others(clips, clips[i].id) == clips.remove(i),
{
    let id = clips[i].id;
    let keep = |clip: ActionClip| clip.id != id;
    let front = clips.take(i);
    let one = seq![clips[i]];
    let rest = clips.skip(i + 1);
    assert(clips =~= front + (one + rest));
    Seq::filter_distributes_over_add(front, one + rest, keep);
    Seq::filter_distributes_over_add(one, rest, keep);
    all_are_others(front, id);
    all_are_others(rest, id);
    assert(one.filter(keep) =~= Seq::empty()) by {
        reveal_with_fuel(Seq::filter, 2);
        assert(one.drop_last() =~= Seq::empty());
        assert(one.last() == clips[i]);
    }
    assert(front + (Seq::<ActionClip>::empty() + rest) =~= clips.remove(i));
}

/// A clip that is put behind the others of its lane and then in its place is
/// where it was.
proof fn lane_takes_back(clips: Seq<ActionClip>, i: int, action: ActionId, behind: Ticks)
    requires
        0 <= i < clips.len(),
        starts_ascend(clips),
        clips[i].start >= 0,
        forall|j: int|
            0 <= j < clips.len() && j != i ==> (#[trigger] clips[j]).id != clips[i].id,
        !has_clip(others(clips, clips[i].id), action),
    ensures
        ({
            let back = ActionClip { id: action, ..clips[i] };
            let pushed = others(clips, clips[i].id).push(ActionClip { start: behind, ..back });
            &&& has_clip(pushed, action)
            &&& rescheduled(pushed, action, clips[i].start, None) == clips.update(i, back)
        }),
{
    let key = |clip: ActionClip| clip.start as int;
    let back = ActionClip { id: action, ..clips[i] };
    let rest = clips.remove(i);
    others_without_one(clips, i);
    let pushed = rest.push(ActionClip { start: behind, ..back });
    let change = |clip: ActionClip|
        if clip.id == action {
            retimed(clip, clips[i].start, None)
        } else {
            clip
        };
    assert(pushed[rest.len() as int].id == action);
    assert(pushed.map_values(change) =~= rest.push(back)) by {
        assert forall|j: int| 0 <= j < rest.len() implies pushed.map_values(change)[j] == rest[j] by {
            assert(rest[j].id != action);
        }
    }
    assert forall|j: int| 0 <= j < rest.len() implies #[trigger] rest[j] == clips[if j < i {
        j
    } else {
        j + 1
    }] by {}
    sorting_keeps_order(rest, key);
    assert(rest.push(back).drop_last() =~= rest);
    insert_by_at(rest, back, key, i);
    assert(rest.insert(i, back) =~= clips.update(i, back));
}

/// Clips that do not overlap do not when one of them is of another action.
proof fn back_does_not_overlap(clips: Seq<ActionClip>, i: int, whole: Seq<ActionClip>)
    requires
        0 <= i < clips.len(),
        non_overlapping(clips),
        whole == clips.update(i, ActionClip { id: whole[i].id, ..clips[i] }),
    ensures
        forall|n: int| !#[trigger] first_overlap(whole, n),
{
    assert forall|n: int| !#[trigger] first_overlap(whole, n) by {
        if 0 < n < whole.len() {
            assert(whole[n].start == clips[n].start);
            assert(whole[n - 1].end() == clips[n - 1].end());
        }
    }
}

/// A clip whose place is free can be put there.
proof fn place_is_taken(
    there: Lanes,
    key: ActionKey,
    placed: Seq<ActionClip>,
    action: ActionId,
    start: Ticks,
    moved: Lanes,
    result: Result<(), RemoteEditError>,
)
    requires
        there.contains_key(key),
        has_clip(there[key], action),
        rescheduled(there[key], action, start, None) == placed,
        forall|at: int| !#[trigger] first_overlap(placed, at),
        forall|other: ActionKey| #[trigger]
            there.contains_key(other) && has_clip(there[other], action) ==> other == key,
        reschedule_outcome(there, moved, action, start, None, result),
    ensures
        result is Ok,
        moved == there.insert(key, placed),
{
    match result {
        Ok(()) => {
            let other = choose|other: ActionKey| #[trigger]
                there.contains_key(other) && has_clip(there[other], action) && non_overlapping(
                    rescheduled(there[other], action, start, None),
                ) && moved == there.insert(other, rescheduled(there[other], action, start, None));
        },
        Err(RemoteEditError::Overlap { conflict }) => {
            let (other, at) = choose|other: ActionKey, at: int| #[trigger]
                there.contains_key(other) && has_clip(there[other], action)
                    && #[trigger] first_overlap(rescheduled(there[other], action, start, None), at);
            assert(false);
        },
        Err(RemoteEditError::NotFound) => {
            assert(false);
        },
        Err(_) => {},
    }
}

/// Whether a track is laid out and ends where its last clip does.
pub open spec fn ends_laid_out(model: TimelineModel, t: int) -> bool {
    &&& model.tracks[t].laid_out()
    &&& furthest_end(model.tracks[t].lanes(), model.tracks[t].duration())
}

/// A clip that was put behind its lane gets to its place.
proof fn placed_lands(
    inserted: TimelineModel,
    moved: TimelineModel,
    after: TimelineModel,
    at: &Placement,
    key: ActionKey,
    placed: Seq<ActionClip>,
    action: ActionId,
    result: Result<ActionId, RemoteEditError>,
)
    requires
        at.track < inserted.tracks.len(),
        is_placed(inserted, moved, after, *at, true, action, result),
        ({
            let there = inserted.tracks[at.track as int].lanes();
            &&& there.contains_key(key)
            &&& has_clip(there[key], action)
            &&& rescheduled(there[key], action, start_of(*at), None) == placed
            &&& forall|n: int| !#[trigger] first_overlap(placed, n)
            &&& forall|other: ActionKey| #[trigger]
                there.contains_key(other) && has_clip(there[other], action) ==> other == key
        }),
    ensures
        result == Ok::<ActionId, RemoteEditError>(action),
        after.tracks.len() == inserted.tracks.len(),
        forall|i: int|
            i != at.track ==> #[trigger] lanes_of(after, i) == lanes_of(inserted, i),
        lanes_of(after, at.track as int) == lanes_of(inserted, at.track as int).insert(key, placed),
        after == (TimelineModel {
            actions: muted(inserted, action, at.enabled).actions,
            tracks: inserted.tracks.update(at.track as int, after.tracks[at.track as int]),
            ..inserted
        }),
        ends_laid_out(after, at.track as int),
{
    let t = at.track as int;
    let there = inserted.tracks[t].lanes();
    match result {
        Ok(_) => {
            place_is_taken(
                there,
                key,
                placed,
                action,
                start_of(*at),
                moved.tracks[t].lanes(),
                Ok(()),
            );
            assert forall|i: int| i != t implies #[trigger] lanes_of(after, i) == lanes_of(
                inserted,
                i,
            ) by {
                if 0 <= i < inserted.tracks.len() {
                    assert(moved.tracks[i] == inserted.tracks[i]);
                }
            }
        },
        Err(error) => {
            place_is_taken(there, key, placed, action, start_of(*at), there, Err(error));
        },
    }
}

/// A lane from which a clip was removed, and which can take it back.
pub open spec fn takes_back(clips: Seq<ActionClip>, i: int) -> bool {
    &&& 0 <= i < clips.len()
    &&& starts_ascend(clips)
    &&& non_overlapping(clips)
    &&& clips[i].start >= 0
    &&& forall|j: int| 0 <= j < clips.len() && j != i ==> (#[trigger] clips[j]).id != clips[i].id
}

/// Whether the lanes of a field of a subject on a track hold the rest of a lane.
pub open spec fn holds_rest(
    model: TimelineModel,
    t: int,
    field: UntypedField,
    subject: Subject,
    rest: Seq<ActionClip>,
) -> bool {
    forall|key: ActionKey|
        #![trigger lane(lanes_of(model, t), key)]
        key.field == field && key.subject_id.type_id == subject.type_id && is_uid_for(
            model.actions.known,
            subject,
            key.subject_id.uid,
        ) ==> lane(lanes_of(model, t), key) == rest
}

/// What a timeline has when a clip was taken back.
pub open spec fn taken_back(
    before: TimelineModel,
    after: TimelineModel,
    t: int,
    field: UntypedField,
    subject: Subject,
    clips: Seq<ActionClip>,
    i: int,
    action: ActionId,
) -> bool {
    let record = after.actions.actions[action];
    &&& !before.actions.has(action)
    &&& record.key.field == field
    &&& record.key.subject_id.type_id == subject.type_id
    &&& is_uid_for(before.actions.known, subject, record.key.subject_id.uid)
    &&& after.actions.actions == before.actions.actions.insert(action, record)
    &&& after.actions.subjects == claimed(
        before.actions.subjects,
        subject,
        record.key.subject_id.uid,
    )
    &&& after.actions.known == before.actions.known.insert(slot_of(record.key), subject.bits)
    &&& after.actions.baselines == before.actions.baselines
    &&& after == (TimelineModel {
        actions: after.actions,
        counts: after.counts,
        tracks: after.tracks,
        ..before
    })
    &&& 0 <= t < after.tracks.len()
    &&& t < before.tracks.len() ==> after.tracks == before.tracks.update(t, after.tracks[t])
    &&& ends_laid_out(after, t)
    &&& forall|j: int| j != t ==> #[trigger] lanes_of(after, j) == lanes_of(before, j)
    &&& lanes_of(after, t) == lanes_of(before, t).insert(
        record.key,
        clips.update(i, ActionClip { id: action, ..clips[i] }),
    )
}

/// Whether an action is of a pipeline, interpolates as that says, and is counted.
pub open spec fn counted_in(
    before: TimelineModel,
    after: TimelineModel,
    remote: Map<PipelineKey, InterpFn>,
    pipeline: PipelineKey,
    action: ActionId,
) -> bool {
    let record = after.actions.actions[action];
    &&& record.target_type == pipeline.target_id
    &&& record.interp == Some(remote[pipeline])
    &&& after.counts == bumped(before.counts, pipeline)
}

/// An action that was inserted behind the rest of its lane is placed.
pub proof fn inserted_is_back(
    before: TimelineModel,
    ready: TimelineModel,
    inserted: TimelineModel,
    moved: TimelineModel,
    after: TimelineModel,
    remote: Map<PipelineKey, InterpFn>,
    at: &Placement,
    key: RemoteFieldKey,
    subject: Subject,
    target: InsertTarget,
    ease: Option<Ease>,
    clips: Seq<ActionClip>,
    i: int,
    action: ActionId,
    result: Result<ActionId, RemoteEditError>,
)
    requires
        neat(before),
        at.track < ready.tracks.len(),
        ready == (TimelineModel { tracks: ready.tracks, ..before }),
        at.track < before.tracks.len() ==> ready.tracks == before.tracks,
        forall|t: int| #[trigger] lanes_of(ready, t) == lanes_of(before, t),
        takes_back(clips, i),
        holds_rest(before, at.track as int, key.field, subject, others(clips, clips[i].id)),
        start_of(*at) == clips[i].start,
        at.duration == clips[i].duration,
        is_inserted(ready, inserted, remote, *at, key, subject, target, ease, action),
        is_placed(inserted, moved, after, *at, true, action, result),
    ensures
        result is Ok,
        taken_back(
            before,
            after,
            at.track as int,
            key.field,
            subject,
            clips,
            i,
            result->Ok_0,
        ),
        record_is(after, result->Ok_0, target, ease, at.enabled == Some(false)),
        counted_in(before, after, remote, key.pipeline, result->Ok_0),
{
    let t = at.track as int;
    inserting_adds(ready, inserted, remote, at, key, subject, target, ease, action);
    let own = inserted.actions.actions[action].key;
    assert(lanes_of(ready, t) == lanes_of(before, t));
    let lanes = lanes_of(before, t);
    let rest = others(clips, clips[i].id);
    assert(lane(lanes, own) == rest);
    let there = lanes_of(inserted, t);
    let behind = there[own].last().start;
    let back = ActionClip { id: action, ..clips[i] };
    assert(there[own] == rest.push(ActionClip { start: behind, ..back }));
    assert(!has_clip(rest, action)) by {
        if lanes.contains_key(own) {
            assert(before.tracks[t].lanes().contains_key(own));
            assert(lane_neat(before, own, lanes[own]));
            lane_is_of_actions(before, own, lanes[own], action);
        }
    }
    lane_takes_back(clips, i, action, behind);
    let whole = clips.update(i, back);
    back_does_not_overlap(clips, i, whole);
    assert forall|other: ActionKey| #[trigger]
        there.contains_key(other) && has_clip(there[other], action) implies other == own by {
        if other != own {
            assert(before.tracks[t].lanes().contains_key(other));
            assert(lane_neat(before, other, lanes[other]));
            lane_is_of_actions(before, other, lanes[other], action);
        }
    }
    placed_lands(inserted, moved, after, at, own, whole, action, result);
    assert forall|j: int| j != t implies #[trigger] lanes_of(after, j) == lanes_of(before, j) by {
        assert(lanes_of(ready, j) == lanes_of(before, j));
        assert(lanes_of(inserted, j) == lanes_of(ready, j));
    }
    assert(lanes_of(after, t) =~= lanes.insert(own, whole));
    assert(after.tracks =~= ready.tracks.update(t, after.tracks[t]));
    assert(after.actions.actions =~= before.actions.actions.insert(
        action,
        after.actions.actions[action],
    ));
}

/// A timeline takes a clip back that was removed.
proof fn timeline_takes_back(
    before: TimelineModel,
    after: TimelineModel,
    remote: Map<PipelineKey, InterpFn>,
    at: &Placement,
    key: RemoteFieldKey,
    subject: Subject,
    target: InsertTarget,
    ease: Option<Ease>,
    clips: Seq<ActionClip>,
    i: int,
    result: Result<ActionId, RemoteEditError>,
)
    requires
        neat(before),
        timeline_placed(before, after, remote, *at, key, subject, target, ease, true, result),
        at.track < usize::MAX,
        key.pipeline.subject_id == subject.type_id,
        remote.contains_key(key.pipeline),
        match target {
            InsertTarget::Constant(value) => value.type_id == key.pipeline.target_id,
            InsertTarget::Keyframes(keyframes) => keyframes_fault(
                keyframes,
                key.pipeline.target_id,
            ) is None,
        },
        takes_back(clips, i),
        holds_rest(before, at.track as int, key.field, subject, others(clips, clips[i].id)),
        start_of(*at) == clips[i].start,
        at.duration == clips[i].duration,
    ensures
        result is Ok,
        taken_back(
            before,
            after,
            at.track as int,
            key.field,
            subject,
            clips,
            i,
            result->Ok_0,
        ),
        record_is(after, result->Ok_0, target, ease, at.enabled == Some(false)),
        counted_in(before, after, remote, key.pipeline, result->Ok_0),
{
    let ready = choose|ready: TimelineModel|
        {
            &&& #[trigger] made_room(before, ready, *at, true)
            &&& room_taken(ready, after, remote, *at, key, subject, target, ease, true, result)
        };
    room_is_empty(before, ready, *at);
    if at.track < before.tracks.len() {
        assert(ready.tracks.take(before.tracks.len() as int) =~= ready.tracks);
    }
    let (inserted, moved, action) = choose|
        inserted: TimelineModel,
        moved: TimelineModel,
        action: ActionId,
    |
        {
            &&& is_inserted(ready, inserted, remote, *at, key, subject, target, ease, action)
            &&& #[trigger] is_placed(inserted, moved, after, *at, true, action, result)
        };
    assert(is_inserted(ready, inserted, remote, *at, key, subject, target, ease, action));
    inserted_is_back(
        before,
        ready,
        inserted,
        moved,
        after,
        remote,
        at,
        key,
        subject,
        target,
        ease,
        clips,
        i,
        action,
        result,
    );
}

/// What a timeline has when a clip was taken out of it.
pub open spec fn taken_out(
    before: StudioModel,
    later: StudioModel,
    id: TimelineId,
    t: int,
    key: ActionKey,
    action: ActionId,
) -> bool {
    let (a, b) = (before.timelines[id], later.timelines[id]);
    &&& later.timelines.contains_key(id)
    &&& forall|j: int| j != t ==> #[trigger] lanes_of(b, j) == lanes_of(a, j)
    &&& lanes_of(b, t) == without_clip(lanes_of(a, t), key, action)
    &&& !b.actions.has(action)
    &&& forall|other: ActionId|
        a.actions.has(other) && other != action ==> #[trigger] b.actions.has(other)
    &&& forall|k: ActionKey| #[trigger]
        b.actions.subjects.contains_key(slot_of(k)) ==> a.actions.subjects.contains_key(slot_of(k))
            && owner_of(b, k) == owner_of(a, k)
    &&& forall|clip: ActionClip|
        b.actions.has(clip.id) ==> #[trigger] shown_clip(later, id, clip) == shown_clip(
            before,
            id,
            clip,
        )
    &&& labels_owned(later, id)
    &&& later.catalog == before.catalog
    &&& later.registry == before.registry
}

/// Removing a clip takes it out.
pub proof fn removing_takes_out<H: RemoteHost>(
    host: &H,
    id: TimelineId,
    track: usize,
    action_id: u64,
    before: StudioModel,
    snapped: StudioModel,
    between: StudioModel,
    outcome: OpResult,
    inverse: EditOp,
    later: StudioModel,
)
    requires
        before.timelines.contains_key(id),
        labels_owned(before, id),
        remove_stepped(
            host,
            id,
            track,
            action_id,
            before,
            snapped,
            Ok(inverse),
            between,
            Ok((outcome, inverse)),
        ),
        clips_alike(id, between, later),
        later.catalog == between.catalog,
        later.registry == between.registry,
    ensures
        clips_alike(id, before, snapped),
        snapped.catalog == before.catalog,
        snapped.timelines[id].tracks == before.timelines[id].tracks,
        track < before.timelines[id].tracks.len(),
        before.timelines[id].actions.has(ActionId { bits: action_id }),
        taken_out(
            before,
            later,
            id,
            track as int,
            before.timelines[id].actions.actions[ActionId { bits: action_id }].key,
            ActionId { bits: action_id },
        ),
{
    let action = ActionId { bits: action_id };
    let t = track as int;
    assert(baked(host, id, before, snapped));
    baking_keeps_clips(host, id, before, snapped);
    let (a, s, m, b) = (
        before.timelines[id],
        snapped.timelines[id],
        between.timelines[id],
        later.timelines[id],
    );
    assert(s.actions.actions.dom().contains(action));
    assert(a.actions.actions.dom().contains(action));
    let key = a.actions.actions[action].key;
    assert(b.actions.actions.dom() == m.actions.actions.dom());
    assert forall|j: int| j != t implies #[trigger] lanes_of(b, j) == lanes_of(a, j) by {
        if 0 <= j < a.tracks.len() {
            assert(m.tracks[j] == s.tracks[j]);
            assert(m.tracks[j].lanes() == b.tracks[j].lanes());
        }
    }
    assert(m.tracks[t].lanes() == b.tracks[t].lanes());
    assert forall|other: ActionId| a.actions.has(other) && other != action implies #[trigger]
        b.actions.has(other) by {
        assert(a.actions.actions.dom().contains(other));
        assert(m.actions.actions.dom().contains(other));
    }
    assert forall|clip: ActionClip| b.actions.has(clip.id) implies #[trigger] shown_clip(
        later,
        id,
        clip,
    ) == shown_clip(before, id, clip) by {
        assert(m.actions.actions.dom().contains(clip.id));
        assert(m.actions.has(clip.id));
        assert(clip.id != action);
        assert(s.actions.actions.dom().contains(clip.id));
        assert(a.actions.has(clip.id));
        assert(clip.id.bits != action_id) by {
            if clip.id.bits == action_id {
                assert(clip.id == action);
            }
        }
    }
    assert forall|x: u64| #[trigger] later.edits_of(id).clip_meta.contains_key(
        x,
    ) implies b.actions.has(ActionId { bits: x }) by {
        assert(before.edits_of(id).clip_meta.contains_key(x));
        assert(x != action_id);
        assert(a.actions.has(ActionId { bits: x }));
    }
}

/// What is left of a lane is the lane of its subject and field.
proof fn rest_is_held(
    before: StudioModel,
    later: StudioModel,
    id: TimelineId,
    t: int,
    key: ActionKey,
    action: ActionId,
)
    requires
        neat(before.timelines[id]),
        neat(later.timelines[id]),
        taken_out(before, later, id, t, key, action),
        lanes_of(before.timelines[id], t).contains_key(key),
    ensures
        holds_rest(
            later.timelines[id],
            t,
            key.field,
            owner_of(before.timelines[id], key),
            others(lanes_of(before.timelines[id], t)[key], action),
        ),
{
    let (a, b) = (before.timelines[id], later.timelines[id]);
    let subject = owner_of(a, key);
    let rest = others(lanes_of(a, t)[key], action);
    let lanes = lanes_of(b, t);
    assert(a.tracks[t].lanes().contains_key(key));
    neat_clip(a, key, a.tracks[t].lanes()[key], 0);
    assert forall|other: ActionKey|
        #![trigger lane(lanes, other)]
        other.field == key.field && other.subject_id.type_id == subject.type_id && is_uid_for(
            b.actions.known,
            subject,
            other.subject_id.uid,
        ) implies lane(lanes, other) == rest by {
        if rest.len() > 0 {
            assert(lanes.contains_key(key));
            assert(b.tracks[t].lanes().contains_key(key));
            neat_clip(b, key, b.tracks[t].lanes()[key], 0);
            assert(owner_of(b, key) == subject);
            key_is_of_owner(b, subject, other, key);
        } else {
            if lanes.contains_key(other) {
                assert(b.tracks[t].lanes().contains_key(other));
                neat_clip(b, other, b.tracks[t].lanes()[other], 0);
                assert(owner_of(b, other) == subject);
                assert(owner_of(a, other) == subject);
                assert(slot_of(other) == slot_of(key));
            }
            assert(rest =~= Seq::empty());
        }
    }
}

/// A lane that a removal left alone shows what it showed.
proof fn left_lane_shows(
    before: StudioModel,
    later: StudioModel,
    after: StudioModel,
    id: TimelineId,
    t: int,
    key: ActionKey,
    action: ActionId,
    k: ActionKey,
    clips: Seq<ActionClip>,
)
    requires
        taken_out(before, later, id, t, key, action),
        lane_neat(later.timelines[id], k, clips),
        forall|old: ActionClip|
            later.timelines[id].actions.has(old.id) ==> #[trigger] shown_clip(after, id, old)
                == shown_clip(later, id, old),
    ensures
        shown_lane(after, id, clips) == shown_lane(before, id, clips),
{
    assert forall|j: int| 0 <= j < clips.len() implies shown_lane(after, id, clips)[j]
        == shown_lane(before, id, clips)[j] by {
        neat_clip(later.timelines[id], k, clips, j);
        assert(shown_clip(after, id, clips[j]) == shown_clip(later, id, clips[j]));
        assert(shown_clip(later, id, clips[j]) == shown_clip(before, id, clips[j]));
    }
    assert(shown_lane(after, id, clips) =~= shown_lane(before, id, clips));
}

/// A timeline that took a clip back shows what it showed.
proof fn back_shows(
    before: StudioModel,
    later: StudioModel,
    after: StudioModel,
    id: TimelineId,
    t: int,
    key: ActionKey,
    i: int,
    action: ActionId,
)
    requires
        neat(before.timelines[id]),
        neat(later.timelines[id]),
        lanes_of(before.timelines[id], t).contains_key(key),
        takes_back(lanes_of(before.timelines[id], t)[key], i),
        taken_out(
            before,
            later,
            id,
            t,
            key,
            lanes_of(before.timelines[id], t)[key][i].id,
        ),
        taken_back(
            later.timelines[id],
            after.timelines[id],
            t,
            key.field,
            owner_of(before.timelines[id], key),
            lanes_of(before.timelines[id], t)[key],
            i,
            action,
        ),
        ({
            let clip = lanes_of(before.timelines[id], t)[key][i];
            shown_clip(after, id, ActionClip { id: action, ..clip }) == shown_clip(
                before,
                id,
                clip,
            )
        }),
        forall|old: ActionClip|
            later.timelines[id].actions.has(old.id) ==> #[trigger] shown_clip(after, id, old)
                == shown_clip(later, id, old),
    ensures
        shows_alike(before, id, after, id),
{
    let (a, b, c) = (before.timelines[id], later.timelines[id], after.timelines[id]);
    let clips = lanes_of(a, t)[key];
    let removed = clips[i].id;
    let subject = owner_of(a, key);
    let own = c.actions.actions[action].key;
    let back = ActionClip { id: action, ..clips[i] };
    let whole = clips.update(i, back);
    let rest = others(clips, removed);
    rest_is_held(before, later, id, t, key, removed);
    owners_stay(b, c, subject, own.subject_id.uid);
    assert(owner_of(c, own) == subject);
    assert(a.tracks[t].lanes().contains_key(key));
    neat_clip(a, key, clips, 0);
    assert(lane(lanes_of(b, t), own) == rest);
    assert(shown_lane(after, id, whole) =~= shown_lane(before, id, clips)) by {
        assert forall|j: int| 0 <= j < clips.len() implies shown_lane(after, id, whole)[j]
            == shown_lane(before, id, clips)[j] by {
            if j != i {
                neat_clip(a, key, clips, j);
                assert(clips[j].id != removed);
                assert(b.actions.has(clips[j].id));
                assert(shown_clip(after, id, clips[j]) == shown_clip(later, id, clips[j]));
                assert(shown_clip(later, id, clips[j]) == shown_clip(before, id, clips[j]));
            }
        }
    }
    // The lane that the clip came back to is not one of another key.
    assert forall|k: ActionKey| k != key && #[trigger] lanes_of(b, t).contains_key(
        k,
    ) implies k != own by {
        if k == own {
            assert(b.tracks[t].lanes().contains_key(k));
            neat_clip(b, k, b.tracks[t].lanes()[k], 0);
            assert(owner_of(b, k) == subject);
            assert(owner_of(a, k) == subject);
            assert(slot_of(k) == slot_of(key));
        }
    }
    assert(lanes_of(b, t).contains_key(key) ==> own == key) by {
        if lanes_of(b, t).contains_key(key) {
            assert(b.tracks[t].lanes().contains_key(key));
            neat_clip(b, key, b.tracks[t].lanes()[key], 0);
            key_is_of_owner(b, subject, own, key);
        }
    }
    assert(lanes_shown_in(before, id, after, id)) by {
        assert forall|n: int, k: ActionKey|
            0 <= n < a.tracks.len() && #[trigger] a.tracks[n].lanes().contains_key(
                k,
            ) implies lane_shown_in(
            after,
            id,
            n,
            owner_of(a, k),
            k.field,
            shown_lane(before, id, a.tracks[n].lanes()[k]),
        ) by {
            if n == t && k == key {
                assert(lanes_of(c, t).contains_key(own));
                assert(c.tracks[t].lanes().contains_key(own));
            } else {
                assert(n != t ==> lanes_of(b, n) == lanes_of(a, n));
                assert(n != t ==> lanes_of(c, n) == lanes_of(b, n));
                assert(lanes_of(b, n).contains_key(k));
                assert(b.tracks[n].lanes().contains_key(k));
                let held = b.tracks[n].lanes()[k];
                assert(held == a.tracks[n].lanes()[k]);
                neat_clip(b, k, held, 0);
                left_lane_shows(before, later, after, id, t, key, removed, k, held);
                assert(lanes_of(c, n).contains_key(k));
                assert(c.tracks[n].lanes().contains_key(k));
                assert(owner_of(c, k) == owner_of(b, k));
            }
        }
    }
    assert(lanes_shown_in(after, id, before, id)) by {
        assert forall|n: int, k: ActionKey|
            0 <= n < c.tracks.len() && #[trigger] c.tracks[n].lanes().contains_key(
                k,
            ) implies lane_shown_in(
            before,
            id,
            n,
            owner_of(c, k),
            k.field,
            shown_lane(after, id, c.tracks[n].lanes()[k]),
        ) by {
            assert(lanes_of(c, n).contains_key(k));
            if n == t && k == own {
                assert(a.tracks[t].lanes().contains_key(key));
            } else {
                assert(n != t ==> lanes_of(c, n) == lanes_of(b, n));
                assert(n != t ==> lanes_of(b, n) == lanes_of(a, n));
                assert(lanes_of(b, n).contains_key(k));
                assert(b.tracks[n].lanes().contains_key(k));
                let held = b.tracks[n].lanes()[k];
                neat_clip(b, k, held, 0);
                left_lane_shows(before, later, after, id, t, key, removed, k, held);
                assert(n == t ==> k != key);
                assert(lanes_of(a, n).contains_key(k));
                assert(a.tracks[n].lanes().contains_key(k));
                assert(a.tracks[n].lanes()[k] == held);
                assert(owner_of(c, k) == owner_of(b, k));
            }
        }
    }
}

/// A lane in order can take its clips back.
pub proof fn ordered_lane_takes_back(
    model: TimelineModel,
    key: ActionKey,
    clips: Seq<ActionClip>,
    i: int,
)
    requires
        lane_in_order(model, key, clips),
        0 <= i < clips.len(),
    ensures
        takes_back(clips, i),
{
    reveal(lane_in_order);
    assert forall|j: int| 0 <= j < clips.len() && j != i implies (#[trigger] clips[j]).id
        != clips[i].id by {
        if j < i {
            assert(clips[j].id != clips[i].id);
        } else {
            assert(clips[i].id != clips[j].id);
        }
    }
}

/// A clip that is placed where one was removed is taken back.
pub proof fn placing_takes_back(
    id: TimelineId,
    at: &Placement,
    key: RemoteFieldKey,
    target: InsertTarget,
    before: StudioModel,
    later: StudioModel,
    after: StudioModel,
    result: Applied,
    t: int,
    own: ActionKey,
    i: int,
) -> (action: ActionId)
    requires
        neat(before.timelines[id]),
        neat(later.timelines[id]),
        lanes_of(before.timelines[id], t).contains_key(own),
        takes_back(lanes_of(before.timelines[id], t)[own], i),
        before.timelines[id].actions.actions[lanes_of(
            before.timelines[id],
            t,
        )[own][i].id].key == own,
        taken_out(
            before,
            later,
            id,
            t,
            own,
            lanes_of(before.timelines[id], t)[own][i].id,
        ),
        is_planned(
            id,
            *at,
            key,
            target,
            shown_at(before, id, t, lanes_of(before.timelines[id], t)[own][i]),
            later,
            after,
            result,
        ),
    ensures
        result is Ok,
        taken_back(
            later.timelines[id],
            after.timelines[id],
            t,
            own.field,
            owner_of(before.timelines[id], own),
            lanes_of(before.timelines[id], t)[own],
            i,
            action,
        ),
        record_is(
            after.timelines[id],
            action,
            target,
            before.timelines[id].actions.actions[lanes_of(
                before.timelines[id],
                t,
            )[own][i].id].ease,
            at.enabled == Some(false),
        ),
        counted_in(
            later.timelines[id],
            after.timelines[id],
            later.registry.remote@,
            key.pipeline,
            action,
        ),
        ({
            let clip = lanes_of(before.timelines[id], t)[own][i];
            shown_clip(after, id, ActionClip { id: action, ..clip }) == shown_clip(
                before,
                id,
                clip,
            )
        }),
        forall|old: ActionClip|
            later.timelines[id].actions.has(old.id) ==> #[trigger] shown_clip(after, id, old)
                == shown_clip(later, id, old),
{
    let (a, b) = (before.timelines[id], later.timelines[id]);
    let clips = lanes_of(a, t)[own];
    let one = shown_at(before, id, t, clips[i]);
    let remote = later.registry.remote@;
    let (c, placed) = choose|c: TimelineModel, placed: Result<ActionId, RemoteEditError>|
        {
            &&& #[trigger] timeline_placed(
                b,
                c,
                remote,
                *at,
                key,
                one.subject,
                target,
                one.clip.ease,
                true,
                placed,
            )
            &&& match placed {
                Err(error) => {
                    &&& result == Err::<(OpResult, EditOp), Fault>(Fault::Edit(error))
                    &&& after == later.with_timeline(id, c)
                },
                Ok(action) => {
                    &&& result is Ok
                    &&& after == insert_recorded(
                        later.with_timeline(id, c),
                        id,
                        action.bits,
                        *at,
                    )
                },
            }
        };
    rest_is_held(before, later, id, t, own, clips[i].id);
    timeline_takes_back(
        b,
        c,
        remote,
        at,
        key,
        one.subject,
        target,
        one.clip.ease,
        clips,
        i,
        placed,
    );
    let action = placed->Ok_0;
    labels_stay(later, c, after, id, action, at);
    assert forall|old: ActionClip| b.actions.has(old.id) implies #[trigger] shown_clip(
        after,
        id,
        old,
    ) == shown_clip(later, id, old) by {
        assert(old.id.bits == old.id.bits);
        assert(c.actions.actions[old.id] == b.actions.actions[old.id]);
    }
    action
}

/// A clip that was placed where one was removed shows as that one.
proof fn placing_brings_back(
    id: TimelineId,
    at: &Placement,
    key: RemoteFieldKey,
    target: InsertTarget,
    before: StudioModel,
    later: StudioModel,
    after: StudioModel,
    result: Applied,
    t: int,
    own: ActionKey,
    i: int,
)
    requires
        neat(before.timelines[id]),
        neat(later.timelines[id]),
        lanes_of(before.timelines[id], t).contains_key(own),
        takes_back(lanes_of(before.timelines[id], t)[own], i),
        before.timelines[id].actions.actions[lanes_of(
            before.timelines[id],
            t,
        )[own][i].id].key == own,
        taken_out(
            before,
            later,
            id,
            t,
            own,
            lanes_of(before.timelines[id], t)[own][i].id,
        ),
        is_planned(
            id,
            *at,
            key,
            target,
            shown_at(before, id, t, lanes_of(before.timelines[id], t)[own][i]),
            later,
            after,
            result,
        ),
    ensures
        result is Ok,
        shows_alike(before, id, after, id),
{
    let action = placing_takes_back(
        id,
        at,
        key,
        target,
        before,
        later,
        after,
        result,
        t,
        own,
        i,
    );
    back_shows(before, later, after, id, t, own, i, action);
}

/// Inserting a clip again that was removed, with nothing but baking in between:
/// it is not refused, and then the timeline shows what it showed. The clip has
/// another id. This is for hosts that read what they wrote, and for clips that
/// can be restored.
pub proof fn removing_is_undone<H: RemoteHost>(
    host: &H,
    id: TimelineId,
    track: usize,
    action_id: u64,
    outcome: OpResult,
    inverse: EditOp,
    before: StudioModel,
    between: StudioModel,
    later: StudioModel,
    after: StudioModel,
    result: Applied,
)
    requires
        reads_back(host),
        restorable(before, id),
        in_order(before.timelines[id]),
        labels_owned(before, id),
        op_applied(
            host,
            id,
            EditOp::Remove { track, action_id },
            before,
            between,
            Ok((outcome, inverse)),
        ),
        inverse is Insert || inverse is InsertKeyframes,
        clips_alike(id, between, later),
        later.catalog == between.catalog,
        later.registry == between.registry,
        neat(later.timelines[id]),
        op_applied(host, id, inverse, later, after, result),
    ensures
        result is Ok,
        shows_alike(before, id, after, id),
{
    let action = ActionId { bits: action_id };
    let t = track as int;
    let (snapped, snapshot) = choose|snapped: StudioModel, snapshot: Result<EditOp, Fault>|
        #[trigger]
        remove_stepped(
            host,
            id,
            track,
            action_id,
            before,
            snapped,
            snapshot,
            between,
            Ok((outcome, inverse)),
        );
    assert(snapshot == Ok::<EditOp, Fault>(inverse));
    removing_takes_out(
        host,
        id,
        track,
        action_id,
        before,
        snapped,
        between,
        outcome,
        inverse,
        later,
    );
    let (a, s) = (before.timelines[id], snapped.timelines[id]);
    assert(is_snapshot(host, snapped, id, track, action, Ok(inverse)));
    clip_on_is_of_a_lane(s, track, action);
    let clip = clip_on(s, track, action)->0;
    let lanes = a.tracks[t].lanes();
    let own = choose|own: ActionKey| #[trigger]
        lanes.contains_key(own) && lanes[own].contains(clip);
    lane_holds(a, t, own, clip);
    assert(clip == (ActionClip { id: action, ..clip }));
    snapshots_describe(host, id, before, snapped, (t, clip), inverse);
    let one = shown_at(before, id, t, clip);
    let (key, target) = described_is_planned(host, id, inverse, one, later, after, result);
    let at = placement_of(inverse)->0;
    let clips = lanes[own];
    let i = choose|i: int| 0 <= i < clips.len() && clips[i] == clip;
    assert(lane_in_order(a, own, clips));
    ordered_lane_takes_back(a, own, clips, i);
    placing_brings_back(id, &at, key, target, before, later, after, result, t, own, i);
}

} // verus!
