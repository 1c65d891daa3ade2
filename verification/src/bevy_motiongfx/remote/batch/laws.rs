//! What the inverse of an edit brings back.
use crate::action::subjects::{claiming_keeps_known, known_differ, used_are_known};
use crate::action::world::releasing_undoes_claiming;
use crate::action::{ActionClip, ActionId, ActionKey, ActionRecord, Ease, InterpFn, UId, Value};
use crate::bevy_motiongfx::manager::TimelineId;
use crate::bevy_motiongfx::remote::batch::apply::{
    baking_is_content, edits_change_content_only, only_content, only_content_twice, op_applied,
};
use crate::bevy_motiongfx::remote::batch::insert::{
    clip_placed, insert_recorded, insert_stepped, is_inserted, is_placed, keyframes_stepped, muted,
    room_taken, start_of, timeline_placed, Applied, InsertTarget,
};
use crate::bevy_motiongfx::remote::batch::op::{EditOp, OpResult, Placement};
use crate::bevy_motiongfx::remote::batch::snapshot::{move_applied, remove_stepped};
use crate::bevy_motiongfx::remote::batch::walk::{clip_on, clip_on_is_of_a_lane};
use crate::bevy_motiongfx::remote::catalog::{CatalogModel, FieldName};
use crate::bevy_motiongfx::remote::fault::Fault;
use crate::bevy_motiongfx::remote::host::RemoteHost;
use crate::bevy_motiongfx::remote::json::Json;
use crate::bevy_motiongfx::remote::studio::{baked, StudioModel};
use crate::pipeline::PipelineKey;
use crate::remote::{action_added, RemoteEditError, RemoteFieldKey, RemoteKeyframe};
use crate::seqs::stable_sort_is_sound;
use crate::sequence::non_overlapping;
use crate::subject::{Subject, TypeTag, BEVY_WORLD_TAG};
use crate::time::Ticks;
use crate::timeline::edit::{
    action_removed, action_rescheduled, bumped, clip_appended, removable, track_replaced,
};
use crate::timeline::laws::counting_is_undone;
use crate::timeline::TimelineModel;
use crate::track::laws::{moving_back_restores, removing_undoes_appending, starts_ascend};
use crate::track::{
    append_start, first_overlap, has_clip, reschedule_outcome, rescheduled, retimed, Lanes,
};
use std::sync::Arc;
use vstd::prelude::*;

verus! {

/// Whether two records describe the same action: all is equal but the baked
/// segment, which the later one has if the earlier one has, and keyframes have
/// equal points.
pub open spec fn same_action(a: ActionRecord, b: ActionRecord) -> bool {
    &&& a == (ActionRecord { keyframes: a.keyframes, segment: a.segment, ..b })
    &&& a.segment is Some ==> b.segment is Some
    &&& match (a.keyframes, b.keyframes) {
        (Some(x), Some(y)) => x@ == y@,
        (None, None) => true,
        _ => false,
    }
}

/// Whether two timelines have the same clips of the same actions: the same
/// tracks with the same lanes, and under each id the same action.
pub open spec fn same_clips(a: TimelineModel, b: TimelineModel) -> bool {
    &&& a.tracks.len() == b.tracks.len()
    &&& forall|i: int|
        0 <= i < a.tracks.len() ==> (#[trigger] a.tracks[i]).lanes() == b.tracks[i].lanes()
    &&& a.actions.actions.dom() == b.actions.actions.dom()
    &&& forall|id: ActionId| #[trigger]
        a.actions.has(id) ==> same_action(a.actions.actions[id], b.actions.actions[id])
    &&& a.actions.subjects == b.actions.subjects
    &&& known_stays(a.actions.known, b.actions.known)
    &&& a.counts == b.counts
}

/// Whether the subjects that were known still are, by the same ids, and none by
/// two where none was.
pub open spec fn known_stays(a: Map<(TypeTag, UId), u64>, b: Map<(TypeTag, UId), u64>) -> bool {
    &&& forall|slot: (TypeTag, UId)| #[trigger]
        a.contains_key(slot) ==> b.contains_key(slot) && b[slot] == a[slot]
    &&& known_differ(a) ==> known_differ(b)
}

/// Whether a timeline has the same clips in two studios, with the same labels,
/// colours and asset references.
pub open spec fn clips_alike(id: TimelineId, a: StudioModel, b: StudioModel) -> bool {
    &&& a.timelines.contains_key(id)
    &&& b.timelines.contains_key(id)
    &&& same_clips(a.timelines[id], b.timelines[id])
    &&& a.edits_of(id).clip_meta == b.edits_of(id).clip_meta
    &&& a.edits_of(id).asset_refs == b.edits_of(id).asset_refs
}

/// Whether a studio is as it was, but for what is baked: the timeline has the
/// same clips, and nothing else changed, such as versions, journals and events.
pub open spec fn brought_back(id: TimelineId, before: StudioModel, after: StudioModel) -> bool {
    only_content(id, before, after) && clips_alike(id, before, after)
}

/// Whether the lanes of a track are in order: each holds clips of its own key
/// alone, each clip once, one behind the other and with a start of its own.
pub open spec fn lanes_in_order(model: TimelineModel, lanes: Lanes) -> bool {
    forall|key: ActionKey| #[trigger] lanes.contains_key(key) ==> lane_in_order(model, key, lanes[key])
}

/// Whether a lane is in order.
#[verifier::opaque]
pub open spec fn lane_in_order(model: TimelineModel, key: ActionKey, clips: Seq<ActionClip>) -> bool {
    &&& clips.len() > 0
    &&& non_overlapping(clips)
    &&& starts_ascend(clips)
    &&& forall|i: int|
        0 <= i < clips.len() ==> {
            &&& (#[trigger] clips[i]).start >= 0
            &&& clips[i].duration >= 0
            &&& model.actions.has(clips[i].id)
            &&& model.actions.actions[clips[i].id].key == key
        }
    &&& forall|i: int, j: int|
        0 <= i < j < clips.len() ==> (#[trigger] clips[i]).id != (#[trigger] clips[j]).id
}

/// Whether a timeline is in order: its lanes are, its subjects are known by their
/// bits, none of them by two ids, and no count is at its limit.
pub open spec fn in_order(model: TimelineModel) -> bool {
    &&& tracks_laid_out(model)
    &&& forall|i: int|
        0 <= i < model.tracks.len() ==> lanes_in_order(model, (#[trigger] model.tracks[i]).lanes())
    &&& forall|key: PipelineKey| #[trigger]
        model.counts.contains_key(key) ==> 1 <= model.counts[key] < u32::MAX
    &&& used_are_known(model.actions.subjects, model.actions.known)
    &&& known_differ(model.actions.known)
    &&& forall|slot: (TypeTag, UId)| #[trigger]
        model.actions.subjects.contains_key(slot) ==> 1 <= model.actions.subjects[slot].instances
            < u32::MAX
}

/// Whether the tracks of a timeline are laid out, as all tracks are.
pub open spec fn tracks_laid_out(model: TimelineModel) -> bool {
    forall|i: int| 0 <= i < model.tracks.len() ==> (#[trigger] model.tracks[i]).laid_out()
}

/// What is the same as something that is the same as a third is the same as
/// that.
pub proof fn alike_twice(id: TimelineId, a: StudioModel, b: StudioModel, c: StudioModel)
    requires
        clips_alike(id, a, b),
        clips_alike(id, b, c),
    ensures
        clips_alike(id, a, c),
{
    let (x, y, z) = (a.timelines[id], b.timelines[id], c.timelines[id]);
    assert forall|i: int| 0 <= i < x.tracks.len() implies (#[trigger] x.tracks[i]).lanes()
        == z.tracks[i].lanes() by {
        assert(x.tracks[i].lanes() == y.tracks[i].lanes());
        assert(y.tracks[i].lanes() == z.tracks[i].lanes());
    }
    assert forall|action: ActionId| #[trigger] x.actions.has(action) implies same_action(
        x.actions.actions[action],
        z.actions.actions[action],
    ) by {
        assert(x.actions.actions.dom().contains(action));
        assert(y.actions.has(action));
    }
}

/// Baking a timeline leaves its clips as they are.
pub proof fn baking_keeps_clips<H: RemoteHost>(
    host: &H,
    id: TimelineId,
    before: StudioModel,
    after: StudioModel,
)
    requires
        baked(host, id, before, after),
        before.timelines.contains_key(id),
    ensures
        brought_back(id, before, after),
{
    baking_is_content(host, id, before, after);
    let (a, b) = (before.timelines[id], after.timelines[id]);
    assert(a.actions.actions.dom() =~= b.actions.actions.dom());
    assert(after.edits_of(id) == before.edits_of(id));
    assert forall|action: ActionId| #[trigger] a.actions.has(action) implies same_action(
        a.actions.actions[action],
        b.actions.actions[action],
    ) by {
        assert(b.actions.actions.contains_key(action));
    }
}

/// A clip with a new time is in its lane still, and no other clip gets there.
pub proof fn rescheduling_keeps_ids(clips: Seq<ActionClip>, id: ActionId, start: Ticks, duration: Option<Ticks>)
    ensures
        forall|x: ActionId|
            has_clip(clips, x) ==> #[trigger] has_clip(rescheduled(clips, id, start, duration), x),
{
    let change = |clip: ActionClip|
        if clip.id == id {
            retimed(clip, start, duration)
        } else {
            clip
        };
    let moved = clips.map_values(change);
    let sorted = rescheduled(clips, id, start, duration);
    stable_sort_is_sound(moved, |clip: ActionClip| clip.start as int);
    assert forall|x: ActionId| has_clip(clips, x) implies #[trigger] has_clip(sorted, x) by {
        let i = choose|i: int| 0 <= i < clips.len() && (#[trigger] clips[i]).id == x;
        assert(moved[i].id == x);
        assert(moved.contains(moved[i]));
        assert(sorted.contains(moved[i]));
        let j = choose|j: int| 0 <= j < sorted.len() && sorted[j] == moved[i];
        assert(sorted[j].id == x);
    }
}

/// The clips of a lane in order are of its key.
proof fn lane_is_of_key(model: TimelineModel, key: ActionKey, clips: Seq<ActionClip>, id: ActionId)
    requires
        lane_in_order(model, key, clips),
        has_clip(clips, id),
    ensures
        model.actions.has(id),
        model.actions.actions[id].key == key,
{
    reveal(lane_in_order);
}

/// A clip that was moved inside a lane in order can be moved back.
proof fn lane_is_moved_back(
    model: TimelineModel,
    key: ActionKey,
    clips: Seq<ActionClip>,
    clip: ActionClip,
    start: Ticks,
    duration: Option<Ticks>,
)
    requires
        lane_in_order(model, key, clips),
        clips.contains(clip),
    ensures
        has_clip(clips, clip.id),
        has_clip(rescheduled(clips, clip.id, start, duration), clip.id),
        rescheduled(
            rescheduled(clips, clip.id, start, duration),
            clip.id,
            clip.start,
            Some(clip.duration),
        ) == clips,
        forall|at: int| !#[trigger] first_overlap(clips, at),
{
    reveal(lane_in_order);
    let at = choose|at: int| 0 <= at < clips.len() && clips[at] == clip;
    assert(clips[at].id == clip.id);
    rescheduling_keeps_ids(clips, clip.id, start, duration);
    moving_back_restores(clips, at, start, duration);
}

/// The lane that a clip moves inside of is the one of its key.
proof fn moves_inside(
    model: TimelineModel,
    lanes: Lanes,
    there: Lanes,
    key: ActionKey,
    clip: ActionClip,
    start: Ticks,
    duration: Option<Ticks>,
)
    requires
        lanes_in_order(model, lanes),
        lanes.contains_key(key),
        lanes[key].contains(clip),
        reschedule_outcome(lanes, there, clip.id, start, duration, Ok(())),
    ensures
        there == lanes.insert(key, rescheduled(lanes[key], clip.id, start, duration)),
        there.contains_key(key),
        has_clip(there[key], clip.id),
        forall|other: ActionKey| #[trigger]
            there.contains_key(other) && has_clip(there[other], clip.id) ==> other == key,
{
    assert(lane_in_order(model, key, lanes[key]));
    lane_is_moved_back(model, key, lanes[key], clip, start, duration);
    lane_is_of_key(model, key, lanes[key], clip.id);
    let moved = choose|moved: ActionKey| #[trigger]
        lanes.contains_key(moved) && has_clip(lanes[moved], clip.id) && non_overlapping(
            rescheduled(lanes[moved], clip.id, start, duration),
        ) && there == lanes.insert(moved, rescheduled(lanes[moved], clip.id, start, duration));
    lane_is_of_key(model, moved, lanes[moved], clip.id);
    assert forall|other: ActionKey| #[trigger]
        there.contains_key(other) && has_clip(there[other], clip.id) implies other == key by {
        if other != key {
            assert(lanes.contains_key(other));
            lane_is_of_key(model, other, lanes[other], clip.id);
        }
    }
}

/// A clip that was moved can be moved back, which leaves the lanes as they
/// were.
proof fn lanes_are_moved_back(
    model: TimelineModel,
    lanes: Lanes,
    there: Lanes,
    back: Lanes,
    key: ActionKey,
    clip: ActionClip,
    start: Ticks,
    duration: Option<Ticks>,
    result: Result<(), RemoteEditError>,
)
    requires
        lanes_in_order(model, lanes),
        lanes.contains_key(key),
        lanes[key].contains(clip),
        reschedule_outcome(lanes, there, clip.id, start, duration, Ok(())),
        reschedule_outcome(there, back, clip.id, clip.start, Some(clip.duration), result),
    ensures
        result is Ok,
        back == lanes,
{
    moves_inside(model, lanes, there, key, clip, start, duration);
    assert(lane_in_order(model, key, lanes[key]));
    lane_is_moved_back(model, key, lanes[key], clip, start, duration);
    match result {
        Ok(()) => {
            let moved = choose|moved: ActionKey| #[trigger]
                there.contains_key(moved) && has_clip(there[moved], clip.id) && non_overlapping(
                    rescheduled(there[moved], clip.id, clip.start, Some(clip.duration)),
                ) && back == there.insert(
                    moved,
                    rescheduled(there[moved], clip.id, clip.start, Some(clip.duration)),
                );
            assert(moved == key);
            assert(back =~= lanes);
        },
        Err(RemoteEditError::Overlap { conflict }) => {
            let (moved, at) = choose|moved: ActionKey, at: int| #[trigger]
                there.contains_key(moved) && has_clip(there[moved], clip.id)
                    && #[trigger] first_overlap(
                    rescheduled(there[moved], clip.id, clip.start, Some(clip.duration)),
                    at,
                );
            assert(moved == key);
            assert(false);
        },
        Err(RemoteEditError::NotFound) => {
            assert(false);
        },
        Err(_) => {},
    }
}

proof fn move_goes_back(
    id: TimelineId,
    track: usize,
    action_id: u64,
    start_at: Ticks,
    duration: Option<Ticks>,
    before: StudioModel,
    between: StudioModel,
    later: StudioModel,
    after: StudioModel,
    back: (Ticks, Option<Ticks>),
    result: Applied,
)
    requires
        in_order(before.timelines[id]),
        before.timelines.contains_key(id),
        clip_on(before.timelines[id], track, ActionId { bits: action_id }) is Some,
        back == {
            let clip = clip_on(before.timelines[id], track, ActionId { bits: action_id })->0;
            (clip.start, Some(clip.duration))
        },
        action_rescheduled(
            before.timelines[id],
            between.timelines[id],
            track as int,
            ActionId { bits: action_id },
            start_at,
            duration,
        ),
        between == before.with_timeline(id, between.timelines[id]),
        clips_alike(id, between, later),
        tracks_laid_out(later.timelines[id]),
        move_applied(id, track, action_id, back.0, back.1, later, after, result),
    ensures
        result is Ok,
        clips_alike(id, before, after),
{
    let action = ActionId { bits: action_id };
    let (m0, m1, m2, m3) = (
        before.timelines[id],
        between.timelines[id],
        later.timelines[id],
        after.timelines[id],
    );
    let t = track as int;
    let lanes = m0.tracks[t].lanes();
    let there = m1.tracks[t].lanes();
    let clip = clip_on(m0, track, action)->0;
    clip_on_is_of_a_lane(m0, track, action);
    assert(lanes_in_order(m0, lanes));
    let key = choose|key: ActionKey| #[trigger]
        lanes.contains_key(key) && lanes[key].contains(clip);
    moves_inside(m0, lanes, there, key, clip, start_at, duration);
    assert(m1.tracks.len() == m0.tracks.len());
    assert(m1.tracks[t].lanes() == m2.tracks[t].lanes());
    clip_on_is_of_a_lane(m2, track, action);
    match result {
        Err(fault) => {
            lanes_are_moved_back(
                m0,
                lanes,
                there,
                there,
                key,
                clip,
                start_at,
                duration,
                Err(fault->Edit_0),
            );
        },
        Ok(_) => {
            lanes_are_moved_back(
                m0,
                lanes,
                there,
                m3.tracks[t].lanes(),
                key,
                clip,
                start_at,
                duration,
                Ok(()),
            );
        },
    }
    assert forall|i: int| 0 <= i < m0.tracks.len() implies (#[trigger] m0.tracks[i]).lanes()
        == m3.tracks[i].lanes() by {
        if i != t {
            assert(m1.tracks[i] == m0.tracks[i]);
            assert(m1.tracks[i].lanes() == m2.tracks[i].lanes());
            assert(m3.tracks[i] == m2.tracks[i]);
        }
    }
    assert forall|other: ActionId| #[trigger] m0.actions.has(other) implies same_action(
        m0.actions.actions[other],
        m3.actions.actions[other],
    ) by {
        assert(m1.actions.has(other));
    }
}

/// Moving a clip back after it was moved, with nothing but baking in between:
/// the clips are as they were.
pub proof fn moving_is_undone<H: RemoteHost>(
    host: &H,
    id: TimelineId,
    op: EditOp,
    outcome: OpResult,
    inverse: EditOp,
    before: StudioModel,
    between: StudioModel,
    later: StudioModel,
    after: StudioModel,
    result: Applied,
)
    requires
        op is Move,
        in_order(before.timelines[id]),
        op_applied(host, id, op, before, between, Ok((outcome, inverse))),
        brought_back(id, between, later),
        tracks_laid_out(later.timelines[id]),
        op_applied(host, id, inverse, later, after, result),
    ensures
        result is Ok,
        brought_back(id, before, after),
{
    edits_change_content_only(host, id, op, before, between, Ok((outcome, inverse)));
    edits_change_content_only(host, id, inverse, later, after, result);
    only_content_twice(id, before, between, later);
    only_content_twice(id, before, later, after);
    match op {
        EditOp::Move { track, action_id, start_at, duration } => {
            let clip = clip_on(before.timelines[id], track, ActionId { bits: action_id })->0;
            move_goes_back(
                id,
                track,
                action_id,
                start_at,
                duration,
                before,
                between,
                later,
                after,
                (clip.start, Some(clip.duration)),
                result,
            );
        },
        _ => {},
    }
}

/// Whether the fields of a catalog go through the pipelines of their types.
pub open spec fn catalog_fits(catalog: CatalogModel) -> bool {
    forall|name: FieldName| #[trigger]
        catalog.entries.contains_key(name) ==> fits(catalog.entries[name].key())
}

/// Whether a field goes through the pipeline of its types.
pub open spec fn fits(key: RemoteFieldKey) -> bool {
    &&& key.pipeline.world_id == BEVY_WORLD_TAG
    &&& key.pipeline.source_id == key.field.source_id
    &&& key.pipeline.target_id == key.field.target_id
}

/// Whether a timeline of a studio is tidy: it is in order, and labels, colours
/// and asset references are those of its actions.
pub open spec fn tidy(id: TimelineId, studio: StudioModel) -> bool {
    let actions = studio.timelines[id].actions;
    &&& studio.timelines.contains_key(id)
    &&& in_order(studio.timelines[id])
    &&& catalog_fits(studio.catalog)
    &&& forall|action: u64| #[trigger]
        studio.edits_of(id).clip_meta.contains_key(action) ==> actions.has(
            ActionId { bits: action },
        ) && !studio.edits_of(id).clip_meta[action].is_empty()
    &&& forall|action: u64| #[trigger]
        studio.edits_of(id).asset_refs.contains_key(action) ==> actions.has(
            ActionId { bits: action },
        )
}

/// What a timeline has once a clip was put behind the others of its key: one
/// more action, and its clip.
proof fn placing_adds(
    m0: TimelineModel,
    m1: TimelineModel,
    remote: Map<PipelineKey, InterpFn>,
    at: Placement,
    key: RemoteFieldKey,
    subject: Subject,
    target: InsertTarget,
    ease: Option<Ease>,
    action: ActionId,
) -> (inserted: TimelineModel)
    requires
        room_taken(m0, m1, remote, at, key, subject, target, ease, false, Ok(action)),
    ensures
        at.track < m0.tracks.len(),
        subject.type_id == key.pipeline.subject_id,
        m1 == muted(inserted, action, at.enabled),
        action_added(m0.actions, inserted.actions, action, subject, key.field),
        inserted.counts == bumped(m0.counts, key.pipeline),
        track_replaced(m0, inserted, at.track as int),
        clip_appended(m0, inserted, at.track as int, action, at.duration, start_of(at)),
{
    let (inserted, moved, id) = choose|inserted: TimelineModel, moved: TimelineModel, id: ActionId|
        {
            &&& is_inserted(m0, inserted, remote, at, key, subject, target, ease, id)
            &&& #[trigger] is_placed(inserted, moved, m1, at, false, id, Ok(action))
        };
    inserted
}

/// A clip that was put on a timeline can be taken off.
proof fn placed_is_removable(
    m0: TimelineModel,
    inserted: TimelineModel,
    m1: TimelineModel,
    m2: TimelineModel,
    at: Placement,
    key: RemoteFieldKey,
    subject: Subject,
    action: ActionId,
)
    requires
        at.track < m0.tracks.len(),
        m1 == muted(inserted, action, at.enabled),
        action_added(m0.actions, inserted.actions, action, subject, key.field),
        track_replaced(m0, inserted, at.track as int),
        clip_appended(m0, inserted, at.track as int, action, at.duration, start_of(at)),
        same_clips(m1, m2),
        tracks_laid_out(m2),
    ensures
        m2.actions.has(action),
        m2.actions.actions[action].key == inserted.actions.actions[action].key,
        removable(m2, at.track, action),
        clip_on(m2, at.track, action) is Some,
{
    let t = at.track as int;
    let akey = inserted.actions.actions[action].key;
    assert(m1.actions.has(action));
    assert(m1.actions.actions.dom().contains(action));
    assert(m2.actions.actions.dom().contains(action));
    let lanes = m2.tracks[t].lanes();
    assert(m1.tracks[t].lanes() == lanes);
    assert(lanes == inserted.tracks[t].lanes());
    let clips = lanes[akey];
    assert(clips[clips.len() - 1].id == action);
    assert(lanes.contains_key(akey) && has_clip(clips, action));
    clip_on_is_of_a_lane(m2, at.track, action);
}

/// Taking a clip off a timeline that was put there leaves what was there.
proof fn timeline_is_unplaced(
    m0: TimelineModel,
    inserted: TimelineModel,
    m1: TimelineModel,
    m2: TimelineModel,
    m3: TimelineModel,
    at: Placement,
    key: RemoteFieldKey,
    subject: Subject,
    action: ActionId,
)
    requires
        in_order(m0),
        fits(key),
        at.track < m0.tracks.len(),
        subject.type_id == key.pipeline.subject_id,
        m1 == muted(inserted, action, at.enabled),
        action_added(m0.actions, inserted.actions, action, subject, key.field),
        inserted.counts == bumped(m0.counts, key.pipeline),
        track_replaced(m0, inserted, at.track as int),
        clip_appended(m0, inserted, at.track as int, action, at.duration, start_of(at)),
        same_clips(m1, m2),
        m2.actions.actions[action].key == inserted.actions.actions[action].key,
        action_removed(m2, m3, BEVY_WORLD_TAG, at.track as int, action),
    ensures
        same_clips(m0, m3),
{
    let t = at.track as int;
    let akey = inserted.actions.actions[action].key;
    let lanes = m0.tracks[t].lanes();
    assert(m1.tracks[t].lanes() == m2.tracks[t].lanes());
    assert(lanes_in_order(m0, lanes));
    if lanes.contains_key(akey) {
        assert(lane_in_order(m0, akey, lanes[akey]));
        reveal(lane_in_order);
        assert(!has_clip(lanes[akey], action));
    }
    let start = append_start(lanes, akey, start_of(at));
    removing_undoes_appending(
        lanes,
        akey,
        ActionClip { id: action, start, duration: at.duration },
        start_of(at),
    );
    assert(m3.tracks[t].lanes() == lanes);
    assert forall|i: int| 0 <= i < m0.tracks.len() implies (#[trigger] m0.tracks[i]).lanes()
        == m3.tracks[i].lanes() by {
        if i != t {
            assert(inserted.tracks[i] == m0.tracks[i]);
            assert(m1.tracks[i].lanes() == m2.tracks[i].lanes());
            assert(m3.tracks[i] == m2.tracks[i]);
        }
    }
    let slot = (akey.subject_id.type_id, akey.subject_id.uid);
    assert(slot == (subject.type_id, akey.subject_id.uid));
    claiming_keeps_known(m0.actions.subjects, m0.actions.known, subject, akey.subject_id.uid);
    if m0.actions.subjects.contains_key(slot) {
        assert(m0.actions.known.contains_key(slot));
    }
    assert(known_stays(m0.actions.known, m3.actions.known)) by {
        assert(m1.actions.known == m0.actions.known.insert(slot, subject.bits));
        assert forall|s: (TypeTag, UId)| #[trigger]
            m0.actions.known.contains_key(s) implies m3.actions.known.contains_key(s)
            && m3.actions.known[s] == m0.actions.known[s] by {
            assert(m1.actions.known.contains_key(s));
        }
    }
    releasing_undoes_claiming(m0.actions.subjects, subject, akey.subject_id.uid);
    assert(PipelineKey::of_action_key(BEVY_WORLD_TAG, akey) == key.pipeline);
    counting_is_undone(m0.counts, key.pipeline);
    assert(m3.actions.actions.dom() =~= m0.actions.actions.dom()) by {
        assert(m1.actions.actions.dom() =~= m0.actions.actions.dom().insert(action));
    }
    assert forall|other: ActionId| #[trigger] m0.actions.has(other) implies same_action(
        m0.actions.actions[other],
        m3.actions.actions[other],
    ) by {
        assert(m1.actions.has(other));
    }
}

/// Removing a clip again that was put on a timeline, with nothing but baking in
/// between.
proof fn placing_is_undone<H: RemoteHost>(
    host: &H,
    id: TimelineId,
    place: &Placement,
    key: RemoteFieldKey,
    subject: Subject,
    target: InsertTarget,
    ease: Option<Ease>,
    resolved: Option<Arc<Json>>,
    before: StudioModel,
    between: StudioModel,
    outcome: OpResult,
    inverse: EditOp,
    later: StudioModel,
    after: StudioModel,
    result: Applied,
)
    requires
        tidy(id, before),
        fits(key),
        clip_placed(
            id,
            *place,
            key,
            subject,
            target,
            ease,
            false,
            resolved,
            before,
            between,
            Ok((outcome, inverse)),
        ),
        clips_alike(id, between, later),
        tracks_laid_out(later.timelines[id]),
        op_applied(host, id, inverse, later, after, result),
    ensures
        result is Ok,
        clips_alike(id, before, after),
{
    let at = *place;
    let m0 = before.timelines[id];
    let m1 = between.timelines[id];
    let remote = before.registry.remote@;
    let (model, placed) = choose|model: TimelineModel, placed: Result<ActionId, RemoteEditError>|
        {
            &&& #[trigger] timeline_placed(
                m0,
                model,
                remote,
                at,
                key,
                subject,
                target,
                ease,
                false,
                placed,
            )
            &&& placed matches Ok(action) ==> {
                &&& inverse == (EditOp::Remove { track: at.track, action_id: action.bits })
                &&& between == insert_recorded(
                    before.with_timeline(id, model),
                    id,
                    action.bits,
                    at,
                )
            }
            &&& placed is Ok
        };
    let action = placed->Ok_0;
    assert(m1 == model);
    let inserted = placing_adds(m0, m1, remote, at, key, subject, target, ease, action);
    let (held, snapshot) = choose|held: StudioModel, snapshot: Result<EditOp, Fault>| #[trigger]
        remove_stepped(
            host,
            id,
            at.track,
            action.bits,
            later,
            held,
            snapshot,
            after,
            result,
        );
    baking_keeps_clips(host, id, later, held);
    alike_twice(id, between, later, held);
    let m2 = held.timelines[id];
    assert(m2.tracks == later.timelines[id].tracks);
    placed_is_removable(m0, inserted, m1, m2, at, key, subject, action);
    assert(action == (ActionId { bits: action.bits }));
    assert(snapshot is Ok);
    timeline_is_unplaced(
        m0,
        inserted,
        m1,
        m2,
        after.timelines[id],
        at,
        key,
        subject,
        action,
    );
    let (e0, e1) = (before.edits_of(id), held.edits_of(id));
    assert(!e0.clip_meta.contains_key(action.bits));
    assert(!e0.asset_refs.contains_key(action.bits));
    assert(e1.clip_meta.remove(action.bits) =~= e0.clip_meta);
    assert(e1.asset_refs.remove(action.bits) =~= e0.asset_refs);
}

/// Baking keeps a timeline tidy.
proof fn baking_keeps_tidy<H: RemoteHost>(
    host: &H,
    id: TimelineId,
    before: StudioModel,
    after: StudioModel,
)
    requires
        tidy(id, before),
        baked(host, id, before, after),
    ensures
        tidy(id, after),
{
    baking_keeps_clips(host, id, before, after);
    let (a, b) = (before.timelines[id], after.timelines[id]);
    assert(b.tracks == a.tracks);
    assert forall|action: ActionId| #[trigger] a.actions.has(action) implies b.actions.has(action)
        && b.actions.actions[action].key == a.actions.actions[action].key by {
        assert(same_action(a.actions.actions[action], b.actions.actions[action]));
        assert(a.actions.actions.dom().contains(action));
    }
    assert forall|i: int| 0 <= i < b.tracks.len() implies lanes_in_order(
        b,
        (#[trigger] b.tracks[i]).lanes(),
    ) by {
        assert(lanes_in_order(a, a.tracks[i].lanes()));
        assert forall|key: ActionKey| #[trigger] b.tracks[i].lanes().contains_key(key) implies lane_in_order(
            b,
            key,
            b.tracks[i].lanes()[key],
        ) by {
            assert(lane_in_order(a, key, a.tracks[i].lanes()[key]));
            reveal(lane_in_order);
        }
    }
}

/// Removing a clip again that was inserted, with nothing but baking in between:
/// the clips are as they were. This is for inserts as requests ask for them,
/// which bring no track with them.
pub proof fn inserting_is_undone<H: RemoteHost>(
    host: &H,
    id: TimelineId,
    op: EditOp,
    outcome: OpResult,
    inverse: EditOp,
    before: StudioModel,
    between: StudioModel,
    later: StudioModel,
    after: StudioModel,
    result: Applied,
)
    requires
        op matches EditOp::Insert { exact, .. } ==> !exact,
        op matches EditOp::InsertKeyframes { exact, .. } ==> !exact,
        op is Insert || op is InsertKeyframes,
        tidy(id, before),
        op_applied(host, id, op, before, between, Ok((outcome, inverse))),
        brought_back(id, between, later),
        tracks_laid_out(later.timelines[id]),
        op_applied(host, id, inverse, later, after, result),
    ensures
        result is Ok,
        brought_back(id, before, after),
{
    edits_change_content_only(host, id, op, before, between, Ok((outcome, inverse)));
    edits_change_content_only(host, id, inverse, later, after, result);
    only_content_twice(id, before, between, later);
    only_content_twice(id, before, later, after);
    match op {
        EditOp::Insert { at, to, to_relative, exact, .. } => {
            let (eased, settled, ready, planned) = choose|
                eased: Result<Option<Ease>, Fault>,
                settled: Result<
                    Option<Arc<Json>>,
                    Fault,
                >,
                ready: StudioModel,
                planned: Result<
                    (RemoteFieldKey, Subject, Value),
                    Fault,
                >,
            | #[trigger]
                insert_stepped(
                    host,
                    id,
                    *at,
                    *to,
                    to_relative,
                    exact,
                    before,
                    eased,
                    settled,
                    ready,
                    planned,
                    between,
                    Ok((outcome, inverse)),
                );
            if ready != before {
                baking_keeps_tidy(host, id, before, ready);
                baking_keeps_clips(host, id, before, ready);
            }
            let (key, subject, value) = planned->Ok_0;
            assert(fits(key)) by {
                assert(before.catalog.entries.contains_key((at.component@, at.field@)));
            }
            placing_is_undone(
                host,
                id,
                &*at,
                key,
                subject,
                InsertTarget::Constant(value),
                eased->Ok_0,
                settled->Ok_0,
                ready,
                between,
                outcome,
                inverse,
                later,
                after,
                result,
            );
            if ready != before {
                alike_twice(id, before, ready, after);
            }
        },
        EditOp::InsertKeyframes { at, keyframes, exact, .. } => {
            let (eased, planned) = choose|
                eased: Result<Option<Ease>, Fault>,
                planned: Result<
                    (
                        RemoteFieldKey,
                        Subject,
                        Seq<RemoteKeyframe>,
                    ),
                    Fault,
                >,
            | #[trigger]
                keyframes_stepped(
                    host,
                    id,
                    *at,
                    keyframes@,
                    exact,
                    before,
                    eased,
                    planned,
                    between,
                    Ok((outcome, inverse)),
                );
            let (key, subject, points) = planned->Ok_0;
            assert(fits(key)) by {
                assert(before.catalog.entries.contains_key((at.component@, at.field@)));
            }
            placing_is_undone(
                host,
                id,
                &*at,
                key,
                subject,
                InsertTarget::Keyframes(points),
                eased->Ok_0,
                None,
                before,
                between,
                outcome,
                inverse,
                later,
                after,
                result,
            );
        },
        _ => {},
    }
}

} // verus!
