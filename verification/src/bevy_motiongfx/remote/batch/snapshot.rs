//! Describing clips so that they can be inserted again, and taking them away.
use crate::action::{ActionClip, ActionId, ActionKey};
use crate::bevy_motiongfx::manager::TimelineId;
use crate::bevy_motiongfx::remote::batch::insert::{entity_of, subject_entity, Applied};
use crate::bevy_motiongfx::remote::batch::op::{EditOp, KeyframeDoc, OpResult, Placement};
use crate::bevy_motiongfx::remote::batch::value::{
    docs_view, is_optional_ease_param, keyframe_docs, keyframes_written, own_segment_written,
    write_ease, write_own_segment,
};
use crate::bevy_motiongfx::remote::batch::walk::{all_clips, clip_on, find_clip, list_clips};
use crate::bevy_motiongfx::remote::fault::Fault;
use crate::bevy_motiongfx::remote::host::RemoteHost;
use crate::bevy_motiongfx::remote::json::Json;
use crate::bevy_motiongfx::remote::studio::{baked, Studio, StudioModel};
use crate::remote::RemoteEditError;
use crate::subject::{BEVY_WORLD_TAG, RESOURCE_TAG};
use crate::text::{decimal, decimal_text, text3};
use crate::time::Ticks;
use crate::timeline::edit::{
    action_removed, action_rescheduled, is_cleared, removable,
};
use crate::track::reschedule_outcome;
use std::sync::Arc;
use vstd::prelude::*;
use vstd::string::StringExecFns;

verus! {

/// How the subject of a clip is addressed: an entity, and the component whose
/// handle leads to an asset.
pub open spec fn address_of(
    studio: StudioModel,
    id: TimelineId,
    key: ActionKey,
    action: u64,
) -> Option<(u64, Option<String>)> {
    let actions = studio.timelines[id].actions;
    let assets = studio.edits_of(id).asset_refs;
    if key.subject_id.type_id == RESOURCE_TAG {
        Some((0, None))
    } else {
        match entity_of(actions, key) {
            Some(entity) => Some((entity, None)),
            None => if assets.contains_key(action) {
                Some((assets[action].0, Some(assets[action].1)))
            } else {
                None
            },
        }
    }
}

/// Why a clip whose subject cannot be addressed cannot be restored.
pub open spec fn no_subject_reason(action: u64) -> Seq<char> {
    "clip "@ + decimal(action as nat)
        + " cannot be restored: its subject is neither an entity nor a recorded asset reference"@
}

/// Why a clip whose field cannot be described cannot be restored.
pub open spec fn no_field_reason(action: u64) -> Seq<char> {
    "clip "@ + decimal(action as nat)
        + " cannot be restored: its field is not registered as animatable"@
}

/// Whether the edit stands for a clip that cannot be restored.
pub open spec fn is_unrestorable(op: EditOp, why: Seq<char>) -> bool {
    op matches EditOp::Unrestorable { reason } && reason@ == why
}

/// Whether a placement puts a clip back where it is, with what is kept about
/// it.
pub open spec fn restores_clip(
    studio: StudioModel,
    id: TimelineId,
    track: usize,
    clip: ActionClip,
    address: (u64, Option<String>),
    at: Placement,
) -> bool {
    let record = studio.timelines[id].actions.actions[clip.id];
    let names = studio.catalog.by_field[record.key.field];
    let meta = studio.edits_of(id).meta_of(clip.id.bits);
    &&& at.track == track
    &&& at.entity == address.0
    &&& at.component@ == names.0
    &&& at.field@ == names.1
    &&& at.asset_of == address.1
    &&& at.duration == clip.duration
    &&& at.start_at == Some(clip.start)
    &&& is_optional_ease_param(record.ease, at.ease)
    &&& at.label == meta.label
    &&& at.color == meta.color
    &&& at.enabled == if record.disabled {
        Some(false)
    } else {
        None
    }
}

/// Whether the edit inserts the keyframed clip again.
pub open spec fn restores_keyframes(
    studio: StudioModel,
    id: TimelineId,
    track: usize,
    clip: ActionClip,
    address: (u64, Option<String>),
    docs: Seq<KeyframeDoc>,
    op: EditOp,
) -> bool {
    &&& op matches EditOp::InsertKeyframes { at, keyframes, exact, restore_id }
    &&& restores_clip(studio, id, track, clip, address, *at)
    &&& keyframes@ == docs
    &&& exact
    &&& restore_id == Some(clip.id.bits)
}

/// Whether the edit inserts the constant clip again.
pub open spec fn restores_constant(
    studio: StudioModel,
    id: TimelineId,
    track: usize,
    clip: ActionClip,
    address: (u64, Option<String>),
    end: Json,
    op: EditOp,
) -> bool {
    &&& op matches EditOp::Insert { at, to, to_relative, exact, restore_id }
    &&& restores_clip(studio, id, track, clip, address, *at)
    &&& *to == end
    &&& to_relative is None
    &&& exact
    &&& restore_id == Some(clip.id.bits)
}

/// Whether the edit inserts a clip again whose field is described by the
/// catalog: as its point list, or else with its own target.
pub open spec fn describes_clip<H: RemoteHost>(
    host: &H,
    studio: StudioModel,
    id: TimelineId,
    track: usize,
    clip: ActionClip,
    address: (u64, Option<String>),
    target: u64,
    docs: Option<Seq<KeyframeDoc>>,
    op: EditOp,
) -> bool {
    let actions = studio.timelines[id].actions;
    &&& keyframes_written(host, actions, clip.id, target, docs)
    &&& match docs {
        Some(docs) => restores_keyframes(studio, id, track, clip, address, docs, op),
        None => {
            ||| is_unrestorable(op, no_field_reason(clip.id.bits)) && own_segment_written(
                host,
                actions,
                clip.id,
                target,
                None,
            )
            ||| exists|start: Json, end: Json|
                {
                    &&& #[trigger] own_segment_written(
                        host,
                        actions,
                        clip.id,
                        target,
                        Some((start, end)),
                    )
                    &&& restores_constant(studio, id, track, clip, address, end, op)
                }
        },
    }
}

/// Whether the edit restores a clip, or stands for one that cannot be
/// restored.
pub open spec fn is_restoring<H: RemoteHost>(
    host: &H,
    studio: StudioModel,
    id: TimelineId,
    track: usize,
    clip: ActionClip,
    op: EditOp,
) -> bool {
    let key = studio.timelines[id].actions.actions[clip.id].key;
    match address_of(studio, id, key, clip.id.bits) {
        None => is_unrestorable(op, no_subject_reason(clip.id.bits)),
        Some(address) => match studio.catalog.entry_of(key.field) {
            None => is_unrestorable(op, no_field_reason(clip.id.bits)),
            Some(entry) => is_described(
                host,
                studio,
                id,
                track,
                clip,
                address,
                entry.pipeline.target_id,
                op,
            ),
        },
    }
}

/// Whether the edit inserts a clip again whose field is described by the
/// catalog.
pub open spec fn is_described<H: RemoteHost>(
    host: &H,
    studio: StudioModel,
    id: TimelineId,
    track: usize,
    clip: ActionClip,
    address: (u64, Option<String>),
    target: u64,
    op: EditOp,
) -> bool {
    exists|docs: Option<Seq<KeyframeDoc>>| #[trigger]
        describes_clip(host, studio, id, track, clip, address, target, docs, op)
}

/// Whether the snapshot of a clip of a baked timeline is that.
pub open spec fn is_snapshot<H: RemoteHost>(
    host: &H,
    studio: StudioModel,
    id: TimelineId,
    track: usize,
    action: ActionId,
    result: Result<EditOp, Fault>,
) -> bool {
    if !studio.timelines.contains_key(id) {
        result == Err::<EditOp, Fault>(Fault::NoTimeline { id: id.raw })
    } else {
        match clip_on(studio.timelines[id], track, action) {
            None => result == Err::<EditOp, Fault>(Fault::Edit(RemoteEditError::NotFound)),
            Some(clip) => if !studio.timelines[id].actions.has(action) {
                result == Err::<EditOp, Fault>(Fault::Edit(RemoteEditError::NotFound))
            } else {
                result matches Ok(op) && is_restoring(
                    host,
                    studio,
                    id,
                    track,
                    ActionClip { id: action, ..clip },
                    op,
                )
            },
        }
    }
}

/// Whether a snapshot was taken so: of the baked timeline.
pub open spec fn snapshot_taken<H: RemoteHost>(
    host: &H,
    id: TimelineId,
    track: usize,
    action: ActionId,
    before: StudioModel,
    after: StudioModel,
    result: Result<EditOp, Fault>,
) -> bool {
    &&& baked(host, id, before, after)
    &&& is_snapshot(host, after, id, track, action, result)
}

/// How a clip is addressed.
fn address_clip(studio: &Studio, id: &TimelineId, key: &ActionKey, action: u64) -> (address: Option<
    (u64, Option<String>),
>)
    requires
        studio@.timelines.contains_key(*id),
    ensures
        address == address_of(studio@, *id, *key, action),
{
    if key.subject_id.type_id == RESOURCE_TAG {
        return Some((0, None));
    }
    let entity = match studio.manager.get_timeline(id) {
        Some(timeline) => subject_entity(timeline.action_world(), key),
        None => None,
    };
    match entity {
        Some(entity) => Some((entity, None)),
        None => match studio.state.asset_ref(id, action) {
            Some(asset) => Some((asset.0, Some(asset.1.clone()))),
            None => None,
        },
    }
}

/// Describes a clip of a baked timeline.
fn describe_clip<H: RemoteHost>(
    host: &H,
    studio: &Studio,
    id: &TimelineId,
    track: usize,
    clip: ActionClip,
    key: &ActionKey,
) -> (op: EditOp)
    requires
        studio@.timelines.contains_key(*id),
        studio@.timelines[*id].actions.has(clip.id),
        studio@.timelines[*id].actions.actions[clip.id].key == *key,
    ensures
        is_restoring(host, studio@, *id, track, clip, op),
{
    let bits = clip.id.to_bits();
    let (entity, asset_of) = match address_clip(studio, id, key, bits) {
        Some(address) => address,
        None => {
            return EditOp::Unrestorable {
                reason: text3(
                    "clip ",
                    decimal_text(bits).as_str(),
                    " cannot be restored: its subject is neither an entity nor a recorded asset reference",
                ),
            };
        },
    };
    let ghost address = (entity, asset_of);
    let entry = match studio.catalog.get_by_field(&key.field) {
        Some(entry) => entry,
        None => {
            return EditOp::Unrestorable {
                reason: text3(
                    "clip ",
                    decimal_text(bits).as_str(),
                    " cannot be restored: its field is not registered as animatable",
                ),
            };
        },
    };
    let target = entry.pipeline.target_id;
    let timeline = match studio.manager.get_timeline(id) {
        Some(timeline) => timeline,
        None => {
            assert(false);
            return EditOp::Clear;
        },
    };
    let world = timeline.action_world();
    // Keyframed clips snapshot as their point list. Constant ones with their
    // own target, which muting leaves alone.
    let docs = keyframe_docs(host, world, clip.id, target);
    let ghost written = docs_view(docs);
    let end = if docs.is_some() {
        None
    } else {
        match write_own_segment(host, world, clip.id, target) {
            Some((start, end)) => {
                assert(own_segment_written(host, world@, clip.id, target, Some((start, end))));
                Some(end)
            },
            None => {
                let op = EditOp::Unrestorable {
                    reason: text3(
                        "clip ",
                        decimal_text(bits).as_str(),
                        " cannot be restored: its field is not registered as animatable",
                    ),
                };
                assert(describes_clip(
                    host,
                    studio@,
                    *id,
                    track,
                    clip,
                    address,
                    target,
                    written,
                    op,
                ));
                return op;
            },
        }
    };
    // Restore the clip's label/colour and mute state along with it.
    let meta = studio.state.meta_of(id, bits);
    let at = Placement {
        track,
        entity,
        component: entry.component.clone(),
        field: entry.field_name.clone(),
        asset_of,
        duration: clip.duration,
        start_at: Some(clip.start),
        ease: write_ease(world.get_ease(clip.id)),
        label: meta.label,
        color: meta.color,
        enabled: if world.is_disabled(clip.id) {
            Some(false)
        } else {
            None
        },
    };
    assert(restores_clip(studio@, *id, track, clip, address, at));
    let op = match docs {
        Some(docs) => EditOp::InsertKeyframes {
            at: Arc::new(at),
            keyframes: Arc::new(docs),
            exact: true,
            restore_id: Some(bits),
        },
        None => EditOp::Insert {
            at: Arc::new(at),
            to: Arc::new(
                match end {
                    Some(end) => end,
                    None => Json::Null,
                },
            ),
            to_relative: None,
            exact: true,
            restore_id: Some(bits),
        },
    };
    assert(describes_clip(host, studio@, *id, track, clip, address, target, written, op));
    op
}

/// Snapshot a clip as the insert that restores it: timing from the track,
/// value from the action and its baked segment, ease from the action world. An unrestorable
/// edit when the catalog can't describe it.
pub fn snapshot_clip<H: RemoteHost>(
    host: &H,
    studio: &mut Studio,
    id: TimelineId,
    track: usize,
    action: ActionId,
) -> (result: Result<EditOp, Fault>)
    ensures
        snapshot_taken(host, id, track, action, old(studio)@, final(studio)@, result),
{
    // The segment must exist to read the value. Bake covers clips inserted
    // earlier in the same request.
    studio.bake(host, &id);
    let timeline = match studio.manager.get_timeline(&id) {
        Some(timeline) => timeline,
        None => {
            return Err(Fault::NoTimeline { id: id.raw() });
        },
    };
    let (start, duration) = match find_clip(timeline, track, action) {
        Some(times) => times,
        None => {
            return Err(Fault::Edit(RemoteEditError::NotFound));
        },
    };
    let key = match timeline.action_world().action_key(action) {
        Some(key) => key,
        None => {
            return Err(Fault::Edit(RemoteEditError::NotFound));
        },
    };
    let clip = ActionClip { id: action, start, duration };
    proof {
        let found = clip_on(studio@.timelines[id], track, action)->0;
        assert(clip == (ActionClip { id: action, ..found }));
    }
    Ok(describe_clip(host, studio, &id, track, clip, &key))
}

/// Whether snapshots of the first of the clips were taken one after another.
pub open spec fn snapshots_taken<H: RemoteHost>(
    host: &H,
    id: TimelineId,
    clips: Seq<(usize, ActionId)>,
    trace: Seq<StudioModel>,
    ops: Seq<EditOp>,
) -> bool {
    &&& ops.len() <= clips.len()
    &&& trace.len() == ops.len() + 1
    &&& forall|i: int|
        0 <= i < ops.len() ==> snapshot_taken(
            host,
            id,
            clips[i].0,
            clips[i].1,
            trace[i],
            trace[i + 1],
            Ok(#[trigger] ops[i]),
        )
}

/// Whether snapshots of the first of the clips lead from one studio to
/// another.
pub open spec fn snapshots_lead<H: RemoteHost>(
    host: &H,
    id: TimelineId,
    clips: Seq<(usize, ActionId)>,
    before: StudioModel,
    after: StudioModel,
    ops: Seq<EditOp>,
) -> bool {
    exists|trace: Seq<StudioModel>|
        {
            &&& #[trigger] snapshots_taken(host, id, clips, trace, ops)
            &&& trace.first() == before
            &&& trace.last() == after
        }
}

/// Whether snapshotting the clips had that outcome: a snapshot of each, or
/// why the first failing one failed.
pub open spec fn clips_snapshotted<H: RemoteHost>(
    host: &H,
    id: TimelineId,
    clips: Seq<(usize, ActionId)>,
    before: StudioModel,
    after: StudioModel,
    result: Result<Seq<EditOp>, Fault>,
) -> bool {
    match result {
        Ok(ops) => ops.len() == clips.len() && snapshots_lead(host, id, clips, before, after, ops),
        Err(fault) => exists|trace: Seq<StudioModel>, ops: Seq<EditOp>|
            {
                &&& #[trigger] snapshots_taken(host, id, clips, trace, ops)
                &&& trace.first() == before
                &&& ops.len() < clips.len()
                &&& snapshot_taken(
                    host,
                    id,
                    clips[ops.len() as int].0,
                    clips[ops.len() as int].1,
                    trace.last(),
                    after,
                    Err(fault),
                )
            },
    }
}

/// Whether snapshotting all clips of a timeline had that outcome.
pub open spec fn all_snapshotted<H: RemoteHost>(
    host: &H,
    id: TimelineId,
    before: StudioModel,
    after: StudioModel,
    result: Result<Seq<EditOp>, Fault>,
) -> bool {
    if !before.timelines.contains_key(id) {
        result == Err::<Seq<EditOp>, Fault>(Fault::NoTimeline { id: id.raw }) && after == before
    } else {
        clips_snapshotted(host, id, all_clips(before.timelines[id]), before, after, result)
    }
}

/// The list of a result.
pub open spec fn ops_view(result: Result<Vec<EditOp>, Fault>) -> Result<Seq<EditOp>, Fault> {
    match result {
        Ok(ops) => Ok(ops@),
        Err(fault) => Err(fault),
    }
}

/// Snapshot every clip as the insert list that rebuilds the timeline: the
/// inverse of a clear and the basis of an export. In order, so clips restore
/// front to back.
pub fn snapshot_all_clips<H: RemoteHost>(host: &H, studio: &mut Studio, id: TimelineId) -> (result:
    Result<Vec<EditOp>, Fault>)
    ensures
        all_snapshotted(host, id, old(studio)@, final(studio)@, ops_view(result)),
{
    let ghost before = studio@;
    let clips = match studio.manager.get_timeline(&id) {
        Some(timeline) => list_clips(timeline),
        None => {
            return Err(Fault::NoTimeline { id: id.raw() });
        },
    };
    let mut ops: Vec<EditOp> = Vec::new();
    let ghost mut trace: Seq<StudioModel> = seq![before];
    let mut i: usize = 0;
    while i < clips.len()
        invariant
            i <= clips@.len(),
            before == old(studio)@,
            before.timelines.contains_key(id),
            clips@ == all_clips(before.timelines[id]),
            ops@.len() == i,
            snapshots_taken(host, id, clips@, trace, ops@),
            trace.first() == before,
            trace.last() == studio@,
        decreases clips@.len() - i,
    {
        let (track, action) = clips[i];
        let ghost shorter = trace;
        let ghost done = ops@;
        match snapshot_clip(host, studio, id, track, action) {
            Ok(op) => {
                ops.push(op);
                proof {
                    trace = trace.push(studio@);
                    assert forall|j: int| 0 <= j < ops@.len() implies snapshot_taken(
                        host,
                        id,
                        clips@[j].0,
                        clips@[j].1,
                        trace[j],
                        trace[j + 1],
                        Ok(#[trigger] ops@[j]),
                    ) by {
                        if j < done.len() {
                            assert(ops@[j] == done[j]);
                            assert(trace[j] == shorter[j] && trace[j + 1] == shorter[j + 1]);
                        }
                    }
                }
            },
            Err(fault) => {
                assert(clips_snapshotted(host, id, clips@, before, studio@, Err(fault)));
                return Err(fault);
            },
        }
        i += 1;
    }
    assert(snapshots_lead(host, id, clips@, before, studio@, ops@));
    Ok(ops)
}

/// Whether removing a clip had that outcome, by way of the baked studio and
/// the snapshot.
pub open spec fn remove_stepped<H: RemoteHost>(
    host: &H,
    id: TimelineId,
    track: usize,
    action_id: u64,
    before: StudioModel,
    between: StudioModel,
    snapshot: Result<EditOp, Fault>,
    after: StudioModel,
    result: Applied,
) -> bool {
    let action = ActionId { bits: action_id };
    &&& snapshot_taken(host, id, track, action, before, between, snapshot)
    &&& match snapshot {
        Err(fault) => result == Err::<(OpResult, EditOp), Fault>(fault) && after == between,
        Ok(inverse) => if removable(between.timelines[id], track, action) {
            &&& result == Ok::<(OpResult, EditOp), Fault>((OpResult::Removed, inverse))
            &&& action_removed(
                between.timelines[id],
                after.timelines[id],
                BEVY_WORLD_TAG,
                track as int,
                action,
            )
            &&& after == between.with_timeline(id, after.timelines[id]).with_edits(
                id,
                between.edits_of(id).without_clip(action_id),
            )
        } else {
            &&& result == Err::<(OpResult, EditOp), Fault>(
                Fault::Edit(
                    if track >= between.timelines[id].tracks.len() {
                        RemoteEditError::TrackOutOfRange
                    } else {
                        RemoteEditError::NotFound
                    },
                ),
            )
            &&& after == between
        },
    }
}

/// Whether removing a clip had that outcome. Its inverse inserts the clip
/// again.
pub open spec fn remove_applied<H: RemoteHost>(
    host: &H,
    id: TimelineId,
    track: usize,
    action_id: u64,
    before: StudioModel,
    after: StudioModel,
    result: Applied,
) -> bool {
    exists|between: StudioModel, snapshot: Result<EditOp, Fault>| #[trigger]
        remove_stepped(
            host,
            id,
            track,
            action_id,
            before,
            between,
            snapshot,
            after,
            result,
        )
}

/// Removes a clip.
pub fn apply_remove<H: RemoteHost>(
    host: &H,
    studio: &mut Studio,
    id: TimelineId,
    track: usize,
    action_id: u64,
) -> (result: Applied)
    ensures
        remove_applied(host, id, track, action_id, old(studio)@, final(studio)@, result),
{
    let ghost before = studio@;
    let action = ActionId { bits: action_id };
    let snapshot = snapshot_clip(host, studio, id, track, action);
    let ghost taken = snapshot;
    let ghost between = studio@;
    let inverse = match snapshot {
        Ok(inverse) => inverse,
        Err(fault) => {
            assert(remove_stepped(
                host,
                id,
                track,
                action_id,
                before,
                between,
                taken,
                studio@,
                Err(fault),
            ));
            return Err(fault);
        },
    };
    let mut timeline = match studio.manager.take(&id) {
        Some(timeline) => timeline,
        None => {
            assert(false);
            return Err(Fault::NoTimeline { id: id.raw() });
        },
    };
    let removed = timeline.remove_action(track, action);
    let ghost model = timeline@;
    studio.manager.put(id, timeline);
    match removed {
        Err(error) => {
            assert(studio@ =~= between);
            let result = Err(Fault::Edit(error));
            assert(remove_stepped(
                host,
                id,
                track,
                action_id,
                before,
                between,
                taken,
                studio@,
                result,
            ));
            result
        },
        Ok(()) => {
            // The metadata and asset addressing die with the clip (the
            // inverse insert snapshot carries them for undo).
            studio.state.remove_clip_meta(id, action_id);
            studio.state.remove_asset_ref(id, action_id);
            assert(studio@ =~= between.with_timeline(id, model).with_edits(
                id,
                between.edits_of(id).without_clip(action_id),
            ));
            let result = Ok((OpResult::Removed, inverse));
            assert(remove_stepped(
                host,
                id,
                track,
                action_id,
                before,
                between,
                taken,
                studio@,
                result,
            ));
            result
        },
    }
}

/// Whether moving a clip had that outcome. Its inverse moves the clip back.
pub open spec fn move_applied(
    id: TimelineId,
    track: usize,
    action_id: u64,
    start_at: Ticks,
    duration: Option<Ticks>,
    before: StudioModel,
    after: StudioModel,
    result: Applied,
) -> bool {
    let action = ActionId { bits: action_id };
    let model = before.timelines[id];
    if !before.timelines.contains_key(id) {
        result == Err::<(OpResult, EditOp), Fault>(Fault::NoTimeline { id: id.raw }) && after
            == before
    } else {
        match clip_on(model, track, action) {
            None => {
                &&& result == Err::<(OpResult, EditOp), Fault>(
                    Fault::Edit(RemoteEditError::NotFound),
                )
                &&& after == before
            },
            Some(clip) => match result {
                Ok(outcome) => {
                    &&& outcome == (
                        OpResult::Action { action_id, resolved_to: None },
                        EditOp::Move {
                            track,
                            action_id,
                            start_at: clip.start,
                            duration: Some(clip.duration),
                        },
                    )
                    &&& action_rescheduled(
                        model,
                        after.timelines[id],
                        track as int,
                        action,
                        start_at,
                        duration,
                    )
                    &&& after == before.with_timeline(id, after.timelines[id])
                },
                Err(fault) => {
                    &&& after == before
                    &&& fault matches Fault::Edit(error)
                    &&& reschedule_outcome(
                        model.tracks[track as int].lanes(),
                        model.tracks[track as int].lanes(),
                        action,
                        start_at,
                        duration,
                        Err(error),
                    )
                },
            },
        }
    }
}

/// Moves a clip.
pub fn apply_move(
    studio: &mut Studio,
    id: TimelineId,
    track: usize,
    action_id: u64,
    start_at: Ticks,
    duration: Option<Ticks>,
) -> (result: Applied)
    ensures
        move_applied(
            id,
            track,
            action_id,
            start_at,
            duration,
            old(studio)@,
            final(studio)@,
            result,
        ),
{
    let ghost before = studio@;
    let action = ActionId { bits: action_id };
    let mut timeline = match studio.manager.take(&id) {
        Some(timeline) => timeline,
        None => {
            assert(studio@ =~= before);
            return Err(Fault::NoTimeline { id: id.raw() });
        },
    };
    let (old_start, old_duration) = match find_clip(&timeline, track, action) {
        Some(times) => times,
        None => {
            studio.manager.put(id, timeline);
            assert(studio@ =~= before);
            return Err(Fault::Edit(RemoteEditError::NotFound));
        },
    };
    let moved = timeline.reschedule_action(track, action, start_at, duration);
    let ghost model = timeline@;
    studio.manager.put(id, timeline);
    match moved {
        Ok(()) => {
            assert(studio@ =~= before.with_timeline(id, model));
            Ok(
                (
                    OpResult::Action { action_id, resolved_to: None },
                    EditOp::Move {
                        track,
                        action_id,
                        start_at: old_start,
                        duration: Some(old_duration),
                    },
                ),
            )
        },
        Err(error) => {
            assert(studio@ =~= before);
            Err(Fault::Edit(error))
        },
    }
}

/// Whether clearing a timeline had that outcome.
pub open spec fn clear_applied(
    id: TimelineId,
    before: StudioModel,
    after: StudioModel,
    result: Applied,
) -> bool {
    if !before.timelines.contains_key(id) {
        result == Err::<(OpResult, EditOp), Fault>(Fault::NoTimeline { id: id.raw }) && after
            == before
    } else {
        &&& result matches Ok((outcome, inverse))
        &&& outcome == (OpResult::Cleared { timeline: id.raw })
        &&& is_unrestorable(
            inverse,
            "clear is restored from its journaled snapshot, not an op inverse"@,
        )
        &&& is_cleared(after.timelines[id])
        &&& after == before.with_timeline(id, after.timelines[id]).with_edits(
            id,
            before.edits_of(id).without_clips(),
        )
    }
}

/// Removes every clip of a timeline.
pub fn apply_clear(studio: &mut Studio, id: TimelineId) -> (result: Applied)
    ensures
        clear_applied(id, old(studio)@, final(studio)@, result),
{
    let ghost before = studio@;
    let mut timeline = match studio.manager.take(&id) {
        Some(timeline) => timeline,
        None => {
            assert(studio@ =~= before);
            return Err(Fault::NoTimeline { id: id.raw() });
        },
    };
    timeline.clear_actions();
    let ghost model = timeline@;
    studio.manager.put(id, timeline);
    // Clip metadata dies with the clips (the journaled snapshot's insert list
    // carries it for undo).
    studio.state.clear_clip_meta(&id);
    studio.state.clear_asset_refs(&id);
    assert(studio@ =~= before.with_timeline(id, model).with_edits(
        id,
        before.edits_of(id).without_clips(),
    ));
    Ok(
        (
            OpResult::Cleared { timeline: id.raw() },
            EditOp::Unrestorable {
                reason: String::from_str(
                    "clear is restored from its journaled snapshot, not an op inverse",
                ),
            },
        ),
    )
}

} // verus!
