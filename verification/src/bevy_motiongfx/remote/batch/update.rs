//! Changing clips in place.
use crate::action::{ActionId, ActionRecord, Ease, EaseFn, Value};
use crate::bevy_motiongfx::manager::TimelineId;
use crate::bevy_motiongfx::remote::batch::insert::Applied;
use crate::bevy_motiongfx::remote::batch::op::{
    copy_text, EditOp, KeyframeDoc, OpResult, UpdatePatch,
};
use crate::bevy_motiongfx::remote::batch::value::{
    decode_keyframes, docs_view, keyframe_docs, keyframes_read, keyframes_written, points_view,
    own_segment_written, write_own_segment,
};
use crate::bevy_motiongfx::remote::ease::{
    ease_to_json, is_ease_param, op_ease_resolves, parse_op_ease, EaseParam,
};
use crate::bevy_motiongfx::remote::fault::{CatalogError, Fault, OpFault};
use crate::bevy_motiongfx::remote::host::{decodes, sums, RemoteHost};
use crate::bevy_motiongfx::remote::json::Json;
use crate::bevy_motiongfx::remote::state::ClipMeta;
use crate::bevy_motiongfx::remote::studio::{baked, Studio, StudioModel};
use crate::remote::{rekeyframed, retargeted, RemoteEditError, RemoteKeyframe, RemoteTarget};
use crate::subject::BEVY_WORLD_TAG;
use crate::timeline::edit::{keyframes_update_fault, update_action_result};
use crate::timeline::TimelineModel;
use std::sync::Arc;
use vstd::prelude::*;
use vstd::string::StringExecFns;

verus! {

/// What is wrong with a patch, whatever it is applied to.
pub open spec fn patch_fault(patch: UpdatePatch) -> Option<Fault> {
    if patch.to is None && patch.to_relative is None && patch.ease is None && patch.keyframes is None
        && patch.label is None && patch.color is None && patch.enabled is None {
        Some(Fault::Op(OpFault::NothingToUpdate))
    } else if patch.to is Some && patch.to_relative is Some {
        Some(Fault::Op(OpFault::ToExclusive))
    } else if (patch.to is Some || patch.to_relative is Some) && patch.keyframes is Some {
        Some(Fault::Op(OpFault::KeyframesExclusive))
    } else {
        None
    }
}

/// What is wrong with a patch, whatever it is applied to.
fn check_patch(patch: &UpdatePatch) -> (fault: Option<Fault>)
    ensures
        fault == patch_fault(*patch),
{
    if patch.to.is_none() && patch.to_relative.is_none() && patch.ease.is_none()
        && patch.keyframes.is_none() && patch.label.is_none() && patch.color.is_none()
        && patch.enabled.is_none() {
        return Some(Fault::Op(OpFault::NothingToUpdate));
    }
    if patch.to.is_some() && patch.to_relative.is_some() {
        return Some(Fault::Op(OpFault::ToExclusive));
    }
    if (patch.to.is_some() || patch.to_relative.is_some()) && patch.keyframes.is_some() {
        return Some(Fault::Op(OpFault::KeyframesExclusive));
    }
    None
}

/// Whether replacing the points of a keyframed action had that outcome, by way
/// of the points that it had and those that were read. The outcome is the
/// points that it had.
pub open spec fn points_stepped<H: RemoteHost>(
    host: &H,
    id: TimelineId,
    action: ActionId,
    docs: Seq<KeyframeDoc>,
    before: StudioModel,
    had: Option<Seq<KeyframeDoc>>,
    read: Result<Seq<RemoteKeyframe>, Fault>,
    after: StudioModel,
    result: Result<Seq<KeyframeDoc>, Fault>,
) -> bool {
    let model = before.timelines[id];
    let key = model.actions.actions[action].key;
    if !before.timelines.contains_key(id) {
        result == Err::<Seq<KeyframeDoc>, Fault>(Fault::NoTimeline { id: id.raw }) && after
            == before
    } else if !model.actions.has(action) {
        result == Err::<Seq<KeyframeDoc>, Fault>(Fault::Edit(RemoteEditError::NotFound)) && after
            == before
    } else {
        match before.catalog.entry_of(key.field) {
            None => result == Err::<Seq<KeyframeDoc>, Fault>(
                Fault::Op(OpFault::FieldNotAnimatable),
            ) && after == before,
            Some(entry) => {
                &&& keyframes_written(host, model.actions, action, entry.pipeline.target_id, had)
                &&& match had {
                    None => result == Err::<Seq<KeyframeDoc>, Fault>(
                        Fault::Op(OpFault::NotKeyframed),
                    ) && after == before,
                    Some(had) => {
                        &&& keyframes_read(host, docs, entry.pipeline.target_id, read)
                        &&& match read {
                            Err(fault) => result == Err::<Seq<KeyframeDoc>, Fault>(fault) && after
                                == before,
                            Ok(points) => match keyframes_update_fault(
                                model,
                                BEVY_WORLD_TAG,
                                before.registry.remote@,
                                action,
                                points,
                            ) {
                                Some(error) => result == Err::<Seq<KeyframeDoc>, Fault>(
                                    Fault::Edit(error),
                                ) && after == before,
                                None => {
                                    &&& result == Ok::<Seq<KeyframeDoc>, Fault>(had)
                                    &&& points_changed(id, action, points, before, after)
                                },
                            },
                        }
                    },
                }
            },
        }
    }
}

/// Whether nothing but the points of an action changed.
pub open spec fn points_changed(
    id: TimelineId,
    action: ActionId,
    points: Seq<RemoteKeyframe>,
    before: StudioModel,
    after: StudioModel,
) -> bool {
    let model = before.timelines[id];
    let changed = after.timelines[id];
    &&& after == before.with_timeline(id, changed)
    &&& changed == (TimelineModel { actions: changed.actions, ..model })
    &&& rekeyframed(model.actions, changed.actions, action, points)
}

/// Whether replacing the points of a keyframed action had that outcome. The
/// outcome is the points that it had.
pub open spec fn points_replaced<H: RemoteHost>(
    host: &H,
    id: TimelineId,
    action: ActionId,
    docs: Seq<KeyframeDoc>,
    before: StudioModel,
    after: StudioModel,
    result: Result<Seq<KeyframeDoc>, Fault>,
) -> bool {
    exists|had: Option<Seq<KeyframeDoc>>, read: Result<Seq<RemoteKeyframe>, Fault>| #[trigger]
        points_stepped(host, id, action, docs, before, had, read, after, result)
}

/// The list of a result.
pub open spec fn had_view(result: Result<Vec<KeyframeDoc>, Fault>) -> Result<
    Seq<KeyframeDoc>,
    Fault,
> {
    match result {
        Ok(docs) => Ok(docs@),
        Err(fault) => Err(fault),
    }
}

/// Replaces the points of a keyframed action. Returns those that it had.
fn replace_points<H: RemoteHost>(
    host: &H,
    studio: &mut Studio,
    id: TimelineId,
    action: ActionId,
    docs: &Vec<KeyframeDoc>,
) -> (result: Result<Vec<KeyframeDoc>, Fault>)
    ensures
        points_replaced(
            host,
            id,
            action,
            docs@,
            old(studio)@,
            final(studio)@,
            had_view(result),
        ),
{
    let ghost before = studio@;
    let ghost no_docs: Option<Seq<KeyframeDoc>> = None;
    let ghost no_read: Result<Seq<RemoteKeyframe>, Fault> = Err(Fault::NoManager);
    let timeline = match studio.manager.get_timeline(&id) {
        Some(timeline) => timeline,
        None => {
            let fault = Fault::NoTimeline { id: id.raw() };
            assert(points_stepped(
                host,
                id,
                action,
                docs@,
                before,
                no_docs,
                no_read,
                studio@,
                Err(fault),
            ));
            return Err(fault);
        },
    };
    let world = timeline.action_world();
    let key = match world.action_key(action) {
        Some(key) => key,
        None => {
            let fault = Fault::Edit(RemoteEditError::NotFound);
            assert(points_stepped(
                host,
                id,
                action,
                docs@,
                before,
                no_docs,
                no_read,
                studio@,
                Err(fault),
            ));
            return Err(fault);
        },
    };
    let target = match studio.catalog.get_by_field(&key.field) {
        Some(entry) => entry.pipeline.target_id,
        None => {
            let fault = Fault::Op(OpFault::FieldNotAnimatable);
            assert(points_stepped(
                host,
                id,
                action,
                docs@,
                before,
                no_docs,
                no_read,
                studio@,
                Err(fault),
            ));
            return Err(fault);
        },
    };
    // The inverse - and the "is this keyframed?" check.
    let had = keyframe_docs(host, world, action, target);
    let ghost had_docs = docs_view(had);
    let had = match had {
        Some(had) => had,
        None => {
            let fault = Fault::Op(OpFault::NotKeyframed);
            assert(points_stepped(
                host,
                id,
                action,
                docs@,
                before,
                had_docs,
                no_read,
                studio@,
                Err(fault),
            ));
            return Err(fault);
        },
    };
    let read = decode_keyframes(host, docs, target);
    let ghost read_points = points_view(read);
    let points = match read {
        Ok(points) => points,
        Err(fault) => {
            assert(points_stepped(
                host,
                id,
                action,
                docs@,
                before,
                had_docs,
                read_points,
                studio@,
                Err(fault),
            ));
            return Err(fault);
        },
    };
    let mut timeline = match studio.manager.take(&id) {
        Some(timeline) => timeline,
        None => {
            assert(false);
            return Err(Fault::NoTimeline { id: id.raw() });
        },
    };
    let updated = timeline.update_keyframes_action(
        action,
        &studio.manager.registry().remote,
        &points,
    );
    let ghost model = timeline@;
    studio.manager.put(id, timeline);
    match updated {
        Ok(()) => {
            assert(studio@ =~= before.with_timeline(id, model));
            assert(points_stepped(
                host,
                id,
                action,
                docs@,
                before,
                had_docs,
                read_points,
                studio@,
                Ok(had@),
            ));
            Ok(had)
        },
        Err(error) => {
            assert(studio@ =~= before);
            assert(points_stepped(
                host,
                id,
                action,
                docs@,
                before,
                had_docs,
                read_points,
                studio@,
                Err(Fault::Edit(error)),
            ));
            Err(Fault::Edit(error))
        },
    }
}

/// Whether the new target of an action is that: as it is given, or where the
/// action ends with a delta added.
pub open spec fn new_target<H: RemoteHost>(
    host: &H,
    patch: UpdatePatch,
    end: Json,
    result: Result<Json, Fault>,
) -> bool {
    match patch.to {
        Some(to) => result == Ok::<Json, Fault>(*to),
        None => match end.number() {
            None => result == Err::<Json, Fault>(Fault::Op(OpFault::RelativeNumeric)),
            Some(base) => result matches Ok(sum) && sums(host, base, patch.to_relative->0, sum),
        },
    }
}

/// Whether giving an action another target had that outcome, by way of the
/// baked studio, the keyframes of the action, its written segment, the new
/// target and the value that was read. The outcome is where the action ended,
/// and the new target.
pub open spec fn target_stepped<H: RemoteHost>(
    host: &H,
    id: TimelineId,
    action: ActionId,
    patch: UpdatePatch,
    before: StudioModel,
    between: StudioModel,
    docs: Option<Seq<KeyframeDoc>>,
    written: Option<(Json, Json)>,
    target: Result<Json, Fault>,
    decoded: Result<Value, CatalogError>,
    after: StudioModel,
    result: Result<(Json, Json), Fault>,
) -> bool {
    let model = between.timelines[id];
    let key = model.actions.actions[action].key;
    &&& baked(host, id, before, between)
    &&& if !between.timelines.contains_key(id) {
        result == Err::<(Json, Json), Fault>(Fault::NoTimeline { id: id.raw }) && after == between
    } else if !model.actions.has(action) {
        result == Err::<(Json, Json), Fault>(Fault::Edit(RemoteEditError::NotFound)) && after
            == between
    } else {
        match between.catalog.entry_of(key.field) {
            None => result == Err::<(Json, Json), Fault>(Fault::Op(OpFault::FieldTypeUnknown))
                && after == between,
            Some(entry) => {
                &&& keyframes_written(host, model.actions, action, entry.pipeline.target_id, docs)
                &&& if docs is Some {
                    result == Err::<(Json, Json), Fault>(Fault::Op(OpFault::Keyframed)) && after
                        == between
                } else {
                    &&& own_segment_written(
                        host,
                        model.actions,
                        action,
                        entry.pipeline.target_id,
                        written,
                    )
                    &&& match written {
                        None => result == Err::<(Json, Json), Fault>(
                            Fault::Op(OpFault::NoSnapshot),
                        ) && after == between,
                        Some((start, end)) => {
                            &&& new_target(host, patch, end, target)
                            &&& match target {
                                Err(fault) => result == Err::<(Json, Json), Fault>(fault) && after
                                    == between,
                                Ok(to) => {
                                    &&& decodes(host, entry.pipeline.target_id, to, decoded)
                                    &&& value_set(
                                        id,
                                        action,
                                        end,
                                        to,
                                        decoded,
                                        between,
                                        after,
                                        result,
                                    )
                                },
                            }
                        },
                    }
                }
            },
        }
    }
}

/// Whether giving an action the value that was read had that outcome.
pub open spec fn value_set(
    id: TimelineId,
    action: ActionId,
    end: Json,
    to: Json,
    decoded: Result<Value, CatalogError>,
    before: StudioModel,
    after: StudioModel,
    result: Result<(Json, Json), Fault>,
) -> bool {
    let model = before.timelines[id];
    match decoded {
        Err(error) => result == Err::<(Json, Json), Fault>(Fault::Catalog(error)) && after
            == before,
        Ok(value) => match update_action_result(
            model,
            BEVY_WORLD_TAG,
            before.registry.remote@,
            action,
            RemoteTarget { end: value },
        ) {
            Err(error) => result == Err::<(Json, Json), Fault>(Fault::Edit(error)) && after
                == before,
            Ok(()) => {
                &&& result == Ok::<(Json, Json), Fault>((end, to))
                &&& after == before.with_timeline(
                    id,
                    TimelineModel { actions: retargeted(model.actions, action, value), ..model },
                )
            },
        },
    }
}

/// Whether giving an action another target had that outcome. The outcome is
/// where the action ended, and the new target.
pub open spec fn target_replaced<H: RemoteHost>(
    host: &H,
    id: TimelineId,
    action: ActionId,
    patch: UpdatePatch,
    before: StudioModel,
    after: StudioModel,
    result: Result<(Json, Json), Fault>,
) -> bool {
    exists|
        between: StudioModel,
        docs: Option<Seq<KeyframeDoc>>,
        written: Option<(Json, Json)>,
        target: Result<Json, Fault>,
        decoded: Result<Value, CatalogError>,
    | #[trigger]
        target_stepped(
            host,
            id,
            action,
            patch,
            before,
            between,
            docs,
            written,
            target,
            decoded,
            after,
            result,
        )
}

/// The new target of an action.
fn settle_target<H: RemoteHost>(host: &H, patch: &UpdatePatch, end: &Json) -> (result: Result<
    Json,
    Fault,
>)
    requires
        patch.to is Some || patch.to_relative is Some,
    ensures
        new_target(host, *patch, *end, result),
{
    match &patch.to {
        Some(to) => Ok(to.copy()),
        None => match end.as_number() {
            None => Err(Fault::Op(OpFault::RelativeNumeric)),
            Some(base) => {
                let sum = host.sum(base, patch.to_relative.unwrap());
                assert(sums(host, base, patch.to_relative->0, sum));
                Ok(sum)
            },
        },
    }
}

/// Gives an action the value that was read.
fn set_value(
    studio: &mut Studio,
    id: TimelineId,
    action: ActionId,
    end: Json,
    to: Json,
    decoded: Result<Value, CatalogError>,
) -> (result: Result<(Json, Json), Fault>)
    requires
        old(studio)@.timelines.contains_key(id),
    ensures
        value_set(id, action, end, to, decoded, old(studio)@, final(studio)@, result),
{
    let ghost before = studio@;
    let value = match decoded {
        Ok(value) => value,
        Err(error) => {
            return Err(Fault::Catalog(error));
        },
    };
    let mut timeline = match studio.manager.take(&id) {
        Some(timeline) => timeline,
        None => {
            assert(false);
            return Err(Fault::NoTimeline { id: id.raw() });
        },
    };
    let updated = timeline.update_action(
        action,
        &studio.manager.registry().remote,
        RemoteTarget::new(value),
    );
    let ghost model = timeline@;
    studio.manager.put(id, timeline);
    match updated {
        Ok(()) => {
            assert(studio@ =~= before.with_timeline(id, model));
            Ok((end, to))
        },
        Err(error) => {
            assert(studio@ =~= before);
            Err(Fault::Edit(error))
        },
    }
}

/// Gives an action another target. Returns where it ended, and the new target.
fn replace_target<H: RemoteHost>(
    host: &H,
    studio: &mut Studio,
    id: TimelineId,
    action: ActionId,
    patch: &UpdatePatch,
) -> (result: Result<(Json, Json), Fault>)
    requires
        patch.to is Some || patch.to_relative is Some,
    ensures
        target_replaced(host, id, action, *patch, old(studio)@, final(studio)@, result),
{
    let ghost before = studio@;
    let ghost no_docs: Option<Seq<KeyframeDoc>> = None;
    let ghost nothing: Option<(Json, Json)> = None;
    let ghost no_target: Result<Json, Fault> = Err(Fault::NoManager);
    let ghost no_value: Result<Value, CatalogError> = Err(CatalogError::FromReflect);
    studio.bake(host, &id);
    let ghost between = studio@;
    let timeline = match studio.manager.get_timeline(&id) {
        Some(timeline) => timeline,
        None => {
            let fault = Fault::NoTimeline { id: id.raw() };
            assert(target_stepped(
                host,
                id,
                action,
                *patch,
                before,
                between,
                no_docs,
                nothing,
                no_target,
                no_value,
                studio@,
                Err(fault),
            ));
            return Err(fault);
        },
    };
    let world = timeline.action_world();
    let key = match world.action_key(action) {
        Some(key) => key,
        None => {
            let fault = Fault::Edit(RemoteEditError::NotFound);
            assert(target_stepped(
                host,
                id,
                action,
                *patch,
                before,
                between,
                no_docs,
                nothing,
                no_target,
                no_value,
                studio@,
                Err(fault),
            ));
            return Err(fault);
        },
    };
    let target = match studio.catalog.get_by_field(&key.field) {
        Some(entry) => entry.pipeline.target_id,
        None => {
            let fault = Fault::Op(OpFault::FieldTypeUnknown);
            assert(target_stepped(
                host,
                id,
                action,
                *patch,
                before,
                between,
                no_docs,
                nothing,
                no_target,
                no_value,
                studio@,
                Err(fault),
            ));
            return Err(fault);
        },
    };
    // A keyframed action's value is its point list, not a single target.
    // Flattening it would lose data.
    let docs = keyframe_docs(host, world, action, target);
    let ghost had = docs_view(docs);
    if docs.is_some() {
        let fault = Fault::Op(OpFault::Keyframed);
        assert(target_stepped(
            host,
            id,
            action,
            *patch,
            before,
            between,
            had,
            nothing,
            no_target,
            no_value,
            studio@,
            Err(fault),
        ));
        return Err(fault);
    }
    let written = write_own_segment(host, world, action, target);
    let ghost segment = written;
    let end = match written {
        Some((start, end)) => end,
        None => {
            let fault = Fault::Op(OpFault::NoSnapshot);
            assert(target_stepped(
                host,
                id,
                action,
                *patch,
                before,
                between,
                had,
                segment,
                no_target,
                no_value,
                studio@,
                Err(fault),
            ));
            return Err(fault);
        },
    };
    let settled = settle_target(host, patch, &end);
    let ghost settled_to = settled;
    let to = match settled {
        Ok(to) => to,
        Err(fault) => {
            assert(target_stepped(
                host,
                id,
                action,
                *patch,
                before,
                between,
                had,
                segment,
                settled_to,
                no_value,
                studio@,
                Err(fault),
            ));
            return Err(fault);
        },
    };
    let decoded = host.decode(target, &to);
    assert(decodes(host, target, to, decoded));
    let ghost read = decoded;
    let result = set_value(studio, id, action, end, to, decoded);
    assert(target_stepped(
        host,
        id,
        action,
        *patch,
        before,
        between,
        had,
        segment,
        settled_to,
        read,
        studio@,
        result,
    ));
    result
}

/// What changing the value of an action leaves for its inverse and its
/// result.
#[derive(Debug)]
pub struct ValueChange {
    pub old_to: Option<Arc<Json>>,
    /// The absolute target of a relative one.
    pub resolved: Option<Arc<Json>>,
    pub old_keyframes: Option<Arc<Vec<KeyframeDoc>>>,
}

/// Whether changing the value of an action had that outcome: its points, its
/// target, or nothing.
pub open spec fn value_changed<H: RemoteHost>(
    host: &H,
    id: TimelineId,
    action: ActionId,
    patch: UpdatePatch,
    before: StudioModel,
    after: StudioModel,
    result: Result<ValueChange, Fault>,
) -> bool {
    match patch.keyframes {
        Some(docs) => match result {
            Ok(change) => {
                &&& change.old_to is None
                &&& change.resolved is None
                &&& change.old_keyframes matches Some(had)
                &&& points_replaced(host, id, action, docs@, before, after, Ok(had@))
            },
            Err(fault) => points_replaced(host, id, action, docs@, before, after, Err(fault)),
        },
        None => if patch.to is Some || patch.to_relative is Some {
            match result {
                Ok(change) => {
                    &&& change.old_keyframes is None
                    &&& change.old_to matches Some(end)
                    &&& target_change(host, id, action, patch, before, after, *end, change.resolved)
                },
                Err(fault) => target_replaced(host, id, action, patch, before, after, Err(fault)),
            }
        } else {
            &&& result == Ok::<ValueChange, Fault>(
                ValueChange { old_to: None, resolved: None, old_keyframes: None },
            )
            &&& after == before
        },
    }
}

/// Whether giving an action another target left that: where it ended, and
/// the absolute target of a relative one.
pub open spec fn target_change<H: RemoteHost>(
    host: &H,
    id: TimelineId,
    action: ActionId,
    patch: UpdatePatch,
    before: StudioModel,
    after: StudioModel,
    end: Json,
    resolved: Option<Arc<Json>>,
) -> bool {
    if patch.to is Some {
        &&& resolved is None
        &&& target_replaced(
            host,
            id,
            action,
            patch,
            before,
            after,
            Ok((end, *patch.to->0)),
        )
    } else {
        &&& resolved matches Some(sum)
        &&& target_replaced(host, id, action, patch, before, after, Ok((end, *sum)))
    }
}

/// The new target of an action is the given one.
proof fn given_target_is_kept<H: RemoteHost>(
    host: &H,
    id: TimelineId,
    action: ActionId,
    patch: UpdatePatch,
    before: StudioModel,
    after: StudioModel,
    end: Json,
    to: Json,
)
    requires
        target_replaced(host, id, action, patch, before, after, Ok((end, to))),
        patch.to is Some,
    ensures
        to == *patch.to->0,
{
}

/// Changes the value of an action.
fn change_value<H: RemoteHost>(
    host: &H,
    studio: &mut Studio,
    id: TimelineId,
    action: ActionId,
    patch: &UpdatePatch,
) -> (result: Result<ValueChange, Fault>)
    ensures
        value_changed(host, id, action, *patch, old(studio)@, final(studio)@, result),
{
    let ghost before = studio@;
    match &patch.keyframes {
        Some(docs) => match replace_points(host, studio, id, action, docs) {
            Ok(had) => Ok(
                ValueChange { old_to: None, resolved: None, old_keyframes: Some(Arc::new(had)) },
            ),
            Err(fault) => Err(fault),
        },
        None => if patch.to.is_some() || patch.to_relative.is_some() {
            match replace_target(host, studio, id, action, patch) {
                Ok((end, to)) => {
                    let resolved = if patch.to.is_some() {
                        proof {
                            given_target_is_kept(
                                host,
                                id,
                                action,
                                *patch,
                                before,
                                studio@,
                                end,
                                to,
                            );
                        }
                        None
                    } else {
                        Some(Arc::new(to))
                    };
                    Ok(
                        ValueChange {
                            old_to: Some(Arc::new(end)),
                            resolved,
                            old_keyframes: None,
                        },
                    )
                },
                Err(fault) => Err(fault),
            }
        } else {
            Ok(ValueChange { old_to: None, resolved: None, old_keyframes: None })
        },
    }
}

/// The record of an action with another ease and mute state, as far as they
/// change. An explicitly linear ease is none.
pub open spec fn repatched(
    record: ActionRecord,
    patch: UpdatePatch,
    ease: Option<Ease>,
) -> ActionRecord {
    ActionRecord {
        ease: if patch.ease is None {
            record.ease
        } else if ease == Some(Ease::Fn(EaseFn { id: 0 })) {
            None
        } else {
            ease
        },
        disabled: match patch.enabled {
            Some(enabled) => !enabled,
            None => record.disabled,
        },
        ..record
    }
}

/// The metadata of a clip, as far as it changes.
pub open spec fn patched_meta(meta: ClipMeta, patch: UpdatePatch) -> ClipMeta {
    ClipMeta {
        label: match patch.label {
            Some(label) => label,
            None => meta.label,
        },
        color: match patch.color {
            Some(color) => color,
            None => meta.color,
        },
    }
}

/// Whether the patch puts back what another one changes: only touched fields
/// appear, as set-or-cleared.
pub open spec fn is_inverse_patch(
    record: ActionRecord,
    meta: ClipMeta,
    patch: UpdatePatch,
    change: ValueChange,
    inverse: UpdatePatch,
) -> bool {
    &&& inverse.to == change.old_to
    &&& inverse.to_relative is None
    &&& inverse.keyframes == change.old_keyframes
    &&& match patch.ease {
        None => inverse.ease is None,
        Some(_) => inverse.ease matches Some(param) && is_old_ease(record.ease, param),
    }
    &&& inverse.label == match patch.label {
        Some(_) => Some(meta.label),
        None => None,
    }
    &&& inverse.color == match patch.color {
        Some(_) => Some(meta.color),
        None => None,
    }
    &&& inverse.enabled == match patch.enabled {
        Some(_) => Some(!record.disabled),
        None => None,
    }
}

/// Whether the parameter brings an ease back. What brings none back is the
/// linear one.
pub open spec fn is_old_ease(ease: Option<Ease>, param: EaseParam) -> bool {
    match ease {
        Some(ease) => is_ease_param(ease, param),
        None => param matches EaseParam::Named(name) && name@ == "linear"@,
    }
}

/// The studio with the ease, the mute state and the metadata of a clip as
/// they are patched.
pub open spec fn attributes_patched(
    studio: StudioModel,
    id: TimelineId,
    action: ActionId,
    patch: UpdatePatch,
    ease: Option<Ease>,
) -> StudioModel {
    let model = studio.timelines[id];
    let record = model.actions.actions[action];
    let patched = studio.with_timeline(
        id,
        TimelineModel {
            actions: model.actions.with_record(action, repatched(record, patch, ease)),
            ..model
        },
    );
    if patch.label is Some || patch.color is Some {
        let meta = studio.edits_of(id).meta_of(action.bits);
        patched.with_edits(
            id,
            studio.edits_of(id).with_meta(action.bits, patched_meta(meta, patch)),
        )
    } else {
        patched
    }
}

/// Whether patching the ease, the mute state and the metadata of a clip had
/// that outcome.
pub open spec fn attributes_set(
    id: TimelineId,
    action: ActionId,
    patch: UpdatePatch,
    ease: Option<Ease>,
    change: ValueChange,
    before: StudioModel,
    after: StudioModel,
    result: Applied,
) -> bool {
    let record = before.timelines[id].actions.actions[action];
    let meta = before.edits_of(id).meta_of(action.bits);
    if !before.timelines.contains_key(id) {
        result == Err::<(OpResult, EditOp), Fault>(Fault::NoTimeline { id: id.raw }) && after
            == before
    } else if !before.timelines[id].actions.has(action) {
        result == Err::<(OpResult, EditOp), Fault>(Fault::Edit(RemoteEditError::NotFound)) && after
            == before
    } else {
        &&& result matches Ok((outcome, inverse))
        &&& outcome == (OpResult::Action { action_id: action.bits, resolved_to: change.resolved })
        &&& inverse matches EditOp::Update { action_id, patch: back }
        &&& action_id == action.bits
        &&& is_inverse_patch(record, meta, patch, change, *back)
        &&& after == attributes_patched(before, id, action, patch, ease)
    }
}

/// The parameter that brings an ease back.
fn old_ease(ease: Option<Ease>) -> (param: EaseParam)
    ensures
        is_old_ease(ease, param),
{
    match ease {
        Some(ease) => ease_to_json(ease),
        // Inverse of "had no ease" is clearing it.
        None => EaseParam::Named(String::from_str("linear")),
    }
}

/// Patches the ease, the mute state and the metadata of a clip.
fn set_attributes(
    studio: &mut Studio,
    id: TimelineId,
    action: ActionId,
    patch: &UpdatePatch,
    ease: Option<Ease>,
    change: ValueChange,
) -> (result: Applied)
    requires
        ease is Some <==> patch.ease is Some,
    ensures
        attributes_set(id, action, *patch, ease, change, old(studio)@, final(studio)@, result),
{
    let ghost before = studio@;
    let mut timeline = match studio.manager.take(&id) {
        Some(timeline) => timeline,
        None => {
            assert(studio@ =~= before);
            return Err(Fault::NoTimeline { id: id.raw() });
        },
    };
    let old_enabled = match timeline.is_action_enabled(action) {
        Some(enabled) => enabled,
        None => {
            studio.manager.put(id, timeline);
            assert(studio@ =~= before);
            return Err(Fault::Edit(RemoteEditError::NotFound));
        },
    };
    let ghost model = timeline@;
    let ghost record = model.actions.actions[action];
    let inverse_ease = match &patch.ease {
        Some(_) => Some(old_ease(timeline.action_world().get_ease(action))),
        None => None,
    };
    match ease {
        Some(new_ease) => {
            // Explicit "linear" clears the ease.
            let kept = if new_ease == Ease::Fn(EaseFn { id: 0 }) {
                None
            } else {
                Some(new_ease)
            };
            let set = timeline.set_action_ease(action, kept);
            assert(set is Ok);
        },
        None => {},
    }
    match patch.enabled {
        Some(enabled) => {
            let set = timeline.set_action_enabled(action, enabled);
            assert(set is Ok);
        },
        None => {},
    }
    proof {
        assert(timeline@.actions.actions[action] == repatched(record, *patch, ease));
        assert(timeline@.actions =~= model.actions.with_record(
            action,
            repatched(record, *patch, ease),
        ));
        assert(timeline@ =~= (TimelineModel {
            actions: model.actions.with_record(action, repatched(record, *patch, ease)),
            ..model
        }));
    }
    studio.manager.put(id, timeline);
    let meta = studio.state.meta_of(&id, action.bits);
    let inverse = UpdatePatch {
        to: change.old_to,
        to_relative: None,
        ease: inverse_ease,
        keyframes: change.old_keyframes,
        label: match &patch.label {
            Some(_) => Some(copy_text(&meta.label)),
            None => None,
        },
        color: match patch.color {
            Some(_) => Some(meta.color),
            None => None,
        },
        enabled: match patch.enabled {
            Some(_) => Some(old_enabled),
            None => None,
        },
    };
    if patch.label.is_some() || patch.color.is_some() {
        let patched = ClipMeta {
            label: match &patch.label {
                Some(label) => copy_text(label),
                None => meta.label,
            },
            color: match patch.color {
                Some(color) => color,
                None => meta.color,
            },
        };
        studio.state.set_clip_meta(id, action.bits, patched);
    }
    assert(studio@ =~= attributes_patched(before, id, action, *patch, ease));
    Ok(
        (
            OpResult::Action { action_id: action.to_bits(), resolved_to: change.resolved },
            EditOp::Update { action_id: action.to_bits(), patch: Arc::new(inverse) },
        ),
    )
}

/// Whether updating a clip had that outcome, by way of its ease, the studio
/// with the changed value, and what that left.
pub open spec fn update_stepped<H: RemoteHost>(
    host: &H,
    id: TimelineId,
    action_id: u64,
    patch: UpdatePatch,
    before: StudioModel,
    eased: Result<Option<Ease>, Fault>,
    between: StudioModel,
    changed: Result<ValueChange, Fault>,
    after: StudioModel,
    result: Applied,
) -> bool {
    let action = ActionId { bits: action_id };
    match patch_fault(patch) {
        Some(fault) => result == Err::<(OpResult, EditOp), Fault>(fault) && after == before,
        None => {
            &&& op_ease_resolves(patch.ease, eased)
            &&& match eased {
                Err(fault) => result == Err::<(OpResult, EditOp), Fault>(fault) && after == before,
                Ok(ease) => {
                    &&& value_changed(host, id, action, patch, before, between, changed)
                    &&& match changed {
                        Err(fault) => result == Err::<(OpResult, EditOp), Fault>(fault) && after
                            == between,
                        Ok(change) => attributes_set(
                            id,
                            action,
                            patch,
                            ease,
                            change,
                            between,
                            after,
                            result,
                        ),
                    }
                },
            }
        },
    }
}

/// Whether updating a clip had that outcome. Its inverse puts back what it
/// changed.
pub open spec fn update_applied<H: RemoteHost>(
    host: &H,
    id: TimelineId,
    action_id: u64,
    patch: UpdatePatch,
    before: StudioModel,
    after: StudioModel,
    result: Applied,
) -> bool {
    exists|
        eased: Result<Option<Ease>, Fault>,
        between: StudioModel,
        changed: Result<ValueChange, Fault>,
    | #[trigger]
        update_stepped(
            host,
            id,
            action_id,
            patch,
            before,
            eased,
            between,
            changed,
            after,
            result,
        )
}

/// Updates a clip.
pub fn apply_update<H: RemoteHost>(
    host: &H,
    studio: &mut Studio,
    id: TimelineId,
    action_id: u64,
    patch: &UpdatePatch,
) -> (result: Applied)
    ensures
        update_applied(host, id, action_id, *patch, old(studio)@, final(studio)@, result),
{
    let ghost before = studio@;
    let ghost no_ease: Result<Option<Ease>, Fault> = Ok(None);
    let ghost no_change: Result<ValueChange, Fault> = Err(Fault::NoManager);
    let action = ActionId { bits: action_id };
    match check_patch(patch) {
        Some(fault) => {
            assert(update_stepped(
                host,
                id,
                action_id,
                *patch,
                before,
                no_ease,
                before,
                no_change,
                studio@,
                Err(fault),
            ));
            return Err(fault);
        },
        None => {},
    }
    let eased = parse_op_ease(&patch.ease);
    let ease = match eased {
        Ok(ease) => ease,
        Err(fault) => {
            assert(update_stepped(
                host,
                id,
                action_id,
                *patch,
                before,
                eased,
                before,
                no_change,
                studio@,
                Err(fault),
            ));
            return Err(fault);
        },
    };
    let changed = change_value(host, studio, id, action, patch);
    let ghost between = studio@;
    let ghost left = changed;
    let change = match changed {
        Ok(change) => change,
        Err(fault) => {
            assert(update_stepped(
                host,
                id,
                action_id,
                *patch,
                before,
                Ok(ease),
                between,
                left,
                studio@,
                Err(fault),
            ));
            return Err(fault);
        },
    };
    let result = set_attributes(studio, id, action, patch, ease, change);
    assert(update_stepped(
        host,
        id,
        action_id,
        *patch,
        before,
        Ok(ease),
        between,
        left,
        studio@,
        result,
    ));
    result
}

} // verus!
