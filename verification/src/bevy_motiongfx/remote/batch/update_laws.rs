//! What the inverse of an update brings back.
use crate::action::{
    clamped_keyframe, keyframes_valid, sorted_keyframes, Action, ActionId, ActionRecord, Ease,
    EaseFn, Keyframe, Value,
};
use crate::bevy_motiongfx::manager::TimelineId;
use crate::bevy_motiongfx::remote::batch::apply::{
    edits_change_content_only, only_content, only_content_twice, op_applied,
};
use crate::bevy_motiongfx::remote::batch::insert::Applied;
use crate::bevy_motiongfx::remote::batch::laws::{
    baking_keeps_clips, brought_back, clips_alike, known_stays, same_action, same_clips, tidy,
};
use crate::bevy_motiongfx::remote::batch::op::{EditOp, KeyframeDoc, OpResult, UpdatePatch};
use crate::bevy_motiongfx::remote::batch::update::{
    is_old_ease, patch_fault, patched_meta, points_replaced, points_stepped, repatched,
    target_replaced, target_stepped, update_applied, update_stepped, value_changed, ValueChange,
};
use crate::bevy_motiongfx::remote::batch::value::{
    are_keyframe_docs, are_read, is_keyframe_doc, is_optional_ease_param, is_read, is_refused,
    keyframes_read, points_of,
};
use crate::bevy_motiongfx::remote::ease::{
    curve_in_range, ease_survives_the_wire, ease_table, op_ease_resolves, EaseParam, EASE_COUNT,
};
use crate::bevy_motiongfx::remote::fault::{CatalogError, Fault};
use crate::bevy_motiongfx::remote::host::{decodes, encodes, RemoteHost};
use crate::bevy_motiongfx::remote::json::Json;
use crate::bevy_motiongfx::remote::state::EditsModel;
use crate::bevy_motiongfx::remote::studio::StudioModel;
use crate::pipeline::PipelineKey;
use crate::remote::{keyframe_fault, keyframes_fault, typed_keyframes, RemoteKeyframe};
use crate::seqs::sorting_keeps_order;
use crate::subject::{TypeTag, BEVY_WORLD_TAG};
use crate::timeline::TimelineModel;
use std::sync::Arc;
use vstd::prelude::*;

verus! {

/// Whether an application reads what it wrote: it writes every value, and
/// reads it back from what it wrote.
pub open spec fn reads_back<H: RemoteHost>(host: &H) -> bool {
    &&& forall|value: Value| !#[trigger] encodes(host, value, None)
    &&& forall|value: Value, json: Json, read: Result<Value, CatalogError>|
        {
            &&& #[trigger] encodes(host, value, Some(json))
            &&& #[trigger] decodes(host, value.type_id, json, read)
        } ==> read == Ok::<Value, CatalogError>(value)
}

/// Whether an ease travels: it has a name, or is a curve in range.
pub open spec fn ease_travels(ease: Option<Ease>) -> bool {
    match ease {
        None => true,
        Some(Ease::Fn(f)) => f.id < EASE_COUNT,
        Some(Ease::CubicBezier(curve)) => curve_in_range(curve),
    }
}

/// Whether an action is eased linearly by name. What clears an ease is the linear
/// one, so that an update that is taken back leaves no ease in its place.
pub open spec fn linear_by_name(record: ActionRecord) -> bool {
    record.ease == Some(Ease::Fn(EaseFn { id: 0 }))
}

/// A studio as taking an update back leaves it: as it was, but that an action that
/// was eased linearly by name, and got another ease, has none.
pub open spec fn eased_back(studio: StudioModel, id: TimelineId, op: EditOp) -> StudioModel {
    match op {
        EditOp::Update { action_id, patch } => {
            let model = studio.timelines[id];
            let action = ActionId { bits: action_id };
            let record = model.actions.actions[action];
            if model.actions.has(action) && patch.ease is Some && linear_by_name(record) {
                studio.with_timeline(
                    id,
                    TimelineModel {
                        actions: model.actions.with_record(
                            action,
                            ActionRecord { ease: None, ..record },
                        ),
                        ..model
                    },
                )
            } else {
                studio
            }
        },
        _ => studio,
    }
}

/// Whether an action can be described: it is constant or keyframed, and its
/// eases travel.
pub open spec fn describable(record: ActionRecord) -> bool {
    &&& ease_travels(record.ease)
    &&& record.action matches Action::Constant(value) && value.type_id == record.target_type
    &&& record.keyframes matches Some(storage) ==> {
        &&& keyframes_valid(storage@)
        &&& record.action == Action::Constant(storage@.last().value)
        &&& forall|i: int|
            0 <= i < storage@.len() ==> (#[trigger] storage@[i]).value.type_id
                == record.target_type && ease_travels(storage@[i].ease)
    }
}

/// Whether a timeline has the same clips in two studios, but for one action and
/// its metadata.
pub open spec fn others_alike(
    id: TimelineId,
    action: ActionId,
    a: StudioModel,
    b: StudioModel,
) -> bool {
    let (x, y) = (a.timelines[id], b.timelines[id]);
    &&& a.timelines.contains_key(id)
    &&& b.timelines.contains_key(id)
    &&& x.tracks.len() == y.tracks.len()
    &&& forall|i: int|
        0 <= i < x.tracks.len() ==> (#[trigger] x.tracks[i]).lanes() == y.tracks[i].lanes()
    &&& x.actions.actions.dom() == y.actions.actions.dom()
    &&& forall|other: ActionId|
        other != action && #[trigger] x.actions.has(other) ==> same_action(
            x.actions.actions[other],
            y.actions.actions[other],
        )
    &&& x.actions.subjects == y.actions.subjects
    &&& known_stays(x.actions.known, y.actions.known)
    &&& x.counts == y.counts
    &&& a.edits_of(id).clip_meta.remove(action.bits) == b.edits_of(id).clip_meta.remove(action.bits)
    &&& a.edits_of(id).asset_refs == b.edits_of(id).asset_refs
}

/// The record of an action.
spec fn record_in(studio: StudioModel, id: TimelineId, action: ActionId) -> ActionRecord {
    studio.timelines[id].actions.actions[action]
}

/// Whether the target of an action can be replaced: it is constant, baked, and
/// its field can be edited.
spec fn replaceable(studio: StudioModel, id: TimelineId, action: ActionId) -> bool {
    let record = record_in(studio, id, action);
    let pipeline = PipelineKey::of_action_key(BEVY_WORLD_TAG, record.key);
    &&& studio.timelines.contains_key(id)
    &&& studio.timelines[id].actions.has(action)
    &&& studio.catalog.entry_of(record.key.field) matches Some(entry)
        && entry.pipeline.target_id == record.target_type
    &&& studio.registry.remote@.contains_key(pipeline)
    &&& pipeline.target_id == record.target_type
}

/// What giving an action another target leaves, and what it tells.
proof fn retargeting_leaves<H: RemoteHost>(
    host: &H,
    id: TimelineId,
    action: ActionId,
    patch: &UpdatePatch,
    before: StudioModel,
    after: StudioModel,
    end: Json,
    to: Json,
)
    requires
        reads_back(host),
        before.timelines.contains_key(id),
        target_replaced(host, id, action, *patch, before, after, Ok((end, to))),
        record_in(before, id, action).action is Constant,
    ensures
        replaceable(before, id, action),
        others_alike(id, action, before, after),
        after.edits_of(id) == before.edits_of(id),
        record_in(before, id, action).keyframes is None,
        encodes(host, record_in(before, id, action).action->Constant_0, Some(end)),
        record_in(after, id, action).segment is Some,
        record_in(after, id, action) == (ActionRecord {
            action: record_in(after, id, action).action,
            segment: record_in(after, id, action).segment,
            ..record_in(before, id, action)
        }),
{
    let (between, docs, written, target, decoded) = choose|
        between: StudioModel,
        docs: Option<Seq<KeyframeDoc>>,
        written: Option<(Json, Json)>,
        target: Result<Json, Fault>,
        decoded: Result<Value, CatalogError>,
    | #[trigger]
        target_stepped(
            host,
            id,
            action,
            *patch,
            before,
            between,
            docs,
            written,
            target,
            decoded,
            after,
            Ok((end, to)),
        );
    baking_keeps_clips(host, id, before, between);
    let (r0, r1) = (record_in(before, id, action), record_in(between, id, action));
    assert(before.timelines[id].actions.actions.dom().contains(action));
    assert(before.timelines[id].actions.has(action));
    assert(same_action(r0, r1));
    let entry = between.catalog.entry_of(r1.key.field)->0;
    assert(r1.target_type == entry.pipeline.target_id);
    assert(points_of(between.timelines[id].actions, action, entry.pipeline.target_id) is None);
    let (x, y) = (before.timelines[id], after.timelines[id]);
    assert(y.actions.actions.dom() =~= x.actions.actions.dom());
    assert forall|i: int| 0 <= i < x.tracks.len() implies (#[trigger] x.tracks[i]).lanes()
        == y.tracks[i].lanes() by {
        assert(x.tracks[i].lanes() == between.timelines[id].tracks[i].lanes());
    }
    assert forall|other: ActionId|
        other != action && #[trigger] x.actions.has(other) implies same_action(
        x.actions.actions[other],
        y.actions.actions[other],
    ) by {
        assert(same_action(
            x.actions.actions[other],
            between.timelines[id].actions.actions[other],
        ));
    }
}

/// A target that was replaced can be put back.
proof fn retargeting_goes_back<H: RemoteHost>(
    host: &H,
    id: TimelineId,
    action: ActionId,
    back: &UpdatePatch,
    value: Value,
    later: StudioModel,
    after: StudioModel,
    result: Result<(Json, Json), Fault>,
)
    requires
        reads_back(host),
        replaceable(later, id, action),
        record_in(later, id, action).segment is Some,
        record_in(later, id, action).keyframes is None,
        back.to is Some,
        encodes(host, value, Some(*back.to->0)),
        value.type_id == record_in(later, id, action).target_type,
        target_replaced(host, id, action, *back, later, after, result),
    ensures
        result is Ok,
        others_alike(id, action, later, after),
        after.edits_of(id) == later.edits_of(id),
        record_in(after, id, action).segment is Some,
        record_in(after, id, action) == (ActionRecord {
            action: Action::Constant(value),
            segment: record_in(after, id, action).segment,
            ..record_in(later, id, action)
        }),
{
    let (between, docs, written, target, decoded) = choose|
        between: StudioModel,
        docs: Option<Seq<KeyframeDoc>>,
        written: Option<(Json, Json)>,
        target: Result<Json, Fault>,
        decoded: Result<Value, CatalogError>,
    | #[trigger]
        target_stepped(
            host,
            id,
            action,
            *back,
            later,
            between,
            docs,
            written,
            target,
            decoded,
            after,
            result,
        );
    baking_keeps_clips(host, id, later, between);
    let (r0, r1) = (record_in(later, id, action), record_in(between, id, action));
    assert(later.timelines[id].actions.actions.dom().contains(action));
    assert(between.timelines[id].actions.actions.dom().contains(action));
    assert(same_action(r0, r1));
    assert(r1.segment is Some);
    assert(docs is None);
    assert(written is Some);
    assert(target == Ok::<Json, Fault>(*back.to->0));
    assert(decoded == Ok::<Value, CatalogError>(value));
    assert(result is Ok);
    let (x, y) = (later.timelines[id], after.timelines[id]);
    assert(y.actions.actions.dom() =~= x.actions.actions.dom());
    assert forall|i: int| 0 <= i < x.tracks.len() implies (#[trigger] x.tracks[i]).lanes()
        == y.tracks[i].lanes() by {
        assert(x.tracks[i].lanes() == between.timelines[id].tracks[i].lanes());
    }
    assert forall|other: ActionId|
        other != action && #[trigger] x.actions.has(other) implies same_action(
        x.actions.actions[other],
        y.actions.actions[other],
    ) by {
        assert(same_action(
            x.actions.actions[other],
            between.timelines[id].actions.actions[other],
        ));
    }
}

/// Keyframes that are all of the type and in time have no fault.
proof fn good_keyframes(keyframes: Seq<RemoteKeyframe>, target: TypeTag)
    requires
        forall|i: int|
            0 <= i < keyframes.len() ==> (#[trigger] keyframes[i]).t is Some
                && keyframes[i].value.end.type_id == target,
    ensures
        keyframe_fault(keyframes, target) is None,
    decreases keyframes.len(),
{
    if keyframes.len() > 0 {
        let front = keyframes.drop_last();
        assert forall|i: int| 0 <= i < front.len() implies (#[trigger] front[i]).t is Some
            && front[i].value.end.type_id == target by {
            assert(front[i] == keyframes[i]);
        }
        good_keyframes(front, target);
        assert(keyframes.last() == keyframes[keyframes.len() - 1]);
    }
}

/// An ease that travels is read back.
pub proof fn optional_ease_survives(
    ease: Option<Ease>,
    param: Option<EaseParam>,
    result: Result<Option<Ease>, Fault>,
)
    requires
        ease_travels(ease),
        is_optional_ease_param(ease, param),
        op_ease_resolves(param, result),
    ensures
        result == Ok::<Option<Ease>, Fault>(ease),
{
    if ease is Some {
        match result {
            Ok(Some(read)) => {
                ease_survives_the_wire(ease->0, param->0, Ok(read));
            },
            Ok(None) => {},
            Err(fault) => {
                ease_survives_the_wire(ease->0, param->0, Err(fault));
            },
        }
    }
}

/// Points that were written are read back.
pub proof fn points_read_back<H: RemoteHost>(
    host: &H,
    points: Seq<Keyframe<Value>>,
    docs: Seq<KeyframeDoc>,
    target: TypeTag,
    read: Result<Seq<RemoteKeyframe>, Fault>,
)
    requires
        reads_back(host),
        keyframes_valid(points),
        forall|i: int|
            0 <= i < points.len() ==> (#[trigger] points[i]).value.type_id == target
                && ease_travels(points[i].ease),
        docs.len() == points.len(),
        are_keyframe_docs(host, points, docs),
        keyframes_read(host, docs, target, read),
    ensures
        read is Ok,
        typed_keyframes(read->Ok_0) == points,
        sorted_keyframes(points) == points,
        keyframes_fault(read->Ok_0, target) is None,
{
    match read {
        Err(fault) => {
            let done = choose|done: Seq<RemoteKeyframe>|
                {
                    &&& #[trigger] are_read(host, docs, target, done)
                    &&& done.len() < docs.len()
                    &&& is_refused(host, docs[done.len() as int], done.len() as int, target, fault)
                };
            let n = done.len() as int;
            assert(is_keyframe_doc(host, points[n], docs[n]));
            assert(points[n].value.type_id == target);
            if op_ease_resolves(docs[n].ease, Err(fault)) {
                optional_ease_survives(points[n].ease, docs[n].ease, Err(fault));
            }
            assert(false);
        },
        Ok(keyframes) => {
            assert forall|i: int| 0 <= i < keyframes.len() implies {
                &&& (#[trigger] keyframes[i]).t == Some(points[i].t)
                &&& keyframes[i].value.end == points[i].value
                &&& keyframes[i].ease == points[i].ease
                &&& keyframes[i].hold == points[i].hold
            } by {
                assert(is_read(host, docs[i], target, keyframes[i]));
                assert(is_keyframe_doc(host, points[i], docs[i]));
                optional_ease_survives(points[i].ease, docs[i].ease, Ok(keyframes[i].ease));
            }
            assert(typed_keyframes(keyframes) =~= points);
            good_keyframes(keyframes, target);
        },
    }
    let clamped = points.map_values(|point: Keyframe<Value>| clamped_keyframe(point));
    assert(clamped =~= points);
    sorting_keeps_order(points, |point: Keyframe<Value>| point.t as int);
}

/// What giving an action other points leaves, and what it tells.
proof fn repointing_leaves<H: RemoteHost>(
    host: &H,
    id: TimelineId,
    action: ActionId,
    docs: Seq<KeyframeDoc>,
    before: StudioModel,
    after: StudioModel,
    had: Seq<KeyframeDoc>,
)
    requires
        before.timelines.contains_key(id),
        points_replaced(host, id, action, docs, before, after, Ok(had)),
    ensures
        replaceable(before, id, action),
        others_alike(id, action, before, after),
        after.edits_of(id) == before.edits_of(id),
        record_in(before, id, action).keyframes is Some,
        had.len() == record_in(before, id, action).keyframes->0@.len(),
        are_keyframe_docs(host, record_in(before, id, action).keyframes->0@, had),
        record_in(after, id, action).keyframes is Some,
        record_in(after, id, action) == (ActionRecord {
            action: record_in(after, id, action).action,
            keyframes: record_in(after, id, action).keyframes,
            ..record_in(before, id, action)
        }),
{
    let (held, read) = choose|
        held: Option<Seq<KeyframeDoc>>,
        read: Result<Seq<RemoteKeyframe>, Fault>,
    | #[trigger]
        points_stepped(host, id, action, docs, before, held, read, after, Ok(had));
    let (x, y) = (before.timelines[id], after.timelines[id]);
    assert(y.actions.actions.dom() =~= x.actions.actions.dom());
}

/// Points that were replaced can be put back.
proof fn repointing_goes_back<H: RemoteHost>(
    host: &H,
    id: TimelineId,
    action: ActionId,
    had: Seq<KeyframeDoc>,
    points: Seq<Keyframe<Value>>,
    later: StudioModel,
    after: StudioModel,
    result: Result<Seq<KeyframeDoc>, Fault>,
)
    requires
        reads_back(host),
        replaceable(later, id, action),
        record_in(later, id, action).keyframes is Some,
        keyframes_valid(points),
        forall|i: int|
            0 <= i < points.len() ==> (#[trigger] points[i]).value.type_id == record_in(
                later,
                id,
                action,
            ).target_type && ease_travels(points[i].ease),
        had.len() == points.len(),
        are_keyframe_docs(host, points, had),
        points_replaced(host, id, action, had, later, after, result),
    ensures
        result is Ok,
        others_alike(id, action, later, after),
        after.edits_of(id) == later.edits_of(id),
        record_in(after, id, action).keyframes is Some,
        record_in(after, id, action).keyframes->0@ == points,
        record_in(after, id, action) == (ActionRecord {
            action: Action::Constant(points.last().value),
            keyframes: record_in(after, id, action).keyframes,
            ..record_in(later, id, action)
        }),
{
    let (held, read) = choose|
        held: Option<Seq<KeyframeDoc>>,
        read: Result<Seq<RemoteKeyframe>, Fault>,
    | #[trigger]
        points_stepped(host, id, action, had, later, held, read, after, result);
    let record = record_in(later, id, action);
    assert(points_of(later.timelines[id].actions, action, record.target_type) is Some);
    if held is None {
        let all = record.keyframes->0@;
        let i = choose|i: int|
            0 <= i < all.len() && encodes(host, (#[trigger] all[i]).value, None);
        assert(false);
    }
    points_read_back(host, points, had, record.target_type, read);
    assert(result is Ok);
    let (x, y) = (later.timelines[id], after.timelines[id]);
    assert(y.actions.actions.dom() =~= x.actions.actions.dom());
}

/// Whether an action does in the second studio what it does in the first:
/// nothing but its ease and whether it is muted may differ.
spec fn same_value(a: ActionRecord, b: ActionRecord) -> bool {
    same_action(ActionRecord { ease: b.ease, disabled: b.disabled, ..a }, b)
}

/// The value that is held.
spec fn json_in(held: Option<Arc<Json>>) -> Json {
    *held->0
}

/// Changing the value of an action, and what it leaves.
proof fn value_change_leaves<H: RemoteHost>(
    host: &H,
    id: TimelineId,
    action: ActionId,
    patch: &UpdatePatch,
    before: StudioModel,
    after: StudioModel,
    change: &ValueChange,
)
    requires
        reads_back(host),
        before.timelines.contains_key(id),
        before.timelines[id].actions.has(action) ==> describable(record_in(before, id, action)),
        after.timelines[id].actions.has(action),
        value_changed(host, id, action, *patch, before, after, Ok(*change)),
    ensures
        before.timelines[id].actions.has(action),
        others_alike(id, action, before, after),
        after.edits_of(id) == before.edits_of(id),
        change.old_to is Some || change.old_keyframes is Some ==> replaceable(before, id, action),
        record_in(after, id, action) == (ActionRecord {
            action: record_in(after, id, action).action,
            keyframes: record_in(after, id, action).keyframes,
            segment: record_in(after, id, action).segment,
            ..record_in(before, id, action)
        }),
        record_in(before, id, action).segment is Some ==> record_in(
            after,
            id,
            action,
        ).segment is Some,
        match (change.old_to, change.old_keyframes) {
            (Some(end), None) => {
                &&& record_in(before, id, action).keyframes is None
                &&& record_in(after, id, action).keyframes is None
                &&& record_in(after, id, action).segment is Some
                &&& encodes(host, record_in(before, id, action).action->Constant_0, Some(*end))
            },
            (None, Some(had)) => {
                &&& record_in(before, id, action).keyframes is Some
                &&& record_in(after, id, action).keyframes is Some
                &&& had@.len() == record_in(before, id, action).keyframes->0@.len()
                &&& are_keyframe_docs(
                    host,
                    record_in(before, id, action).keyframes->0@,
                    had@,
                )
            },
            (None, None) => record_in(after, id, action) == record_in(before, id, action),
            _ => false,
        },
{
    match patch.keyframes {
        Some(docs) => {
            repointing_leaves(host, id, action, docs@, before, after, change.old_keyframes->0@);
        },
        None => {
            if patch.to is Some || patch.to_relative is Some {
                let end = json_in(change.old_to);
                let to = if patch.to is Some {
                    json_in(patch.to)
                } else {
                    json_in(change.resolved)
                };
                assert(target_replaced(host, id, action, *patch, before, after, Ok((end, to))));
                assert(before.timelines[id].actions.has(action)) by {
                    target_is_of_an_action(host, id, action, patch, before, after, end, to);
                }
                retargeting_leaves(host, id, action, patch, before, after, end, to);
            }
        },
    }
}

/// Only the target of an action that is there can be replaced.
proof fn target_is_of_an_action<H: RemoteHost>(
    host: &H,
    id: TimelineId,
    action: ActionId,
    patch: &UpdatePatch,
    before: StudioModel,
    after: StudioModel,
    end: Json,
    to: Json,
)
    requires
        before.timelines.contains_key(id),
        target_replaced(host, id, action, *patch, before, after, Ok((end, to))),
    ensures
        before.timelines[id].actions.has(action),
{
    let (between, docs, written, target, decoded) = choose|
        between: StudioModel,
        docs: Option<Seq<KeyframeDoc>>,
        written: Option<(Json, Json)>,
        target: Result<Json, Fault>,
        decoded: Result<Value, CatalogError>,
    | #[trigger]
        target_stepped(
            host,
            id,
            action,
            *patch,
            before,
            between,
            docs,
            written,
            target,
            decoded,
            after,
            Ok((end, to)),
        );
    baking_keeps_clips(host, id, before, between);
    assert(between.timelines[id].actions.actions.dom().contains(action));
}

/// A value that was changed can be put back.
proof fn value_change_goes_back<H: RemoteHost>(
    host: &H,
    id: TimelineId,
    action: ActionId,
    change: &ValueChange,
    back: &UpdatePatch,
    before: StudioModel,
    changed: StudioModel,
    later: StudioModel,
    after: StudioModel,
    result: Result<ValueChange, Fault>,
)
    requires
        reads_back(host),
        describable(record_in(before, id, action)),
        later.timelines.contains_key(id),
        later.timelines[id].actions.has(action),
        change.old_to is Some || change.old_keyframes is Some ==> replaceable(before, id, action),
        later.catalog == before.catalog,
        later.registry == before.registry,
        same_value(record_in(changed, id, action), record_in(later, id, action)),
        record_in(changed, id, action) == (ActionRecord {
            action: record_in(changed, id, action).action,
            keyframes: record_in(changed, id, action).keyframes,
            segment: record_in(changed, id, action).segment,
            ..record_in(before, id, action)
        }),
        record_in(before, id, action).segment is Some ==> record_in(
            changed,
            id,
            action,
        ).segment is Some,
        match (change.old_to, change.old_keyframes) {
            (Some(end), None) => {
                &&& record_in(before, id, action).keyframes is None
                &&& record_in(changed, id, action).keyframes is None
                &&& record_in(changed, id, action).segment is Some
                &&& encodes(host, record_in(before, id, action).action->Constant_0, Some(*end))
            },
            (None, Some(had)) => {
                &&& record_in(before, id, action).keyframes is Some
                &&& record_in(changed, id, action).keyframes is Some
                &&& had@.len() == record_in(before, id, action).keyframes->0@.len()
                &&& are_keyframe_docs(
                    host,
                    record_in(before, id, action).keyframes->0@,
                    had@,
                )
            },
            (None, None) => record_in(changed, id, action) == record_in(before, id, action),
            _ => false,
        },
        back.to == change.old_to,
        back.to_relative is None,
        back.keyframes == change.old_keyframes,
        value_changed(host, id, action, *back, later, after, result),
    ensures
        result is Ok,
        others_alike(id, action, later, after),
        after.edits_of(id) == later.edits_of(id),
        same_value(record_in(before, id, action), record_in(after, id, action)),
        record_in(after, id, action).ease == record_in(later, id, action).ease,
        record_in(after, id, action).disabled == record_in(later, id, action).disabled,
{
    let r0 = record_in(before, id, action);
    match back.keyframes {
        Some(had) => {
            let points = r0.keyframes->0@;
            let told = match result {
                Ok(change) => Ok(change.old_keyframes->0@),
                Err(fault) => Err(fault),
            };
            repointing_goes_back(host, id, action, had@, points, later, after, told);
        },
        None => {
            if back.to is Some {
                let value = r0.action->Constant_0;
                match result {
                    Ok(done) => {
                        retargeting_goes_back(
                            host,
                            id,
                            action,
                            back,
                            value,
                            later,
                            after,
                            Ok((json_in(done.old_to), json_in(back.to))),
                        );
                    },
                    Err(fault) => {
                        retargeting_goes_back(
                            host,
                            id,
                            action,
                            back,
                            value,
                            later,
                            after,
                            Err(fault),
                        );
                    },
                }
            }
        },
    }
}

/// The ease that an inverse asks for is the one that there was.
proof fn old_ease_returns(
    ease: Option<Ease>,
    param: EaseParam,
    result: Result<Option<Ease>, Fault>,
)
    requires
        ease_travels(ease),
        is_old_ease(ease, param),
        op_ease_resolves(Some(param), result),
    ensures
        result == Ok::<Option<Ease>, Fault>(
            match ease {
                Some(ease) => Some(ease),
                None => Some(Ease::Fn(EaseFn { id: 0 })),
            },
        ),
{
    match ease {
        Some(_) => {
            optional_ease_survives(ease, Some(param), result);
        },
        None => {
            let linear = Some(Ease::Fn(EaseFn { id: 0 }));
            assert(ease_table(0) == "linear"@);
            optional_ease_survives(linear, Some(param), result);
        },
    }
}

/// The metadata that an inverse puts back is what there was.
proof fn old_meta_returns(
    id: TimelineId,
    action: ActionId,
    patch: &UpdatePatch,
    back: &UpdatePatch,
    before: EditsModel,
    between: EditsModel,
    after: EditsModel,
)
    requires
        before.clip_meta.contains_key(action.bits) ==> !before.clip_meta[action.bits].is_empty(),
        between.clip_meta == (if patch.label is Some || patch.color is Some {
            before.with_meta(action.bits, patched_meta(before.meta_of(action.bits), *patch))
        } else {
            before
        }).clip_meta,
        back.label == match patch.label {
            Some(_) => Some(before.meta_of(action.bits).label),
            None => None,
        },
        back.color == match patch.color {
            Some(_) => Some(before.meta_of(action.bits).color),
            None => None,
        },
        after.clip_meta == (if back.label is Some || back.color is Some {
            between.with_meta(action.bits, patched_meta(between.meta_of(action.bits), *back))
        } else {
            between
        }).clip_meta,
    ensures
        after.clip_meta == before.clip_meta,
{
    let had = before.meta_of(action.bits);
    if patch.label is Some || patch.color is Some {
        let patched = patched_meta(had, *patch);
        assert(between.meta_of(action.bits) == patched);
        assert(patched_meta(patched, *back) == had);
    }
    assert(after.clip_meta =~= before.clip_meta);
}

/// Updating a clip back after it was updated, with nothing but baking in
/// between: the clips are as they were, but that a linear ease by name that was
/// changed is cleared. The clip is constant or keyframed, and the application reads
/// what it wrote.
pub proof fn updating_is_undone<H: RemoteHost>(
    host: &H,
    id: TimelineId,
    op: EditOp,
    outcome: OpResult,
    inverse: EditOp,
    before: StudioModel,
    between: StudioModel,
    later: StudioModel,
    after: StudioModel,
    result: Applied,
)
    requires
        reads_back(host),
        tidy(id, before),
        op matches EditOp::Update { action_id, .. } && {
            let actions = before.timelines[id].actions;
            let action = ActionId { bits: action_id };
            actions.has(action) ==> describable(actions.actions[action])
        },
        op_applied(host, id, op, before, between, Ok((outcome, inverse))),
        brought_back(id, between, later),
        op_applied(host, id, inverse, later, after, result),
    ensures
        result is Ok,
        brought_back(id, eased_back(before, id, op), after),
{
    edits_change_content_only(host, id, op, before, between, Ok((outcome, inverse)));
    edits_change_content_only(host, id, inverse, later, after, result);
    only_content_twice(id, before, between, later);
    only_content_twice(id, before, later, after);
    match op {
        EditOp::Update { action_id, patch } => {
            update_goes_back(
                host,
                id,
                action_id,
                &*patch,
                outcome,
                inverse,
                before,
                between,
                later,
                after,
                result,
            );
            let had = eased_back(before, id, op);
            assert(before.timelines.contains_key(id));
            assert(had.timelines.dom() =~= before.timelines.dom());
            assert forall|other: TimelineId|
                other != id implies #[trigger] after.edits_of(other) == had.edits_of(other) by {
                assert(had.edits_of(other) == before.edits_of(other));
            }
            assert(only_content(id, had, after));
        },
        _ => {},
    }
}

proof fn update_goes_back<H: RemoteHost>(
    host: &H,
    id: TimelineId,
    action_id: u64,
    patch: &UpdatePatch,
    outcome: OpResult,
    inverse: EditOp,
    before: StudioModel,
    between: StudioModel,
    later: StudioModel,
    after: StudioModel,
    result: Applied,
)
    requires
        reads_back(host),
        tidy(id, before),
        before.timelines[id].actions.has(ActionId { bits: action_id }) ==> describable(
            record_in(before, id, ActionId { bits: action_id }),
        ),
        update_applied(host, id, action_id, *patch, before, between, Ok((outcome, inverse))),
        clips_alike(id, between, later),
        later.catalog == before.catalog,
        later.registry == before.registry,
        op_applied(host, id, inverse, later, after, result),
    ensures
        result is Ok,
        forall|op: EditOp|
            op matches EditOp::Update { action_id: x, patch: y } && x == action_id && *y == *patch
                ==> clips_alike(id, #[trigger] eased_back(before, id, op), after),
{
    let action = ActionId { bits: action_id };
    let (eased, mid, changed) = choose|
        eased: Result<Option<Ease>, Fault>,
        mid: StudioModel,
        changed: Result<ValueChange, Fault>,
    | #[trigger]
        update_stepped(
            host,
            id,
            action_id,
            *patch,
            before,
            eased,
            mid,
            changed,
            between,
            Ok((outcome, inverse)),
        );
    let change = changed->Ok_0;
    let back = *inverse->Update_patch;
    assert(mid.timelines[id].actions.has(action));
    value_change_leaves(host, id, action, patch, before, mid, &change);
    let (eased1, mid1, changed1) = choose|
        eased: Result<Option<Ease>, Fault>,
        mid: StudioModel,
        changed: Result<ValueChange, Fault>,
    | #[trigger]
        update_stepped(
            host,
            id,
            action_id,
            back,
            later,
            eased,
            mid,
            changed,
            after,
            result,
        );
    let (r0, r1) = (record_in(before, id, action), record_in(mid, id, action));
    let (r2, r3) = (record_in(between, id, action), record_in(later, id, action));
    assert(r2 == repatched(r1, *patch, eased->Ok_0));
    assert(between.timelines[id].actions.has(action));
    assert(between.timelines[id].actions.actions.dom().contains(action));
    assert(later.timelines[id].actions.actions.dom().contains(action));
    assert(same_action(r2, r3));
    assert(patch_fault(back) is None);
    if patch.ease is Some {
        old_ease_returns(r1.ease, back.ease->0, eased1);
    }
    assert(eased1 is Ok);
    value_change_goes_back(
        host,
        id,
        action,
        &change,
        &back,
        before,
        mid,
        later,
        mid1,
        changed1,
    );
    assert(mid1.timelines[id].actions.actions.dom().contains(action));
    assert(result is Ok);
    let (r4, r5) = (record_in(mid1, id, action), record_in(after, id, action));
    assert(r5 == repatched(r4, back, eased1->Ok_0));
    let cleared = patch.ease is Some && linear_by_name(r0);
    let back_to = if cleared {
        ActionRecord { ease: None, ..r0 }
    } else {
        r0
    };
    assert(r5.ease == back_to.ease);
    assert(r5.disabled == r0.disabled);
    assert(same_action(back_to, r5));
    old_meta_returns(
        id,
        action,
        patch,
        &back,
        before.edits_of(id),
        between.edits_of(id),
        after.edits_of(id),
    );
    assert(between.timelines[id].actions.actions.dom()
        =~= mid.timelines[id].actions.actions.dom());
    assert(after.timelines[id].actions.actions.dom() =~= mid1.timelines[id].actions.actions.dom());
    let (w, y) = (before.timelines[id], after.timelines[id]);
    let x = if cleared {
        TimelineModel { actions: w.actions.with_record(action, back_to), ..w }
    } else {
        w
    };
    assert(x.actions.actions.dom() =~= w.actions.actions.dom());
    assert forall|i: int| 0 <= i < x.tracks.len() implies (#[trigger] x.tracks[i]).lanes()
        == y.tracks[i].lanes() by {
        assert(w.tracks[i].lanes() == mid.timelines[id].tracks[i].lanes());
        assert(between.timelines[id].tracks[i].lanes() == later.timelines[id].tracks[i].lanes());
        assert(later.timelines[id].tracks[i].lanes() == mid1.timelines[id].tracks[i].lanes());
    }
    assert forall|other: ActionId| #[trigger] x.actions.has(other) implies same_action(
        x.actions.actions[other],
        y.actions.actions[other],
    ) by {
        assert(w.actions.has(other));
        if other != action {
            assert(w.actions.actions.dom().contains(other));
            assert(between.timelines[id].actions.has(other));
            assert(between.timelines[id].actions.actions.dom().contains(other));
            assert(later.timelines[id].actions.has(other));
        }
    }
    assert(same_clips(x, y));
    assert forall|op: EditOp|
        op matches EditOp::Update { action_id: x, patch: y } && x == action_id && *y
            == *patch implies clips_alike(id, #[trigger] eased_back(before, id, op), after) by {
        assert(eased_back(before, id, op).timelines[id] == x);
        assert(eased_back(before, id, op).edits_of(id) == before.edits_of(id));
    }
}

} // verus!
