//! That edits come to what was asked for.
use crate::action::{
    sorted_keyframes, Action, ActionId, ActionKey, ActionRecord, CubicBezier, Ease, EaseFn,
    InterpFn, Value,
};
use crate::bevy_motiongfx::manager::TimelineId;
use crate::bevy_motiongfx::remote::batch::insert::{
    animates, asset_of_facts, base_at, base_found, first_asset, insert_applied,
    insert_keyframes_applied, insert_recorded, insert_stepped, is_inserted, is_live, is_placed,
    is_put_in_place, keyframes_stepped, live_number, made_room, relative_resolved, room_taken,
    start_of, timeline_placed, InsertTarget,
};
use crate::bevy_motiongfx::remote::batch::laws::{baking_keeps_clips, same_action};
use crate::bevy_motiongfx::remote::batch::op::{
    Delta, EditOp, KeyframeDoc, KeyframeTime, OpResult, Placement, UpdatePatch,
};
use crate::bevy_motiongfx::remote::batch::restore_laws::{inserting_adds, lanes_of};
use crate::bevy_motiongfx::remote::batch::update::{
    attributes_set, points_replaced, points_stepped, target_replaced, target_stepped,
    update_applied, update_stepped, value_changed, ValueChange,
};
use crate::bevy_motiongfx::remote::batch::value::{
    all_glided, doc_numbers, doc_times, is_glided, is_smoothed, keyframes_read, sorted_docs,
};
use crate::bevy_motiongfx::remote::catalog::CatalogModel;
use crate::bevy_motiongfx::remote::ease::{op_ease_resolves, EaseParam};
use crate::bevy_motiongfx::remote::fault::{CatalogError, Fault};
use crate::bevy_motiongfx::remote::host::{
    decodes, encodes, sums, AssetFacts, LiveFacts, RemoteHost,
};
use crate::bevy_motiongfx::remote::json::{Json, Number};
use crate::bevy_motiongfx::remote::studio::StudioModel;
use crate::pipeline::PipelineKey;
use crate::remote_laws::{kept_are_given, runs_through_given};
use crate::remote::{typed_keyframes, RemoteEditError, RemoteFieldKey, RemoteKeyframe};
use crate::seqs::{ascending, stable_sort_is_sound};
use crate::subject::{Subject, ENTITY_TAG};
use crate::timeline::TimelineModel;
use crate::time::Ticks;
use crate::track::edit_laws::moved_clips_have_their_time;
use crate::track::{has_clip, lane, reschedule_outcome, rescheduled, Lanes};
use crate::sequence::non_overlapping;
use std::sync::Arc;
use vstd::prelude::*;

verus! {

/// Whether a lane of a track has a clip of an action, which starts as asked for: at the
/// very time, or no earlier and for as long as asked for.
pub open spec fn is_there(model: TimelineModel, at: Placement, action: ActionId, exact: bool) -> bool {
    exists|key: ActionKey, i: int| #[trigger]
        is_clip_there(model.tracks[at.track as int].lanes(), key, i, at, action, exact)
}

/// Whether a clip is that of an action, and starts as asked for.
pub open spec fn is_clip_there(
    lanes: Lanes,
    key: ActionKey,
    i: int,
    at: Placement,
    action: ActionId,
    exact: bool,
) -> bool {
    &&& lanes.contains_key(key)
    &&& 0 <= i < lanes[key].len()
    &&& lanes[key][i].id == action
    &&& exact && start_of(at) >= 0 ==> lanes[key][i].start == start_of(at)
    &&& !exact ==> lanes[key][i].start >= start_of(at) && lanes[key][i].duration == at.duration
        && i == lanes[key].len() - 1
}

/// Whether the subject of a key is known by its bits.
pub open spec fn is_known_by(model: TimelineModel, key: ActionKey, bits: u64) -> bool {
    let slot = (key.subject_id.type_id, key.subject_id.uid);
    model.actions.known.contains_key(slot) && model.actions.known[slot] == bits
}

/// A clip that was put on a timeline is there, of a new action with the target and the ease
/// that were asked for, muted exactly where that was asked for, and the other actions stay
/// as they are.
pub proof fn placed_clips_are_as_asked(
    before: TimelineModel,
    after: TimelineModel,
    remote: Map<PipelineKey, InterpFn>,
    at: &Placement,
    key: RemoteFieldKey,
    subject: Subject,
    target: InsertTarget,
    ease: Option<Ease>,
    exact: bool,
    action: ActionId,
)
    requires
        timeline_placed(
            before,
            after,
            remote,
            *at,
            key,
            subject,
            target,
            ease,
            exact,
            Ok(action),
        ),
    ensures
        !before.actions.has(action),
        after.actions.has(action),
        ({
            let record = after.actions.actions[action];
            &&& record.disabled <==> at.enabled == Some(false)
            &&& record.ease == ease
            &&& record.key.field == key.field
            &&& record.key.subject_id.type_id == subject.type_id
            &&& is_known_by(after, record.key, subject.bits)
            &&& record.target_type == key.pipeline.target_id
            &&& target matches InsertTarget::Constant(value) ==> record.action == Action::Constant(
                value,
            ) && record.keyframes is None
            &&& target matches InsertTarget::Keyframes(points) ==> {
                &&& record.keyframes is Some
                &&& record.keyframes->0@ == sorted_keyframes(typed_keyframes(points))
                &&& record.action == Action::Constant(
                    sorted_keyframes(typed_keyframes(points)).last().value,
                )
            }
        }),
        forall|other: ActionId|
            other != action ==> #[trigger] after.actions.actions[other]
                == before.actions.actions[other] && after.actions.has(other)
                == before.actions.has(other),
        at.track < after.tracks.len(),
        is_there(after, *at, action, exact),
{
    let ready = choose|ready: TimelineModel|
        {
            &&& #[trigger] made_room(before, ready, *at, exact)
            &&& room_taken(
                ready,
                after,
                remote,
                *at,
                key,
                subject,
                target,
                ease,
                exact,
                Ok(action),
            )
        };
    let (inserted, moved, id) = choose|inserted: TimelineModel, moved: TimelineModel, id: ActionId|
        {
            &&& is_inserted(ready, inserted, remote, *at, key, subject, target, ease, id)
            &&& #[trigger] is_placed(inserted, moved, after, *at, exact, id, Ok(action))
        };
    let t = at.track as int;
    assert(id == action);
    assert(at.track < ready.tracks.len());
    inserting_adds(ready, inserted, remote, at, key, subject, target, ease, action);
    if exact {
        assert(is_put_in_place(inserted, moved, *at, id, Ok(())));
        moved_is_there(inserted.tracks[t].lanes(), moved.tracks[t].lanes(), at, action);
        assert(after.tracks == moved.tracks);
    } else {
        let lanes = ready.tracks[t].lanes();
        let akey = inserted.actions.actions[action].key;
        let n = lane(lanes, akey).len() as int;
        assert(lanes_of(inserted, t) == inserted.tracks[t].lanes());
        assert(after.tracks == inserted.tracks);
        assert(is_clip_there(after.tracks[t].lanes(), akey, n, *at, action, false));
    }
}

/// A clip that was given its time has it.
proof fn moved_is_there(before: Lanes, after: Lanes, at: &Placement, id: ActionId)
    requires
        reschedule_outcome(before, after, id, start_of(*at), None, Ok(())),
    ensures
        exists|key: ActionKey, i: int| #[trigger] is_clip_there(after, key, i, *at, id, true),
{
    let key = lane_of_moved(before, after, id, start_of(*at), None);
    moved_clips_have_their_time(before[key], id, start_of(*at), None);
    let clips = after[key];
    let i = choose|i: int|
        0 <= i < clips.len() && (#[trigger] clips[i]).id == id && (start_of(*at) >= 0
            ==> clips[i].start == start_of(*at));
    assert(is_clip_there(after, key, i, *at, id, true));
}

/// The lane of a clip that was given another time.
pub proof fn lane_of_moved(
    before: Lanes,
    after: Lanes,
    id: ActionId,
    start: Ticks,
    duration: Option<Ticks>,
) -> (key: ActionKey)
    requires
        reschedule_outcome(before, after, id, start, duration, Ok(())),
    ensures
        before.contains_key(key),
        has_clip(before[key], id),
        after == before.insert(key, rescheduled(before[key], id, start, duration)),
{
    choose|key: ActionKey| #[trigger]
        before.contains_key(key) && has_clip(before[key], id) && non_overlapping(
            rescheduled(before[key], id, start, duration),
        ) && after == before.insert(key, rescheduled(before[key], id, start, duration))
}

/// An inserted clip leads to the target that was asked for, with the ease that was asked
/// for, and is there as asked for. A relative target is told. What takes the insert
/// back removes the clip, and the clip has the label and the colour that were asked for.
pub proof fn inserted_clips_are_as_asked<H: RemoteHost>(
    host: &H,
    id: TimelineId,
    at: &Placement,
    to: &Json,
    to_relative: Option<Delta>,
    exact: bool,
    before: StudioModel,
    after: StudioModel,
    outcome: OpResult,
    inverse: EditOp,
)
    requires
        insert_applied(
            host,
            id,
            *at,
            *to,
            to_relative,
            exact,
            before,
            after,
            Ok((outcome, inverse)),
        ),
    ensures
        outcome is Action,
        inverse == (EditOp::Remove { track: at.track, action_id: outcome->action_id }),
        outcome->resolved_to is Some <==> to_relative is Some,
        after.timelines.contains_key(id),
        ({
            let action = ActionId { bits: outcome->action_id };
            let model = after.timelines[id];
            let record = model.actions.actions[action];
            let aim = if to_relative is Some {
                *outcome->resolved_to->0
            } else {
                *to
            };
            &&& model.actions.has(action)
            &&& record.disabled <==> at.enabled == Some(false)
            &&& op_ease_resolves(at.ease, Ok(record.ease))
            &&& before.catalog.entry(at.component@, at.field@) is Some
            &&& record.key.field == before.catalog.entry(at.component@, at.field@)->0.key().field
            &&& record.action is Constant
            &&& decodes(
                host,
                before.catalog.entry(at.component@, at.field@)->0.pipeline.target_id,
                aim,
                Ok(record.action->Constant_0),
            )
            &&& is_there(model, *at, action, exact)
            &&& at.asset_of is None && !before.catalog.is_resource(at.component@, at.field@)
                ==> record.key.subject_id.type_id == ENTITY_TAG && is_known_by(
                model,
                record.key,
                at.entity,
            )
            &&& at.label is Some ==> after.edits_of(id).meta_of(action.bits).label == at.label
            &&& at.color is Some ==> after.edits_of(id).meta_of(action.bits).color == at.color
            &&& at.asset_of is Some ==> after.edits_of(id).asset_refs.contains_key(action.bits)
                && after.edits_of(id).asset_refs[action.bits] == (at.entity, at.asset_of->0)
        }),
{
    let (eased, settled, between, planned) = choose|
        eased: Result<Option<Ease>, Fault>,
        settled: Result<Option<Arc<Json>>, Fault>,
        between: StudioModel,
        planned: Result<(RemoteFieldKey, Subject, Value), Fault>,
    | #[trigger]
        insert_stepped(
            host,
            id,
            *at,
            *to,
            to_relative,
            exact,
            before,
            eased,
            settled,
            between,
            planned,
            after,
            Ok((outcome, inverse)),
        );
    let (key, subject, value) = planned->Ok_0;
    let ease = eased->Ok_0;
    let (model, placed) = choose|model: TimelineModel, placed: Result<ActionId, RemoteEditError>|
        {
            &&& #[trigger] timeline_placed(
                between.timelines[id],
                model,
                between.registry.remote@,
                *at,
                key,
                subject,
                InsertTarget::Constant(value),
                ease,
                exact,
                placed,
            )
            &&& match placed {
                Err(error) => {
                    &&& Ok::<(OpResult, EditOp), Fault>((outcome, inverse)) == Err::<
                        (OpResult, EditOp),
                        Fault,
                    >(Fault::Edit(error))
                    &&& after == between.with_timeline(id, model)
                },
                Ok(action) => {
                    &&& Ok::<(OpResult, EditOp), Fault>((outcome, inverse)) == Ok::<
                        (OpResult, EditOp),
                        Fault,
                    >(
                        (
                            OpResult::Action { action_id: action.bits, resolved_to: settled->Ok_0 },
                            EditOp::Remove { track: at.track, action_id: action.bits },
                        ),
                    )
                    &&& after
                        == insert_recorded(
                        between.with_timeline(id, model),
                        id,
                        action.bits,
                        *at,
                    )
                },
            }
        };
    placed_clips_are_as_asked(
        between.timelines[id],
        model,
        between.registry.remote@,
        at,
        key,
        subject,
        InsertTarget::Constant(value),
        ease,
        exact,
        placed->Ok_0,
    );
    assert(after.timelines[id] == model);
    assert(placed->Ok_0 == ActionId { bits: outcome->action_id });
}

/// A keyframed clip that was inserted runs through the keyframes that were asked for and ends
/// where the latest one is. It has the ease that was asked for, is there as asked for, and
/// what takes the insert back removes it.
pub proof fn inserted_keyframes_are_as_asked<H: RemoteHost>(
    host: &H,
    id: TimelineId,
    at: &Placement,
    keyframes: Seq<KeyframeDoc>,
    exact: bool,
    before: StudioModel,
    after: StudioModel,
    outcome: OpResult,
    inverse: EditOp,
)
    requires
        insert_keyframes_applied(
            host,
            id,
            *at,
            keyframes,
            exact,
            before,
            after,
            Ok((outcome, inverse)),
        ),
    ensures
        outcome is Action,
        outcome->resolved_to is None,
        inverse == (EditOp::Remove { track: at.track, action_id: outcome->action_id }),
        after.timelines.contains_key(id),
        ({
            let action = ActionId { bits: outcome->action_id };
            let model = after.timelines[id];
            let record = model.actions.actions[action];
            let entry = before.catalog.entry(at.component@, at.field@);
            &&& model.actions.has(action)
            &&& !before.timelines[id].actions.has(action)
            &&& record.disabled <==> at.enabled == Some(false)
            &&& op_ease_resolves(at.ease, Ok(record.ease))
            &&& entry is Some
            &&& record.key.field == entry->0.key().field
            &&& exists|points: Seq<RemoteKeyframe>| #[trigger]
                keyframes_read(host, keyframes, entry->0.pipeline.target_id, Ok(points))
                    && runs_through_given(record, points)
            &&& is_there(model, *at, action, exact)
            &&& at.asset_of is None && !before.catalog.is_resource(at.component@, at.field@)
                ==> record.key.subject_id.type_id == ENTITY_TAG && is_known_by(
                model,
                record.key,
                at.entity,
            )
            &&& at.label is Some ==> after.edits_of(id).meta_of(action.bits).label == at.label
            &&& at.color is Some ==> after.edits_of(id).meta_of(action.bits).color == at.color
        }),
{
    let (eased, planned) = choose|
        eased: Result<Option<Ease>, Fault>,
        planned: Result<(RemoteFieldKey, Subject, Seq<RemoteKeyframe>), Fault>,
    | #[trigger]
        keyframes_stepped(
            host,
            id,
            *at,
            keyframes,
            exact,
            before,
            eased,
            planned,
            after,
            Ok((outcome, inverse)),
        );
    let (key, subject, points) = planned->Ok_0;
    let ease = eased->Ok_0;
    let entry = before.catalog.entry(at.component@, at.field@);
    assert(keyframes_read(host, keyframes, entry->0.pipeline.target_id, Ok(points)));
    let (model, placed) = choose|model: TimelineModel, placed: Result<ActionId, RemoteEditError>|
        {
            &&& #[trigger] timeline_placed(
                before.timelines[id],
                model,
                before.registry.remote@,
                *at,
                key,
                subject,
                InsertTarget::Keyframes(points),
                ease,
                exact,
                placed,
            )
            &&& match placed {
                Err(error) => {
                    &&& Ok::<(OpResult, EditOp), Fault>((outcome, inverse)) == Err::<
                        (OpResult, EditOp),
                        Fault,
                    >(Fault::Edit(error))
                    &&& after == before.with_timeline(id, model)
                },
                Ok(action) => {
                    &&& Ok::<(OpResult, EditOp), Fault>((outcome, inverse)) == Ok::<
                        (OpResult, EditOp),
                        Fault,
                    >(
                        (
                            OpResult::Action { action_id: action.bits, resolved_to: None },
                            EditOp::Remove { track: at.track, action_id: action.bits },
                        ),
                    )
                    &&& after == insert_recorded(
                        before.with_timeline(id, model),
                        id,
                        action.bits,
                        *at,
                    )
                },
            }
        };
    placed_clips_are_as_asked(
        before.timelines[id],
        model,
        before.registry.remote@,
        at,
        key,
        subject,
        InsertTarget::Keyframes(points),
        ease,
        exact,
        placed->Ok_0,
    );
    assert(after.timelines[id] == model);
    assert(placed->Ok_0 == ActionId { bits: outcome->action_id });
    kept_are_given(model.actions.actions[placed->Ok_0], points);
}

/// Whether the last clip of a lane of the field on the track was baked to end at a number.
pub open spec fn ends_at<H: RemoteHost>(
    host: &H,
    catalog: CatalogModel,
    model: TimelineModel,
    at: Placement,
    key: ActionKey,
    written: Json,
    base: Number,
) -> bool {
    let lanes = model.tracks[at.track as int].lanes();
    let action = lanes[key].last().id;
    &&& at.track < model.tracks.len()
    &&& lanes.contains_key(key)
    &&& animates(catalog, model.actions, key, at.entity, at.component@, at.field@)
    &&& model.actions.has(action)
    &&& model.actions.actions[action].segment is Some
    &&& encodes(host, model.actions.actions[action].segment->0.end, Some(written))
    &&& written.number() == Some(base)
}

/// A relative target is as far as asked for from where the last clip of the field ends,
/// or, where there is none, from the live value.
pub proof fn relative_targets_go_on<H: RemoteHost>(
    host: &H,
    id: TimelineId,
    at: Placement,
    to: Json,
    delta: Delta,
    before: StudioModel,
    after: StudioModel,
    sum: Json,
)
    requires
        relative_resolved(host, id, at, to, delta, before, after, Ok(sum)),
        forall|i: int|
            0 <= i < after.timelines[id].tracks.len() ==> (
            #[trigger] after.timelines[id].tracks[i]).laid_out(),
    ensures
        to is Null,
        at.asset_of is None,
        exists|base: Number| #[trigger]
            sums(host, base, delta, sum) && ((exists|key: ActionKey, written: Json| #[trigger]
                ends_at(host, before.catalog, after.timelines[id], at, key, written, base)) || (
            exists|facts: LiveFacts| #[trigger]
                is_live(host, at, facts) && facts.entity_exists && facts.is_component
                    && facts.number == Some(base))),
{
    let model = after.timelines[id];
    let base = choose|base: Number|
        {
            &&& #[trigger] sums(host, base, delta, sum)
            &&& base_found(host, before.catalog, model, at, Ok(base))
        };
    assert(base_found(host, before.catalog, model, at, Ok(base)));
    if exists|i: int, start: Json, end: Json|
        {
            &&& #[trigger] base_at(host, before.catalog, model, at, i, start, end)
            &&& end.number() == Some(base)
        } {
        let (i, start, end) = choose|i: int, start: Json, end: Json|
            {
                &&& #[trigger] base_at(host, before.catalog, model, at, i, start, end)
                &&& end.number() == Some(base)
            };
        let track = model.tracks[at.track as int];
        track.lane_at(i);
        assert(ends_at(host, before.catalog, model, at, track.spans()[i].0, end, base));
    } else {
        let facts = choose|facts: LiveFacts|
            {
                &&& #[trigger] is_live(host, at, facts)
                &&& Ok::<Number, Fault>(base) == live_number(
                    facts,
                    at.entity,
                    at.component,
                    at.field,
                )
            };
        assert(is_live(host, at, facts));
    }
}

/// The asset behind a component is the first that it has.
pub proof fn assets_are_the_first(candidates: Seq<Option<u64>>)
    ensures
        first_asset(candidates) is None <==> forall|i: int|
            0 <= i < candidates.len() ==> (#[trigger] candidates[i]) is None,
        first_asset(candidates) is Some ==> exists|i: int|
            0 <= i < candidates.len() && #[trigger] candidates[i] == first_asset(candidates)
                && forall|j: int| 0 <= j < i ==> (#[trigger] candidates[j]) is None,
    decreases candidates.len(),
{
    if candidates.len() > 0 && candidates[0] is None {
        let rest = candidates.skip(1);
        assets_are_the_first(rest);
        if first_asset(rest) is Some {
            let i = choose|i: int|
                0 <= i < rest.len() && #[trigger] rest[i] == first_asset(rest) && forall|j: int|
                    0 <= j < i ==> (#[trigger] rest[j]) is None;
            assert(candidates[i + 1] == rest[i]);
            assert forall|j: int| 0 <= j < i + 1 implies (#[trigger] candidates[j]) is None by {
                if j > 0 {
                    assert(rest[j - 1] == candidates[j]);
                }
            }
        } else {
            assert forall|i: int| 0 <= i < candidates.len() implies (
            #[trigger] candidates[i]) is None by {
                if i > 0 {
                    assert(rest[i - 1] == candidates[i]);
                }
            }
        }
    }
}

/// The asset behind a component is found exactly where the component is on the entity and
/// refers to one.
pub proof fn assets_are_found(facts: AssetFacts, entity: u64, component: String)
    ensures
        asset_of_facts(facts, entity, component) is Ok <==> facts.is_registered
            && facts.is_component && facts.entity_exists && facts.has_component && exists|i: int|
            0 <= i < facts.candidates@.len() && (#[trigger] facts.candidates@[i]) is Some,
        asset_of_facts(facts, entity, component) matches Ok(asset) ==> facts.candidates@.contains(
            Some(asset),
        ),
{
    assets_are_the_first(facts.candidates@);
}

/// Whether the ease of a keyframe is the curve along which the values glide from the one in
/// front of it, if there is such a curve.
pub open spec fn glides_into<H: RemoteHost>(host: &H, smooth: Seq<KeyframeDoc>, i: int) -> bool {
    exists|times: Vec<KeyframeTime>, values: Vec<Number>, curve: Option<CubicBezier>| #[trigger]
        is_glide(host, smooth, i, &times, &values, curve)
}

/// Whether a curve is the one along which the values of keyframes glide into one of them, and
/// is its ease.
pub open spec fn is_glide<H: RemoteHost>(
    host: &H,
    smooth: Seq<KeyframeDoc>,
    i: int,
    times: &Vec<KeyframeTime>,
    values: &Vec<Number>,
    curve: Option<CubicBezier>,
) -> bool {
    &&& times@.len() == smooth.len()
    &&& values@.len() == smooth.len()
    &&& forall|k: int|
        0 <= k < smooth.len() ==> (#[trigger] smooth[k]).t == times@[k]
            && smooth[k].value.number() == Some(values@[k])
    &&& call_ensures(H::glide, (host, times, values, (i - 1) as usize), curve)
    &&& curve is Some ==> smooth[i].ease == Some(EaseParam::Curve(curve->0))
    &&& curve is None ==> smooth[i].ease is None
}

/// Keyframes that are smoothed are the same ones in the order of their times: nothing but
/// eases change, not that of the first, and not that of a step. They are refused exactly
/// where there are two of which one is no number.
pub proof fn smoothing_changes_eases_alone<H: RemoteHost>(
    host: &H,
    docs: Seq<KeyframeDoc>,
    result: Result<Seq<KeyframeDoc>, Fault>,
)
    requires
        is_smoothed(host, docs, result),
    ensures
        result is Err <==> docs.len() >= 2 && exists|i: int|
            0 <= i < docs.len() && (#[trigger] docs[i]).value.number() is None,
        docs.len() < 2 ==> result == Ok::<Seq<KeyframeDoc>, Fault>(docs),
        docs.len() >= 2 && result is Ok ==> exists|sorted: Seq<KeyframeDoc>|
            {
                let smooth = result->Ok_0;
                &&& #[trigger] sorted.to_multiset() == docs.to_multiset()
                &&& smooth.len() == docs.len()
                &&& sorted.len() == docs.len()
                &&& smooth[0] == sorted[0]
                &&& forall|i: int, j: int|
                    0 <= i < j < smooth.len() ==> (#[trigger] smooth[i]).t.spec_rank() <= (
                    #[trigger] smooth[j]).t.spec_rank()
                &&& forall|i: int|
                    0 <= i < smooth.len() ==> {
                        &&& (#[trigger] smooth[i]) == (KeyframeDoc {
                            ease: smooth[i].ease,
                            ..sorted[i]
                        })
                        &&& sorted[i].hold == Some(true) ==> smooth[i] == sorted[i]
                        &&& i > 0 && sorted[i].hold != Some(true) ==> glides_into(host, smooth, i)
                    }
            },
{
    if docs.len() >= 2 {
        let key = |doc: KeyframeDoc| doc.t.spec_rank();
        let sorted = sorted_docs(docs);
        stable_sort_is_sound(docs, key);
        assert forall|i: int| 0 <= i < docs.len() && (#[trigger] docs[i]).value.number() is None implies
            exists|j: int| 0 <= j < sorted.len() && (#[trigger] sorted[j]).value.number() is None by {
            assert(docs.contains(docs[i]));
            assert(sorted.contains(docs[i]));
            let j = choose|j: int| 0 <= j < sorted.len() && sorted[j] == docs[i];
            assert(sorted[j].value.number() is None);
        }
        match result {
            Err(_) => {
                let i = choose|i: int|
                    0 <= i < sorted.len() && (#[trigger] sorted[i]).value.number() is None;
                assert(sorted.contains(sorted[i]));
                assert(docs.contains(sorted[i]));
                let j = choose|j: int| 0 <= j < docs.len() && docs[j] == sorted[i];
                assert(docs[j].value.number() is None);
            },
            Ok(smooth) => {
                assert forall|i: int| 0 <= i < smooth.len() implies (#[trigger] smooth[i]) == (
                KeyframeDoc { ease: smooth[i].ease, ..sorted[i] }) && (sorted[i].hold == Some(true)
                    ==> smooth[i] == sorted[i]) by {}
                let (times, values) = choose|times: Vec<KeyframeTime>, values: Vec<Number>|
                    {
                        &&& times@ == doc_times(sorted)
                        &&& doc_numbers(sorted, values@)
                        &&& #[trigger] all_glided(host, &times, &values, sorted, smooth)
                    };
                assert forall|i: int|
                    0 < i < smooth.len() && sorted[i].hold != Some(true) implies #[trigger] glides_into(
                    host,
                    smooth,
                    i,
                ) by {
                    assert(is_glided(host, &times, &values, i - 1, sorted[i], smooth[i]));
                    let curve = choose|curve: Option<CubicBezier>| #[trigger]
                        call_ensures(H::glide, (host, &times, &values, (i - 1) as usize), curve)
                            && smooth[i] == (KeyframeDoc {
                            ease: match curve {
                                Some(curve) => Some(EaseParam::Curve(curve)),
                                None => None,
                            },
                            ..sorted[i]
                        });
                    assert forall|k: int| 0 <= k < smooth.len() implies (#[trigger] smooth[k]).t
                        == times@[k] && smooth[k].value.number() == Some(values@[k]) by {
                        assert(doc_times(sorted)[k] == sorted[k].t);
                        assert(smooth[k].t == sorted[k].t && smooth[k].value == sorted[k].value);
                    }
                    assert(is_glide(host, smooth, i, &times, &values, curve));
                }
                assert forall|i: int, j: int| 0 <= i < j < smooth.len() implies (
                #[trigger] smooth[i]).t.spec_rank() <= (#[trigger] smooth[j]).t.spec_rank() by {
                    assert(ascending(sorted, key));
                    assert(key(sorted[i]) <= key(sorted[j]));
                }
                assert(sorted.to_multiset() == docs.to_multiset());
            },
        }
    }
}

/// Whether a clip is as it was but for its value, and the other clips of its timeline are as
/// they were. No label changes.
pub open spec fn only_value_changed(
    id: TimelineId,
    action: ActionId,
    before: StudioModel,
    after: StudioModel,
) -> bool {
    let (a, b) = (before.timelines[id], after.timelines[id]);
    let (x, y) = (a.actions.actions[action], b.actions.actions[action]);
    &&& before.timelines.contains_key(id)
    &&& after.timelines.contains_key(id)
    &&& after.catalog == before.catalog
    &&& after.edits_of(id) == before.edits_of(id)
    &&& a.actions.has(action) == b.actions.has(action)
    &&& a.actions.has(action) ==> x == (ActionRecord {
        action: x.action,
        keyframes: x.keyframes,
        segment: x.segment,
        ..y
    })
    &&& same_lanes(a, b)
    &&& forall|other: ActionId|
        other != action && #[trigger] a.actions.has(other) ==> b.actions.has(other) && same_action(
            a.actions.actions[other],
            b.actions.actions[other],
        )
}

/// Whether two timelines have the same clips on the same tracks.
pub open spec fn same_lanes(a: TimelineModel, b: TimelineModel) -> bool {
    &&& a.tracks.len() == b.tracks.len()
    &&& forall|i: int|
        0 <= i < a.tracks.len() ==> (#[trigger] a.tracks[i]).lanes() == b.tracks[i].lanes()
}

/// Whether an action leads to a value that is written so.
pub open spec fn leads_to<H: RemoteHost>(
    host: &H,
    studio: StudioModel,
    record: ActionRecord,
    to: Json,
) -> bool {
    &&& studio.catalog.entry_of(record.key.field) is Some
    &&& record.action is Constant
    &&& decodes(
        host,
        studio.catalog.entry_of(record.key.field)->0.pipeline.target_id,
        to,
        Ok(record.action->Constant_0),
    )
}

/// Whether something is a number as far as asked for from where an action led to.
pub open spec fn is_further<H: RemoteHost>(
    host: &H,
    had: ActionRecord,
    delta: Delta,
    to: Json,
) -> bool {
    had.action is Constant ==> exists|base: Number, written: Json|
        written.number() == Some(base) && #[trigger] sums(host, base, delta, to)
            && #[trigger] encodes(host, had.action->Constant_0, Some(written))
}

/// A clip that is given another target leads there.
proof fn retargeted_leads_there<H: RemoteHost>(
    host: &H,
    id: TimelineId,
    action: ActionId,
    patch: &UpdatePatch,
    before: StudioModel,
    after: StudioModel,
    end: Arc<Json>,
    to: Arc<Json>,
)
    requires
        target_replaced(host, id, action, *patch, before, after, Ok((*end, *to))),
    ensures
        before.timelines.contains_key(id),
        before.timelines[id].actions.has(action),
        only_value_changed(id, action, before, after),
        leads_to(host, before, after.timelines[id].actions.actions[action], *to),
        patch.to is Some ==> *to == *patch.to->0,
        patch.to is None ==> is_further(
            host,
            before.timelines[id].actions.actions[action],
            patch.to_relative->0,
            *to,
        ),
{
    let (between, docs, written, target, decoded) = choose|
        between: StudioModel,
        docs: Option<Seq<KeyframeDoc>>,
        written: Option<(Json, Json)>,
        target: Result<Json, Fault>,
        decoded: Result<Value, CatalogError>,
    | #[trigger]
        target_stepped(
            host,
            id,
            action,
            *patch,
            before,
            between,
            docs,
            written,
            target,
            decoded,
            after,
            Ok((*end, *to)),
        );
    assert(before.timelines.contains_key(id));
    baking_keeps_clips(host, id, before, between);
    let (a, b, c) = (before.timelines[id], between.timelines[id], after.timelines[id]);
    assert(b.actions.has(action));
    assert(a.actions.actions.dom().contains(action));
    assert(a.actions.has(action));
    assert(same_action(a.actions.actions[action], b.actions.actions[action]));
    assert(c.tracks == b.tracks);
    assert forall|other: ActionId|
        other != action && #[trigger] a.actions.has(other) implies c.actions.has(other)
        && same_action(a.actions.actions[other], c.actions.actions[other]) by {
        assert(b.actions.actions.dom().contains(other));
        assert(b.actions.has(other));
    }
    if patch.to is None && a.actions.actions[action].action is Constant {
        let (_, had) = written->0;
        let base = had.number()->0;
        assert(sums(host, base, patch.to_relative->0, *to));
        assert(encodes(host, a.actions.actions[action].action->Constant_0, Some(had)));
    }
}

/// A clip that is given other keyframes runs through them.
proof fn rekeyed_runs_through<H: RemoteHost>(
    host: &H,
    id: TimelineId,
    action: ActionId,
    docs: Seq<KeyframeDoc>,
    before: StudioModel,
    after: StudioModel,
    had: Seq<KeyframeDoc>,
)
    requires
        points_replaced(host, id, action, docs, before, after, Ok(had)),
    ensures
        before.timelines.contains_key(id),
        before.timelines[id].actions.has(action),
        only_value_changed(id, action, before, after),
        runs_through(host, before, after.timelines[id].actions.actions[action], docs),
{
    let (written, read) = choose|
        written: Option<Seq<KeyframeDoc>>,
        read: Result<Seq<RemoteKeyframe>, Fault>,
    | #[trigger]
        points_stepped(host, id, action, docs, before, written, read, after, Ok(had));
    let points = read->Ok_0;
    let (a, b) = (before.timelines[id], after.timelines[id]);
    kept_are_given(b.actions.actions[action], points);
    assert(b.tracks == a.tracks);
    assert(after.edits_of(id) == before.edits_of(id));
    assert(keyframes_read(
        host,
        docs,
        before.catalog.entry_of(a.actions.actions[action].key.field)->0.pipeline.target_id,
        Ok(points),
    ));
    assert forall|other: ActionId|
        other != action && #[trigger] a.actions.has(other) implies b.actions.has(other)
        && same_action(a.actions.actions[other], b.actions.actions[other]) by {}
}

/// Whether an action runs through keyframes that are written so, in the order of their
/// times.
pub open spec fn runs_through<H: RemoteHost>(
    host: &H,
    studio: StudioModel,
    record: ActionRecord,
    docs: Seq<KeyframeDoc>,
) -> bool {
    &&& studio.catalog.entry_of(record.key.field) is Some
    &&& record.keyframes is Some
    &&& exists|points: Seq<RemoteKeyframe>| #[trigger]
        keyframes_read(
            host,
            docs,
            studio.catalog.entry_of(record.key.field)->0.pipeline.target_id,
            Ok(points),
        ) && runs_through_given(record, points)
}

/// An update changes what it names, to what it names, and nothing else: the target, as it
/// is given or as far as asked for from where the action led to; the keyframes; the
/// ease; whether it is muted; the label and the colour. No clip moves, and no other
/// action changes.
pub proof fn updates_change_what_is_named<H: RemoteHost>(
    host: &H,
    id: TimelineId,
    action_id: u64,
    patch: &UpdatePatch,
    before: StudioModel,
    after: StudioModel,
    outcome: OpResult,
    inverse: EditOp,
)
    requires
        update_applied(host, id, action_id, *patch, before, after, Ok((outcome, inverse))),
    ensures
        ({
            let action = ActionId { bits: action_id };
            let (a, b) = (before.timelines[id], after.timelines[id]);
            let (x, y) = (a.actions.actions[action], b.actions.actions[action]);
            let (m, n) = (
                before.edits_of(id).meta_of(action_id),
                after.edits_of(id).meta_of(action_id),
            );
            &&& before.timelines.contains_key(id) && a.actions.has(action)
            &&& outcome is Action && outcome->action_id == action_id
            &&& y.key == x.key && y.interp == x.interp && y.target_type == x.target_type
            &&& y.disabled == match patch.enabled {
                Some(enabled) => !enabled,
                None => x.disabled,
            }
            &&& patch.ease is None ==> y.ease == x.ease
            &&& patch.ease is Some ==> exists|ease: Option<Ease>| #[trigger]
                op_ease_resolves(patch.ease, Ok(ease)) && (y.ease == ease || y.ease is None
                    && ease == Some(Ease::Fn(EaseFn { id: 0 })))
            &&& patch.to is Some ==> leads_to(host, before, y, *patch.to->0)
            &&& patch.to_relative is Some ==> outcome->resolved_to is Some && leads_to(
                host,
                before,
                y,
                *outcome->resolved_to->0,
            ) && is_further(host, x, patch.to_relative->0, *outcome->resolved_to->0)
            &&& patch.keyframes is Some ==> runs_through(host, before, y, patch.keyframes->0@)
            &&& patch.to is None && patch.to_relative is None && patch.keyframes is None
                ==> y.action == x.action && y.keyframes == x.keyframes
            &&& patch.label is Some ==> n.label == patch.label->0
            &&& patch.label is None ==> n.label == m.label
            &&& patch.color is Some ==> n.color == patch.color->0
            &&& patch.color is None ==> n.color == m.color
            &&& same_lanes(a, b)
            &&& forall|other: ActionId|
                other != action && #[trigger] a.actions.has(other) ==> b.actions.has(other)
                    && same_action(a.actions.actions[other], b.actions.actions[other])
        }),
{
    let (eased, between, changed) = choose|
        eased: Result<Option<Ease>, Fault>,
        between: StudioModel,
        changed: Result<ValueChange, Fault>,
    | #[trigger]
        update_stepped(
            host,
            id,
            action_id,
            *patch,
            before,
            eased,
            between,
            changed,
            after,
            Ok((outcome, inverse)),
        );
    let action = ActionId { bits: action_id };
    let change = changed->Ok_0;
    assert(value_changed(host, id, action, *patch, before, between, Ok(change)));
    match &patch.keyframes {
        Some(docs) => {
            rekeyed_runs_through(
                host,
                id,
                action,
                docs@,
                before,
                between,
                change.old_keyframes->0@,
            );
        },
        None => {
            if patch.to is Some {
                retargeted_leads_there(
                    host,
                    id,
                    action,
                    patch,
                    before,
                    between,
                    change.old_to->0,
                    patch.to->0,
                );
            } else if patch.to_relative is Some {
                retargeted_leads_there(
                    host,
                    id,
                    action,
                    patch,
                    before,
                    between,
                    change.old_to->0,
                    change.resolved->0,
                );
            } else {
                assert(between == before);
            }
        },
    }
    assert(only_value_changed(id, action, before, between));
    attributes_are_set(id, action, patch, eased->Ok_0, change, between, after, outcome, inverse);
    let (a, b, c) = (before.timelines[id], between.timelines[id], after.timelines[id]);
    assert(op_ease_resolves(patch.ease, Ok(eased->Ok_0)));
    assert forall|other: ActionId| other != action && #[trigger] a.actions.has(other) implies {
        &&& c.actions.has(other)
        &&& same_action(a.actions.actions[other], c.actions.actions[other])
    } by {
        assert(b.actions.has(other));
    }
}

/// The ease, the mute state and the metadata of a clip are set as they are named.
proof fn attributes_are_set(
    id: TimelineId,
    action: ActionId,
    patch: &UpdatePatch,
    ease: Option<Ease>,
    change: ValueChange,
    before: StudioModel,
    after: StudioModel,
    outcome: OpResult,
    inverse: EditOp,
)
    requires
        attributes_set(id, action, *patch, ease, change, before, after, Ok((outcome, inverse))),
    ensures
        ({
            let (a, b) = (before.timelines[id], after.timelines[id]);
            let (x, y) = (a.actions.actions[action], b.actions.actions[action]);
            let (m, n) = (
                before.edits_of(id).meta_of(action.bits),
                after.edits_of(id).meta_of(action.bits),
            );
            &&& a.actions.has(action)
            &&& outcome == (OpResult::Action {
                action_id: action.bits,
                resolved_to: change.resolved,
            })
            &&& y == (ActionRecord { ease: y.ease, disabled: y.disabled, ..x })
            &&& y.disabled == match patch.enabled {
                Some(enabled) => !enabled,
                None => x.disabled,
            }
            &&& patch.ease is None ==> y.ease == x.ease
            &&& patch.ease is Some ==> y.ease == ease || y.ease is None && ease == Some(
                Ease::Fn(EaseFn { id: 0 }),
            )
            &&& patch.label is Some ==> n.label == patch.label->0
            &&& patch.label is None ==> n.label == m.label
            &&& patch.color is Some ==> n.color == patch.color->0
            &&& patch.color is None ==> n.color == m.color
            &&& b.tracks == a.tracks
            &&& forall|other: ActionId|
                other != action && #[trigger] a.actions.has(other) ==> b.actions.has(other)
                    && a.actions.actions[other] == b.actions.actions[other]
        }),
{
}

} // verus!
