//! That requests which edit a timeline come to what they ask for.
use crate::action::{Action, ActionClip, ActionId, ActionKey};
use crate::bevy_motiongfx::manager::TimelineId;
use crate::bevy_motiongfx::remote::batch::apply::{
    edit_concluded, edit_finished, op_applied, single_applied, single_stepped,
};
use crate::bevy_motiongfx::remote::batch::asked_laws::{
    inserted_clips_are_as_asked, inserted_keyframes_are_as_asked, is_clip_there, is_known_by,
    is_there, lane_of_moved, leads_to, same_lanes, updates_change_what_is_named,
};
use crate::bevy_motiongfx::remote::batch::insert::{entity_of, Applied};
use crate::bevy_motiongfx::remote::batch::laws::{baking_keeps_clips, same_action, same_clips};
use crate::bevy_motiongfx::remote::batch::op::{EditOp, KeyframeDoc, OpResult, Placement};
use crate::bevy_motiongfx::remote::batch::request::{
    batch_applied, batch_stepped, op_prepared, ActionRef, NameParam, RawOp,
};
use crate::bevy_motiongfx::remote::batch::value::{is_smoothed, keyframes_read};
use crate::bevy_motiongfx::remote::ease::op_ease_resolves;
use crate::bevy_motiongfx::remote::edit::{
    are_dangling, asked_of_track, asked_of_tracks, dangling_clips, dangling_in, entity_is,
    insert_answered, insert_requested, keyframes_answered, keyframes_requested, removals,
    tracks_added, update_answered, update_requested, InsertKeyframesParams, InsertParams,
    UpdateParams,
};
use crate::bevy_motiongfx::remote::fault::Fault;
use crate::bevy_motiongfx::remote::host::{decodes, RemoteHost};
use crate::bevy_motiongfx::remote::names::name_resolved;
use crate::bevy_motiongfx::remote::state::events::next_number;
use crate::bevy_motiongfx::remote::studio::StudioModel;
use crate::remote::RemoteKeyframe;
use crate::remote_laws::runs_through_given;
use crate::subject::ENTITY_TAG;
use crate::time::Ticks;
use crate::timeline::edit::is_empty_track;
use crate::timeline::TimelineModel;
use crate::track::edit_laws::moved_clips_have_their_time;
use crate::track::{reschedule_outcome, Lanes};
use vstd::prelude::*;

verus! {

/// Concluding a request leaves the clips and what is kept about them as they are, and tells
/// the next version.
proof fn concluding_keeps_clips<H: RemoteHost>(
    host: &H,
    id: TimelineId,
    forward: Seq<EditOp>,
    inverse: Seq<EditOp>,
    before: StudioModel,
    after: StudioModel,
    version: u64,
)
    requires
        edit_finished(host, id, forward, inverse, before, after, version),
        before.timelines.contains_key(id),
    ensures
        after.timelines.contains_key(id),
        same_clips(before.timelines[id], after.timelines[id]),
        after.edits_of(id).clip_meta == before.edits_of(id).clip_meta,
        after.catalog == before.catalog,
        version == next_number(before.edits_of(id).version),
        after.edits_of(id).version == version,
{
    let (between, ops) = choose|between: StudioModel, ops: Vec<EditOp>|
        {
            &&& ops@ == forward
            &&& #[trigger] edit_concluded(host, id, ops, inverse, before, between, after, version)
        };
    baking_keeps_clips(host, id, before, between);
    assert(after.timelines == between.timelines);
}

/// A request to insert a clip that is granted leaves a clip on the track that was asked for,
/// of an action on the field that was asked for, which leads to the target that was asked
/// for, with the ease that was asked for, and muted exactly where that was asked for.
pub proof fn requested_inserts_are_there<H: RemoteHost>(
    host: &H,
    p: InsertParams,
    before: StudioModel,
    after: StudioModel,
    outcome: OpResult,
    version: u64,
)
    requires
        insert_answered(host, p, before, after, Ok((outcome, version))),
        p.to_relative is None,
    ensures
        ({
            let id = TimelineId { raw: p.id };
            let action = ActionId { bits: outcome->action_id };
            let model = after.timelines[id];
            let record = model.actions.actions[action];
            let entry = before.catalog.entry(p.component@, p.field@);
            &&& outcome is Action
            &&& after.timelines.contains_key(id)
            &&& model.actions.has(action)
            &&& record.disabled <==> p.enabled == Some(false)
            &&& op_ease_resolves(p.ease, Ok(record.ease))
            &&& entry is Some
            &&& record.key.field == entry->0.key().field
            &&& record.action is Constant
            &&& decodes(host, entry->0.pipeline.target_id, p.to, Ok(record.action->Constant_0))
            &&& p.entity is Some && p.asset_of is None && !before.catalog.is_resource(
                p.component@,
                p.field@,
            ) ==> record.key.subject_id.type_id == ENTITY_TAG && is_known_by(
                model,
                record.key,
                p.entity->0,
            )
            &&& exists|key: ActionKey, i: int| #[trigger]
                is_asked_for(
                    model.tracks[p.track as int].lanes(),
                    key,
                    i,
                    action,
                    p.start_at,
                    p.duration,
                )
            &&& after.edits_of(id).version == version
            &&& p.label is Some ==> after.edits_of(id).meta_of(action.bits).label == p.label
            &&& p.color is Some ==> after.edits_of(id).meta_of(action.bits).color == p.color
        }),
{
    let id = TimelineId { raw: p.id };
    let (entity, op) = choose|entity: Result<u64, Fault>, op: EditOp| #[trigger]
        insert_requested(host, p, before, entity, op, after, Ok((outcome, version)));
    let (between, applied, stamped) = choose|
        between: StudioModel,
        applied: Applied,
        stamped: EditOp,
    | #[trigger]
        single_stepped(
            host,
            id,
            op,
            before,
            between,
            applied,
            stamped,
            after,
            Ok((outcome, version)),
        );
    match op {
        EditOp::Insert { at, to, to_relative, exact, restore_id } => {
            let (told, inverse) = applied->Ok_0;
            inserted_clips_are_as_asked_at(
                host,
                id,
                op,
                before,
                between,
                told,
                inverse,
            );
            concluding_keeps_clips(
                host,
                id,
                seq![stamped],
                seq![inverse],
                between,
                after,
                version,
            );
            let action = ActionId { bits: outcome->action_id };
            let (a, b) = (between.timelines[id], after.timelines[id]);
            assert(a.actions.has(action));
            assert(a.actions.actions.dom().contains(action));
            assert(same_action(a.actions.actions[action], b.actions.actions[action]));
            let t = p.track as int;
            let (key, i) = choose|key: ActionKey, i: int| #[trigger]
                is_clip_there(a.tracks[t].lanes(), key, i, *at, action, false);
            assert(a.tracks[t].lanes() == b.tracks[t].lanes());
            assert(is_asked_for(b.tracks[t].lanes(), key, i, action, p.start_at, p.duration));
        },
        _ => {},
    }
}

/// A request to insert a keyframed clip that is granted leaves a clip on the track that was
/// asked for, of an action on the field that was asked for, which runs through the
/// keyframes that were asked for, smoothed if that was asked for, with the ease that was
/// asked for, and muted exactly where that was asked for.
pub proof fn requested_keyframes_are_there<H: RemoteHost>(
    host: &H,
    p: InsertKeyframesParams,
    before: StudioModel,
    after: StudioModel,
    outcome: OpResult,
    version: u64,
)
    requires
        keyframes_answered(host, p, before, after, Ok((outcome, version))),
    ensures
        ({
            let id = TimelineId { raw: p.id };
            let action = ActionId { bits: outcome->action_id };
            let model = after.timelines[id];
            let record = model.actions.actions[action];
            let entry = before.catalog.entry(p.component@, p.field@);
            &&& outcome is Action
            &&& after.timelines.contains_key(id)
            &&& model.actions.has(action)
            &&& record.disabled <==> p.enabled == Some(false)
            &&& op_ease_resolves(p.ease, Ok(record.ease))
            &&& entry is Some
            &&& record.key.field == entry->0.key().field
            &&& exists|docs: Seq<KeyframeDoc>, points: Seq<RemoteKeyframe>|
                {
                    &&& #[trigger] keyframes_read(
                        host,
                        docs,
                        entry->0.pipeline.target_id,
                        Ok(points),
                    )
                    &&& runs_through_given(record, points)
                    &&& p.smooth == Some(true) ==> is_smoothed(host, p.keyframes@, Ok(docs))
                    &&& p.smooth != Some(true) ==> docs == p.keyframes@
                }
            &&& exists|key: ActionKey, i: int| #[trigger]
                is_asked_for(
                    model.tracks[p.track as int].lanes(),
                    key,
                    i,
                    action,
                    p.start_at,
                    p.duration,
                )
            &&& after.edits_of(id).version == version
            &&& p.label is Some ==> after.edits_of(id).meta_of(action.bits).label == p.label
            &&& p.color is Some ==> after.edits_of(id).meta_of(action.bits).color == p.color
        }),
{
    let id = TimelineId { raw: p.id };
    let (entity, smoothed, op) = choose|
        entity: Result<u64, Fault>,
        smoothed: Result<Seq<KeyframeDoc>, Fault>,
        op: EditOp,
    | #[trigger]
        keyframes_requested(
            host,
            p,
            before,
            entity,
            smoothed,
            op,
            after,
            Ok((outcome, version)),
        );
    let (between, applied, stamped) = choose|
        between: StudioModel,
        applied: Applied,
        stamped: EditOp,
    | #[trigger]
        single_stepped(
            host,
            id,
            op,
            before,
            between,
            applied,
            stamped,
            after,
            Ok((outcome, version)),
        );
    match op {
        EditOp::InsertKeyframes { at, keyframes, exact, restore_id } => {
            let (told, inverse) = applied->Ok_0;
            inserted_keyframes_are_as_asked(
                host,
                id,
                &at,
                keyframes@,
                exact,
                before,
                between,
                told,
                inverse,
            );
            concluding_keeps_clips(
                host,
                id,
                seq![stamped],
                seq![inverse],
                between,
                after,
                version,
            );
            let action = ActionId { bits: outcome->action_id };
            let (a, b) = (between.timelines[id], after.timelines[id]);
            assert(a.actions.has(action));
            assert(a.actions.actions.dom().contains(action));
            assert(same_action(a.actions.actions[action], b.actions.actions[action]));
            let t = p.track as int;
            let (key, i) = choose|key: ActionKey, i: int| #[trigger]
                is_clip_there(a.tracks[t].lanes(), key, i, *at, action, false);
            assert(a.tracks[t].lanes() == b.tracks[t].lanes());
            assert(is_asked_for(b.tracks[t].lanes(), key, i, action, p.start_at, p.duration));
            let entry = before.catalog.entry(p.component@, p.field@);
            let points = choose|points: Seq<RemoteKeyframe>| #[trigger]
                keyframes_read(host, keyframes@, entry->0.pipeline.target_id, Ok(points))
                    && runs_through_given(a.actions.actions[action], points);
            assert(keyframes_read(host, keyframes@, entry->0.pipeline.target_id, Ok(points)));
            assert(runs_through_given(b.actions.actions[action], points));
        },
        _ => {},
    }
}

/// Whether a clip is that of an action, the last of its lane, as long as asked for and no
/// earlier than asked for.
pub open spec fn is_asked_for(
    lanes: Lanes,
    key: ActionKey,
    i: int,
    action: ActionId,
    start_at: Option<Ticks>,
    duration: Ticks,
) -> bool {
    &&& lanes.contains_key(key)
    &&& i == lanes[key].len() - 1
    &&& i >= 0
    &&& lanes[key][i].id == action
    &&& lanes[key][i].duration == duration
    &&& start_at matches Some(start) ==> lanes[key][i].start >= start
}

/// What an insert comes to.
proof fn inserted_clips_are_as_asked_at<H: RemoteHost>(
    host: &H,
    id: TimelineId,
    op: EditOp,
    before: StudioModel,
    after: StudioModel,
    outcome: OpResult,
    inverse: EditOp,
)
    requires
        op is Insert,
        op->Insert_to_relative is None,
        op_applied(host, id, op, before, after, Ok((outcome, inverse))),
    ensures
        ({
            let at = *op->Insert_at;
            let action = ActionId { bits: outcome->action_id };
            let model = after.timelines[id];
            let record = model.actions.actions[action];
            let entry = before.catalog.entry(at.component@, at.field@);
            &&& outcome is Action
            &&& after.timelines.contains_key(id)
            &&& model.actions.has(action)
            &&& at.track < model.tracks.len()
            &&& record.disabled <==> at.enabled == Some(false)
            &&& op_ease_resolves(at.ease, Ok(record.ease))
            &&& entry is Some
            &&& record.key.field == entry->0.key().field
            &&& record.action is Constant
            &&& decodes(
                host,
                entry->0.pipeline.target_id,
                *op->Insert_to,
                Ok(record.action->Constant_0),
            )
            &&& at.asset_of is None && !before.catalog.is_resource(at.component@, at.field@)
                ==> record.key.subject_id.type_id == ENTITY_TAG && is_known_by(
                model,
                record.key,
                at.entity,
            )
            &&& is_there(model, at, action, op->Insert_exact)
            &&& at.label is Some ==> after.edits_of(id).meta_of(action.bits).label == at.label
            &&& at.color is Some ==> after.edits_of(id).meta_of(action.bits).color == at.color
        }),
{
    match op {
        EditOp::Insert { at, to, to_relative, exact, .. } => {
            inserted_clips_are_as_asked(
                host,
                id,
                &at,
                &to,
                to_relative,
                exact,
                before,
                after,
                outcome,
                inverse,
            );
        },
        _ => {},
    }
}

/// A request to change a clip that is granted changes what it names to what it names.
pub proof fn requested_updates_are_made<H: RemoteHost>(
    host: &H,
    p: UpdateParams,
    before: StudioModel,
    after: StudioModel,
    outcome: OpResult,
    version: u64,
)
    requires
        update_answered(host, p, before, after, Ok((outcome, version))),
    ensures
        ({
            let id = TimelineId { raw: p.id };
            let action = ActionId { bits: p.action_id };
            let (a, b) = (before.timelines[id], after.timelines[id]);
            let (x, y) = (a.actions.actions[action], b.actions.actions[action]);
            let (m, n) = (
                before.edits_of(id).meta_of(p.action_id),
                after.edits_of(id).meta_of(p.action_id),
            );
            &&& outcome is Action && outcome->action_id == p.action_id
            &&& a.actions.has(action) && b.actions.has(action)
            &&& y.key == x.key
            &&& y.disabled == match p.enabled {
                Some(enabled) => !enabled,
                None => x.disabled,
            }
            &&& p.ease is None ==> y.ease == x.ease
            &&& p.to is Some ==> leads_to(host, before, y, p.to->0)
            &&& p.to is None && p.to_relative is None && p.keyframes is None ==> y.action
                == x.action
            &&& n.label == match p.label {
                Some(label) => label,
                None => m.label,
            }
            &&& n.color == match p.color {
                Some(color) => color,
                None => m.color,
            }
            &&& same_lanes(a, b)
            &&& after.edits_of(id).version == version
        }),
{
    let id = TimelineId { raw: p.id };
    let (smoothed, op) = choose|
        smoothed: Result<Option<Seq<KeyframeDoc>>, Fault>,
        op: EditOp,
    | #[trigger]
        update_requested(host, p, before, smoothed, op, after, Ok((outcome, version)));
    let (between, applied, stamped) = choose|
        between: StudioModel,
        applied: Applied,
        stamped: EditOp,
    | #[trigger]
        single_stepped(
            host,
            id,
            op,
            before,
            between,
            applied,
            stamped,
            after,
            Ok((outcome, version)),
        );
    match op {
        EditOp::Update { action_id, patch } => {
            let (told, inverse) = applied->Ok_0;
            updates_change_what_is_named(
                host,
                id,
                action_id,
                &patch,
                before,
                between,
                told,
                inverse,
            );
            assert(between.timelines.contains_key(id));
            concluding_keeps_clips(
                host,
                id,
                seq![stamped],
                seq![inverse],
                between,
                after,
                version,
            );
            let action = ActionId { bits: p.action_id };
            let (b, c) = (between.timelines[id], after.timelines[id]);
            assert(b.actions.has(action));
            assert(b.actions.actions.dom().contains(action));
            assert(same_action(b.actions.actions[action], c.actions.actions[action]));
        },
        _ => {},
    }
}

/// A request to move a clip that is granted gives it the start that was asked for, not
/// before zero, on its track.
pub proof fn requested_moves_are_made<H: RemoteHost>(
    host: &H,
    id: TimelineId,
    track: usize,
    action_id: u64,
    start_at: Ticks,
    duration: Option<Ticks>,
    before: StudioModel,
    after: StudioModel,
    outcome: OpResult,
    version: u64,
)
    requires
        single_applied(
            host,
            id,
            EditOp::Move { track, action_id, start_at, duration },
            before,
            after,
            Ok((outcome, version)),
        ),
        start_at >= 0,
    ensures
        outcome is Action && outcome->action_id == action_id,
        after.timelines.contains_key(id),
        exists|key: ActionKey, i: int| #[trigger]
            starts_at(
                after.timelines[id].tracks[track as int].lanes(),
                key,
                i,
                ActionId { bits: action_id },
                start_at,
            ),
        after.edits_of(id).version == version,
{
    let op = EditOp::Move { track, action_id, start_at, duration };
    let (between, applied, stamped) = choose|
        between: StudioModel,
        applied: Applied,
        stamped: EditOp,
    | #[trigger]
        single_stepped(
            host,
            id,
            op,
            before,
            between,
            applied,
            stamped,
            after,
            Ok((outcome, version)),
        );
    let (told, inverse) = applied->Ok_0;
    let (a, b, c) = (before.timelines[id], between.timelines[id], after.timelines[id]);
    let t = track as int;
    let action = ActionId { bits: action_id };
    assert(op_applied(host, id, op, before, between, Ok((told, inverse))));
    assert(between.timelines.contains_key(id));
    concluding_keeps_clips(host, id, seq![stamped], seq![inverse], between, after, version);
    assert(t < a.tracks.len());
    moved_lanes_have_it(a.tracks[t].lanes(), b.tracks[t].lanes(), action, start_at, duration);
    assert(b.tracks[t].lanes() == c.tracks[t].lanes());
}

/// Whether a clip is that of an action and starts at a time.
pub open spec fn starts_at(
    lanes: Lanes,
    key: ActionKey,
    i: int,
    action: ActionId,
    start: Ticks,
) -> bool {
    &&& lanes.contains_key(key)
    &&& 0 <= i < lanes[key].len()
    &&& lanes[key][i].id == action
    &&& lanes[key][i].start == start
}

/// A clip that was given another time has it.
proof fn moved_lanes_have_it(
    before: Lanes,
    after: Lanes,
    id: ActionId,
    start: Ticks,
    duration: Option<Ticks>,
)
    requires
        reschedule_outcome(before, after, id, start, duration, Ok(())),
        start >= 0,
    ensures
        exists|key: ActionKey, i: int| #[trigger] starts_at(after, key, i, id, start),
{
    let key = lane_of_moved(before, after, id, start, duration);
    moved_clips_have_their_time(before[key], id, start, duration);
    let clips = after[key];
    let i = choose|i: int|
        0 <= i < clips.len() && (#[trigger] clips[i]).id == id && (start >= 0 ==> clips[i].start
            == start);
    assert(starts_at(after, key, i, id, start));
}

/// Tracks that are added are as many as asked for, without clips and behind those that there
/// were, which stay as they are.
pub proof fn added_tracks_are_empty(
    id: TimelineId,
    count: usize,
    before: StudioModel,
    after: StudioModel,
    track_count: usize,
    version: u64,
)
    requires
        tracks_added(id, count, before, after, Ok((track_count, version))),
        before.timelines[id].tracks.len() + count <= usize::MAX,
    ensures
        1 <= count <= 1024,
        ({
            let (a, b) = (before.timelines[id].tracks, after.timelines[id].tracks);
            &&& track_count == a.len() + count
            &&& b.len() == a.len() + count
            &&& forall|i: int| 0 <= i < a.len() ==> #[trigger] b[i] == a[i]
            &&& forall|i: int| a.len() <= i < b.len() ==> is_empty_track(#[trigger] b[i])
            &&& after.timelines[id].actions == before.timelines[id].actions
            &&& after.edits_of(id).version == version
        }),
{
    let (a, b) = (before.timelines[id].tracks, after.timelines[id].tracks);
    assert forall|i: int| 0 <= i < a.len() implies #[trigger] b[i] == a[i] by {
        assert(b.take(a.len() as int)[i] == b[i]);
    }
}

/// Whether the clips of a lane are listed with their track.
pub open spec fn all_listed(listed: Seq<(usize, u64)>, track: usize, clips: Seq<ActionClip>) -> bool {
    forall|i: int|
        0 <= i < clips.len() ==> listed.contains((track, (#[trigger] clips[i]).id.bits))
}

/// The clips of the keys of a track that dangle are listed, and no others.
proof fn dangling_in_lists(model: TimelineModel, track: usize, dangles: Seq<bool>, n: int)
    requires
        0 <= n <= model.tracks[track as int].spans().len(),
    ensures
        forall|i: int|
            #![trigger model.tracks[track as int].spans()[i]]
            0 <= i < n && dangles[i] ==> all_listed(
                dangling_in(model, track, dangles, n),
                track,
                model.tracks[track as int].clips_in(model.tracks[track as int].spans()[i].1),
            ),
        forall|k: int|
            0 <= k < dangling_in(model, track, dangles, n).len() ==> is_of_dangling(
                model,
                track,
                dangles,
                n,
                #[trigger] dangling_in(model, track, dangles, n)[k],
            ),
    decreases n,
{
    if n > 0 {
        dangling_in_lists(model, track, dangles, n - 1);
        let on = model.tracks[track as int];
        let earlier = dangling_in(model, track, dangles, n - 1);
        let all = dangling_in(model, track, dangles, n);
        let clips = on.clips_in(on.spans()[n - 1].1);
        let added = removals(track, clips);
        assert forall|i: int| #![trigger on.spans()[i]] 0 <= i < n && dangles[i] implies all_listed(
            all,
            track,
            on.clips_in(on.spans()[i].1),
        ) by {
            let held = on.clips_in(on.spans()[i].1);
            assert forall|j: int| 0 <= j < held.len() implies all.contains(
                (track, (#[trigger] held[j]).id.bits),
            ) by {
                if i < n - 1 {
                    assert(all_listed(earlier, track, held));
                    assert(earlier.contains((track, held[j].id.bits)));
                    let k = choose|k: int|
                        0 <= k < earlier.len() && earlier[k] == (track, held[j].id.bits);
                    assert(all[k] == earlier[k]);
                } else {
                    assert(added[j] == (track, held[j].id.bits));
                    assert(all[earlier.len() + j] == added[j]);
                }
            }
        }
        assert forall|k: int| 0 <= k < all.len() implies is_of_dangling(
            model,
            track,
            dangles,
            n,
            #[trigger] all[k],
        ) by {
            if k < earlier.len() {
                assert(all[k] == earlier[k]);
                assert(is_of_dangling(model, track, dangles, n - 1, earlier[k]));
                let i = choose|i: int|
                    0 <= i < n - 1 && dangles[i] && is_of_clips(
                        earlier[k],
                        track,
                        on.clips_in((#[trigger] on.spans()[i]).1),
                    );
                assert(is_of_clips(all[k], track, on.clips_in(on.spans()[i].1)));
            } else {
                let j = k - earlier.len();
                assert(all[k] == added[j]);
                assert(clips[j].id.bits == added[j].1);
                assert(is_of_clips(all[k], track, on.clips_in(on.spans()[n - 1].1)));
            }
        }
    }
}

/// Whether something listed is a clip of one of the first keys of a track that dangle.
spec fn is_of_dangling(
    model: TimelineModel,
    track: usize,
    dangles: Seq<bool>,
    n: int,
    listed: (usize, u64),
) -> bool {
    exists|i: int|
        0 <= i < n && dangles[i] && is_of_clips(
            listed,
            track,
            model.tracks[track as int].clips_in((#[trigger] model.tracks[track as int].spans()[i]).1),
        )
}

/// Whether something listed is one of some clips of a track.
pub open spec fn is_of_clips(listed: (usize, u64), track: usize, clips: Seq<ActionClip>) -> bool {
    listed.0 == track && exists|j: int|
        0 <= j < clips.len() && (#[trigger] clips[j]).id.bits == listed.1
}

/// The clips of the keys of the first tracks that dangle are listed, and no others.
proof fn dangling_clips_list(model: TimelineModel, dangles: Seq<Seq<bool>>, n: int, t: int)
    requires
        0 <= t < n <= model.tracks.len() <= usize::MAX,
    ensures
        forall|i: int|
            #![trigger model.tracks[t].spans()[i]]
            0 <= i < model.tracks[t].spans().len() && dangles[t][i] ==> all_listed(
                dangling_clips(model, dangles, n),
                t as usize,
                model.tracks[t].clips_in(model.tracks[t].spans()[i].1),
            ),
    decreases n,
{
    let earlier = dangling_clips(model, dangles, n - 1);
    let all = dangling_clips(model, dangles, n);
    let last = dangling_in(
        model,
        (n - 1) as usize,
        dangles[n - 1],
        model.tracks[n - 1].spans().len() as int,
    );
    let on = model.tracks[t];
    if t < n - 1 {
        dangling_clips_list(model, dangles, n - 1, t);
    } else {
        dangling_in_lists(model, t as usize, dangles[t], on.spans().len() as int);
    }
    assert forall|i: int|
        #![trigger on.spans()[i]]
        0 <= i < on.spans().len() && dangles[t][i] implies all_listed(
        all,
        t as usize,
        on.clips_in(on.spans()[i].1),
    ) by {
        let held = on.clips_in(on.spans()[i].1);
        assert forall|j: int| 0 <= j < held.len() implies all.contains(
            (t as usize, (#[trigger] held[j]).id.bits),
        ) by {
            let one = (t as usize, held[j].id.bits);
            if t < n - 1 {
                assert(all_listed(earlier, t as usize, held));
                assert(earlier.contains(one));
                let k = choose|k: int| 0 <= k < earlier.len() && earlier[k] == one;
                assert(all[k] == one);
            } else {
                assert(all_listed(last, t as usize, held));
                assert(last.contains(one));
                let k = choose|k: int| 0 <= k < last.len() && last[k] == one;
                assert(all[earlier.len() + k] == one);
            }
        }
    }
}

/// What is listed of the first tracks is of keys that dangle.
proof fn listed_dangle(model: TimelineModel, dangles: Seq<Seq<bool>>, n: int, k: int)
    requires
        0 <= n <= model.tracks.len() <= usize::MAX,
        0 <= k < dangling_clips(model, dangles, n).len(),
    ensures
        ({
            let listed = dangling_clips(model, dangles, n)[k];
            &&& listed.0 < n
            &&& exists|i: int|
                0 <= i < model.tracks[listed.0 as int].spans().len() && dangles[listed.0 as int][i]
                    && is_of_clips(
                    listed,
                    listed.0,
                    model.tracks[listed.0 as int].clips_in(
                        (#[trigger] model.tracks[listed.0 as int].spans()[i]).1,
                    ),
                )
        }),
    decreases n,
{
    let earlier = dangling_clips(model, dangles, n - 1);
    if k < earlier.len() {
        listed_dangle(model, dangles, n - 1, k);
        assert(dangling_clips(model, dangles, n)[k] == earlier[k]);
    } else {
        let t = n - 1;
        let count = model.tracks[t].spans().len() as int;
        let last = dangling_in(model, t as usize, dangles[t], count);
        dangling_in_lists(model, t as usize, dangles[t], count);
        assert(dangling_clips(model, dangles, n)[k] == last[k - earlier.len()]);
        let one = last[k - earlier.len()];
        assert(is_of_dangling(model, t as usize, dangles[t], count, one));
        let i = choose|i: int|
            0 <= i < count && dangles[t][i] && is_of_clips(
                one,
                t as usize,
                model.tracks[t].clips_in((#[trigger] model.tracks[t].spans()[i]).1),
            );
        assert(one.0 == t);
        let on = model.tracks[one.0 as int];
        assert(on == model.tracks[t]);
        assert(is_of_clips(one, one.0, on.clips_in(on.spans()[i].1)));
    }
}

/// The clips that dangle are those of entities that there are no more: every clip of a lane
/// is listed with its track, unless the subject of the lane is no entity or one that the
/// application says there is. What is listed is a clip of a lane of an entity that the
/// application says there is no more.
pub proof fn dangling_clips_have_no_entity<H: RemoteHost>(
    host: &H,
    model: TimelineModel,
    listed: Seq<(usize, u64)>,
)
    requires
        are_dangling(host, model, listed),
        model.tracks.len() <= usize::MAX,
        forall|t: int| 0 <= t < model.tracks.len() ==> (#[trigger] model.tracks[t]).laid_out(),
    ensures
        forall|t: int, key: ActionKey|
            0 <= t < model.tracks.len() && #[trigger] model.tracks[t].lanes().contains_key(key) ==> (
            all_listed(listed, t as usize, model.tracks[t].lanes()[key])
                || stands_on(host, model, key)),
        forall|k: int|
            0 <= k < listed.len() ==> 0 <= (#[trigger] listed[k]).0 < model.tracks.len()
                && exists|key: ActionKey| #[trigger]
                model.tracks[listed[k].0 as int].lanes().contains_key(key) && is_of_clips(
                    listed[k],
                    listed[k].0,
                    model.tracks[listed[k].0 as int].lanes()[key],
                ) && is_gone(host, model, key),
{
    let dangles = choose|dangles: Seq<Seq<bool>>|
        {
            &&& #[trigger] asked_of_tracks(host, model, dangles)
            &&& dangles.len() == model.tracks.len()
            &&& listed == dangling_clips(model, dangles, model.tracks.len() as int)
        };
    let count = model.tracks.len() as int;
    assert forall|t: int, key: ActionKey|
        0 <= t < count && #[trigger] model.tracks[t].lanes().contains_key(key) implies (
    all_listed(listed, t as usize, model.tracks[t].lanes()[key]) || stands_on(host, model, key)) by {
        let on = model.tracks[t];
        let i = choose|i: int| 0 <= i < on.spans().len() && (#[trigger] on.spans()[i]).0 == key;
        on.lane_at(i);
        dangling_clips_list(model, dangles, count, t);
        assert(asked_of_track(host, model, t, dangles[t]));
        if dangles[t][i] {
            assert(all_listed(listed, t as usize, on.clips_in(on.spans()[i].1)));
        } else {
            assert(stands_on(host, model, on.spans()[i].0));
        }
    }
    assert forall|k: int| 0 <= k < listed.len() implies 0 <= (#[trigger] listed[k]).0 < count
        && exists|key: ActionKey| #[trigger]
        model.tracks[listed[k].0 as int].lanes().contains_key(key) && is_of_clips(
            listed[k],
            listed[k].0,
            model.tracks[listed[k].0 as int].lanes()[key],
        ) && is_gone(host, model, key) by {
        listed_dangle(model, dangles, count, k);
        let t = listed[k].0 as int;
        let on = model.tracks[t];
        let i = choose|i: int|
            0 <= i < on.spans().len() && dangles[t][i] && is_of_clips(
                listed[k],
                listed[k].0,
                on.clips_in((#[trigger] on.spans()[i]).1),
            );
        on.lane_at(i);
        assert(asked_of_track(host, model, t, dangles[t]));
        assert(is_gone(host, model, on.spans()[i].0));
        assert(on.lanes().contains_key(on.spans()[i].0));
    }
}

/// Whether the subject of a key is no entity, or one that the application says there is.
pub open spec fn stands_on<H: RemoteHost>(host: &H, model: TimelineModel, key: ActionKey) -> bool {
    entity_of(model.actions, key) matches Some(entity) ==> entity_is(host, entity, true)
}

/// Whether the subject of a key is an entity that the application says there is no more.
pub open spec fn is_gone<H: RemoteHost>(host: &H, model: TimelineModel, key: ActionKey) -> bool {
    entity_of(model.actions, key) is Some && entity_is(
        host,
        entity_of(model.actions, key)->0,
        false,
    )
}

/// An edit of a batch is what was drafted, but that an action that an earlier edit came to
/// is meant where that is referred to, and an entity that is named is the one with the name.
pub proof fn drafts_are_completed<H: RemoteHost>(
    host: &H,
    raw: RawOp,
    results: Seq<OpResult>,
    op: EditOp,
)
    requires
        op_prepared(host, raw, results, Ok(op)),
    ensures
        raw.draft is Ok,
        !(op is Clear) && !(op is Unrestorable),
        raw.action is Plain || raw.action is Op,
        raw.action matches ActionRef::Op(n) ==> n < results.len() && results[n as int] is Action,
        ({
            let draft = raw.draft->Ok_0;
            &&& match (draft, op) {
                (EditOp::Remove { track, action_id }, EditOp::Remove { track: t, action_id: a }) =>
                    t == track && is_referred(raw.action, results, action_id, a),
                (
                    EditOp::Move { track, action_id, start_at, duration },
                    EditOp::Move { track: t, action_id: a, start_at: s, duration: d },
                ) => t == track && s == start_at && d == duration && is_referred(
                    raw.action,
                    results,
                    action_id,
                    a,
                ),
                (EditOp::Update { action_id, patch }, EditOp::Update { action_id: a, patch: q }) =>
                    is_referred(raw.action, results, action_id, a) && q.to == patch.to
                        && q.to_relative == patch.to_relative && q.ease == patch.ease && q.label
                        == patch.label && q.color == patch.color && q.enabled == patch.enabled && (
                    raw.smooth is Off ==> q.keyframes == patch.keyframes),
                (
                    EditOp::Insert { at, to, to_relative, exact, .. },
                    EditOp::Insert { at: b, to: x, to_relative: r, exact: e, .. },
                ) => x == to && r == to_relative && e == exact && is_named(host, raw.name, *at, *b),
                (
                    EditOp::InsertKeyframes { at, keyframes, exact, .. },
                    EditOp::InsertKeyframes { at: b, keyframes: x, exact: e, .. },
                ) => e == exact && (raw.smooth is Off ==> x == keyframes) && is_named(
                    host,
                    raw.name,
                    *at,
                    *b,
                ),
                _ => false,
            }
        }),
{
}

/// Whether an action is the one that is referred to: that of an earlier edit, or as it is
/// given.
pub open spec fn is_referred(
    action: ActionRef,
    results: Seq<OpResult>,
    given: u64,
    meant: u64,
) -> bool {
    match action {
        ActionRef::Op(n) => results[n as int] matches OpResult::Action { action_id, .. } && meant
            == action_id,
        _ => meant == given,
    }
}

/// Whether a clip is placed as drafted, but that an entity that is named is the one with the
/// name.
pub open spec fn is_named<H: RemoteHost>(
    host: &H,
    name: NameParam,
    drafted: Placement,
    placed: Placement,
) -> bool {
    &&& placed == (Placement { entity: placed.entity, ..drafted })
    &&& match name {
        NameParam::Name(name) => name_resolved(host, name, Ok(placed.entity)),
        _ => placed.entity == drafted.entity,
    }
}

/// A batch that is granted tells of each of its edits what it came to, in their order, and is
/// kept as one entry of the journal: undoing it takes the edits back, the last one first.
pub proof fn batches_are_one_entry<H: RemoteHost>(
    host: &H,
    id: TimelineId,
    raws: Seq<RawOp>,
    before: StudioModel,
    after: StudioModel,
    version: u64,
    told: Seq<OpResult>,
)
    requires
        batch_applied(host, id, raws, before, after, Ok((version, told))),
    ensures
        told.len() == raws.len(),
        raws.len() > 0,
        after.edits_of(id).version == version,
        after.edits_of(id).journal is Some,
        after.edits_of(id).journal->0.undo.len() > 0,
        after.edits_of(id).journal->0.undo.last().forward.len() == raws.len(),
        exists|ops: Seq<EditOp>, trace: Seq<StudioModel>| #[trigger]
            runs_raws(
                host,
                id,
                raws,
                told,
                after.edits_of(id).journal->0.undo.last().inverse,
                before,
                ops,
                trace,
            ),
{
    let (ops, trace, results, forward, inverses, failed) = choose|
        ops: Seq<EditOp>,
        trace: Seq<StudioModel>,
        results: Seq<OpResult>,
        forward: Seq<EditOp>,
        inverses: Seq<EditOp>,
        failed: StudioModel,
    | #[trigger]
        batch_stepped(
            host,
            id,
            raws,
            before,
            ops,
            trace,
            results,
            forward,
            inverses,
            failed,
            after,
            Ok((version, told)),
        );
    let ready = trace.last();
    let (between, list) = choose|between: StudioModel, list: Vec<EditOp>|
        {
            &&& list@ == forward
            &&& #[trigger] edit_concluded(
                host,
                id,
                list,
                inverses.reverse(),
                ready,
                between,
                after,
                version,
            )
        };
    let entry = after.edits_of(id).journal->0.undo.last();
    assert(entry.forward == forward);
    assert(entry.inverse == inverses.reverse());
    assert forall|i: int| 0 <= i < raws.len() implies op_prepared(
        host,
        raws[i],
        told.take(i),
        Ok(#[trigger] ops[i]),
    ) && op_applied(
        host,
        id,
        ops[i],
        trace[i],
        trace[i + 1],
        Ok((told[i], entry.inverse[raws.len() - 1 - i])),
    ) by {
        assert(entry.inverse[raws.len() - 1 - i] == inverses[i]);
    }
    assert(runs_raws(host, id, raws, told, entry.inverse, before, ops, trace));
}

/// Whether the edits of a batch were prepared and applied one after another, each given what
/// those in front of it came to, with inverses that stand in the other order.
pub open spec fn runs_raws<H: RemoteHost>(
    host: &H,
    id: TimelineId,
    raws: Seq<RawOp>,
    told: Seq<OpResult>,
    inverse: Seq<EditOp>,
    before: StudioModel,
    ops: Seq<EditOp>,
    trace: Seq<StudioModel>,
) -> bool {
    &&& inverse.len() == raws.len()
    &&& ops.len() == raws.len()
    &&& trace.len() == raws.len() + 1
    &&& trace[0] == before
    &&& forall|i: int|
        0 <= i < raws.len() ==> op_prepared(host, raws[i], told.take(i), Ok(#[trigger] ops[i]))
            && op_applied(
            host,
            id,
            ops[i],
            trace[i],
            trace[i + 1],
            Ok((told[i], inverse[raws.len() - 1 - i])),
        )
}

} // verus!
