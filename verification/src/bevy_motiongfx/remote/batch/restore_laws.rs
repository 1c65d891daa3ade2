//! What inserting clips again shows.
use crate::action::subjects::{claiming_keeps_known, known_differ, slot_of, used_are_known};
use crate::action::world::{claimed, is_uid_for};
use crate::action::{
    entity_bits, keyframes_valid, sorted_keyframes, Action, ActionClip, ActionId, ActionKey, Ease,
    InterpFn, Keyframe, UId, Value,
};
use crate::bevy_motiongfx::manager::TimelineId;
use crate::bevy_motiongfx::remote::batch::apply::op_applied;
use crate::bevy_motiongfx::remote::batch::insert::{
    clip_placed, insert_applied, insert_fault, insert_keyframes_applied, insert_recorded,
    insert_stepped, is_inserted, is_placed, keyframes_stepped, made_room, muted, room_taken,
    start_of, subject_resolved, timeline_placed, Applied, InsertTarget,
};
use crate::bevy_motiongfx::remote::batch::laws::fits;
use crate::bevy_motiongfx::remote::batch::op::{EditOp, KeyframeDoc, OpResult, Placement};
use crate::bevy_motiongfx::remote::batch::update_laws::{
    ease_travels, optional_ease_survives, points_read_back, reads_back,
};
use crate::bevy_motiongfx::remote::batch::value::{
    are_keyframe_docs, is_optional_ease_param, keyframes_read,
};
use crate::bevy_motiongfx::remote::catalog::{CatalogModel, SubjectKind};
use crate::bevy_motiongfx::remote::fault::{CatalogError, Fault};
use crate::bevy_motiongfx::remote::host::{decodes, encodes, RemoteHost};
use crate::bevy_motiongfx::remote::json::Json;
use crate::bevy_motiongfx::remote::persist::export::placement_of;
use crate::bevy_motiongfx::remote::state::ClipMeta;
use crate::bevy_motiongfx::remote::studio::StudioModel;
use crate::pipeline::PipelineKey;
use crate::remote::{
    action_added, keyframes_fault, typed_keyframes, RemoteEditError, RemoteFieldKey, RemoteKeyframe,
};
use crate::seqs::{ascending, sorting_keeps_order};
use crate::sequence::{clips_are_in_order, forward_only, non_overlapping};
use crate::subject::{Subject, UntypedField, ENTITY_TAG, RESOURCE_TAG};
use crate::time::Ticks;
use crate::timeline::edit::{bumped, is_empty_track};
use crate::timeline::TimelineModel;
use crate::track::{
    append_start, first_overlap, has_clip, lane, reschedule_outcome, rescheduled, retimed, Lanes,
};
use std::sync::Arc;
use vstd::prelude::*;

verus! {

/// A clip as it shows, whatever its id: when it plays, what it leads to and how,
/// whether it is muted, and its label and colour.
#[verifier::ext_equal]
pub struct ShownClip {
    pub start: Ticks,
    pub duration: Ticks,
    pub action: Action,
    pub ease: Option<Ease>,
    pub points: Option<Seq<Keyframe<Value>>>,
    pub disabled: bool,
    pub meta: ClipMeta,
}

/// A clip as it shows, with where it is.
pub struct Shown {
    pub track: int,
    pub subject: Subject,
    pub field: UntypedField,
    pub clip: ShownClip,
}

/// A clip of a timeline as it shows.
pub open spec fn shown_clip(studio: StudioModel, id: TimelineId, clip: ActionClip) -> ShownClip {
    let record = studio.timelines[id].actions.actions[clip.id];
    ShownClip {
        start: clip.start,
        duration: clip.duration,
        action: record.action,
        ease: record.ease,
        points: match record.keyframes {
            Some(storage) => Some(storage@),
            None => None,
        },
        disabled: record.disabled,
        meta: studio.edits_of(id).meta_of(clip.id.bits),
    }
}

/// The clips of a lane as they show.
pub open spec fn shown_lane(studio: StudioModel, id: TimelineId, clips: Seq<ActionClip>) -> Seq<
    ShownClip,
> {
    clips.map_values(|clip: ActionClip| shown_clip(studio, id, clip))
}

/// The subject of a key.
pub open spec fn owner_of(model: TimelineModel, key: ActionKey) -> Subject {
    Subject { type_id: key.subject_id.type_id, bits: model.actions.subjects[slot_of(key)].bits }
}

/// Those of some shown clips that are of a field of a subject on a track.
pub open spec fn listed(shown: Seq<Shown>, track: int, subject: Subject, field: UntypedField) -> Seq<
    ShownClip,
> {
    shown.filter(|x: Shown| x.track == track && x.subject == subject && x.field == field).map_values(
        |x: Shown| x.clip,
    )
}

/// Whether a lane is neat: its clips are of actions of its key, whose subject
/// is there, each of one of its own, and they follow one another.
#[verifier::opaque]
pub open spec fn lane_neat(model: TimelineModel, key: ActionKey, clips: Seq<ActionClip>) -> bool {
    &&& clips.len() > 0
    &&& model.actions.subjects.contains_key(slot_of(key))
    &&& non_overlapping(clips)
    &&& forall|i: int, j: int|
        0 <= i < j < clips.len() ==> (#[trigger] clips[i]).id != (#[trigger] clips[j]).id
    &&& forall|i: int|
        0 <= i < clips.len() ==> {
            &&& (#[trigger] clips[i]).start >= 0
            &&& clips[i].duration >= 0
            &&& model.actions.has(clips[i].id)
            &&& model.actions.actions[clips[i].id].key == key
        }
}

/// Whether the subjects of a timeline are known by their bits, none of them by
/// two ids.
pub open spec fn owners_differ(model: TimelineModel) -> bool {
    &&& used_are_known(model.actions.subjects, model.actions.known)
    &&& known_differ(model.actions.known)
}

/// Whether a timeline is neat: its lanes are, and no subject has two ids.
pub open spec fn neat(model: TimelineModel) -> bool {
    &&& forall|t: int, key: ActionKey|
        0 <= t < model.tracks.len() && #[trigger] model.tracks[t].lanes().contains_key(key)
            ==> lane_neat(model, key, model.tracks[t].lanes()[key])
    &&& owners_differ(model)
}

/// Whether what a timeline shows is a list of clips: every lane shows those of
/// its subject and field, and there is a lane for every one of them.
pub open spec fn shows(studio: StudioModel, id: TimelineId, shown: Seq<Shown>) -> bool {
    let model = studio.timelines[id];
    &&& forall|t: int, key: ActionKey|
        0 <= t < model.tracks.len() && #[trigger] model.tracks[t].lanes().contains_key(key)
            ==> shown_lane(studio, id, model.tracks[t].lanes()[key]) == listed(
            shown,
            t,
            owner_of(model, key),
            key.field,
        )
    &&& forall|t: int, subject: Subject, field: UntypedField|
        (#[trigger] listed(shown, t, subject, field)).len() > 0 ==> has_lane(
            model,
            t,
            subject,
            field,
        )
}

/// Whether a track has a lane for a field of a subject.
pub open spec fn has_lane(model: TimelineModel, t: int, subject: Subject, field: UntypedField) -> bool {
    0 <= t < model.tracks.len() && exists|key: ActionKey| #[trigger]
        model.tracks[t].lanes().contains_key(key) && owner_of(model, key) == subject && key.field
            == field
}

/// Whether a placement puts a clip where one shows, with the same looks.
pub open spec fn placement_describes(
    catalog: CatalogModel,
    remote: Map<PipelineKey, InterpFn>,
    at: Placement,
    shown: Shown,
) -> bool {
    &&& at.track == shown.track
    &&& at.track < usize::MAX
    &&& at.asset_of is None
    &&& at.duration == shown.clip.duration
    &&& at.start_at == Some(shown.clip.start)
    &&& ease_travels(shown.clip.ease)
    &&& is_optional_ease_param(shown.clip.ease, at.ease)
    &&& at.label == shown.clip.meta.label
    &&& at.color == shown.clip.meta.color
    &&& shown.clip.disabled == (at.enabled == Some(false))
    &&& catalog.entry(at.component@, at.field@) matches Some(entry) && {
        &&& entry.field == shown.field
        &&& fits(entry.key())
        &&& entry.pipeline.subject_id == shown.subject.type_id
        &&& remote.contains_key(entry.pipeline)
        &&& if entry.subject == SubjectKind::Resource {
            shown.subject == (Subject { type_id: RESOURCE_TAG, bits: 0 })
        } else {
            entity_bits(at.entity) && shown.subject == (Subject {
                type_id: ENTITY_TAG,
                bits: at.entity,
            })
        }
    }
}

/// Whether points can be written and read back.
pub open spec fn points_travel(points: Seq<Keyframe<Value>>, target: u64) -> bool {
    &&& keyframes_valid(points)
    &&& forall|i: int|
        0 <= i < points.len() ==> (#[trigger] points[i]).value.type_id == target && ease_travels(
            points[i].ease,
        )
}

/// Whether an edit inserts a clip again that shows.
pub open spec fn op_describes<H: RemoteHost>(
    host: &H,
    catalog: CatalogModel,
    remote: Map<PipelineKey, InterpFn>,
    op: EditOp,
    shown: Shown,
) -> bool {
    let target = shown.field.target_id;
    match op {
        EditOp::Insert { at, to, to_relative, exact, .. } => {
            &&& placement_describes(catalog, remote, *at, shown)
            &&& to_relative is None
            &&& exact
            &&& shown.clip.points is None
            &&& shown.clip.action matches Action::Constant(value) && value.type_id == target
                && encodes(host, value, Some(*to))
        },
        EditOp::InsertKeyframes { at, keyframes, exact, .. } => {
            &&& placement_describes(catalog, remote, *at, shown)
            &&& exact
            &&& shown.clip.points matches Some(points) && {
                &&& points_travel(points, target)
                &&& keyframes@.len() == points.len()
                &&& are_keyframe_docs(host, points, keyframes@)
                &&& shown.clip.action == Action::Constant(points.last().value)
            }
        },
        _ => false,
    }
}

/// Where the clips of a lane that were inserted so far end.
pub open spec fn leaves_room(before: Seq<ShownClip>, clip: ShownClip) -> bool {
    &&& clip.start >= 0
    &&& clip.duration >= 0
    &&& before.len() > 0 ==> (ActionClip {
        id: ActionId { bits: 0 },
        start: before.last().start,
        duration: before.last().duration,
    }).end() <= clip.start
}

/// Listing one more clip.
pub proof fn listed_one_more(
    shown: Seq<Shown>,
    one: Shown,
    track: int,
    subject: Subject,
    field: UntypedField,
)
    ensures
        listed(shown.push(one), track, subject, field) == if one.track == track && one.subject
            == subject && one.field == field {
            listed(shown, track, subject, field).push(one.clip)
        } else {
            listed(shown, track, subject, field)
        },
{
    reveal(Seq::filter);
    let pick = |x: Shown| x.track == track && x.subject == subject && x.field == field;
    let more = shown.push(one);
    assert(more.drop_last() =~= shown);
    assert(more.last() == one);
    if pick(one) {
        assert(more.filter(pick) == shown.filter(pick).push(one));
        assert(listed(more, track, subject, field) =~= listed(shown, track, subject, field).push(
            one.clip,
        ));
    } else {
        assert(more.filter(pick) == shown.filter(pick));
    }
}

/// A clip that is put behind a lane where it starts stays there when it is put
/// in its place.
proof fn lane_takes_clip(
    model: TimelineModel,
    key: ActionKey,
    before: Seq<ActionClip>,
    clip: ActionClip,
)
    requires
        before.len() > 0 ==> lane_neat(model, key, before),
        before.len() > 0 ==> before.last().end() <= clip.start,
        clip.start >= 0,
        clip.duration >= 0,
        !model.actions.has(clip.id),
    ensures
        rescheduled(before.push(clip), clip.id, clip.start, None) == before.push(clip),
        forall|at: int| !#[trigger] first_overlap(before.push(clip), at),
        has_clip(before.push(clip), clip.id),
{
    reveal(lane_neat);
    let clips = before.push(clip);
    let change = |c: ActionClip|
        if c.id == clip.id {
            retimed(c, clip.start, None)
        } else {
            c
        };
    assert(clips[before.len() as int].id == clip.id);
    assert forall|i: int| 0 < i < clips.len() implies clips[i - 1].end() <= (
    #[trigger] clips[i]).start by {
        if i < before.len() {
            assert(clips[i] == before[i] && clips[i - 1] == before[i - 1]);
        }
    }
    assert(clips.map_values(change) =~= clips);
    assert forall|i: int| 0 <= i < clips.len() implies (#[trigger] clips[i]).duration >= 0 by {
        if i < before.len() {
            assert(clips[i] == before[i]);
        }
    }
    starts_do_not_descend(clips);
    sorting_keeps_order(clips, |c: ActionClip| c.start as int);
}

/// The clips of a neat lane are of actions.
pub proof fn lane_is_of_actions(
    model: TimelineModel,
    key: ActionKey,
    clips: Seq<ActionClip>,
    action: ActionId,
)
    requires
        lane_neat(model, key, clips),
    ensures
        clips.len() > 0,
        model.actions.subjects.contains_key(slot_of(key)),
        has_clip(clips, action) ==> model.actions.has(action) && model.actions.actions[action].key
            == key,
{
    reveal(lane_neat);
}

/// Clips that do not overlap start one after another.
proof fn starts_do_not_descend(clips: Seq<ActionClip>)
    requires
        non_overlapping(clips),
        forward_only(clips),
    ensures
        ascending(clips, |c: ActionClip| c.start as int),
{
    let key = |c: ActionClip| c.start as int;
    assert forall|i: int, j: int| 0 <= i < j < clips.len() implies key(#[trigger] clips[i]) <= key(
        #[trigger] clips[j],
    ) by {
        clips_are_in_order(clips, i, j);
        assert(clips[i].duration >= 0);
    }
}

/// The lanes of a track, none if there is no such track.
pub open spec fn lanes_of(model: TimelineModel, t: int) -> Lanes {
    if 0 <= t < model.tracks.len() {
        model.tracks[t].lanes()
    } else {
        Map::empty()
    }
}

/// Making room for a clip adds no lanes.
pub proof fn room_is_empty(before: TimelineModel, ready: TimelineModel, at: Placement)
    requires
        made_room(before, ready, at, true),
        at.track < usize::MAX,
    ensures
        at.track < ready.tracks.len(),
        ready.tracks.len() >= before.tracks.len(),
        ready.actions == before.actions,
        forall|t: int| #[trigger] lanes_of(ready, t) == lanes_of(before, t),
{
    assert forall|t: int| #[trigger] lanes_of(ready, t) == lanes_of(before, t) by {
        if 0 <= t < before.tracks.len() {
            assert(ready.tracks.take(before.tracks.len() as int)[t] == before.tracks[t]);
        } else if 0 <= t < ready.tracks.len() {
            assert(is_empty_track(ready.tracks[t]));
        }
    }
}

/// What a timeline has when a clip was inserted again.
spec fn placed_again(
    before: TimelineModel,
    after: TimelineModel,
    at: Placement,
    field: UntypedField,
    subject: Subject,
    action: ActionId,
) -> bool {
    let record = after.actions.actions[action];
    let clip = ActionClip { id: action, start: start_of(at), duration: at.duration };
    let lanes = lanes_of(before, at.track as int);
    &&& !before.actions.has(action)
    &&& record.key.field == field
    &&& record.key.subject_id.type_id == subject.type_id
    &&& is_uid_for(before.actions.known, subject, record.key.subject_id.uid)
    &&& after.actions.actions == before.actions.actions.insert(action, record)
    &&& after.actions.subjects == claimed(
        before.actions.subjects,
        subject,
        record.key.subject_id.uid,
    )
    &&& after.actions.known == before.actions.known.insert(slot_of(record.key), subject.bits)
    &&& at.track < after.tracks.len()
    &&& after.tracks[at.track as int].laid_out()
    &&& at.track < before.tracks.len() ==> after.tracks == before.tracks.update(
        at.track as int,
        after.tracks[at.track as int],
    )
    &&& forall|t: int| t != at.track ==> #[trigger] lanes_of(after, t) == lanes_of(before, t)
    &&& lanes_of(after, at.track as int) == lanes.insert(
        record.key,
        lane(lanes, record.key).push(clip),
    )
}

/// A clip that is where it is to be can be put in its place.
proof fn taken_stays(
    there: Lanes,
    key: ActionKey,
    clips: Seq<ActionClip>,
    action: ActionId,
    start: Ticks,
    moved: Lanes,
    result: Result<(), RemoteEditError>,
)
    requires
        there.contains_key(key),
        there[key] == clips,
        has_clip(clips, action),
        rescheduled(clips, action, start, None) == clips,
        forall|at: int| !#[trigger] first_overlap(clips, at),
        forall|other: ActionKey| #[trigger]
            there.contains_key(other) && has_clip(there[other], action) ==> other == key,
        reschedule_outcome(there, moved, action, start, None, result),
    ensures
        result is Ok,
        moved == there,
{
    match result {
        Ok(()) => {
            let other = choose|other: ActionKey| #[trigger]
                there.contains_key(other) && has_clip(there[other], action) && non_overlapping(
                    rescheduled(there[other], action, start, None),
                ) && moved == there.insert(other, rescheduled(there[other], action, start, None));
            assert(moved =~= there);
        },
        Err(RemoteEditError::Overlap { conflict }) => {
            let (other, at) = choose|other: ActionKey, at: int| #[trigger]
                there.contains_key(other) && has_clip(there[other], action)
                    && #[trigger] first_overlap(rescheduled(there[other], action, start, None), at);
            assert(false);
        },
        Err(RemoteEditError::NotFound) => {
            assert(false);
        },
        Err(_) => {},
    }
}

/// A clip that was put behind its lane where it is to be stays there.
proof fn placed_stays(
    inserted: TimelineModel,
    moved: TimelineModel,
    after: TimelineModel,
    at: &Placement,
    key: ActionKey,
    action: ActionId,
    result: Result<ActionId, RemoteEditError>,
)
    requires
        at.track < inserted.tracks.len(),
        is_placed(inserted, moved, after, *at, true, action, result),
        ({
            let there = inserted.tracks[at.track as int].lanes();
            &&& there.contains_key(key)
            &&& has_clip(there[key], action)
            &&& rescheduled(there[key], action, start_of(*at), None) == there[key]
            &&& forall|n: int| !#[trigger] first_overlap(there[key], n)
            &&& forall|other: ActionKey| #[trigger]
                there.contains_key(other) && has_clip(there[other], action) ==> other == key
        }),
    ensures
        result == Ok::<ActionId, RemoteEditError>(action),
        forall|i: int| #[trigger] lanes_of(after, i) == lanes_of(inserted, i),
        after == (TimelineModel {
            actions: muted(inserted, action, at.enabled).actions,
            tracks: inserted.tracks.update(at.track as int, after.tracks[at.track as int]),
            ..inserted
        }),
        after.tracks[at.track as int].laid_out(),
{
    let t = at.track as int;
    let there = inserted.tracks[t].lanes();
    match result {
        Ok(_) => {
            taken_stays(
                there,
                key,
                there[key],
                action,
                start_of(*at),
                moved.tracks[t].lanes(),
                Ok(()),
            );
            assert forall|i: int| #[trigger] lanes_of(after, i) == lanes_of(inserted, i) by {
                if 0 <= i < inserted.tracks.len() && i != t {
                    assert(moved.tracks[i] == inserted.tracks[i]);
                }
            }
        },
        Err(error) => {
            taken_stays(there, key, there[key], action, start_of(*at), there, Err(error));
        },
    }
}

/// What inserting an action adds.
pub proof fn inserting_adds(
    ready: TimelineModel,
    inserted: TimelineModel,
    remote: Map<PipelineKey, InterpFn>,
    at: &Placement,
    key: RemoteFieldKey,
    subject: Subject,
    target: InsertTarget,
    ease: Option<Ease>,
    action: ActionId,
)
    requires
        is_inserted(ready, inserted, remote, *at, key, subject, target, ease, action),
        at.track < ready.tracks.len(),
    ensures
        ({
            let record = inserted.actions.actions[action];
            let lanes = ready.tracks[at.track as int].lanes();
            &&& action_added(ready.actions, inserted.actions, action, subject, key.field)
            &&& inserted.tracks.len() == ready.tracks.len()
            &&& forall|i: int|
                i != at.track ==> #[trigger] lanes_of(inserted, i) == lanes_of(ready, i)
            &&& lanes_of(inserted, at.track as int) == lanes.insert(
                record.key,
                lane(lanes, record.key).push(
                    ActionClip {
                        id: action,
                        start: append_start(lanes, record.key, start_of(*at)),
                        duration: at.duration,
                    },
                ),
            )
            &&& inserted == (TimelineModel {
                actions: inserted.actions,
                counts: bumped(ready.counts, key.pipeline),
                tracks: inserted.tracks,
                ..ready
            })
            &&& inserted.tracks == ready.tracks.update(
                at.track as int,
                inserted.tracks[at.track as int],
            )
            &&& inserted.tracks[at.track as int].laid_out()
            &&& !record.disabled
            &&& record.target_type == key.pipeline.target_id
            &&& record.interp == Some(remote[key.pipeline])
            &&& record.ease == ease
            &&& match target {
                InsertTarget::Constant(value) => record.action == Action::Constant(value)
                    && record.keyframes is None,
                InsertTarget::Keyframes(keyframes) => {
                    let points = sorted_keyframes(typed_keyframes(keyframes));
                    &&& record.action == Action::Constant(points.last().value)
                    &&& record.keyframes is Some
                    &&& record.keyframes->0@ == points
                },
            }
        }),
{
    let t = at.track as int;
    assert forall|i: int| i != t implies #[trigger] lanes_of(inserted, i) == lanes_of(ready, i) by {
        if 0 <= i < ready.tracks.len() {
            assert(inserted.tracks[i] == ready.tracks[i]);
        }
    }
}

/// Whether there is room for a clip behind its lane.
spec fn room_behind(
    before: TimelineModel,
    at: Placement,
    field: UntypedField,
    subject: Subject,
) -> bool {
    let lanes = lanes_of(before, at.track as int);
    forall|key: ActionKey|
        key.field == field && key.subject_id.type_id == subject.type_id && is_uid_for(
            before.actions.known,
            subject,
            key.subject_id.uid,
        ) && #[trigger] lanes.contains_key(key) ==> lanes[key].last().end() <= start_of(at)
}

/// What inserting a clip behind its lane leaves on its track.
proof fn clip_is_behind(
    before: TimelineModel,
    inserted: TimelineModel,
    at: &Placement,
    field: UntypedField,
    subject: Subject,
    action: ActionId,
)
    requires
        neat(before),
        start_of(*at) >= 0,
        at.duration >= 0,
        room_behind(before, *at, field, subject),
        action_added(before.actions, inserted.actions, action, subject, field),
        ({
            let key = inserted.actions.actions[action].key;
            let lanes = lanes_of(before, at.track as int);
            lanes_of(inserted, at.track as int) == lanes.insert(
                key,
                lane(lanes, key).push(
                    ActionClip {
                        id: action,
                        start: append_start(lanes, key, start_of(*at)),
                        duration: at.duration,
                    },
                ),
            )
        }),
    ensures
        ({
            let key = inserted.actions.actions[action].key;
            let lanes = lanes_of(before, at.track as int);
            let there = lanes_of(inserted, at.track as int);
            &&& there == lanes.insert(
                key,
                lane(lanes, key).push(
                    ActionClip { id: action, start: start_of(*at), duration: at.duration },
                ),
            )
            &&& there.contains_key(key)
            &&& has_clip(there[key], action)
            &&& rescheduled(there[key], action, start_of(*at), None) == there[key]
            &&& forall|n: int| !#[trigger] first_overlap(there[key], n)
            &&& forall|other: ActionKey| #[trigger]
                there.contains_key(other) && has_clip(there[other], action) ==> other == key
        }),
{
    let t = at.track as int;
    let key = inserted.actions.actions[action].key;
    let lanes = lanes_of(before, t);
    let clips = lane(lanes, key);
    let start = start_of(*at);
    let clip = ActionClip { id: action, start, duration: at.duration };
    if lanes.contains_key(key) {
        assert(before.tracks[t].lanes().contains_key(key));
        assert(lane_neat(before, key, clips));
        assert(clips.last().end() <= start);
    }
    assert(append_start(lanes, key, start) == start);
    lane_takes_clip(before, key, clips, clip);
    let there = lanes_of(inserted, t);
    assert(there == lanes.insert(key, clips.push(clip)));
    assert forall|other: ActionKey| #[trigger]
        there.contains_key(other) && has_clip(there[other], action) implies other == key by {
        if other != key {
            assert(before.tracks[t].lanes().contains_key(other));
            assert(lane_neat(before, other, lanes[other]));
            lane_is_of_actions(before, other, lanes[other], action);
        }
    }
}

/// The record that an insert leaves.
pub open spec fn record_is(
    model: TimelineModel,
    action: ActionId,
    target: InsertTarget,
    ease: Option<Ease>,
    disabled: bool,
) -> bool {
    let record = model.actions.actions[action];
    &&& record.ease == ease
    &&& record.disabled == disabled
    &&& match target {
        InsertTarget::Constant(value) => record.action == Action::Constant(value)
            && record.keyframes is None,
        InsertTarget::Keyframes(keyframes) => {
            let points = sorted_keyframes(typed_keyframes(keyframes));
            &&& record.action == Action::Constant(points.last().value)
            &&& record.keyframes is Some
            &&& record.keyframes->0@ == points
        },
    }
}

/// An action that was inserted behind its lane is placed.
proof fn inserted_is_placed(
    before: TimelineModel,
    ready: TimelineModel,
    inserted: TimelineModel,
    moved: TimelineModel,
    after: TimelineModel,
    remote: Map<PipelineKey, InterpFn>,
    at: &Placement,
    key: RemoteFieldKey,
    subject: Subject,
    target: InsertTarget,
    ease: Option<Ease>,
    action: ActionId,
    result: Result<ActionId, RemoteEditError>,
)
    requires
        neat(before),
        at.track < ready.tracks.len(),
        ready.actions == before.actions,
        at.track < before.tracks.len() ==> ready.tracks == before.tracks,
        forall|t: int| #[trigger] lanes_of(ready, t) == lanes_of(before, t),
        start_of(*at) >= 0,
        at.duration >= 0,
        room_behind(before, *at, key.field, subject),
        is_inserted(ready, inserted, remote, *at, key, subject, target, ease, action),
        is_placed(inserted, moved, after, *at, true, action, result),
    ensures
        result is Ok,
        placed_again(before, after, *at, key.field, subject, result->Ok_0),
        record_is(after, result->Ok_0, target, ease, at.enabled == Some(false)),
        after.actions.actions[result->Ok_0].target_type == key.pipeline.target_id,
{
    let t = at.track as int;
    inserting_adds(ready, inserted, remote, at, key, subject, target, ease, action);
    let record = inserted.actions.actions[action];
    assert(lanes_of(ready, t) == lanes_of(before, t));
    clip_is_behind(before, inserted, at, key.field, subject, action);
    placed_stays(inserted, moved, after, at, record.key, action, result);
    assert forall|i: int| i != t implies #[trigger] lanes_of(after, i) == lanes_of(before, i) by {
        assert(lanes_of(ready, i) == lanes_of(before, i));
        assert(lanes_of(inserted, i) == lanes_of(ready, i));
    }
    assert(lanes_of(after, t) == lanes_of(inserted, t));
    assert(after.tracks =~= ready.tracks.update(t, after.tracks[t]));
    assert(after.actions.actions =~= before.actions.actions.insert(
        action,
        after.actions.actions[action],
    ));
}

/// A clip that is inserted behind its lane again gets there.
proof fn room_is_taken(
    before: TimelineModel,
    ready: TimelineModel,
    after: TimelineModel,
    remote: Map<PipelineKey, InterpFn>,
    at: &Placement,
    key: RemoteFieldKey,
    subject: Subject,
    target: InsertTarget,
    ease: Option<Ease>,
    result: Result<ActionId, RemoteEditError>,
)
    requires
        neat(before),
        made_room(before, ready, *at, true),
        at.track < usize::MAX,
        start_of(*at) >= 0,
        at.duration >= 0,
        insert_fault(ready, remote, *at, key, subject, target) is None,
        room_taken(ready, after, remote, *at, key, subject, target, ease, true, result),
        room_behind(before, *at, key.field, subject),
    ensures
        result is Ok,
        placed_again(before, after, *at, key.field, subject, result->Ok_0),
        record_is(after, result->Ok_0, target, ease, at.enabled == Some(false)),
        after.actions.actions[result->Ok_0].target_type == key.pipeline.target_id,
{
    room_is_empty(before, ready, *at);
    if at.track < before.tracks.len() {
        assert(ready.tracks.take(before.tracks.len() as int) =~= ready.tracks);
    }
    let (inserted, moved, action) = choose|
        inserted: TimelineModel,
        moved: TimelineModel,
        action: ActionId,
    |
        {
            &&& is_inserted(ready, inserted, remote, *at, key, subject, target, ease, action)
            &&& #[trigger] is_placed(inserted, moved, after, *at, true, action, result)
        };
    assert(is_inserted(ready, inserted, remote, *at, key, subject, target, ease, action));
    inserted_is_placed(
        before,
        ready,
        inserted,
        moved,
        after,
        remote,
        at,
        key,
        subject,
        target,
        ease,
        action,
        result,
    );
}

/// A lane stays neat when there is one more action.
pub proof fn neat_lane_stays(
    before: TimelineModel,
    after: TimelineModel,
    key: ActionKey,
    clips: Seq<ActionClip>,
    action: ActionId,
    subject: Subject,
    uid: UId,
)
    requires
        lane_neat(before, key, clips),
        !before.actions.has(action),
        after.actions.actions == before.actions.actions.insert(
            action,
            after.actions.actions[action],
        ),
        after.actions.subjects == claimed(before.actions.subjects, subject, uid),
    ensures
        lane_neat(after, key, clips),
{
    reveal(lane_neat);
    assert forall|i: int| 0 <= i < clips.len() implies {
        &&& (#[trigger] clips[i]).start >= 0
        &&& clips[i].duration >= 0
        &&& after.actions.has(clips[i].id)
        &&& after.actions.actions[clips[i].id].key == key
    } by {
        assert(before.actions.has(clips[i].id));
    }
}

/// A lane stays neat with one more clip behind it.
proof fn neat_lane_grows(
    before: TimelineModel,
    after: TimelineModel,
    key: ActionKey,
    clips: Seq<ActionClip>,
    clip: ActionClip,
    subject: Subject,
)
    requires
        clips.len() > 0 ==> lane_neat(before, key, clips),
        clips.len() > 0 ==> clips.last().end() <= clip.start,
        clip.start >= 0,
        clip.duration >= 0,
        !before.actions.has(clip.id),
        after.actions.actions == before.actions.actions.insert(
            clip.id,
            after.actions.actions[clip.id],
        ),
        after.actions.actions[clip.id].key == key,
        key.subject_id.type_id == subject.type_id,
        after.actions.subjects == claimed(before.actions.subjects, subject, key.subject_id.uid),
    ensures
        lane_neat(after, key, clips.push(clip)),
{
    reveal(lane_neat);
    let grown = clips.push(clip);
    assert forall|i: int| 0 <= i < grown.len() implies {
        &&& (#[trigger] grown[i]).start >= 0
        &&& grown[i].duration >= 0
        &&& after.actions.has(grown[i].id)
        &&& after.actions.actions[grown[i].id].key == key
    } by {
        if i < clips.len() {
            assert(grown[i] == clips[i]);
            assert(before.actions.has(clips[i].id));
        }
    }
    assert forall|i: int, j: int| 0 <= i < j < grown.len() implies (#[trigger] grown[i]).id != (
    #[trigger] grown[j]).id by {
        assert(grown[i] == clips[i]);
        assert(before.actions.has(clips[i].id));
    }
    assert forall|i: int| 0 < i < grown.len() implies grown[i - 1].end() <= (
    #[trigger] grown[i]).start by {
        if i < clips.len() {
            assert(grown[i] == clips[i] && grown[i - 1] == clips[i - 1]);
        }
    }
}

/// Subjects keep their ids when one of them is claimed, and none gets two.
pub proof fn owners_stay(
    before: TimelineModel,
    after: TimelineModel,
    subject: Subject,
    uid: UId,
)
    requires
        owners_differ(before),
        is_uid_for(before.actions.known, subject, uid),
        after.actions.subjects == claimed(before.actions.subjects, subject, uid),
        after.actions.known == before.actions.known.insert((subject.type_id, uid), subject.bits),
    ensures
        forall|key: ActionKey| #[trigger]
            before.actions.subjects.contains_key(slot_of(key)) ==> owner_of(after, key)
                == owner_of(before, key),
        owners_differ(after),
{
    claiming_keeps_known(before.actions.subjects, before.actions.known, subject, uid);
    assert forall|key: ActionKey| #[trigger]
        before.actions.subjects.contains_key(slot_of(key)) implies owner_of(after, key)
        == owner_of(before, key) by {
        assert(before.actions.known.contains_key(slot_of(key)));
    }
}

/// A timeline stays neat when a clip is inserted again.
proof fn neat_stays(
    before: TimelineModel,
    after: TimelineModel,
    at: &Placement,
    field: UntypedField,
    subject: Subject,
    action: ActionId,
)
    requires
        neat(before),
        placed_again(before, after, *at, field, subject, action),
        room_behind(before, *at, field, subject),
        start_of(*at) >= 0,
        at.duration >= 0,
    ensures
        neat(after),
{
    let t = at.track as int;
    let key = after.actions.actions[action].key;
    let clip = ActionClip { id: action, start: start_of(*at), duration: at.duration };
    let lanes = lanes_of(before, t);
    owners_stay(before, after, subject, key.subject_id.uid);
    assert forall|i: int, other: ActionKey|
        0 <= i < after.tracks.len() && #[trigger] after.tracks[i].lanes().contains_key(
            other,
        ) implies lane_neat(after, other, after.tracks[i].lanes()[other]) by {
        assert(lanes_of(after, i).contains_key(other));
        if i == t && other == key {
            let clips = lane(lanes, key);
            if lanes.contains_key(key) {
                assert(before.tracks[t].lanes().contains_key(key));
                assert(lane_neat(before, key, clips));
                assert(clips.last().end() <= start_of(*at));
            }
            neat_lane_grows(before, after, key, clips, clip, subject);
        } else {
            assert(i != t ==> lanes_of(after, i) == lanes_of(before, i));
            assert(lanes_of(before, i).contains_key(other));
            assert(before.tracks[i].lanes().contains_key(other));
            neat_lane_stays(
                before,
                after,
                other,
                before.tracks[i].lanes()[other],
                action,
                subject,
                key.subject_id.uid,
            );
        }
    }
}

/// Whether labels and colours are those of actions.
pub open spec fn labels_owned(studio: StudioModel, id: TimelineId) -> bool {
    forall|action: u64| #[trigger]
        studio.edits_of(id).clip_meta.contains_key(action) ==> studio.timelines[id].actions.has(
            ActionId { bits: action },
        )
}

/// Whether one studio has what another one has, and one more clip as it shows.
spec fn one_more_shown(
    before: StudioModel,
    after: StudioModel,
    id: TimelineId,
    action: ActionId,
    one: Shown,
) -> bool {
    let clip = ActionClip { id: action, start: one.clip.start, duration: one.clip.duration };
    &&& shown_clip(after, id, clip) == one.clip
    &&& forall|old: ActionClip|
        before.timelines[id].actions.has(old.id) ==> #[trigger] shown_clip(after, id, old)
            == shown_clip(before, id, old)
}

/// A lane of actions that are still there shows the same.
proof fn shown_lane_stays(
    before: StudioModel,
    after: StudioModel,
    id: TimelineId,
    key: ActionKey,
    clips: Seq<ActionClip>,
    action: ActionId,
    one: Shown,
)
    requires
        lane_neat(before.timelines[id], key, clips),
        one_more_shown(before, after, id, action, one),
    ensures
        shown_lane(after, id, clips) == shown_lane(before, id, clips),
{
    reveal(lane_neat);
    assert forall|i: int| 0 <= i < clips.len() implies shown_lane(after, id, clips)[i]
        == shown_lane(before, id, clips)[i] by {
        assert(before.timelines[id].actions.has(clips[i].id));
        assert(shown_clip(after, id, clips[i]) == shown_clip(before, id, clips[i]));
    }
    assert(shown_lane(after, id, clips) =~= shown_lane(before, id, clips));
}

/// The key that a clip got is that of its subject and field.
pub proof fn key_is_of_owner(
    before: TimelineModel,
    subject: Subject,
    key: ActionKey,
    other: ActionKey,
)
    requires
        neat(before),
        key.subject_id.type_id == subject.type_id,
        is_uid_for(before.actions.known, subject, key.subject_id.uid),
        before.actions.subjects.contains_key(slot_of(other)),
        owner_of(before, other) == subject,
        other.field == key.field,
    ensures
        other == key,
{
    assert(before.actions.known.contains_key(slot_of(other)));
    if !before.actions.known.contains_key(slot_of(key)) {
        assert(before.actions.known.contains_key((subject.type_id, other.subject_id.uid)));
    } else {
        assert(slot_of(other) == slot_of(key));
    }
}

/// What is listed of a lane that is not there is nothing.
proof fn no_lane_no_list(
    before: StudioModel,
    id: TimelineId,
    shown: Seq<Shown>,
    t: int,
    subject: Subject,
    key: ActionKey,
)
    requires
        neat(before.timelines[id]),
        shows(before, id, shown),
        key.subject_id.type_id == subject.type_id,
        is_uid_for(before.timelines[id].actions.known, subject, key.subject_id.uid),
        !lanes_of(before.timelines[id], t).contains_key(key),
    ensures
        listed(shown, t, subject, key.field) == Seq::<ShownClip>::empty(),
{
    let model = before.timelines[id];
    if listed(shown, t, subject, key.field).len() > 0 {
        assert(has_lane(model, t, subject, key.field));
        let other = choose|other: ActionKey| #[trigger]
            model.tracks[t].lanes().contains_key(other) && owner_of(model, other) == subject
                && other.field == key.field;
        lane_is_of_actions(model, other, model.tracks[t].lanes()[other], ActionId { bits: 0 });
        key_is_of_owner(model, subject, key, other);
    }
    assert(listed(shown, t, subject, key.field) =~= Seq::<ShownClip>::empty());
}

/// A lane shows what is listed of it when one more clip was inserted.
proof fn lane_shows_one_more(
    before: StudioModel,
    after: StudioModel,
    id: TimelineId,
    shown: Seq<Shown>,
    one: Shown,
    at: &Placement,
    action: ActionId,
    t: int,
    other: ActionKey,
)
    requires
        neat(before.timelines[id]),
        shows(before, id, shown),
        placed_again(
            before.timelines[id],
            after.timelines[id],
            *at,
            one.field,
            one.subject,
            action,
        ),
        one_more_shown(before, after, id, action, one),
        at.track == one.track,
        start_of(*at) == one.clip.start,
        at.duration == one.clip.duration,
        lanes_of(after.timelines[id], t).contains_key(other),
    ensures
        shown_lane(after, id, lanes_of(after.timelines[id], t)[other]) == listed(
            shown.push(one),
            t,
            owner_of(after.timelines[id], other),
            other.field,
        ),
{
    let (a, b) = (before.timelines[id], after.timelines[id]);
    let key = b.actions.actions[action].key;
    let clip = ActionClip { id: action, start: start_of(*at), duration: at.duration };
    owners_stay(a, b, one.subject, key.subject_id.uid);
    listed_one_more(shown, one, t, owner_of(b, other), other.field);
    let old = lanes_of(a, t);
    if t == at.track && other == key {
        assert(owner_of(b, key) == one.subject);
        let clips = lane(old, key);
        if old.contains_key(key) {
            assert(a.tracks[t].lanes().contains_key(key));
            assert(lane_neat(a, key, clips));
            lane_is_of_actions(a, key, clips, action);
            shown_lane_stays(before, after, id, key, clips, action, one);
            assert(owner_of(a, key) == one.subject);
        } else {
            no_lane_no_list(before, id, shown, t, one.subject, key);
            assert(shown_lane(after, id, clips) =~= Seq::<ShownClip>::empty());
        }
        assert(shown_lane(after, id, clips.push(clip)) =~= shown_lane(after, id, clips).push(
            one.clip,
        ));
    } else {
        assert(t != at.track ==> lanes_of(b, t) == lanes_of(a, t));
        assert(old.contains_key(other));
        assert(a.tracks[t].lanes().contains_key(other));
        assert(lane_neat(a, other, old[other]));
        lane_is_of_actions(a, other, old[other], action);
        shown_lane_stays(before, after, id, other, old[other], action, one);
        if t == at.track && other.field == one.field && owner_of(a, other) == one.subject {
            key_is_of_owner(a, one.subject, key, other);
        }
    }
}

/// A timeline shows one more clip when it was inserted.
proof fn shows_one_more(
    before: StudioModel,
    after: StudioModel,
    id: TimelineId,
    shown: Seq<Shown>,
    one: Shown,
    at: &Placement,
    action: ActionId,
)
    requires
        neat(before.timelines[id]),
        shows(before, id, shown),
        placed_again(
            before.timelines[id],
            after.timelines[id],
            *at,
            one.field,
            one.subject,
            action,
        ),
        one_more_shown(before, after, id, action, one),
        at.track == one.track,
        start_of(*at) == one.clip.start,
        at.duration == one.clip.duration,
    ensures
        shows(after, id, shown.push(one)),
{
    let (a, b) = (before.timelines[id], after.timelines[id]);
    let more = shown.push(one);
    let key = b.actions.actions[action].key;
    assert forall|t: int, other: ActionKey|
        0 <= t < b.tracks.len() && #[trigger] b.tracks[t].lanes().contains_key(
            other,
        ) implies shown_lane(after, id, b.tracks[t].lanes()[other]) == listed(
        more,
        t,
        owner_of(b, other),
        other.field,
    ) by {
        lane_shows_one_more(before, after, id, shown, one, at, action, t, other);
    }
    assert forall|t: int, subject: Subject, field: UntypedField|
        (#[trigger] listed(more, t, subject, field)).len() > 0 implies has_lane(
        b,
        t,
        subject,
        field,
    ) by {
        listed_one_more(shown, one, t, subject, field);
        owners_stay(a, b, one.subject, key.subject_id.uid);
        if one.track == t && one.subject == subject && one.field == field {
            assert(lanes_of(b, t).contains_key(key));
            assert(b.tracks[t].lanes().contains_key(key));
            assert(owner_of(b, key) == subject);
        } else {
            assert(has_lane(a, t, subject, field));
            let other = choose|other: ActionKey| #[trigger]
                a.tracks[t].lanes().contains_key(other) && owner_of(a, other) == subject
                    && other.field == field;
            lane_is_of_actions(a, other, a.tracks[t].lanes()[other], action);
            assert(t != at.track ==> lanes_of(b, t) == lanes_of(a, t));
            assert(lanes_of(b, t).contains_key(other));
            assert(b.tracks[t].lanes().contains_key(other));
        }
    }
}

/// Whether an insert leads where a clip leads that shows.
pub open spec fn leads_alike(target: InsertTarget, one: ShownClip, target_id: u64) -> bool {
    match target {
        InsertTarget::Constant(value) => {
            &&& value.type_id == target_id
            &&& one.action == Action::Constant(value)
            &&& one.points is None
        },
        InsertTarget::Keyframes(keyframes) => {
            let points = typed_keyframes(keyframes);
            &&& keyframes_fault(keyframes, target_id) is None
            &&& sorted_keyframes(points) == points
            &&& one.points == Some(points)
            &&& one.action == Action::Constant(points.last().value)
        },
    }
}

/// There is room behind the lane of a clip that leaves room.
proof fn room_is_behind(
    before: StudioModel,
    id: TimelineId,
    shown: Seq<Shown>,
    one: Shown,
    at: &Placement,
)
    requires
        neat(before.timelines[id]),
        shows(before, id, shown),
        leaves_room(listed(shown, one.track, one.subject, one.field), one.clip),
        at.track == one.track,
        start_of(*at) == one.clip.start,
    ensures
        room_behind(before.timelines[id], *at, one.field, one.subject),
{
    let model = before.timelines[id];
    let t = at.track as int;
    let lanes = lanes_of(model, t);
    assert forall|key: ActionKey|
        key.field == one.field && key.subject_id.type_id == one.subject.type_id && is_uid_for(
            model.actions.known,
            one.subject,
            key.subject_id.uid,
        ) && #[trigger] lanes.contains_key(key) implies lanes[key].last().end() <= start_of(*at) by {
        assert(model.tracks[t].lanes().contains_key(key));
        assert(lane_neat(model, key, lanes[key]));
        lane_is_of_actions(model, key, lanes[key], ActionId { bits: 0 });
        assert(owner_of(model, key) == one.subject);
        let list = listed(shown, t, one.subject, one.field);
        assert(shown_lane(before, id, lanes[key]) == list);
        assert(list.last() == shown_clip(before, id, lanes[key].last()));
    }
}

/// What a placement with a label and a colour leaves of those.
pub proof fn labels_stay(
    before: StudioModel,
    model: TimelineModel,
    after: StudioModel,
    id: TimelineId,
    action: ActionId,
    at: &Placement,
)
    requires
        labels_owned(before, id),
        at.asset_of is None,
        !before.timelines[id].actions.has(action),
        model.actions.actions == before.timelines[id].actions.actions.insert(
            action,
            model.actions.actions[action],
        ),
        after == insert_recorded(before.with_timeline(id, model), id, action.bits, *at),
    ensures
        labels_owned(after, id),
        after.timelines[id] == model,
        after.timelines.contains_key(id),
        after.catalog == before.catalog,
        after.registry == before.registry,
        after.edits_of(id).meta_of(action.bits) == (ClipMeta { label: at.label, color: at.color }),
        forall|other: ActionId|
            before.timelines[id].actions.has(other) ==> after.edits_of(id).meta_of(
                #[trigger] other.bits,
            ) == before.edits_of(id).meta_of(other.bits),
{
    assert(action == ActionId { bits: action.bits });
    assert(!before.edits_of(id).clip_meta.contains_key(action.bits));
    assert(before.with_timeline(id, model).edits_of(id) == before.edits_of(id));
    assert forall|other: ActionId| before.timelines[id].actions.has(other) implies after.edits_of(
        id,
    ).meta_of(#[trigger] other.bits) == before.edits_of(id).meta_of(other.bits) by {
        if other.bits == action.bits {
            assert(other == action);
        }
    }
}

/// Whether the clip that shows was placed so, by an insert that leads where it
/// leads.
pub open spec fn is_planned(
    id: TimelineId,
    at: Placement,
    key: RemoteFieldKey,
    target: InsertTarget,
    one: Shown,
    before: StudioModel,
    after: StudioModel,
    result: Applied,
) -> bool {
    &&& clip_placed(
        id,
        at,
        key,
        one.subject,
        target,
        one.clip.ease,
        true,
        None,
        before,
        after,
        result,
    )
    &&& key.field == one.field
    &&& fits(key)
    &&& key.pipeline.subject_id == one.subject.type_id
    &&& before.registry.remote@.contains_key(key.pipeline)
    &&& leads_alike(target, one.clip, key.pipeline.target_id)
    &&& at.track == one.track
    &&& at.track < usize::MAX
    &&& at.asset_of is None
    &&& at.duration == one.clip.duration
    &&& at.start_at == Some(one.clip.start)
    &&& one.clip.meta == (ClipMeta { label: at.label, color: at.color })
    &&& one.clip.disabled == (at.enabled == Some(false))
}

/// Whether a timeline has one more action, of a clip as it shows, and its track is
/// laid out.
pub open spec fn grew(
    before: TimelineModel,
    after: TimelineModel,
    one: Shown,
    action: ActionId,
) -> bool {
    let record = after.actions.actions[action];
    &&& after.actions.actions == before.actions.actions.insert(action, record)
    &&& record.key.field == one.field
    &&& record.target_type == one.field.target_id
    &&& record.action == one.clip.action
    &&& record.ease == one.clip.ease
    &&& match record.keyframes {
        Some(storage) => one.clip.points == Some(storage@),
        None => one.clip.points is None,
    }
    &&& after.actions.subjects.contains_key(slot_of(record.key))
    &&& owner_of(after, record.key) == one.subject
    &&& forall|key: ActionKey| #[trigger]
        before.actions.subjects.contains_key(slot_of(key)) ==> after.actions.subjects.contains_key(
            slot_of(key),
        ) && owner_of(after, key) == owner_of(before, key)
    &&& 0 <= one.track < before.tracks.len() ==> {
        &&& after.tracks == before.tracks.update(one.track, after.tracks[one.track])
        &&& after.tracks[one.track].laid_out()
    }
}

/// Whether a timeline has one more action, of a clip as it shows.
pub open spec fn grows(before: TimelineModel, after: TimelineModel, one: Shown) -> bool {
    exists|action: ActionId| #[trigger] grew(before, after, one, action)
}

/// A clip that was placed again shows.
proof fn placing_shows(
    id: TimelineId,
    at: &Placement,
    key: RemoteFieldKey,
    target: InsertTarget,
    shown: Seq<Shown>,
    one: Shown,
    before: StudioModel,
    after: StudioModel,
    result: Applied,
)
    requires
        before.timelines.contains_key(id),
        neat(before.timelines[id]),
        labels_owned(before, id),
        shows(before, id, shown),
        leaves_room(listed(shown, one.track, one.subject, one.field), one.clip),
        is_planned(id, *at, key, target, one, before, after, result),
    ensures
        result is Ok,
        after.timelines.contains_key(id),
        neat(after.timelines[id]),
        labels_owned(after, id),
        shows(after, id, shown.push(one)),
        grows(before.timelines[id], after.timelines[id], one),
        after.catalog == before.catalog,
        after.registry == before.registry,
{
    let remote = before.registry.remote@;
    let a = before.timelines[id];
    let (b, placed) = choose|b: TimelineModel, placed: Result<ActionId, RemoteEditError>|
        {
            &&& #[trigger] timeline_placed(
                a,
                b,
                remote,
                *at,
                key,
                one.subject,
                target,
                one.clip.ease,
                true,
                placed,
            )
            &&& match placed {
                Err(error) => {
                    &&& result == Err::<(OpResult, EditOp), Fault>(Fault::Edit(error))
                    &&& after == before.with_timeline(id, b)
                },
                Ok(action) => {
                    &&& result is Ok
                    &&& after == insert_recorded(
                        before.with_timeline(id, b),
                        id,
                        action.bits,
                        *at,
                    )
                },
            }
        };
    room_is_behind(before, id, shown, one, at);
    timeline_takes(a, b, remote, at, key, one.subject, target, one.clip.ease, placed);
    let action = placed->Ok_0;
    labels_stay(before, b, after, id, action, at);
    neat_stays(a, b, at, one.field, one.subject, action);
    owners_stay(a, b, one.subject, b.actions.actions[action].key.subject_id.uid);
    assert(grew(a, b, one, action));
    assert(one_more_shown(before, after, id, action, one)) by {
        assert forall|old: ActionClip| a.actions.has(old.id) implies #[trigger] shown_clip(
            after,
            id,
            old,
        ) == shown_clip(before, id, old) by {
            assert(old.id.bits == old.id.bits);
            assert(b.actions.actions[old.id] == a.actions.actions[old.id]);
        }
    }
    shows_one_more(before, after, id, shown, one, at, action);
}

/// A timeline takes a clip that has room.
proof fn timeline_takes(
    before: TimelineModel,
    after: TimelineModel,
    remote: Map<PipelineKey, InterpFn>,
    at: &Placement,
    key: RemoteFieldKey,
    subject: Subject,
    target: InsertTarget,
    ease: Option<Ease>,
    result: Result<ActionId, RemoteEditError>,
)
    requires
        neat(before),
        timeline_placed(before, after, remote, *at, key, subject, target, ease, true, result),
        at.track < usize::MAX,
        start_of(*at) >= 0,
        at.duration >= 0,
        key.pipeline.subject_id == subject.type_id,
        remote.contains_key(key.pipeline),
        match target {
            InsertTarget::Constant(value) => value.type_id == key.pipeline.target_id,
            InsertTarget::Keyframes(keyframes) => keyframes_fault(
                keyframes,
                key.pipeline.target_id,
            ) is None,
        },
        room_behind(before, *at, key.field, subject),
    ensures
        result is Ok,
        placed_again(before, after, *at, key.field, subject, result->Ok_0),
        record_is(after, result->Ok_0, target, ease, at.enabled == Some(false)),
        after.actions.actions[result->Ok_0].target_type == key.pipeline.target_id,
{
    let ready = choose|ready: TimelineModel|
        {
            &&& #[trigger] made_room(before, ready, *at, true)
            &&& room_taken(ready, after, remote, *at, key, subject, target, ease, true, result)
        };
    room_is_empty(before, ready, *at);
    assert(insert_fault(ready, remote, *at, key, subject, target) is None);
    room_is_taken(before, ready, after, remote, at, key, subject, target, ease, result);
}

/// The subject of a clip whose placement was described is found.
proof fn subject_is_found<H: RemoteHost>(
    host: &H,
    catalog: CatalogModel,
    remote: Map<PipelineKey, InterpFn>,
    at: &Placement,
    one: Shown,
    found: Result<Subject, Fault>,
)
    requires
        placement_describes(catalog, remote, *at, one),
        subject_resolved(host, catalog.entry(at.component@, at.field@)->0, *at, found),
    ensures
        found == Ok::<Subject, Fault>(one.subject),
{
}

/// What the edit that describes a constant clip places.
proof fn constant_is_planned<H: RemoteHost>(
    host: &H,
    id: TimelineId,
    at: &Placement,
    to: &Json,
    one: Shown,
    before: StudioModel,
    after: StudioModel,
    result: Applied,
) -> (planned: (RemoteFieldKey, InsertTarget))
    requires
        reads_back(host),
        placement_describes(before.catalog, before.registry.remote@, *at, one),
        one.clip.points is None,
        one.clip.action matches Action::Constant(value) && value.type_id == one.field.target_id
            && encodes(host, value, Some(*to)),
        insert_applied(host, id, *at, *to, None, true, before, after, result),
    ensures
        is_planned(id, *at, planned.0, planned.1, one, before, after, result),
{
    let (eased, settled, between, planned) = choose|
        eased: Result<Option<Ease>, Fault>,
        settled: Result<Option<Arc<Json>>, Fault>,
        between: StudioModel,
        planned: Result<(RemoteFieldKey, Subject, Value), Fault>,
    | #[trigger]
        insert_stepped(
            host,
            id,
            *at,
            *to,
            None,
            true,
            before,
            eased,
            settled,
            between,
            planned,
            after,
            result,
        );
    optional_ease_survives(one.clip.ease, at.ease, eased);
    let entry = before.catalog.entry(at.component@, at.field@)->0;
    let target = entry.pipeline.target_id;
    let value = one.clip.action->Constant_0;
    let decoded = choose|decoded: Result<Value, CatalogError>|
        {
            &&& #[trigger] decodes(host, target, *to, decoded)
            &&& match decoded {
                Err(error) => planned == Err::<(RemoteFieldKey, Subject, Value), Fault>(
                    Fault::Catalog(error),
                ),
                Ok(value) => match planned {
                    Ok((key, subject, read)) => {
                        &&& key == entry.key()
                        &&& read == value
                        &&& subject_resolved(host, entry, *at, Ok(subject))
                    },
                    Err(fault) => subject_resolved(host, entry, *at, Err(fault)),
                },
            }
        };
    assert(encodes(host, value, Some(*to)));
    assert(decodes(host, value.type_id, *to, decoded));
    match planned {
        Ok((key, subject, read)) => {
            subject_is_found(
                host,
                before.catalog,
                before.registry.remote@,
                at,
                one,
                Ok(subject),
            );
            (key, InsertTarget::Constant(value))
        },
        Err(fault) => {
            subject_is_found(
                host,
                before.catalog,
                before.registry.remote@,
                at,
                one,
                Err(fault),
            );
            (entry.key(), InsertTarget::Constant(value))
        },
    }
}

/// What the edit that describes a keyframed clip places.
proof fn keyframes_are_planned<H: RemoteHost>(
    host: &H,
    id: TimelineId,
    at: &Placement,
    docs: Seq<KeyframeDoc>,
    one: Shown,
    before: StudioModel,
    after: StudioModel,
    result: Applied,
) -> (planned: (RemoteFieldKey, InsertTarget))
    requires
        reads_back(host),
        placement_describes(before.catalog, before.registry.remote@, *at, one),
        one.clip.points matches Some(points) && {
            &&& points_travel(points, one.field.target_id)
            &&& docs.len() == points.len()
            &&& are_keyframe_docs(host, points, docs)
            &&& one.clip.action == Action::Constant(points.last().value)
        },
        insert_keyframes_applied(host, id, *at, docs, true, before, after, result),
    ensures
        is_planned(id, *at, planned.0, planned.1, one, before, after, result),
{
    let (eased, planned) = choose|
        eased: Result<Option<Ease>, Fault>,
        planned: Result<(RemoteFieldKey, Subject, Seq<RemoteKeyframe>), Fault>,
    | #[trigger]
        keyframes_stepped(host, id, *at, docs, true, before, eased, planned, after, result);
    optional_ease_survives(one.clip.ease, at.ease, eased);
    let entry = before.catalog.entry(at.component@, at.field@)->0;
    let target = entry.pipeline.target_id;
    let points = one.clip.points->0;
    let read = choose|read: Result<Seq<RemoteKeyframe>, Fault>|
        {
            &&& #[trigger] keyframes_read(host, docs, target, read)
            &&& match read {
                Err(fault) => planned == Err::<
                    (RemoteFieldKey, Subject, Seq<RemoteKeyframe>),
                    Fault,
                >(fault),
                Ok(points) => match planned {
                    Ok((key, subject, found)) => {
                        &&& key == entry.key()
                        &&& found == points
                        &&& subject_resolved(host, entry, *at, Ok(subject))
                    },
                    Err(fault) => subject_resolved(host, entry, *at, Err(fault)),
                },
            }
        };
    points_read_back(host, points, docs, target, read);
    match planned {
        Ok((key, subject, found)) => {
            subject_is_found(
                host,
                before.catalog,
                before.registry.remote@,
                at,
                one,
                Ok(subject),
            );
            (key, InsertTarget::Keyframes(found))
        },
        Err(fault) => {
            subject_is_found(
                host,
                before.catalog,
                before.registry.remote@,
                at,
                one,
                Err(fault),
            );
            (entry.key(), InsertTarget::Keyframes(read->Ok_0))
        },
    }
}

/// What the edit that describes a clip places.
pub proof fn described_is_planned<H: RemoteHost>(
    host: &H,
    id: TimelineId,
    op: EditOp,
    one: Shown,
    before: StudioModel,
    after: StudioModel,
    result: Applied,
) -> (planned: (RemoteFieldKey, InsertTarget))
    requires
        reads_back(host),
        op_describes(host, before.catalog, before.registry.remote@, op, one),
        op_applied(host, id, op, before, after, result),
    ensures
        placement_of(op) is Some,
        is_planned(
            id,
            placement_of(op)->0,
            planned.0,
            planned.1,
            one,
            before,
            after,
            result,
        ),
{
    match op {
        EditOp::Insert { at, to, .. } => {
            constant_is_planned(host, id, &*at, &*to, one, before, after, result)
        },
        EditOp::InsertKeyframes { at, keyframes, .. } => {
            keyframes_are_planned(host, id, &*at, keyframes@, one, before, after, result)
        },
        _ => {
            arbitrary()
        },
    }
}

/// A clip that shows is inserted again by the edit that describes it: the edit
/// is not refused, and the timeline shows one more clip.
pub proof fn inserting_shows_again<H: RemoteHost>(
    host: &H,
    id: TimelineId,
    op: EditOp,
    shown: Seq<Shown>,
    one: Shown,
    before: StudioModel,
    after: StudioModel,
    result: Applied,
)
    requires
        reads_back(host),
        before.timelines.contains_key(id),
        neat(before.timelines[id]),
        labels_owned(before, id),
        shows(before, id, shown),
        leaves_room(listed(shown, one.track, one.subject, one.field), one.clip),
        op_describes(host, before.catalog, before.registry.remote@, op, one),
        op_applied(host, id, op, before, after, result),
    ensures
        result is Ok,
        after.timelines.contains_key(id),
        neat(after.timelines[id]),
        labels_owned(after, id),
        shows(after, id, shown.push(one)),
        grows(before.timelines[id], after.timelines[id], one),
        after.catalog == before.catalog,
        after.registry == before.registry,
{
    let (key, target) = described_is_planned(host, id, op, one, before, after, result);
    let at = placement_of(op)->0;
    placing_shows(id, &at, key, target, shown, one, before, after, result);
}

/// Whether edits were applied one after another, each with that result.
pub open spec fn ops_follow<H: RemoteHost>(
    host: &H,
    id: TimelineId,
    ops: Seq<EditOp>,
    trace: Seq<StudioModel>,
    results: Seq<Applied>,
) -> bool {
    &&& results.len() == ops.len()
    &&& trace.len() == ops.len() + 1
    &&& forall|i: int|
        0 <= i < ops.len() ==> op_applied(
            host,
            id,
            #[trigger] ops[i],
            trace[i],
            trace[i + 1],
            results[i],
        )
}

/// Whether shown clips leave room for one another in the order in which they
/// are listed.
pub open spec fn all_leave_room(shown: Seq<Shown>) -> bool {
    forall|i: int|
        0 <= i < shown.len() ==> leaves_room(
            listed(
                shown.take(i),
                (#[trigger] shown[i]).track,
                shown[i].subject,
                shown[i].field,
            ),
            shown[i].clip,
        )
}

/// Shown clips leave room for one another up to any of them.
pub proof fn first_leave_room(shown: Seq<Shown>, n: int)
    requires
        all_leave_room(shown),
        0 <= n <= shown.len(),
    ensures
        all_leave_room(shown.take(n)),
{
    let front = shown.take(n);
    assert forall|i: int| 0 <= i < front.len() implies front.take(i) == shown.take(i)
        && #[trigger] front[i] == shown[i] by {
        assert(front.take(i) =~= shown.take(i));
    }
}

/// Inserting described clips one after another where nothing is: no edit is
/// refused, and in the end the timeline shows them all.
pub proof fn inserting_all_shows<H: RemoteHost>(
    host: &H,
    id: TimelineId,
    ops: Seq<EditOp>,
    shown: Seq<Shown>,
    trace: Seq<StudioModel>,
    results: Seq<Applied>,
    n: int,
)
    requires
        reads_back(host),
        trace.len() > 0,
        trace[0].timelines.contains_key(id),
        neat(trace[0].timelines[id]),
        labels_owned(trace[0], id),
        shows(trace[0], id, Seq::empty()),
        shown.len() == ops.len(),
        all_leave_room(shown),
        forall|i: int|
            0 <= i < ops.len() ==> op_describes(
                host,
                trace[0].catalog,
                trace[0].registry.remote@,
                #[trigger] ops[i],
                shown[i],
            ),
        ops_follow(host, id, ops, trace, results),
        0 <= n <= ops.len(),
    ensures
        forall|i: int| 0 <= i < n ==> (#[trigger] results[i]) is Ok,
        forall|i: int|
            0 <= i < n ==> grows(
                trace[i].timelines[id],
                trace[i + 1].timelines[id],
                #[trigger] shown[i],
            ),
        trace[n].timelines.contains_key(id),
        neat(trace[n].timelines[id]),
        labels_owned(trace[n], id),
        shows(trace[n], id, shown.take(n)),
        trace[n].catalog == trace[0].catalog,
        trace[n].registry == trace[0].registry,
    decreases n,
{
    if n == 0 {
        assert(shown.take(0) =~= Seq::empty());
    } else {
        let m = n - 1;
        inserting_all_shows(host, id, ops, shown, trace, results, m);
        assert(op_describes(
            host,
            trace[0].catalog,
            trace[0].registry.remote@,
            ops[m],
            shown[m],
        ));
        inserting_shows_again(
            host,
            id,
            ops[m],
            shown.take(m),
            shown[m],
            trace[m],
            trace[n],
            results[m],
        );
        assert(shown.take(n) =~= shown.take(m).push(shown[m]));
    }
}

} // verus!
