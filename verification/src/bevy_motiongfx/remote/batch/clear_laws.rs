//! What undoing a clear brings back.
use crate::action::subjects::{known_differ, slot_of};
use crate::action::world::SubjectEntry;
use crate::action::{entity_bits, Action, ActionClip, ActionId, ActionKey, InterpFn, UId};
use crate::bevy_motiongfx::manager::TimelineId;
use crate::bevy_motiongfx::remote::batch::apply::{
    edit_concluded, edits_change_content_only, only_content, only_content_twice, op_applied,
};
use crate::bevy_motiongfx::remote::batch::history::{
    entry_taken, history_applied, history_stepped, kept_step, op_failed, op_succeeded, ops_applied,
    renamings,
};
use crate::bevy_motiongfx::remote::batch::insert::Applied;
use crate::bevy_motiongfx::remote::batch::laws::{
    alike_twice, baking_keeps_clips, clips_alike, fits, tracks_laid_out,
};
use crate::bevy_motiongfx::remote::batch::op::{EditOp, KeyframeDoc, OpResult, Placement};
use crate::bevy_motiongfx::remote::batch::restore_laws::{
    all_leave_room, first_leave_room, inserting_all_shows, labels_owned, listed, neat, op_describes,
    ops_follow, owner_of, placement_describes, points_travel, shows, Shown,
};
use crate::bevy_motiongfx::remote::batch::show_laws::{
    alike_shows, all_shown, all_shown_leave_room, is_lane_of, neat_clip, neat_clips_differ,
    none_listed, placed_clips, placed_clips_are_numbered, placed_clips_are_of_lanes,
    same_clips_show_alike, shown_at, shown_is_of_lane, shows_alike, timelines_show_all,
};
use crate::bevy_motiongfx::remote::batch::snapshot::{
    address_of, all_snapshotted, clear_applied, describes_clip, is_restoring, is_snapshot,
    restores_clip, snapshots_taken,
};
use crate::bevy_motiongfx::remote::batch::update_laws::{ease_travels, reads_back};
use crate::bevy_motiongfx::remote::batch::value::own_segment_written;
use crate::bevy_motiongfx::remote::batch::walk::{all_clips, clip_on, clip_on_is_of_a_lane};
use crate::bevy_motiongfx::remote::catalog::{CatalogModel, SubjectKind};
use crate::bevy_motiongfx::remote::edit::{clear_answered, clear_stepped};
use crate::bevy_motiongfx::remote::fault::Fault;
use crate::bevy_motiongfx::remote::host::RemoteHost;
use crate::bevy_motiongfx::remote::json::Json;
use crate::bevy_motiongfx::remote::persist::export::placement_of;
use crate::bevy_motiongfx::remote::state::events::next_number;
use crate::bevy_motiongfx::remote::state::journal::EntryModel;
use crate::bevy_motiongfx::remote::state::{ClipMeta, EditsModel};
use crate::bevy_motiongfx::remote::studio::{baked, StudioModel};
use crate::pipeline::PipelineKey;
use crate::subject::{Subject, TypeTag, UntypedField, ENTITY_TAG, RESOURCE_TAG};
use crate::timeline::TimelineModel;
use vstd::prelude::*;

verus! {

/// Whether an action can be restored: it is constant or keyframed, its eases
/// travel, its field is in the catalog with a pipeline of its types, and its
/// subject is an entity or the resources.
pub open spec fn action_restorable(studio: StudioModel, id: TimelineId, action: ActionId) -> bool {
    let model = studio.timelines[id];
    let record = model.actions.actions[action];
    let subject = owner_of(model, record.key);
    let field = record.key.field;
    &&& ease_travels(record.ease)
    &&& record.target_type == field.target_id
    &&& record.action matches Action::Constant(value) && value.type_id == field.target_id
    &&& record.keyframes matches Some(storage) ==> {
        &&& points_travel(storage@, field.target_id)
        &&& record.action == Action::Constant(storage@.last().value)
    }
    &&& studio.catalog.entry_of(field) matches Some(entry) && {
        &&& entry.field == field
        &&& fits(entry.key())
        &&& entry.pipeline.subject_id == subject.type_id
        &&& studio.registry.remote@.contains_key(entry.pipeline)
        &&& if entry.subject == SubjectKind::Resource {
            subject == (Subject { type_id: RESOURCE_TAG, bits: 0 })
        } else {
            subject.type_id == ENTITY_TAG && entity_bits(subject.bits)
        }
    }
}

/// Whether a timeline can be restored: it is neat, and so can its actions.
pub open spec fn restorable(studio: StudioModel, id: TimelineId) -> bool {
    let model = studio.timelines[id];
    &&& studio.timelines.contains_key(id)
    &&& neat(model)
    &&& tracks_laid_out(model)
    &&& model.tracks.len() <= usize::MAX
    &&& forall|action: ActionId| #[trigger]
        model.actions.has(action) ==> action_restorable(studio, id, action)
}

/// Whether every edit inserts a clip, so that none stands for a clip that cannot
/// be restored.
pub open spec fn all_insert(ops: Seq<EditOp>) -> bool {
    forall|i: int|
        0 <= i < ops.len() ==> (#[trigger] ops[i]) is Insert || ops[i] is InsertKeyframes
}

/// Whether a clip can be restored from how it shows.
pub open spec fn clip_restorable(
    catalog: CatalogModel,
    remote: Map<PipelineKey, InterpFn>,
    one: Shown,
) -> bool {
    let target = one.field.target_id;
    &&& ease_travels(one.clip.ease)
    &&& one.clip.action matches Action::Constant(value) && value.type_id == target
    &&& one.clip.points matches Some(points) ==> {
        &&& points_travel(points, target)
        &&& one.clip.action == Action::Constant(points.last().value)
    }
    &&& catalog.entry_of(one.field) matches Some(entry) && {
        &&& entry.field == one.field
        &&& fits(entry.key())
        &&& entry.pipeline.subject_id == one.subject.type_id
        &&& remote.contains_key(entry.pipeline)
        &&& if entry.subject == SubjectKind::Resource {
            one.subject == (Subject { type_id: RESOURCE_TAG, bits: 0 })
        } else {
            one.subject.type_id == ENTITY_TAG && entity_bits(one.subject.bits)
        }
    }
}

/// Whether an edit calls the field and the subject of a clip by the names of the
/// catalog and the bits of the subject.
pub open spec fn op_names(catalog: CatalogModel, op: EditOp, shown: Shown) -> bool {
    placement_of(op) matches Some(at) && {
        &&& at.component@ == catalog.by_field[shown.field].0
        &&& at.field@ == catalog.by_field[shown.field].1
        &&& at.entity == shown.subject.bits
    }
}

/// The placement of a snapshot describes the clip that it was taken of.
proof fn placements_describe(
    id: TimelineId,
    before: StudioModel,
    taken: StudioModel,
    placed: (int, ActionClip),
    address: (u64, Option<String>),
    at: &Placement,
)
    requires
        restorable(before, id),
        clips_alike(id, before, taken),
        taken.catalog == before.catalog,
        0 <= placed.0 < before.timelines[id].tracks.len(),
        before.timelines[id].actions.has(placed.1.id),
        before.timelines[id].actions.subjects.contains_key(
            slot_of(before.timelines[id].actions.actions[placed.1.id].key),
        ),
        address_of(
            taken,
            id,
            before.timelines[id].actions.actions[placed.1.id].key,
            placed.1.id.bits,
        ) == Some(address),
        restores_clip(taken, id, placed.0 as usize, placed.1, address, *at),
    ensures
        placement_describes(
            before.catalog,
            before.registry.remote@,
            *at,
            shown_at(before, id, placed.0, placed.1),
        ),
        at.entity == shown_at(before, id, placed.0, placed.1).subject.bits,
{
    assert(action_restorable(before, id, placed.1.id));
    assert(taken.timelines[id].actions.subjects == before.timelines[id].actions.subjects);
}

/// A snapshot describes the clip that it was taken of.
pub proof fn snapshots_describe<H: RemoteHost>(
    host: &H,
    id: TimelineId,
    before: StudioModel,
    taken: StudioModel,
    placed: (int, ActionClip),
    op: EditOp,
)
    requires
        reads_back(host),
        restorable(before, id),
        clips_alike(id, before, taken),
        taken.catalog == before.catalog,
        0 <= placed.0 < before.timelines[id].tracks.len(),
        before.timelines[id].actions.has(placed.1.id),
        before.timelines[id].actions.subjects.contains_key(
            slot_of(before.timelines[id].actions.actions[placed.1.id].key),
        ),
        is_restoring(host, taken, id, placed.0 as usize, placed.1, op),
        op is Insert || op is InsertKeyframes,
    ensures
        op_describes(
            host,
            before.catalog,
            before.registry.remote@,
            op,
            shown_at(before, id, placed.0, placed.1),
        ),
        op_names(before.catalog, op, shown_at(before, id, placed.0, placed.1)),
{
    let actions = taken.timelines[id].actions;
    let record = before.timelines[id].actions.actions[placed.1.id];
    assert(action_restorable(before, id, placed.1.id));
    assert(actions.actions.dom().contains(placed.1.id));
    let address = address_of(taken, id, record.key, placed.1.id.bits)->0;
    let target = taken.catalog.entry_of(record.key.field)->0.pipeline.target_id;
    let track = placed.0 as usize;
    let docs = choose|docs: Option<Seq<KeyframeDoc>>| #[trigger]
        describes_clip(host, taken, id, track, placed.1, address, target, docs, op);
    match op {
        EditOp::Insert { at, to, .. } => {
            let (start, end) = choose|start: Json, end: Json|
                {
                    &&& #[trigger] own_segment_written(
                        host,
                        actions,
                        placed.1.id,
                        target,
                        Some((start, end)),
                    )
                    &&& restores_clip(taken, id, track, placed.1, address, *at)
                    &&& *to == end
                };
            placements_describe(id, before, taken, placed, address, &*at);
        },
        EditOp::InsertKeyframes { at, .. } => {
            placements_describe(id, before, taken, placed, address, &*at);
        },
        _ => {},
    }
}

/// The clip of an action on a track of a neat timeline is the one there is.
pub proof fn clip_is_found(
    model: TimelineModel,
    baked: TimelineModel,
    placed: (int, ActionClip),
    key: ActionKey,
)
    requires
        neat(model),
        tracks_laid_out(model),
        baked.tracks == model.tracks,
        model.tracks.len() <= usize::MAX,
        is_lane_of(model, placed, key),
        clip_on(baked, placed.0 as usize, placed.1.id) is Some,
    ensures
        clip_on(baked, placed.0 as usize, placed.1.id) == Some(placed.1),
{
    let t = placed.0;
    let lanes = model.tracks[t].lanes();
    clip_on_is_of_a_lane(baked, t as usize, placed.1.id);
    let found = clip_on(baked, t as usize, placed.1.id)->0;
    let other = choose|other: ActionKey| #[trigger]
        lanes.contains_key(other) && lanes[other].contains(found);
    lane_holds(model, t, key, placed.1);
    lane_holds(model, t, other, found);
    let i = choose|i: int| 0 <= i < lanes[key].len() && lanes[key][i] == placed.1;
    let j = choose|j: int| 0 <= j < lanes[key].len() && lanes[key][j] == found;
    assert(model.tracks[t].lanes().contains_key(key));
    neat_clips_differ(model, key, lanes[key], i, j);
}

/// A clip of a lane is of an action of its key.
pub proof fn lane_holds(model: TimelineModel, t: int, key: ActionKey, clip: ActionClip)
    requires
        neat(model),
        0 <= t < model.tracks.len(),
        model.tracks[t].lanes().contains_key(key),
        model.tracks[t].lanes()[key].contains(clip),
    ensures
        model.actions.has(clip.id),
        model.actions.actions[clip.id].key == key,
        model.actions.subjects.contains_key(slot_of(key)),
{
    let clips = model.tracks[t].lanes()[key];
    let i = choose|i: int| 0 <= i < clips.len() && clips[i] == clip;
    neat_clip(model, key, clips, i);
}

/// Taking snapshots leaves the clips as they are.
pub proof fn snapshots_keep_clips<H: RemoteHost>(
    host: &H,
    id: TimelineId,
    clips: Seq<(usize, ActionId)>,
    trace: Seq<StudioModel>,
    ops: Seq<EditOp>,
    n: int,
)
    requires
        snapshots_taken(host, id, clips, trace, ops),
        trace[0].timelines.contains_key(id),
        0 <= n <= ops.len(),
    ensures
        clips_alike(id, trace[0], trace[n]),
        trace[n].catalog == trace[0].catalog,
        trace[n].registry == trace[0].registry,
        trace[n].edits == trace[0].edits,
        trace[n].timelines[id].tracks == trace[0].timelines[id].tracks,
    decreases n,
{
    if n > 0 {
        snapshots_keep_clips(host, id, clips, trace, ops, n - 1);
        let op = ops[n - 1];
        assert(baked(host, id, trace[n - 1], trace[n]));
        baking_keeps_clips(host, id, trace[n - 1], trace[n]);
        alike_twice(id, trace[0], trace[n - 1], trace[n]);
    }
}

/// The snapshots of a timeline describe what it shows, clip by clip.
pub proof fn snapshots_describe_all<H: RemoteHost>(
    host: &H,
    id: TimelineId,
    before: StudioModel,
    after: StudioModel,
    ops: Seq<EditOp>,
)
    requires
        reads_back(host),
        restorable(before, id),
        all_snapshotted(host, id, before, after, Ok(ops)),
        all_insert(ops),
    ensures
        ops.len() == all_shown(before, id).len(),
        forall|i: int|
            0 <= i < ops.len() ==> op_describes(
                host,
                before.catalog,
                before.registry.remote@,
                #[trigger] ops[i],
                all_shown(before, id)[i],
            ),
        forall|i: int|
            0 <= i < ops.len() ==> op_names(
                before.catalog,
                #[trigger] ops[i],
                all_shown(before, id)[i],
            ),
        forall|i: int|
            0 <= i < ops.len() ==> {
                let one = #[trigger] all_shown(before, id)[i];
                &&& clip_restorable(before.catalog, before.registry.remote@, one)
                &&& 0 <= one.track < before.timelines[id].tracks.len()
            },
        after.timelines[id].tracks == before.timelines[id].tracks,
        after.catalog == before.catalog,
        after.registry == before.registry,
        after.edits == before.edits,
        clips_alike(id, before, after),
{
    let model = before.timelines[id];
    let clips = all_clips(model);
    let n = model.tracks.len() as int;
    let placed = placed_clips(model.tracks, n);
    placed_clips_are_numbered(model.tracks, n);
    let trace = choose|trace: Seq<StudioModel>|
        {
            &&& #[trigger] snapshots_taken(host, id, clips, trace, ops)
            &&& trace.first() == before
            &&& trace.last() == after
        };
    assert(trace[0] == before);
    snapshots_keep_clips(host, id, clips, trace, ops, ops.len() as int);
    assert forall|i: int| 0 <= i < ops.len() implies op_describes(
        host,
        before.catalog,
        before.registry.remote@,
        #[trigger] ops[i],
        all_shown(before, id)[i],
    ) && op_names(before.catalog, ops[i], all_shown(before, id)[i]) && ({
        let one = all_shown(before, id)[i];
        &&& clip_restorable(before.catalog, before.registry.remote@, one)
        &&& 0 <= one.track < before.timelines[id].tracks.len()
    }) by {
        let taken = trace[i + 1];
        snapshots_keep_clips(host, id, clips, trace, ops, i + 1);
        assert(is_snapshot(host, taken, id, clips[i].0, clips[i].1, Ok(ops[i])));
        let key = placed_clips_are_of_lanes(model, n, i);
        shown_is_of_lane(before, id, placed[i], key);
        assert(clips[i] == (placed[i].0 as usize, placed[i].1.id));
        clip_is_found(model, taken.timelines[id], placed[i], key);
        let clip = placed[i].1;
        assert(clip == (ActionClip { id: clip.id, ..clip }));
        snapshots_describe(host, id, before, taken, placed[i], ops[i]);
        assert(action_restorable(before, id, clip.id));
    }
    assert forall|i: int| 0 <= i < ops.len() implies {
        let one = #[trigger] all_shown(before, id)[i];
        &&& clip_restorable(before.catalog, before.registry.remote@, one)
        &&& 0 <= one.track < before.timelines[id].tracks.len()
    } by {
        assert(op_names(before.catalog, ops[i], all_shown(before, id)[i]));
    }
}

/// A timeline without clips shows none.
pub proof fn empty_shows_none(id: TimelineId, studio: StudioModel)
    requires
        studio.timelines.contains_key(id),
        studio.timelines[id].actions.subjects == Map::<
            (TypeTag, UId),
            SubjectEntry,
        >::empty(),
        known_differ(studio.timelines[id].actions.known),
        forall|t: int|
            0 <= t < studio.timelines[id].tracks.len() ==> (
            #[trigger] studio.timelines[id].tracks[t]).lanes() == Map::<
                ActionKey,
                Seq<ActionClip>,
            >::empty(),
        studio.edits_of(id).clip_meta.dom() == Set::<u64>::empty(),
    ensures
        neat(studio.timelines[id]),
        labels_owned(studio, id),
        shows(studio, id, Seq::empty()),
{
    assert forall|t: int, subject: Subject, field: UntypedField|
        (#[trigger] listed(Seq::<Shown>::empty(), t, subject, field)).len() <= 0 by {
        none_listed(Seq::<Shown>::empty(), t, subject, field);
    }
}

/// Undoing a clear: inserting what was snapshotted before it, where the timeline
/// is as the clear left it, is never refused, and then the timeline shows again
/// what it showed. This is for hosts that read what they wrote.
pub proof fn clearing_is_undone<H: RemoteHost>(
    host: &H,
    id: TimelineId,
    before: StudioModel,
    taken: StudioModel,
    ops: Seq<EditOp>,
    cleared: StudioModel,
    outcome: OpResult,
    inverse: EditOp,
    trace: Seq<StudioModel>,
    results: Seq<Applied>,
)
    requires
        reads_back(host),
        restorable(before, id),
        all_snapshotted(host, id, before, taken, Ok(ops)),
        all_insert(ops),
        clear_applied(id, taken, cleared, Ok((outcome, inverse))),
        ops_follow(host, id, ops, trace, results),
        clips_alike(id, cleared, trace[0]),
        trace[0].catalog == cleared.catalog,
        trace[0].registry == cleared.registry,
    ensures
        forall|i: int| 0 <= i < results.len() ==> (#[trigger] results[i]) is Ok,
        shows_alike(before, id, trace.last(), id),
{
    let shown = all_shown(before, id);
    let n = ops.len() as int;
    snapshots_describe_all(host, id, before, taken, ops);
    assert(cleared.edits_of(id).clip_meta == Map::<u64, ClipMeta>::empty());
    empty_shows_none(id, trace[0]);
    all_shown_leave_room(before, id);
    timelines_show_all(before, id);
    inserting_all_shows(host, id, ops, shown, trace, results, n);
    assert(shown.take(n) =~= shown);
    same_clips_show_alike(before, id, trace[n], id, shown);
}

/// Stepping through an entry whose edits describe clips, where nothing is: it is
/// not refused, and then the timeline shows them.
proof fn stepping_shows<H: RemoteHost>(
    host: &H,
    id: TimelineId,
    entry: EntryModel,
    shown: Seq<Shown>,
    before: StudioModel,
    trace: Seq<StudioModel>,
    results: Seq<OpResult>,
    after: StudioModel,
    result: Result<(u64, usize), Fault>,
)
    requires
        reads_back(host),
        before.timelines.contains_key(id),
        neat(before.timelines[id]),
        labels_owned(before, id),
        shows(before, id, Seq::empty()),
        shown.len() == entry.inverse.len(),
        all_leave_room(shown),
        forall|i: int|
            0 <= i < shown.len() ==> op_describes(
                host,
                before.catalog,
                before.registry.remote@,
                #[trigger] entry.inverse[i],
                shown[i],
            ),
        history_stepped(host, id, false, entry, before, trace, results, after, result),
    ensures
        result == Ok::<(u64, usize), Fault>(
            (next_number(before.edits_of(id).version), shown.len() as usize),
        ),
        after.timelines.contains_key(id),
        neat(after.timelines[id]),
        shows(after, id, shown),
{
    let ops = entry.inverse;
    let k = results.len() as int;
    let start = trace[0];
    assert(start == entry_taken(before, id, false));
    assert(clips_alike(id, before, start)) by {
        assert(start.timelines == before.timelines);
    }
    alike_shows(id, before, start, Seq::empty());
    let inverses = Seq::new(
        k as nat,
        |i: int|
            choose|inverse: EditOp| #[trigger]
                op_applied(
                    host,
                    id,
                    ops[i],
                    trace[i],
                    trace[i + 1],
                    Ok((results[i], inverse)),
                ),
    );
    assert forall|i: int| 0 <= i < k implies op_applied(
        host,
        id,
        ops[i],
        trace[i],
        trace[i + 1],
        Ok((results[i], #[trigger] inverses[i])),
    ) by {
        assert(op_succeeded(host, id, ops[i], trace[i], trace[i + 1], results[i]));
    }
    match result {
        Ok((version, _)) => {
            let outcomes = Seq::new(
                k as nat,
                |i: int| Ok::<(OpResult, EditOp), Fault>((results[i], inverses[i])),
            );
            assert(ops_follow(host, id, ops, trace, outcomes)) by {
                assert forall|i: int| 0 <= i < ops.len() implies op_applied(
                    host,
                    id,
                    #[trigger] ops[i],
                    trace[i],
                    trace[i + 1],
                    outcomes[i],
                ) by {
                    assert(inverses[i] == inverses[i]);
                }
            }
            inserting_all_shows(host, id, ops, shown, trace, outcomes, k);
            assert(shown.take(k) =~= shown);
            let end = trace[k];
            let between = choose|between: StudioModel|
                {
                    &&& #[trigger] baked(host, id, end, between)
                    &&& version == next_number(between.edits_of(id).version)
                    &&& after == between.with_edits(
                        id,
                        kept_step(
                            between.edits_of(id),
                            false,
                            entry,
                            renamings(ops, results),
                            version,
                        ),
                    )
                };
            baking_keeps_clips(host, id, end, between);
            steps_change_content_only(host, id, ops, trace, results, k);
            assert(between.edits_of(id) == end.edits_of(id));
            assert(start.edits_of(id).version == before.edits_of(id).version);
            assert(clips_alike(id, between, after));
            alike_twice(id, end, between, after);
            alike_shows(id, end, after, shown);
        },
        Err(Fault::At { cause, .. }) => {
            stepping_is_not_refused(
                host,
                id,
                ops,
                shown,
                trace,
                results,
                inverses,
                after,
                *cause,
            );
        },
        Err(_) => {},
    }
}

/// Edits change no versions.
proof fn steps_change_content_only<H: RemoteHost>(
    host: &H,
    id: TimelineId,
    ops: Seq<EditOp>,
    trace: Seq<StudioModel>,
    results: Seq<OpResult>,
    n: int,
)
    requires
        ops_applied(host, id, ops, trace, results),
        0 <= n <= results.len(),
    ensures
        only_content(id, trace[0], trace[n]),
    decreases n,
{
    if n > 0 {
        let m = n - 1;
        steps_change_content_only(host, id, ops, trace, results, m);
        assert(op_succeeded(host, id, ops[m], trace[m], trace[m + 1], results[m]));
        let inverse = choose|inverse: EditOp| #[trigger]
            op_applied(host, id, ops[m], trace[m], trace[n], Ok((results[m], inverse)));
        edits_change_content_only(
            host,
            id,
            ops[m],
            trace[m],
            trace[n],
            Ok((results[m], inverse)),
        );
        only_content_twice(id, trace[0], trace[m], trace[n]);
    }
}

/// Edits that describe clips, where nothing is, are not refused.
proof fn stepping_is_not_refused<H: RemoteHost>(
    host: &H,
    id: TimelineId,
    ops: Seq<EditOp>,
    shown: Seq<Shown>,
    trace: Seq<StudioModel>,
    results: Seq<OpResult>,
    inverses: Seq<EditOp>,
    after: StudioModel,
    fault: Fault,
)
    requires
        reads_back(host),
        trace.len() == results.len() + 1,
        trace[0].timelines.contains_key(id),
        neat(trace[0].timelines[id]),
        labels_owned(trace[0], id),
        shows(trace[0], id, Seq::empty()),
        shown.len() == ops.len(),
        all_leave_room(shown),
        forall|i: int|
            0 <= i < ops.len() ==> op_describes(
                host,
                trace[0].catalog,
                trace[0].registry.remote@,
                #[trigger] ops[i],
                shown[i],
            ),
        results.len() < ops.len(),
        forall|i: int|
            0 <= i < results.len() ==> op_applied(
                host,
                id,
                ops[i],
                trace[i],
                trace[i + 1],
                Ok((results[i], #[trigger] inverses[i])),
            ),
    ensures
        !op_failed(host, id, ops[results.len() as int], trace.last(), after, fault),
{
    let k = results.len() as int;
    if op_failed(host, id, ops[k], trace.last(), after, fault) {
        let failed = choose|failed: StudioModel|
            {
                &&& #[trigger] op_applied(host, id, ops[k], trace[k], failed, Err(fault))
                &&& baked(host, id, failed, after)
            };
        let tried = ops.take(k + 1);
        let longer = trace.push(failed);
        let outcomes = Seq::new(
            (k + 1) as nat,
            |i: int|
                if i < k {
                    Ok::<(OpResult, EditOp), Fault>((results[i], inverses[i]))
                } else {
                    Err::<(OpResult, EditOp), Fault>(fault)
                },
        );
        assert(ops_follow(host, id, tried, longer, outcomes)) by {
            assert forall|i: int| 0 <= i < tried.len() implies op_applied(
                host,
                id,
                #[trigger] tried[i],
                longer[i],
                longer[i + 1],
                outcomes[i],
            ) by {
                assert(tried[i] == ops[i]);
                assert(longer[i] == trace[i]);
                if i < k {
                    assert(inverses[i] == inverses[i]);
                    assert(longer[i + 1] == trace[i + 1]);
                }
            }
        }
        first_leave_room(shown, k + 1);
        assert forall|i: int| 0 <= i < tried.len() implies op_describes(
            host,
            trace[0].catalog,
            trace[0].registry.remote@,
            #[trigger] tried[i],
            shown.take(k + 1)[i],
        ) by {
            assert(tried[i] == ops[i]);
        }
        assert(longer[0] == trace[0]);
        inserting_all_shows(host, id, tried, shown.take(k + 1), longer, outcomes, k + 1);
        assert(outcomes[k] is Ok);
    }
}

/// Clearing a timeline and undoing that: the undo is not refused, tells the next
/// version and how many clips came back, and then the timeline shows what it showed.
/// This is for hosts that read what they wrote, and for timelines of which every clip
/// can be restored.
pub proof fn undoing_a_clear_restores<H: RemoteHost>(
    host: &H,
    id: TimelineId,
    before: StudioModel,
    cleared: StudioModel,
    outcome: OpResult,
    version: u64,
    after: StudioModel,
    result: Result<(u64, usize), Fault>,
)
    requires
        reads_back(host),
        restorable(before, id),
        forall|taken: StudioModel, snapshot: Seq<EditOp>| #[trigger]
            all_snapshotted(host, id, before, taken, Ok(snapshot)) ==> all_insert(snapshot),
        clear_answered(host, id, before, cleared, Ok((outcome, version))),
        history_applied(host, id, false, cleared, after, result),
    ensures
        result == Ok::<(u64, usize), Fault>(
            (next_number(version), all_shown(before, id).len() as usize),
        ),
        version == next_number(before.edits_of(id).version),
        shows_alike(before, id, after, id),
{
    let (taken, snapshot, emptied, applied) = choose|
        taken: StudioModel,
        snapshot: Result<Seq<EditOp>, Fault>,
        emptied: StudioModel,
        applied: Applied,
    | #[trigger]
        clear_stepped(
            host,
            id,
            before,
            taken,
            snapshot,
            emptied,
            applied,
            cleared,
            Ok((outcome, version)),
        );
    let ops = snapshot->Ok_0;
    let shown = all_shown(before, id);
    assert(all_snapshotted(host, id, before, taken, Ok(ops)));
    snapshots_describe_all(host, id, before, taken, ops);
    let unmarked = emptied.with_edits(
        id,
        EditsModel { markers: Map::empty(), ..emptied.edits_of(id) },
    );
    let (between, forward) = choose|between: StudioModel, forward: Vec<EditOp>|
        {
            &&& forward@ == seq![EditOp::Clear]
            &&& #[trigger] edit_concluded(
                host,
                id,
                forward,
                ops,
                unmarked,
                between,
                cleared,
                version,
            )
        };
    baking_keeps_clips(host, id, unmarked, between);
    assert(between.edits_of(id) == unmarked.edits_of(id));
    assert(unmarked.edits_of(id).clip_meta == Map::<u64, ClipMeta>::empty());
    let entry = EntryModel { forward: forward@, inverse: ops };
    assert(cleared.edits_of(id).journal_or_empty().undo.last() == entry);
    empty_shows_none(id, cleared);
    all_shown_leave_room(before, id);
    timelines_show_all(before, id);
    let (trace, results) = choose|trace: Seq<StudioModel>, results: Seq<OpResult>| #[trigger]
        history_stepped(host, id, false, entry, cleared, trace, results, after, result);
    stepping_shows(host, id, entry, shown, cleared, trace, results, after, result);
    same_clips_show_alike(before, id, after, id, shown);
}

} // verus!
