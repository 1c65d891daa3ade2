//! What importing a document brings back of the timeline that was exported.
use crate::action::subjects::slot_of;
use crate::action::{ActionClip, ActionId, ActionKey, ActionRecord, InterpFn};
use crate::bevy_motiongfx::manager::TimelineId;
use crate::bevy_motiongfx::remote::batch::apply::{edit_concluded, edit_finished, op_applied};
use crate::bevy_motiongfx::remote::batch::clear_laws::{
    action_restorable, all_insert, clip_restorable, empty_shows_none, restorable,
    snapshots_describe_all, snapshots_keep_clips,
};
use crate::bevy_motiongfx::remote::batch::insert::Applied;
use crate::bevy_motiongfx::remote::batch::laws::{
    alike_twice, baking_keeps_clips, clips_alike, tracks_laid_out,
};
use crate::bevy_motiongfx::remote::batch::op::{EditOp, OpResult};
use crate::bevy_motiongfx::remote::batch::restore_laws::{
    all_leave_room, first_leave_room, grew, grows, inserting_all_shows, labels_owned, neat,
    op_describes, ops_follow, shows, Shown,
};
use crate::bevy_motiongfx::remote::batch::run::{applied_until, ops_run, run_failed, stopped_at};
use crate::bevy_motiongfx::remote::batch::show_laws::{
    alike_shows, all_shown, all_shown_leave_room, placed_clips, placed_clips_are_numbered,
    placed_clips_are_of_lanes, same_clips_show_alike, shown_is_of_lane, shows_alike,
    timelines_show_all,
};
use crate::bevy_motiongfx::remote::batch::snapshot::{
    all_snapshotted, clear_applied, is_snapshot, snapshot_taken, snapshots_taken,
};
use crate::bevy_motiongfx::remote::batch::update_laws::{points_read_back, reads_back};
use crate::bevy_motiongfx::remote::batch::walk::{all_clips, clip_on_is_of_a_lane};
use crate::bevy_motiongfx::remote::catalog::CatalogModel;
use crate::bevy_motiongfx::remote::fault::Fault;
use crate::bevy_motiongfx::remote::host::{decodes, encodes, NamedEntity, RemoteHost};
use crate::bevy_motiongfx::remote::names::are_named;
use crate::bevy_motiongfx::remote::persist::export::export_stepped;
use crate::bevy_motiongfx::remote::persist::fidelity::{
    documents_read_back, inserts_again, names_hold, without_obstacles,
};
use crate::bevy_motiongfx::remote::persist::import::{
    clear_first, first_are_readable, import_stepped, imported, load_stepped, loaded, made_ready,
    markers_loaded, op_readable, ops_checked, replaces, tracks_ensured, with_markers, ImportParams,
};
use crate::bevy_motiongfx::remote::state::markers::{
    by_name, found_by_name, is_at, names_ascend, Marker,
};
use crate::bevy_motiongfx::remote::studio::{baked, StudioModel};
use crate::pipeline::PipelineKey;
use crate::timeline::edit::is_empty_track;
use vstd::prelude::*;

verus! {

/// An edit that inserts a clip again that another one describes describes it
/// too.
proof fn again_describes<H: RemoteHost>(
    host: &H,
    catalog: CatalogModel,
    remote: Map<PipelineKey, InterpFn>,
    op: EditOp,
    again: EditOp,
    one: Shown,
)
    requires
        op_describes(host, catalog, remote, op, one),
        inserts_again(catalog, op, again),
    ensures
        op_describes(host, catalog, remote, again, one),
{
}

/// An edit that describes a clip can be read.
proof fn described_is_readable<H: RemoteHost>(
    host: &H,
    catalog: CatalogModel,
    remote: Map<PipelineKey, InterpFn>,
    op: EditOp,
    one: Shown,
    result: Result<(), Fault>,
)
    requires
        reads_back(host),
        op_describes(host, catalog, remote, op, one),
        op_readable(host, catalog, op, result),
    ensures
        result is Ok,
{
    match result {
        Err(fault) => match op {
            EditOp::Insert { at, to, .. } => {
                let value = one.clip.action->Constant_0;
                assert(encodes(host, value, Some(*to)));
                assert(fault matches Fault::Catalog(error) && decodes(
                    host,
                    value.type_id,
                    *to,
                    Err(error),
                ));
            },
            EditOp::InsertKeyframes { at, keyframes, .. } => {
                let target = catalog.entry(at.component@, at.field@)->0.pipeline.target_id;
                points_read_back(host, one.clip.points->0, keyframes@, target, Err(fault));
            },
            _ => {},
        },
        Ok(()) => {},
    }
}

/// Applying edits that describe clips where nothing is does not stop, and shows
/// them.
proof fn described_run_shows<H: RemoteHost>(
    host: &H,
    id: TimelineId,
    ops: Seq<EditOp>,
    shown: Seq<Shown>,
    before: StudioModel,
    after: StudioModel,
    results: Seq<OpResult>,
    forward: Seq<EditOp>,
    inverses: Seq<EditOp>,
    fault: Option<Fault>,
    count: int,
)
    requires
        reads_back(host),
        before.timelines.contains_key(id),
        neat(before.timelines[id]),
        labels_owned(before, id),
        shows(before, id, Seq::empty()),
        stocked(before, id, count),
        all_restorable(before.catalog, before.registry.remote@, shown, count),
        shown.len() == ops.len(),
        all_leave_room(shown),
        forall|i: int|
            0 <= i < ops.len() ==> op_describes(
                host,
                before.catalog,
                before.registry.remote@,
                #[trigger] ops[i],
                shown[i],
            ),
        applied_until(host, id, ops, before, after, results, forward, inverses, fault),
    ensures
        fault is None,
        after.timelines.contains_key(id),
        neat(after.timelines[id]),
        shows(after, id, shown),
        stocked(after, id, count),
        after.catalog == before.catalog,
        after.registry == before.registry,
{
    match fault {
        None => {
            let trace = choose|trace: Seq<StudioModel>|
                {
                    &&& #[trigger] ops_run(host, id, ops, trace, results, inverses)
                    &&& trace.first() == before
                    &&& trace.last() == after
                };
            let n = ops.len() as int;
            let outcomes = Seq::new(
                n as nat,
                |i: int| Ok::<(OpResult, EditOp), Fault>((results[i], inverses[i])),
            );
            assert(trace[0] == before);
            assert(ops_follow(host, id, ops, trace, outcomes));
            inserting_all_shows(host, id, ops, shown, trace, outcomes, n);
            inserts_stock(host, id, ops, shown, trace, outcomes, count, n);
            assert(shown.take(n) =~= shown);
        },
        Some(fault) => {
            let between = choose|between: StudioModel| #[trigger]
                stopped_at(
                    host,
                    id,
                    ops,
                    before,
                    between,
                    after,
                    results,
                    forward,
                    inverses,
                    fault,
                );
            let k = results.len() as int;
            let front = ops.take(k);
            let trace = choose|trace: Seq<StudioModel>|
                {
                    &&& #[trigger] ops_run(host, id, front, trace, results, inverses)
                    &&& trace.first() == before
                    &&& trace.last() == between
                };
            assert(run_failed(host, id, ops[k], between, after, fault));
            let tried = ops.take(k + 1);
            let longer = trace.push(after);
            let outcomes = Seq::new(
                (k + 1) as nat,
                |i: int|
                    if i < k {
                        Ok::<(OpResult, EditOp), Fault>((results[i], inverses[i]))
                    } else {
                        Err::<(OpResult, EditOp), Fault>(fault)
                    },
            );
            assert(longer[0] == before);
            assert(ops_follow(host, id, tried, longer, outcomes)) by {
                assert forall|i: int| 0 <= i < tried.len() implies op_applied(
                    host,
                    id,
                    #[trigger] tried[i],
                    longer[i],
                    longer[i + 1],
                    outcomes[i],
                ) by {
                    if i < k {
                        assert(front[i] == tried[i]);
                        assert(longer[i] == trace[i] && longer[i + 1] == trace[i + 1]);
                    } else {
                        assert(tried[i] == ops[k]);
                        assert(longer[i] == between);
                    }
                }
            }
            first_leave_room(shown, k + 1);
            assert forall|i: int| 0 <= i < tried.len() implies op_describes(
                host,
                before.catalog,
                before.registry.remote@,
                #[trigger] tried[i],
                shown.take(k + 1)[i],
            ) by {
                assert(tried[i] == ops[i]);
            }
            inserting_all_shows(host, id, tried, shown.take(k + 1), longer, outcomes, k + 1);
            assert(outcomes[k] is Ok);
        },
    }
}

/// Snapshots can be taken of all clips of a neat timeline.
pub proof fn snapshots_are_taken<H: RemoteHost>(
    host: &H,
    id: TimelineId,
    before: StudioModel,
    after: StudioModel,
    result: Result<Seq<EditOp>, Fault>,
)
    requires
        before.timelines.contains_key(id),
        neat(before.timelines[id]),
        tracks_laid_out(before.timelines[id]),
        before.timelines[id].tracks.len() <= usize::MAX,
        all_snapshotted(host, id, before, after, result),
    ensures
        result is Ok,
        after.timelines.contains_key(id),
        after.catalog == before.catalog,
        after.registry == before.registry,
{
    let model = before.timelines[id];
    let clips = all_clips(model);
    let n = model.tracks.len() as int;
    match result {
        Ok(ops) => {
            let trace = choose|trace: Seq<StudioModel>|
                {
                    &&& #[trigger] snapshots_taken(host, id, clips, trace, ops)
                    &&& trace.first() == before
                    &&& trace.last() == after
                };
            snapshots_keep_clips(host, id, clips, trace, ops, ops.len() as int);
        },
        Err(fault) => {
            let (trace, ops) = choose|trace: Seq<StudioModel>, ops: Seq<EditOp>|
                {
                    &&& #[trigger] snapshots_taken(host, id, clips, trace, ops)
                    &&& trace.first() == before
                    &&& ops.len() < clips.len()
                    &&& snapshot_taken(
                        host,
                        id,
                        clips[ops.len() as int].0,
                        clips[ops.len() as int].1,
                        trace.last(),
                        after,
                        Err(fault),
                    )
                };
            let k = ops.len() as int;
            snapshots_keep_clips(host, id, clips, trace, ops, k);
            assert(baked(host, id, trace[k], after));
            baking_keeps_clips(host, id, trace[k], after);
            placed_clips_are_numbered(model.tracks, n);
            let placed = placed_clips(model.tracks, n)[k];
            let key = placed_clips_are_of_lanes(model, n, k);
            shown_is_of_lane(before, id, placed, key);
            let later = after.timelines[id];
            assert(later.tracks == model.tracks);
            clip_on_is_of_a_lane(later, placed.0 as usize, placed.1.id);
            assert(trace[k].timelines[id].actions.actions.dom().contains(placed.1.id));
            assert(later.actions.actions.dom().contains(placed.1.id));
            let lane = model.tracks[placed.0].lanes()[key];
            let i = choose|i: int| 0 <= i < lane.len() && lane[i] == placed.1;
            assert(lane[i].id == placed.1.id);
            assert(is_snapshot(host, after, id, clips[k].0, clips[k].1, Err(fault)));
        },
    }
}

/// Markers that ascend by name are loaded as they are.
proof fn markers_read_back(markers: Seq<(String, Marker)>)
    requires
        names_ascend(markers),
    ensures
        with_markers(Map::empty(), markers) == by_name(markers),
    decreases markers.len(),
{
    if markers.len() == 0 {
        assert(with_markers(Map::empty(), markers) =~= by_name(markers)) by {
            assert forall|name: Seq<char>| !by_name(markers).contains_key(name) by {}
        }
    } else {
        let front = markers.drop_last();
        let last = markers.last();
        let n = front.len() as int;
        markers_read_back(front);
        found_by_name(markers, n);
        assert forall|name: Seq<char>| by_name(markers).contains_key(name) <==> (
        #[trigger] by_name(front).insert(last.0@, last.1)).contains_key(name) by {
            if by_name(markers).contains_key(name) {
                let i = choose|i: int| is_at(markers, i, name);
                if i < n {
                    assert(is_at(front, i, name));
                }
            }
            if by_name(front).contains_key(name) {
                let i = choose|i: int| is_at(front, i, name);
                assert(is_at(markers, i, name));
            }
            assert(is_at(markers, n, last.0@));
        }
        assert forall|name: Seq<char>| by_name(markers).contains_key(
            name,
        ) implies #[trigger] by_name(markers)[name] == by_name(front).insert(
            last.0@,
            last.1,
        )[name] by {
            let i = choose|i: int| is_at(markers, i, name);
            found_by_name(markers, i);
            if i < n {
                assert(front[i] == markers[i]);
                found_by_name(front, i);
                if name == last.0@ {
                    assert(by_name(markers)[name] == last.1);
                }
            }
        }
        assert(with_markers(Map::empty(), markers) =~= by_name(markers));
    }
}

/// How many tracks a cleared timeline has when it needs so many.
pub open spec fn tracks_at_least(count: usize) -> int {
    if count >= 1 {
        count as int
    } else {
        1
    }
}

/// A timeline that was cleared and given tracks shows nothing.
pub proof fn cleared_shows_none(
    id: TimelineId,
    count: usize,
    taken: StudioModel,
    cleared: StudioModel,
    ready: StudioModel,
    outcome: OpResult,
    inverse: EditOp,
)
    requires
        taken.timelines.contains_key(id),
        clear_applied(id, taken, cleared, Ok((outcome, inverse))),
        tracks_ensured(id, count, cleared, ready),
    ensures
        ready.timelines.contains_key(id),
        neat(ready.timelines[id]),
        labels_owned(ready, id),
        shows(ready, id, Seq::empty()),
        ready.timelines[id].actions.actions == Map::<ActionId, ActionRecord>::empty(),
        stocked(ready, id, tracks_at_least(count)),
        ready.catalog == taken.catalog,
        ready.registry == taken.registry,
{
    let (a, b) = (cleared.timelines[id], ready.timelines[id]);
    assert forall|t: int| 0 <= t < b.tracks.len() implies (#[trigger] b.tracks[t]).lanes() == Map::<
        ActionKey,
        Seq<ActionClip>,
    >::empty() by {
        if t < a.tracks.len() {
            assert(b.tracks.take(a.tracks.len() as int)[t] == a.tracks[t]);
        }
        assert(is_empty_track(b.tracks[t]));
    }
    assert forall|t: int| 0 <= t < b.tracks.len() implies (#[trigger] b.tracks[t]).laid_out() by {
        if t < a.tracks.len() {
            assert(b.tracks.take(a.tracks.len() as int)[t] == a.tracks[t]);
        }
        assert(is_empty_track(b.tracks[t]));
    }
    assert(ready.edits_of(id) == cleared.edits_of(id));
    empty_shows_none(id, ready);
}

/// Loading markers and concluding an import leave what is shown as it is.
proof fn concluding_shows<H: RemoteHost>(
    host: &H,
    id: TimelineId,
    markers: Seq<(String, Marker)>,
    shown: Seq<Shown>,
    applied: StudioModel,
    marked: StudioModel,
    after: StudioModel,
    forward: Seq<EditOp>,
    inverse: Seq<EditOp>,
    version: u64,
    count: int,
)
    requires
        applied.timelines.contains_key(id),
        neat(applied.timelines[id]),
        shows(applied, id, shown),
        names_ascend(markers),
        markers_loaded(id, true, markers, applied, marked),
        edit_finished(host, id, forward, inverse, marked, after, version),
        stocked(applied, id, count),
    ensures
        stocked(after, id, count),
        after.catalog == applied.catalog,
        after.registry == applied.registry,
        after.timelines.contains_key(id),
        neat(after.timelines[id]),
        shows(after, id, shown),
        after.edits_of(id).markers == by_name(markers),
{
    let (between, ops) = choose|between: StudioModel, ops: Vec<EditOp>|
        {
            &&& ops@ == forward
            &&& #[trigger] edit_concluded(host, id, ops, inverse, marked, between, after, version)
        };
    baking_keeps_clips(host, id, marked, between);
    assert(between.edits_of(id) == marked.edits_of(id));
    assert(clips_alike(id, applied, marked));
    alike_twice(id, applied, marked, between);
    assert(clips_alike(id, between, after));
    alike_twice(id, applied, between, after);
    alike_shows(id, applied, after, shown);
    alike_stay_stocked(id, applied, after, count);
    markers_read_back(markers);
}

/// Whether a timeline has that many tracks, laid out, and its actions can be
/// restored.
pub open spec fn stocked(studio: StudioModel, id: TimelineId, count: int) -> bool {
    let model = studio.timelines[id];
    &&& tracks_laid_out(model)
    &&& model.tracks.len() == count
    &&& forall|action: ActionId| #[trigger]
        model.actions.has(action) ==> {
            &&& model.actions.subjects.contains_key(slot_of(model.actions.actions[action].key))
            &&& action_restorable(studio, id, action)
        }
}

/// Whether clips are on one of so many tracks and can be restored.
spec fn all_restorable(
    catalog: CatalogModel,
    remote: Map<PipelineKey, InterpFn>,
    shown: Seq<Shown>,
    count: int,
) -> bool {
    forall|i: int|
        0 <= i < shown.len() ==> clip_restorable(catalog, remote, #[trigger] shown[i]) && 0
            <= shown[i].track < count
}

/// A timeline that can be restored still can with one more clip that can be.
proof fn growing_stocks(
    id: TimelineId,
    before: StudioModel,
    after: StudioModel,
    one: Shown,
    count: int,
)
    requires
        stocked(before, id, count),
        grows(before.timelines[id], after.timelines[id], one),
        clip_restorable(before.catalog, before.registry.remote@, one),
        0 <= one.track < count,
        after.catalog == before.catalog,
        after.registry == before.registry,
    ensures
        stocked(after, id, count),
{
    let (a, b) = (before.timelines[id], after.timelines[id]);
    let action = choose|action: ActionId| #[trigger] grew(a, b, one, action);
    assert forall|t: int| 0 <= t < b.tracks.len() implies (#[trigger] b.tracks[t]).laid_out() by {
        if t != one.track {
            assert(b.tracks[t] == a.tracks[t]);
        }
    }
    assert forall|x: ActionId| #[trigger] b.actions.has(x) implies {
        &&& b.actions.subjects.contains_key(slot_of(b.actions.actions[x].key))
        &&& action_restorable(after, id, x)
    } by {
        if x != action {
            assert(a.actions.has(x));
            assert(action_restorable(before, id, x));
            assert(b.actions.actions[x] == a.actions.actions[x]);
        }
    }
}

/// A timeline that can be restored still can when clips were inserted that can be.
proof fn inserts_stock<H: RemoteHost>(
    host: &H,
    id: TimelineId,
    ops: Seq<EditOp>,
    shown: Seq<Shown>,
    trace: Seq<StudioModel>,
    results: Seq<Applied>,
    count: int,
    n: int,
)
    requires
        reads_back(host),
        trace.len() > 0,
        trace[0].timelines.contains_key(id),
        neat(trace[0].timelines[id]),
        labels_owned(trace[0], id),
        shows(trace[0], id, Seq::empty()),
        shown.len() == ops.len(),
        all_leave_room(shown),
        forall|i: int|
            0 <= i < ops.len() ==> op_describes(
                host,
                trace[0].catalog,
                trace[0].registry.remote@,
                #[trigger] ops[i],
                shown[i],
            ),
        ops_follow(host, id, ops, trace, results),
        stocked(trace[0], id, count),
        all_restorable(trace[0].catalog, trace[0].registry.remote@, shown, count),
        0 <= n <= ops.len(),
    ensures
        stocked(trace[n], id, count),
    decreases n,
{
    if n > 0 {
        let m = n - 1;
        inserts_stock(host, id, ops, shown, trace, results, count, m);
        inserting_all_shows(host, id, ops, shown, trace, results, m);
        inserting_all_shows(host, id, ops, shown, trace, results, n);
        let one = shown[m];
        assert(clip_restorable(trace[0].catalog, trace[0].registry.remote@, one));
        assert(grows(trace[m].timelines[id], trace[m + 1].timelines[id], shown[m]));
        growing_stocks(id, trace[m], trace[n], one, count);
    }
}

/// A timeline that can be restored still can where it has the same clips.
proof fn alike_stay_stocked(id: TimelineId, a: StudioModel, b: StudioModel, count: int)
    requires
        stocked(a, id, count),
        clips_alike(id, a, b),
        b.timelines[id].tracks == a.timelines[id].tracks,
        b.catalog == a.catalog,
        b.registry == a.registry,
    ensures
        stocked(b, id, count),
{
    let (x, y) = (a.timelines[id], b.timelines[id]);
    assert forall|action: ActionId| #[trigger] y.actions.has(action) implies {
        &&& y.actions.subjects.contains_key(slot_of(y.actions.actions[action].key))
        &&& action_restorable(b, id, action)
    } by {
        assert(y.actions.actions.dom().contains(action));
        assert(x.actions.actions.dom().contains(action));
        assert(x.actions.has(action));
        assert(action_restorable(a, id, action));
    }
}

/// Loading the clips that a timeline shows into another one, in place of what is
/// there: it is not refused, and then that one shows them.
proof fn loading_shows<H: RemoteHost>(
    host: &H,
    id: TimelineId,
    track_count: usize,
    ops: Seq<EditOp>,
    shown: Seq<Shown>,
    markers: Seq<(String, Marker)>,
    before: StudioModel,
    after: StudioModel,
    result: Result<(u64, usize), Fault>,
)
    requires
        reads_back(host),
        before.timelines.contains_key(id),
        neat(before.timelines[id]),
        tracks_laid_out(before.timelines[id]),
        before.timelines[id].tracks.len() <= usize::MAX,
        shown.len() == ops.len(),
        all_leave_room(shown),
        forall|i: int|
            0 <= i < ops.len() ==> op_describes(
                host,
                before.catalog,
                before.registry.remote@,
                #[trigger] ops[i],
                shown[i],
            ),
        names_ascend(markers),
        all_restorable(
            before.catalog,
            before.registry.remote@,
            shown,
            tracks_at_least(track_count),
        ),
        loaded(host, id, true, track_count, ops, markers, before, after, result),
    ensures
        result is Ok,
        stocked(after, id, tracks_at_least(track_count)),
        after.catalog == before.catalog,
        after.registry == before.registry,
        after.timelines.contains_key(id),
        neat(after.timelines[id]),
        shows(after, id, shown),
        after.edits_of(id).markers == by_name(markers),
{
    let (snapshot, cleared, ready, results, forward, inverses, fault, applied, marked) = choose|
        snapshot: Result<Seq<EditOp>, Fault>,
        cleared: StudioModel,
        ready: StudioModel,
        results: Seq<OpResult>,
        forward: Seq<EditOp>,
        inverses: Seq<EditOp>,
        fault: Option<Fault>,
        applied: StudioModel,
        marked: StudioModel,
    | #[trigger]
        load_stepped(
            host,
            id,
            true,
            track_count,
            ops,
            markers,
            before,
            snapshot,
            cleared,
            ready,
            results,
            forward,
            inverses,
            fault,
            applied,
            marked,
            after,
            result,
        );
    let (taken, outcome, inverse) = choose|taken: StudioModel, outcome: OpResult, inverse: EditOp|
        #[trigger]
        made_ready(host, id, true, before, taken, snapshot, cleared, outcome, inverse);
    snapshots_are_taken(host, id, before, taken, snapshot);
    cleared_shows_none(id, track_count, taken, cleared, ready, outcome, inverse);
    described_run_shows(
        host,
        id,
        ops,
        shown,
        ready,
        applied,
        results,
        forward,
        inverses,
        fault,
        tracks_at_least(track_count),
    );
    match result {
        Ok((version, inserted)) => {
            concluding_shows(
                host,
                id,
                markers,
                shown,
                applied,
                marked,
                after,
                clear_first(true) + forward,
                inverses.reverse() + snapshot->Ok_0,
                version,
                tracks_at_least(track_count),
            );
        },
        Err(_) => {},
    }
}

/// Edits that all describe clips pass the check of what they hold.
proof fn described_are_checked<H: RemoteHost>(
    host: &H,
    catalog: CatalogModel,
    remote: Map<PipelineKey, InterpFn>,
    ops: Seq<EditOp>,
    shown: Seq<Shown>,
    result: Result<(), Fault>,
)
    requires
        reads_back(host),
        shown.len() == ops.len(),
        forall|i: int|
            0 <= i < ops.len() ==> op_describes(host, catalog, remote, #[trigger] ops[i], shown[i]),
        ops_checked(host, catalog, ops, result),
    ensures
        result is Ok,
{
    match result {
        Err(fault) => {
            let n = choose|n: int|
                {
                    &&& 0 <= n < ops.len()
                    &&& #[trigger] first_are_readable(host, catalog, ops, n)
                    &&& op_readable(host, catalog, ops[n], Err(fault))
                };
            described_is_readable(host, catalog, remote, ops[n], shown[n], Err(fault));
        },
        Ok(()) => {},
    }
}

/// Importing what was exported, in place of what a timeline holds: the import is
/// not refused, and then that timeline shows what the exported one showed, has its
/// markers and as many tracks, and can be restored as that one can. This is for
/// hosts that read what they wrote, and as long as the names in the document mean
/// the entities that they were written for.
pub proof fn exports_import_back<H: RemoteHost>(
    host: &H,
    id: TimelineId,
    before: StudioModel,
    left: StudioModel,
    ops: Seq<EditOp>,
    names: Seq<Option<String>>,
    markers: Seq<(String, Marker)>,
    p: &ImportParams,
    start: StudioModel,
    end: StudioModel,
    result: Result<(u64, usize), Fault>,
)
    requires
        reads_back(host),
        restorable(before, id),
        export_stepped(host, id, before, left, Ok(ops), names, markers, Ok(p.document)),
        replaces(p.mode) == Ok::<bool, Fault>(true),
        forall|entities: Vec<NamedEntity>| #[trigger]
            are_named(host, entities) ==> names_hold(
                before.catalog,
                ops,
                names,
                p.bindings@,
                entities@,
            ),
        start.timelines.contains_key(TimelineId { raw: p.id }),
        neat(start.timelines[TimelineId { raw: p.id }]),
        tracks_laid_out(start.timelines[TimelineId { raw: p.id }]),
        start.timelines[TimelineId { raw: p.id }].tracks.len() <= usize::MAX,
        start.catalog == before.catalog,
        start.registry == before.registry,
        imported(host, *p, start, end, result),
    ensures
        result is Ok,
        end.timelines.contains_key(TimelineId { raw: p.id }),
        shows_alike(before, id, end, TimelineId { raw: p.id }),
        end.edits_of(TimelineId { raw: p.id }).markers == before.edits_of(id).markers,
        restorable(end, TimelineId { raw: p.id }),
        end.catalog == before.catalog,
        end.registry == before.registry,
        end.timelines[TimelineId { raw: p.id }].tracks.len() == tracks_at_least(
            before.timelines[id].tracks.len() as usize,
        ),
{
    let target = TimelineId { raw: p.id };
    let shown = all_shown(before, id);
    let remote = before.registry.remote@;
    let count = left.timelines[id].tracks.len() as int;
    without_obstacles(ops, count, ops.len() as int);
    assert(all_insert(ops));
    snapshots_describe_all(host, id, before, left, ops);
    all_shown_leave_room(before, id);
    timelines_show_all(before, id);
    let (entities, plan, checked) = choose|
        entities: Vec<NamedEntity>,
        plan: Result<Seq<EditOp>, Fault>,
        checked: Result<(), Fault>,
    | #[trigger]
        import_stepped(host, *p, true, entities, plan, checked, start, end, result);
    documents_read_back(
        before.catalog,
        markers,
        count,
        ops,
        names,
        &p.document,
        p.bindings@,
        entities@,
        plan,
    );
    let again = plan->Ok_0;
    assert forall|i: int| 0 <= i < again.len() implies op_describes(
        host,
        before.catalog,
        remote,
        #[trigger] again[i],
        shown[i],
    ) by {
        assert(inserts_again(before.catalog, ops[i], again[i]));
        again_describes(host, before.catalog, remote, ops[i], again[i], shown[i]);
    }
    described_are_checked(host, before.catalog, remote, again, shown, checked);
    loading_shows(
        host,
        target,
        p.document.tracks@.len() as usize,
        again,
        shown,
        markers,
        start,
        end,
        result,
    );
    same_clips_show_alike(before, id, end, target, shown);
}

} // verus!
