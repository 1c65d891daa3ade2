//! What undoing edits, and refusing them, leaves.
use crate::action::{ActionId, Ease, Value};
use crate::bevy_motiongfx::manager::TimelineId;
use crate::bevy_motiongfx::remote::batch::apply::{only_content_twice, op_applied};
use crate::bevy_motiongfx::remote::batch::insert::{
    clip_placed, insert_stepped, keyframes_stepped, room_taken, timeline_placed, Applied,
    InsertTarget,
};
use crate::bevy_motiongfx::remote::batch::laws::{
    alike_twice, baking_keeps_clips, brought_back, inserting_is_undone, moving_is_undone, tidy,
    tracks_laid_out,
};
use crate::bevy_motiongfx::remote::batch::op::{
    EditOp, KeyframeDoc, OpResult, Placement, UpdatePatch,
};
use crate::bevy_motiongfx::remote::batch::run::{op_tried, ops_run, ops_tried};
use crate::bevy_motiongfx::remote::batch::snapshot::remove_stepped;
use crate::bevy_motiongfx::remote::batch::update::{
    target_replaced, target_stepped, update_stepped, value_changed, ValueChange,
};
use crate::bevy_motiongfx::remote::batch::update_laws::{
    describable, linear_by_name, reads_back, updating_is_undone,
};
use crate::bevy_motiongfx::remote::fault::{CatalogError, Fault};
use crate::bevy_motiongfx::remote::host::RemoteHost;
use crate::bevy_motiongfx::remote::json::Json;
use crate::bevy_motiongfx::remote::studio::{baked, StudioModel};
use crate::remote::{RemoteEditError, RemoteFieldKey, RemoteKeyframe};
use crate::subject::Subject;
use crate::timeline::TimelineModel;
use std::sync::Arc;
use vstd::prelude::*;

verus! {

/// Whether an edit is one that a request can ask for: a clip is not inserted
/// for the sake of restoring it.
pub open spec fn requested(op: EditOp) -> bool {
    match op {
        EditOp::Insert { exact, .. } => !exact,
        EditOp::InsertKeyframes { exact, .. } => !exact,
        EditOp::Remove { .. } => true,
        EditOp::Move { .. } => true,
        EditOp::Update { .. } => true,
        _ => false,
    }
}

/// Whether the inverse of an edit brings everything back under the same ids: it
/// is a requested insert, a move, or an update of an action that can be
/// described and is not eased linearly by name.
pub open spec fn revertible(id: TimelineId, op: EditOp, before: StudioModel) -> bool {
    &&& requested(op)
    &&& op !is Remove
    &&& op matches EditOp::Update { action_id, .. } ==> {
        let actions = before.timelines[id].actions;
        let action = ActionId { bits: action_id };
        actions.has(action) ==> describable(actions.actions[action]) && !linear_by_name(
            actions.actions[action],
        )
    }
}

/// Applying the inverse of an edit, with nothing but baking in between, brings
/// the studio back to what it was: the result is a success, every clip is where
/// it was under the id that it had, with its duration, target or keyframes,
/// ease, label and colour, and muted or not; and neither edit touches a version,
/// a journal or an event log.
pub proof fn edits_are_undone<H: RemoteHost>(
    host: &H,
    id: TimelineId,
    op: EditOp,
    outcome: OpResult,
    inverse: EditOp,
    before: StudioModel,
    between: StudioModel,
    later: StudioModel,
    after: StudioModel,
    result: Applied,
)
    requires
        reads_back(host),
        tidy(id, before),
        revertible(id, op, before),
        op_applied(host, id, op, before, between, Ok((outcome, inverse))),
        brought_back(id, between, later),
        tracks_laid_out(later.timelines[id]),
        op_applied(host, id, inverse, later, after, result),
    ensures
        result is Ok,
        brought_back(id, before, after),
{
    match op {
        EditOp::Move { .. } => {
            moving_is_undone(
                host,
                id,
                op,
                outcome,
                inverse,
                before,
                between,
                later,
                after,
                result,
            );
        },
        EditOp::Update { .. } => {
            updating_is_undone(
                host,
                id,
                op,
                outcome,
                inverse,
                before,
                between,
                later,
                after,
                result,
            );
        },
        _ => {
            inserting_is_undone(
                host,
                id,
                op,
                outcome,
                inverse,
                before,
                between,
                later,
                after,
                result,
            );
        },
    }
}

/// A studio is like itself.
proof fn alike_itself(id: TimelineId, studio: StudioModel)
    requires
        studio.timelines.contains_key(id),
    ensures
        brought_back(id, studio, studio),
{
}

/// A clip that cannot be put on a timeline leaves it as it was.
proof fn not_placing_changes_nothing(
    id: TimelineId,
    at: &Placement,
    key: RemoteFieldKey,
    subject: Subject,
    target: InsertTarget,
    ease: Option<Ease>,
    resolved: Option<Arc<Json>>,
    before: StudioModel,
    after: StudioModel,
    fault: Fault,
)
    requires
        before.timelines.contains_key(id),
        clip_placed(
            id,
            *at,
            key,
            subject,
            target,
            ease,
            false,
            resolved,
            before,
            after,
            Err(fault),
        ),
    ensures
        after == before,
{
    let m0 = before.timelines[id];
    let remote = before.registry.remote@;
    let (model, placed) = choose|model: TimelineModel, placed: Result<ActionId, RemoteEditError>|
        {
            &&& #[trigger] timeline_placed(
                m0,
                model,
                remote,
                *at,
                key,
                subject,
                target,
                ease,
                false,
                placed,
            )
            &&& placed is Err
            &&& after == before.with_timeline(id, model)
        };
    assert(room_taken(m0, model, remote, *at, key, subject, target, ease, false, placed));
    assert(model == m0);
    assert(after =~= before);
}

/// A value that is not changed leaves at most a baked timeline.
proof fn refused_update_bakes<H: RemoteHost>(
    host: &H,
    id: TimelineId,
    action: ActionId,
    patch: &UpdatePatch,
    before: StudioModel,
    after: StudioModel,
    changed: Result<ValueChange, Fault>,
)
    requires
        before.timelines.contains_key(id),
        value_changed(host, id, action, *patch, before, after, changed),
        changed is Ok ==> !after.timelines.contains_key(id) || !after.timelines[id].actions.has(
            action,
        ),
    ensures
        brought_back(id, before, after),
{
    alike_itself(id, before);
    match patch.keyframes {
        Some(docs) => {},
        None => {
            if patch.to is Some || patch.to_relative is Some {
                let told = retargeting(*patch, changed);
                assert(target_replaced(host, id, action, *patch, before, after, told));
                let (between, docs, written, target, decoded) = choose|
                    between: StudioModel,
                    docs: Option<Seq<KeyframeDoc>>,
                    written: Option<(Json, Json)>,
                    target: Result<Json, Fault>,
                    decoded: Result<Value, CatalogError>,
                | #[trigger]
                    target_stepped(
                        host,
                        id,
                        action,
                        *patch,
                        before,
                        between,
                        docs,
                        written,
                        target,
                        decoded,
                        after,
                        told,
                    );
                baking_keeps_clips(host, id, before, between);
            }
        },
    }
}

/// What giving an action another target came to.
spec fn retargeting(patch: UpdatePatch, changed: Result<ValueChange, Fault>) -> Result<
    (Json, Json),
    Fault,
> {
    match changed {
        Ok(change) => Ok(
            (
                *change.old_to->0,
                if patch.to is Some {
                    *patch.to->0
                } else {
                    *change.resolved->0
                },
            ),
        ),
        Err(fault) => Err(fault),
    }
}

/// An edit that a request asks for and that is refused leaves the clips as they
/// were.
pub proof fn refused_edits_change_nothing<H: RemoteHost>(
    host: &H,
    id: TimelineId,
    op: EditOp,
    before: StudioModel,
    after: StudioModel,
    fault: Fault,
)
    requires
        requested(op),
        before.timelines.contains_key(id),
        op_applied(host, id, op, before, after, Err(fault)),
    ensures
        brought_back(id, before, after),
{
    alike_itself(id, before);
    match op {
        EditOp::Insert { at, to, to_relative, exact, .. } => {
            let (eased, settled, ready, planned) = choose|
                eased: Result<Option<Ease>, Fault>,
                settled: Result<
                    Option<Arc<Json>>,
                    Fault,
                >,
                ready: StudioModel,
                planned: Result<
                    (RemoteFieldKey, Subject, Value),
                    Fault,
                >,
            | #[trigger]
                insert_stepped(
                    host,
                    id,
                    *at,
                    *to,
                    to_relative,
                    exact,
                    before,
                    eased,
                    settled,
                    ready,
                    planned,
                    after,
                    Err(fault),
                );
            if eased is Ok {
                if ready != before {
                    baking_keeps_clips(host, id, before, ready);
                }
                if settled is Ok && planned is Ok {
                    let (key, subject, value) = planned->Ok_0;
                    not_placing_changes_nothing(
                        id,
                        &*at,
                        key,
                        subject,
                        InsertTarget::Constant(value),
                        eased->Ok_0,
                        settled->Ok_0,
                        ready,
                        after,
                        fault,
                    );
                }
            }
        },
        EditOp::InsertKeyframes { at, keyframes, exact, .. } => {
            let (eased, planned) = choose|
                eased: Result<Option<Ease>, Fault>,
                planned: Result<
                    (
                        RemoteFieldKey,
                        Subject,
                        Seq<RemoteKeyframe>,
                    ),
                    Fault,
                >,
            | #[trigger]
                keyframes_stepped(
                    host,
                    id,
                    *at,
                    keyframes@,
                    exact,
                    before,
                    eased,
                    planned,
                    after,
                    Err(fault),
                );
            if eased is Ok && planned is Ok {
                let (key, subject, points) = planned->Ok_0;
                not_placing_changes_nothing(
                    id,
                    &*at,
                    key,
                    subject,
                    InsertTarget::Keyframes(points),
                    eased->Ok_0,
                    None,
                    before,
                    after,
                    fault,
                );
            }
        },
        EditOp::Remove { track, action_id } => {
            let (held, snapshot) = choose|held: StudioModel, snapshot: Result<EditOp, Fault>|
                #[trigger]
                remove_stepped(
                    host,
                    id,
                    track,
                    action_id,
                    before,
                    held,
                    snapshot,
                    after,
                    Err(fault),
                );
            baking_keeps_clips(host, id, before, held);
        },
        EditOp::Move { .. } => {},
        EditOp::Update { action_id, patch } => {
            let action = ActionId { bits: action_id };
            let (eased, mid, changed) = choose|
                eased: Result<Option<Ease>, Fault>,
                mid: StudioModel,
                changed: Result<ValueChange, Fault>,
            | #[trigger]
                update_stepped(
                    host,
                    id,
                    action_id,
                    *patch,
                    before,
                    eased,
                    mid,
                    changed,
                    after,
                    Err(fault),
                );
            if after != before {
                refused_update_bakes(host, id, action, &*patch, before, mid, changed);
            }
        },
        _ => {},
    }
}

/// A batch that is refused leaves every clip as it was: the edits before the one
/// that failed are taken back newest first, and none of that fails, so that the
/// rollback is not reported incomplete. This is for batches of edits whose
/// inverses bring everything back under the same ids.
pub proof fn refused_batches_change_nothing<H: RemoteHost>(
    host: &H,
    id: TimelineId,
    ops: Seq<EditOp>,
    trace: Seq<StudioModel>,
    results: Seq<OpResult>,
    inverses: Seq<EditOp>,
    failing: EditOp,
    failed: StudioModel,
    cause: Fault,
    back: Seq<StudioModel>,
    failures: Seq<bool>,
    after: StudioModel,
)
    requires
        reads_back(host),
        ops_run(host, id, ops, trace, results, inverses),
        forall|i: int| 0 <= i < trace.len() ==> tidy(id, #[trigger] trace[i]),
        forall|i: int| 0 <= i < ops.len() ==> revertible(id, #[trigger] ops[i], trace[i]),
        requested(failing),
        op_applied(host, id, failing, trace.last(), failed, Err(cause)),
        ops_tried(host, id, inverses.reverse(), back, failures),
        failures.len() == ops.len(),
        back.first() == failed,
        forall|i: int| 0 <= i < back.len() ==> tracks_laid_out((#[trigger] back[i]).timelines[id]),
        baked(host, id, back.last(), after),
    ensures
        !failures.contains(true),
        brought_back(id, trace.first(), after),
{
    assert(tidy(id, trace[trace.len() - 1]));
    refused_edits_change_nothing(host, id, failing, trace.last(), failed, cause);
    let n = ops.len() as int;
    taking_back(host, id, ops, trace, results, inverses, back, failures, 0, n);
    assert(back[n] == back.last());
    assert(back[n].timelines.contains_key(id));
    baking_keeps_clips(host, id, back.last(), after);
    only_content_twice(id, trace.first(), back.last(), after);
    alike_twice(id, trace.first(), back.last(), after);
}

/// Taking back the last edits, newest first, brings back what there was before them.
pub proof fn taking_back<H: RemoteHost>(
    host: &H,
    id: TimelineId,
    ops: Seq<EditOp>,
    trace: Seq<StudioModel>,
    results: Seq<OpResult>,
    inverses: Seq<EditOp>,
    back: Seq<StudioModel>,
    failures: Seq<bool>,
    from: int,
    n: int,
)
    requires
        reads_back(host),
        ops_run(host, id, ops, trace, results, inverses),
        forall|i: int| 0 <= i < trace.len() ==> tidy(id, #[trigger] trace[i]),
        0 <= from,
        forall|i: int| from <= i < ops.len() ==> revertible(id, #[trigger] ops[i], trace[i]),
        ops_tried(host, id, inverses.reverse(), back, failures),
        failures.len() == ops.len(),
        brought_back(id, trace.last(), back.first()),
        forall|i: int| 0 <= i < back.len() ==> tracks_laid_out((#[trigger] back[i]).timelines[id]),
        0 <= n <= ops.len() - from,
    ensures
        brought_back(id, trace[ops.len() - n], back[n]),
        forall|i: int| 0 <= i < n ==> !#[trigger] failures[i],
    decreases n,
{
    if n > 0 {
        taking_back(host, id, ops, trace, results, inverses, back, failures, from, n - 1);
        let i = ops.len() - n;
        let inverse = inverses.reverse()[n - 1];
        assert(inverse == inverses[i]);
        assert(op_tried(host, id, inverse, back[n - 1], back[n], failures[n - 1]));
        let result = choose|result: Applied|
            {
                &&& #[trigger] op_applied(host, id, inverse, back[n - 1], back[n], result)
                &&& failures[n - 1] == (result is Err)
            };
        let op = ops[i];
        assert(tidy(id, trace[i]));
        edits_are_undone(
            host,
            id,
            op,
            results[i],
            inverse,
            trace[i],
            trace[i + 1],
            back[n - 1],
            back[n],
            result,
        );
    }
}

} // verus!
