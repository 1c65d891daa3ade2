//! Applying edits, and keeping them.
use crate::action::{ActionId, Ease, Value};
use crate::bevy_motiongfx::manager::TimelineId;
use crate::bevy_motiongfx::remote::batch::insert::{
    apply_insert, apply_insert_keyframes, clip_placed, insert_applied, insert_keyframes_applied,
    insert_stepped, keyframes_stepped, made_room, room_taken, timeline_placed, tracks_needed,
    Applied, InsertTarget,
};
use crate::bevy_motiongfx::remote::batch::op::{
    is_stamped, stamp_insert_id, EditOp, KeyframeDoc, OpResult, Placement, UpdatePatch,
};
use crate::bevy_motiongfx::remote::batch::snapshot::{
    apply_clear, apply_move, apply_remove, clear_applied, move_applied, remove_applied,
    remove_stepped,
};
use crate::bevy_motiongfx::remote::batch::update::{
    apply_update, patch_fault, target_replaced, target_stepped, update_applied, update_stepped,
    value_changed, ValueChange,
};
use crate::bevy_motiongfx::remote::fault::{CatalogError, Fault, OpFault};
use crate::bevy_motiongfx::remote::host::RemoteHost;
use crate::bevy_motiongfx::remote::json::Json;
use crate::bevy_motiongfx::remote::state::events::{next_number, EventKind};
use crate::bevy_motiongfx::remote::state::journal::{EntryModel, JournalEntry};
use crate::bevy_motiongfx::remote::state::EditsModel;
use crate::bevy_motiongfx::remote::studio::{baked, Studio, StudioModel};
use crate::remote::{RemoteEditError, RemoteFieldKey, RemoteKeyframe};
use crate::subject::Subject;
use crate::timeline::edit::grown_to;
use crate::timeline::TimelineModel;
use std::sync::Arc;
use vstd::prelude::*;

verus! {

/// Whether applying an edit had that outcome.
pub open spec fn op_applied<H: RemoteHost>(
    host: &H,
    id: TimelineId,
    op: EditOp,
    before: StudioModel,
    after: StudioModel,
    result: Applied,
) -> bool {
    match op {
        EditOp::Insert { at, to, to_relative, exact, .. } => insert_applied(
            host,
            id,
            *at,
            *to,
            to_relative,
            exact,
            before,
            after,
            result,
        ),
        EditOp::InsertKeyframes { at, keyframes, exact, .. } => insert_keyframes_applied(
            host,
            id,
            *at,
            keyframes@,
            exact,
            before,
            after,
            result,
        ),
        EditOp::Remove { track, action_id } => remove_applied(
            host,
            id,
            track,
            action_id,
            before,
            after,
            result,
        ),
        EditOp::Move { track, action_id, start_at, duration } => move_applied(
            id,
            track,
            action_id,
            start_at,
            duration,
            before,
            after,
            result,
        ),
        EditOp::Update { action_id, patch } => update_applied(
            host,
            id,
            action_id,
            *patch,
            before,
            after,
            result,
        ),
        EditOp::Clear => clear_applied(id, before, after, result),
        EditOp::Unrestorable { reason } => {
            &&& result == Err::<(OpResult, EditOp), Fault>(
                Fault::Op(OpFault::Unrestorable { reason }),
            )
            &&& after == before
        },
    }
}

/// Apply one [`EditOp`] to a timeline, returning its result and inverse. Does
/// not journal, or bump the version. [`finish_edit`] does that once the
/// request succeeds.
pub fn apply_op<H: RemoteHost>(host: &H, studio: &mut Studio, id: TimelineId, op: &EditOp) -> (result:
    Applied)
    ensures
        op_applied(host, id, *op, old(studio)@, final(studio)@, result),
{
    match op {
        EditOp::Insert { at, to, to_relative, exact, .. } => apply_insert(
            host,
            studio,
            id,
            at,
            to,
            *to_relative,
            *exact,
        ),
        EditOp::InsertKeyframes { at, keyframes, exact, .. } => apply_insert_keyframes(
            host,
            studio,
            id,
            at,
            keyframes,
            *exact,
        ),
        EditOp::Remove { track, action_id } => apply_remove(host, studio, id, *track, *action_id),
        EditOp::Move { track, action_id, start_at, duration } => apply_move(
            studio,
            id,
            *track,
            *action_id,
            *start_at,
            *duration,
        ),
        EditOp::Update { action_id, patch } => apply_update(host, studio, id, *action_id, patch),
        EditOp::Clear => apply_clear(studio, id),
        EditOp::Unrestorable { reason } => Err(
            Fault::Op(OpFault::Unrestorable { reason: reason.clone() }),
        ),
    }
}

/// Whether the playhead of a timeline can be moved: it is on a track, and no
/// track has a negative duration.
pub open spec fn seekable(model: TimelineModel) -> bool {
    model.playable() && model.forward()
}

/// Whether the playhead of every timeline can be moved.
pub open spec fn all_seekable(studio: StudioModel) -> bool {
    forall|id: TimelineId| #[trigger]
        studio.timelines.contains_key(id) ==> seekable(studio.timelines[id])
}

/// Whether the playhead of every timeline can still be moved, if it could.
pub open spec fn stays_seekable(before: StudioModel, after: StudioModel) -> bool {
    all_seekable(before) ==> all_seekable(after)
}

/// Whether two studios differ in one timeline and what belongs to its clips
/// alone.
pub open spec fn only_content(id: TimelineId, before: StudioModel, after: StudioModel) -> bool {
    let kept = after.edits_of(id);
    &&& after == (StudioModel { timelines: after.timelines, edits: after.edits, ..before })
    &&& after.timelines.dom() == before.timelines.dom()
    &&& forall|other: TimelineId|
        other != id && before.timelines.contains_key(other) ==> #[trigger] after.timelines[other]
            == before.timelines[other]
    &&& forall|other: TimelineId|
        other != id ==> #[trigger] after.edits_of(other) == before.edits_of(other)
    &&& before.timelines.contains_key(id) && seekable(before.timelines[id]) ==> seekable(
        after.timelines[id],
    )
    &&& kept == (EditsModel {
        clip_meta: kept.clip_meta,
        asset_refs: kept.asset_refs,
        ..before.edits_of(id)
    })
}

/// Content changes one after another are content changes.
pub proof fn only_content_twice(
    id: TimelineId,
    before: StudioModel,
    between: StudioModel,
    after: StudioModel,
)
    requires
        only_content(id, before, between),
        only_content(id, between, after),
    ensures
        only_content(id, before, after),
{
    assert forall|other: TimelineId|
        other != id && before.timelines.contains_key(other) implies #[trigger] after.timelines[other]
        == before.timelines[other] by {
        assert(between.timelines.contains_key(other));
        assert(between.timelines[other] == before.timelines[other]);
    }
    assert forall|other: TimelineId| other != id implies #[trigger] after.edits_of(other)
        == before.edits_of(other) by {
        assert(between.edits_of(other) == before.edits_of(other));
    }
}

/// Where nothing but content changes, the playhead of every timeline can still
/// be moved.
pub proof fn content_stays_seekable(id: TimelineId, before: StudioModel, after: StudioModel)
    requires
        only_content(id, before, after),
    ensures
        stays_seekable(before, after),
{
    if all_seekable(before) {
        assert forall|other: TimelineId| #[trigger] after.timelines.contains_key(other) implies seekable(
            after.timelines[other],
        ) by {
            assert(before.timelines.contains_key(other));
            if other != id {
                assert(after.timelines[other] == before.timelines[other]);
            }
        }
    }
}

/// A timeline with more tracks can still be played if it could.
pub proof fn growing_stays_seekable(before: TimelineModel, after: TimelineModel, count: usize)
    requires
        after == (TimelineModel { tracks: after.tracks, ..before }),
        grown_to(before.tracks, after.tracks, count),
    ensures
        seekable(before) ==> seekable(after),
{
    if seekable(before) {
        assert forall|i: int| 0 <= i < after.tracks.len() implies (#[trigger] after.tracks[i]).duration()
            >= 0 by {
            if i < before.tracks.len() {
                assert(after.tracks.take(before.tracks.len() as int)[i] == before.tracks[i]);
            }
        }
    }
}

/// Baking a timeline changes its content only.
pub proof fn baking_is_content<H: RemoteHost>(
    host: &H,
    id: TimelineId,
    before: StudioModel,
    after: StudioModel,
)
    requires
        baked(host, id, before, after),
    ensures
        only_content(id, before, after),
{
    assert(after.timelines.dom() =~= before.timelines.dom());
}

proof fn placing_is_content(
    id: TimelineId,
    at: &Placement,
    key: RemoteFieldKey,
    subject: Subject,
    target: InsertTarget,
    ease: Option<Ease>,
    exact: bool,
    resolved: Option<Arc<Json>>,
    before: StudioModel,
    after: StudioModel,
    result: Applied,
)
    requires
        clip_placed(
            id,
            *at,
            key,
            subject,
            target,
            ease,
            exact,
            resolved,
            before,
            after,
            result,
        ),
    ensures
        only_content(id, before, after),
{
    assert(after.timelines.dom() =~= before.timelines.dom());
    if before.timelines.contains_key(id) {
        let model = before.timelines[id];
        let (placed, outcome) = choose|
            placed: TimelineModel,
            outcome: Result<ActionId, RemoteEditError>,
        | #[trigger]
            timeline_placed(
                model,
                placed,
                before.registry.remote@,
                *at,
                key,
                subject,
                target,
                ease,
                exact,
                outcome,
            ) && after.timelines[id] == placed;
        let ready = choose|ready: TimelineModel|
            {
                &&& #[trigger] made_room(model, ready, *at, exact)
                &&& room_taken(
                    ready,
                    placed,
                    before.registry.remote@,
                    *at,
                    key,
                    subject,
                    target,
                    ease,
                    exact,
                    outcome,
                )
            };
        if exact {
            growing_stays_seekable(model, ready, tracks_needed(*at));
        }
        assert(seekable(model) ==> seekable(ready));
        assert(seekable(ready) ==> seekable(placed));
    }
}

/// Applying an edit changes nothing but its timeline and what belongs to the
/// clips of it: the journal, the version, the events, the markers and the
/// name are left alone, and so is every other timeline. A timeline whose
/// playhead can be moved stays one.
pub proof fn edits_change_content_only<H: RemoteHost>(
    host: &H,
    id: TimelineId,
    op: EditOp,
    before: StudioModel,
    after: StudioModel,
    result: Applied,
)
    requires
        op_applied(host, id, op, before, after, result),
    ensures
        only_content(id, before, after),
{
    match op {
        EditOp::Insert { at, to, to_relative, exact, .. } => {
            let (eased, settled, between, planned) = choose|
                eased: Result<Option<Ease>, Fault>,
                settled: Result<
                    Option<Arc<Json>>,
                    Fault,
                >,
                between: StudioModel,
                planned: Result<
                    (RemoteFieldKey, Subject, Value),
                    Fault,
                >,
            | #[trigger]
                insert_stepped(
                    host,
                    id,
                    *at,
                    *to,
                    to_relative,
                    exact,
                    before,
                    eased,
                    settled,
                    between,
                    planned,
                    after,
                    result,
                );
            if eased is Ok {
                assert(before == between || baked(host, id, before, between));
                if before != between {
                    baking_is_content(host, id, before, between);
                }
                if settled is Ok && planned is Ok {
                    let (key, subject, value) = planned->Ok_0;
                    placing_is_content(
                        id,
                        &*at,
                        key,
                        subject,
                        InsertTarget::Constant(value),
                        eased->Ok_0,
                        exact,
                        settled->Ok_0,
                        between,
                        after,
                        result,
                    );
                }
                only_content_twice(id, before, between, after);
            }
        },
        EditOp::InsertKeyframes { at, keyframes, exact, .. } => {
            let (eased, planned) = choose|
                eased: Result<Option<Ease>, Fault>,
                planned: Result<
                    (
                        RemoteFieldKey,
                        Subject,
                        Seq<RemoteKeyframe>,
                    ),
                    Fault,
                >,
            | #[trigger]
                keyframes_stepped(
                    host,
                    id,
                    *at,
                    keyframes@,
                    exact,
                    before,
                    eased,
                    planned,
                    after,
                    result,
                );
            if eased is Ok && planned is Ok {
                let (key, subject, points) = planned->Ok_0;
                placing_is_content(
                    id,
                    &*at,
                    key,
                    subject,
                    InsertTarget::Keyframes(points),
                    eased->Ok_0,
                    exact,
                    None,
                    before,
                    after,
                    result,
                );
            }
        },
        EditOp::Remove { track, action_id } => {
            let (between, snapshot) = choose|
                between: StudioModel,
                snapshot: Result<EditOp, Fault>,
            | #[trigger]
                remove_stepped(
                    host,
                    id,
                    track,
                    action_id,
                    before,
                    between,
                    snapshot,
                    after,
                    result,
                );
            baking_is_content(host, id, before, between);
            assert(after.timelines.dom() =~= between.timelines.dom());
            assert(only_content(id, between, after));
            only_content_twice(id, before, between, after);
        },
        EditOp::Move { .. } => {
            assert(after.timelines.dom() =~= before.timelines.dom());
        },
        EditOp::Update { action_id, patch } => {
            update_changes_content_only(host, id, action_id, &*patch, before, after, result);
        },
        EditOp::Clear => {
            assert(after.timelines.dom() =~= before.timelines.dom());
        },
        EditOp::Unrestorable { .. } => {},
    }
}

proof fn update_changes_content_only<H: RemoteHost>(
    host: &H,
    id: TimelineId,
    action_id: u64,
    patch: &UpdatePatch,
    before: StudioModel,
    after: StudioModel,
    result: Applied,
)
    requires
        update_applied(host, id, action_id, *patch, before, after, result),
    ensures
        only_content(id, before, after),
{
    let action = ActionId { bits: action_id };
    let (eased, between, changed) = choose|
        eased: Result<Option<Ease>, Fault>,
        between: StudioModel,
        changed: Result<ValueChange, Fault>,
    | #[trigger]
        update_stepped(
            host,
            id,
            action_id,
            *patch,
            before,
            eased,
            between,
            changed,
            after,
            result,
        );
    if patch_fault(*patch) is None && eased is Ok {
        value_change_is_content(host, id, action, patch, before, between, changed);
        if changed is Ok {
            assert(after.timelines.dom() =~= between.timelines.dom());
            assert(only_content(id, between, after));
        }
        only_content_twice(id, before, between, after);
    }
}

proof fn value_change_is_content<H: RemoteHost>(
    host: &H,
    id: TimelineId,
    action: ActionId,
    patch: &UpdatePatch,
    before: StudioModel,
    after: StudioModel,
    changed: Result<ValueChange, Fault>,
)
    requires
        value_changed(host, id, action, *patch, before, after, changed),
    ensures
        only_content(id, before, after),
{
    match patch.keyframes {
        Some(docs) => {
            assert(after == before || before.timelines.contains_key(id));
            assert(after.timelines.dom() =~= before.timelines.dom());
        },
        None => {
            if patch.to is Some || patch.to_relative is Some {
                retarget_is_content(
                    host,
                    id,
                    action,
                    patch,
                    before,
                    after,
                    retargeting(*patch, changed),
                );
            }
        },
    }
}

/// What giving an action another target came to.
spec fn retargeting(patch: UpdatePatch, changed: Result<ValueChange, Fault>) -> Result<
    (Json, Json),
    Fault,
> {
    match changed {
        Ok(change) => Ok(
            (
                *change.old_to->0,
                if patch.to is Some {
                    *patch.to->0
                } else {
                    *change.resolved->0
                },
            ),
        ),
        Err(fault) => Err(fault),
    }
}

proof fn retarget_is_content<H: RemoteHost>(
    host: &H,
    id: TimelineId,
    action: ActionId,
    patch: &UpdatePatch,
    before: StudioModel,
    after: StudioModel,
    result: Result<(Json, Json), Fault>,
)
    requires
        target_replaced(
            host,
            id,
            action,
            *patch,
            before,
            after,
            result,
        ),
    ensures
        only_content(id, before, after),
{
    let (between, docs, written, target, decoded) = choose|
        between: StudioModel,
        docs: Option<Seq<KeyframeDoc>>,
        written: Option<(Json, Json)>,
        target: Result<Json, Fault>,
        decoded: Result<Value, CatalogError>,
    | #[trigger]
        target_stepped(
            host,
            id,
            action,
            *patch,
            before,
            between,
            docs,
            written,
            target,
            decoded,
            after,
            result,
        );
    baking_is_content(host, id, before, between);
    assert(after == between || between.timelines.contains_key(id));
    assert(after.timelines.dom() =~= between.timelines.dom());
    assert(only_content(id, between, after));
    only_content_twice(id, before, between, after);
}

/// What is kept about a timeline once a request on it has succeeded: one more
/// entry in the journal, the next version, and one more event.
pub open spec fn kept_edit(
    edits: EditsModel,
    entry: EntryModel,
    kind: EventKind,
) -> EditsModel {
    EditsModel {
        journal: Some(edits.journal_or_empty().recorded(entry)),
        ..edits
    }.bumped().told(kind)
}

/// Whether a request was concluded so: the timeline is baked, and the request
/// is kept as one entry, one version and one event that tells the edits.
pub open spec fn edit_finished<H: RemoteHost>(
    host: &H,
    id: TimelineId,
    forward: Seq<EditOp>,
    inverse: Seq<EditOp>,
    before: StudioModel,
    after: StudioModel,
    version: u64,
) -> bool {
    exists|between: StudioModel, ops: Vec<EditOp>|
        {
            &&& ops@ == forward
            &&& #[trigger] edit_concluded(host, id, ops, inverse, before, between, after, version)
        }
}

/// Whether a request was concluded so, by way of the baked studio.
pub open spec fn edit_concluded<H: RemoteHost>(
    host: &H,
    id: TimelineId,
    ops: Vec<EditOp>,
    inverse: Seq<EditOp>,
    before: StudioModel,
    between: StudioModel,
    after: StudioModel,
    version: u64,
) -> bool {
    &&& baked(host, id, before, between)
    &&& version == next_number(between.edits_of(id).version)
    &&& after == between.with_edits(
        id,
        kept_edit(
            between.edits_of(id),
            EntryModel { forward: ops@, inverse },
            EventKind::Edit { version, ops },
        ),
    )
}

/// A copy of some edits.
pub fn copy_ops(ops: &Vec<EditOp>) -> (copy: Vec<EditOp>)
    ensures
        copy@ == ops@,
{
    let mut copy: Vec<EditOp> = Vec::new();
    let mut i: usize = 0;
    while i < ops.len()
        invariant
            i <= ops@.len(),
            copy@ == ops@.take(i as int),
        decreases ops@.len() - i,
    {
        copy.push(ops[i].copy());
        assert(copy@ =~= ops@.take(i + 1));
        i += 1;
    }
    assert(copy@ =~= ops@);
    copy
}

/// Bake once, journal the request as one entry, bump the version, tell one
/// event describing the applied ops. `inverse` must already be in reverse
/// application order.
pub fn finish_edit<H: RemoteHost>(
    host: &H,
    studio: &mut Studio,
    id: TimelineId,
    forward: Vec<EditOp>,
    inverse: Vec<EditOp>,
) -> (version: u64)
    ensures
        edit_finished(host, id, forward@, inverse@, old(studio)@, final(studio)@, version),
        stays_seekable(old(studio)@, final(studio)@),
{
    let ghost before = studio@;
    studio.bake(host, &id);
    let ghost between = studio@;
    let ops = copy_ops(&forward);
    let ghost entry = EntryModel { forward: ops@, inverse: inverse@ };
    studio.state.record(id, JournalEntry { forward, inverse });
    let version = studio.state.bump(id);
    let ghost told = ops;
    studio.state.push_event(id, EventKind::Edit { version, ops });
    proof {
        assert(studio@ =~= between.with_edits(
            id,
            kept_edit(
                between.edits_of(id),
                entry,
                EventKind::Edit { version, ops: told },
            ),
        ));
        assert(edit_concluded(host, id, told, inverse@, before, between, studio@, version));
        baking_is_content(host, id, before, between);
        content_stays_seekable(id, before, between);
        assert(studio@.timelines == between.timelines);
    }
    version
}

/// Whether applying a single edit as one request had that outcome, by way of
/// what applying it came to.
pub open spec fn single_stepped<H: RemoteHost>(
    host: &H,
    id: TimelineId,
    op: EditOp,
    before: StudioModel,
    between: StudioModel,
    applied: Applied,
    stamped: EditOp,
    after: StudioModel,
    result: Result<(OpResult, u64), Fault>,
) -> bool {
    &&& op_applied(host, id, op, before, between, applied)
    &&& match applied {
        Err(fault) => result == Err::<(OpResult, u64), Fault>(fault) && after == between,
        Ok((outcome, inverse)) => {
            &&& is_stamped(op, outcome, stamped)
            &&& result matches Ok((told, version))
            &&& told == outcome
            &&& edit_finished(
                host,
                id,
                seq![stamped],
                seq![inverse],
                between,
                after,
                version,
            )
        },
    }
}

/// Whether applying a single edit as one request had that outcome.
pub open spec fn single_applied<H: RemoteHost>(
    host: &H,
    id: TimelineId,
    op: EditOp,
    before: StudioModel,
    after: StudioModel,
    result: Result<(OpResult, u64), Fault>,
) -> bool {
    exists|between: StudioModel, applied: Applied, stamped: EditOp| #[trigger]
        single_stepped(host, id, op, before, between, applied, stamped, after, result)
}

/// Apply a single op as one journaled request. Returns what it came to and
/// the new version.
pub fn single_edit<H: RemoteHost>(host: &H, studio: &mut Studio, id: TimelineId, op: EditOp) -> (result:
    Result<(OpResult, u64), Fault>)
    ensures
        single_applied(host, id, op, old(studio)@, final(studio)@, result),
        stays_seekable(old(studio)@, final(studio)@),
{
    let ghost before = studio@;
    let applied = apply_op(host, studio, id, &op);
    let ghost between = studio@;
    let ghost came_to = applied;
    proof {
        edits_change_content_only(host, id, op, before, between, came_to);
        content_stays_seekable(id, before, between);
    }
    match applied {
        Err(fault) => {
            assert(single_stepped(
                host,
                id,
                op,
                before,
                between,
                came_to,
                op,
                studio@,
                Err(fault),
            ));
            Err(fault)
        },
        Ok((outcome, inverse)) => {
            let stamped = stamp_insert_id(op, &outcome);
            let ghost kept = stamped;
            let ghost back = inverse;
            let mut forward: Vec<EditOp> = Vec::new();
            forward.push(stamped);
            let mut backward: Vec<EditOp> = Vec::new();
            backward.push(inverse);
            assert(forward@ =~= seq![kept]);
            assert(backward@ =~= seq![back]);
            let version = finish_edit(host, studio, id, forward, backward);
            assert(single_stepped(
                host,
                id,
                op,
                before,
                between,
                came_to,
                kept,
                studio@,
                Ok((outcome, version)),
            ));
            Ok((outcome, version))
        },
    }
}

} // verus!
