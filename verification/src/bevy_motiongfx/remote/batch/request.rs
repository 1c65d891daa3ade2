//! Applying several edits as one request.
use crate::bevy_motiongfx::manager::TimelineId;
use crate::bevy_motiongfx::remote::batch::apply::{
    apply_op, content_stays_seekable, edit_finished, edits_change_content_only, finish_edit,
    only_content, only_content_twice, op_applied, stays_seekable,
};
use crate::bevy_motiongfx::remote::batch::op::{
    copy_text, is_stamped, stamp_insert_id, EditOp, KeyframeDoc, OpResult, Placement, UpdatePatch,
};
use crate::bevy_motiongfx::remote::batch::run::{
    all_stamped, all_tried, one_more_run, ops_run, reverse_ops, try_all,
};
use crate::bevy_motiongfx::remote::batch::value::{is_smoothed, smooth_keyframes};
use crate::bevy_motiongfx::remote::fault::{Attempt, Fault, OpFault, SubjectFault};
use crate::bevy_motiongfx::remote::host::RemoteHost;
use crate::bevy_motiongfx::remote::names::{name_resolved, resolve_name};
use crate::bevy_motiongfx::remote::studio::{baked, Studio, StudioModel};
use std::sync::Arc;
use vstd::prelude::*;

verus! {

/// How a raw edit refers to an action.
#[derive(Debug, Clone, Copy, PartialEq, Eq, Structural)]
pub enum ActionRef {
    /// By its id, or not at all.
    Plain,
    /// As that of an earlier edit of the batch.
    Op(u64),
    /// As that of something that is no index.
    NotIndex,
    /// In another way.
    Unknown,
}

/// Whether the keyframes of a raw edit are to be smoothed.
#[derive(Debug)]
pub enum SmoothParam {
    /// They stay as they are.
    Off,
    /// They are smoothed.
    On(Vec<KeyframeDoc>),
    /// They are to be smoothed and cannot be read.
    Unreadable(String),
    /// There are none to smooth.
    NoKeyframes,
    /// It is neither true nor false.
    NotBool,
}

/// How a raw edit names its entity.
#[derive(Debug)]
pub enum NameParam {
    /// By its bits, or not at all.
    Absent,
    /// By its name.
    Name(String),
    /// By its bits and its name.
    Both,
    /// By something that is no string.
    NotText,
}

/// An edit of a batch before its references are resolved.
#[derive(Debug)]
pub struct RawOp {
    pub action: ActionRef,
    pub smooth: SmoothParam,
    pub name: NameParam,
    /// The edit as far as it can be read, or why it cannot.
    pub draft: Result<EditOp, String>,
}

/// The edit with another action.
pub open spec fn with_action(op: EditOp, id: u64) -> EditOp {
    match op {
        EditOp::Remove { track, .. } => EditOp::Remove { track, action_id: id },
        EditOp::Move { track, start_at, duration, .. } => EditOp::Move {
            track,
            action_id: id,
            start_at,
            duration,
        },
        EditOp::Update { patch, .. } => EditOp::Update { action_id: id, patch },
        _ => op,
    }
}

/// Whether an edit differs in its entity.
pub open spec fn has_entity(op: EditOp, entity: u64, changed: EditOp) -> bool {
    match op {
        EditOp::Insert { at, to, to_relative, exact, restore_id } => {
            &&& changed matches EditOp::Insert {
                at: placed,
                to: other_to,
                to_relative: other_relative,
                exact: other_exact,
                restore_id: other_restore,
            }
            &&& *placed == (Placement { entity, ..*at })
            &&& other_to == to
            &&& other_relative == to_relative
            &&& other_exact == exact
            &&& other_restore == restore_id
        },
        EditOp::InsertKeyframes { at, keyframes, exact, restore_id } => {
            &&& changed matches EditOp::InsertKeyframes {
                at: placed,
                keyframes: other_keyframes,
                exact: other_exact,
                restore_id: other_restore,
            }
            &&& *placed == (Placement { entity, ..*at })
            &&& other_keyframes == keyframes
            &&& other_exact == exact
            &&& other_restore == restore_id
        },
        _ => changed == op,
    }
}

/// Whether an edit differs in its keyframes.
pub open spec fn has_keyframes(op: EditOp, docs: Seq<KeyframeDoc>, changed: EditOp) -> bool {
    match op {
        EditOp::InsertKeyframes { at, exact, restore_id, .. } => {
            &&& changed matches EditOp::InsertKeyframes {
                at: other_at,
                keyframes,
                exact: other_exact,
                restore_id: other_restore,
            }
            &&& other_at == at
            &&& keyframes@ == docs
            &&& other_exact == exact
            &&& other_restore == restore_id
        },
        EditOp::Update { action_id, patch } => {
            &&& changed matches EditOp::Update { action_id: other_id, patch: other_patch }
            &&& other_id == action_id
            &&& other_patch.keyframes matches Some(keyframes)
            &&& keyframes@ == docs
            &&& *other_patch == (UpdatePatch { keyframes: other_patch.keyframes, ..*patch })
        },
        _ => changed == op,
    }
}

/// The action that an edit refers to, given what those before it came to.
/// None where it does not refer to an earlier edit.
pub open spec fn action_referred(action: ActionRef, results: Seq<OpResult>) -> Result<
    Option<u64>,
    Fault,
> {
    match action {
        ActionRef::Plain => Ok(None),
        ActionRef::Unknown => Err(Fault::Op(OpFault::RefShape)),
        ActionRef::NotIndex => Err(Fault::Op(OpFault::RefIndex)),
        ActionRef::Op(n) => if n < results.len() && results[n as int].spec_action_id() is Some {
            Ok(results[n as int].spec_action_id())
        } else {
            Err(Fault::Op(OpFault::RefTarget { op: n }))
        },
    }
}

/// Resolve a reference against the results of the ops already applied.
fn resolve_op_refs(action: ActionRef, results: &Vec<OpResult>) -> (result: Result<
    Option<u64>,
    Fault,
>)
    ensures
        result == action_referred(action, results@),
{
    match action {
        ActionRef::Plain => Ok(None),
        ActionRef::Unknown => Err(Fault::Op(OpFault::RefShape)),
        ActionRef::NotIndex => Err(Fault::Op(OpFault::RefIndex)),
        ActionRef::Op(n) => {
            if n < results.len() as u64 {
                match results[n as usize].action_id() {
                    Some(id) => {
                        return Ok(Some(id));
                    },
                    None => {},
                }
            }
            Err(Fault::Op(OpFault::RefTarget { op: n }))
        },
    }
}

/// Whether the keyframes of a raw edit were smoothed so. None where they stay
/// as they are.
pub open spec fn smoothing_done<H: RemoteHost>(
    host: &H,
    smooth: SmoothParam,
    result: Result<Option<Seq<KeyframeDoc>>, Fault>,
) -> bool {
    match smooth {
        SmoothParam::Off => result == Ok::<Option<Seq<KeyframeDoc>>, Fault>(None),
        SmoothParam::NotBool => result == Err::<Option<Seq<KeyframeDoc>>, Fault>(
            Fault::Op(OpFault::SmoothNotBool),
        ),
        SmoothParam::NoKeyframes => result == Err::<Option<Seq<KeyframeDoc>>, Fault>(
            Fault::Op(OpFault::SmoothNeedsKeyframes),
        ),
        SmoothParam::Unreadable(reason) => result == Err::<Option<Seq<KeyframeDoc>>, Fault>(
            Fault::Op(OpFault::Unreadable { reason }),
        ),
        SmoothParam::On(docs) => match result {
            Ok(smoothed) => smoothed matches Some(list) && is_smoothed(host, docs@, Ok(list)),
            Err(fault) => is_smoothed(host, docs@, Err(fault)),
        },
    }
}

/// The list of a result.
pub open spec fn smoothed_view(result: Result<Option<Vec<KeyframeDoc>>, Fault>) -> Result<
    Option<Seq<KeyframeDoc>>,
    Fault,
> {
    match result {
        Ok(Some(docs)) => Ok(Some(docs@)),
        Ok(None) => Ok(None),
        Err(fault) => Err(fault),
    }
}

/// Smooths the keyframes of a raw edit.
fn apply_smooth<H: RemoteHost>(host: &H, smooth: SmoothParam) -> (result: Result<
    Option<Vec<KeyframeDoc>>,
    Fault,
>)
    ensures
        smoothing_done(host, smooth, smoothed_view(result)),
{
    match smooth {
        SmoothParam::Off => Ok(None),
        SmoothParam::NotBool => Err(Fault::Op(OpFault::SmoothNotBool)),
        SmoothParam::NoKeyframes => Err(Fault::Op(OpFault::SmoothNeedsKeyframes)),
        SmoothParam::Unreadable(reason) => Err(Fault::Op(OpFault::Unreadable { reason })),
        SmoothParam::On(docs) => match smooth_keyframes(host, docs) {
            Ok(docs) => Ok(Some(docs)),
            Err(fault) => Err(fault),
        },
    }
}

/// Whether the entity of a raw edit was found so. None where it is not named.
pub open spec fn naming_done<H: RemoteHost>(
    host: &H,
    name: NameParam,
    result: Result<Option<u64>, Fault>,
) -> bool {
    match name {
        NameParam::Absent => result == Ok::<Option<u64>, Fault>(None),
        NameParam::Both => result == Err::<Option<u64>, Fault>(
            Fault::Subject(SubjectFault::Exclusive),
        ),
        NameParam::NotText => result == Err::<Option<u64>, Fault>(
            Fault::Subject(SubjectFault::NameNotText),
        ),
        NameParam::Name(name) => match result {
            Ok(bits) => bits matches Some(entity) && name_resolved(host, name, Ok(entity)),
            Err(fault) => name_resolved(host, name, Err(fault)),
        },
    }
}

/// Finds the entity of a raw edit.
fn resolve_entity_name_in_op<H: RemoteHost>(host: &H, name: &NameParam) -> (result: Result<
    Option<u64>,
    Fault,
>)
    ensures
        naming_done(host, *name, result),
{
    match name {
        NameParam::Absent => Ok(None),
        NameParam::Both => Err(Fault::Subject(SubjectFault::Exclusive)),
        NameParam::NotText => Err(Fault::Subject(SubjectFault::NameNotText)),
        NameParam::Name(name) => match resolve_name(host, name) {
            Ok(bits) => Ok(Some(bits)),
            Err(fault) => Err(fault),
        },
    }
}

/// Whether an edit was completed from its draft and what was resolved.
pub open spec fn is_completed(
    draft: EditOp,
    action: Option<u64>,
    docs: Option<Seq<KeyframeDoc>>,
    entity: Option<u64>,
    smoothed: EditOp,
    op: EditOp,
) -> bool {
    let referred = match action {
        Some(id) => with_action(draft, id),
        None => draft,
    };
    &&& match docs {
        Some(docs) => has_keyframes(referred, docs, smoothed),
        None => smoothed == referred,
    }
    &&& match entity {
        Some(entity) => has_entity(smoothed, entity, op),
        None => op == smoothed,
    }
}

/// Whether an edit can be part of a batch.
pub open spec fn is_batchable(op: EditOp) -> bool {
    !(op is Clear) && !(op is Unrestorable)
}

/// Whether a raw edit was prepared so, by way of what was resolved.
pub open spec fn preparing<H: RemoteHost>(
    host: &H,
    raw: RawOp,
    results: Seq<OpResult>,
    smoothing: Result<Option<Seq<KeyframeDoc>>, Fault>,
    naming: Result<Option<u64>, Fault>,
    smoothed: EditOp,
    result: Result<EditOp, Fault>,
) -> bool {
    match action_referred(raw.action, results) {
        Err(fault) => result == Err::<EditOp, Fault>(fault),
        Ok(action) => {
            &&& smoothing_done(host, raw.smooth, smoothing)
            &&& match smoothing {
                Err(fault) => result == Err::<EditOp, Fault>(fault),
                Ok(docs) => {
                    &&& naming_done(host, raw.name, naming)
                    &&& match naming {
                        Err(fault) => result == Err::<EditOp, Fault>(fault),
                        Ok(entity) => match raw.draft {
                            Err(reason) => result == Err::<EditOp, Fault>(
                                Fault::Op(OpFault::Unreadable { reason }),
                            ),
                            Ok(draft) => if !is_batchable(draft) {
                                result == Err::<EditOp, Fault>(Fault::Op(OpFault::NotBatchable))
                            } else {
                                result matches Ok(op) && is_completed(
                                    draft,
                                    action,
                                    docs,
                                    entity,
                                    smoothed,
                                    op,
                                )
                            },
                        },
                    }
                },
            }
        },
    }
}

/// Whether a raw edit was prepared so, given what those before it came to.
pub open spec fn op_prepared<H: RemoteHost>(
    host: &H,
    raw: RawOp,
    results: Seq<OpResult>,
    result: Result<EditOp, Fault>,
) -> bool {
    exists|
        smoothing: Result<Option<Seq<KeyframeDoc>>, Fault>,
        naming: Result<Option<u64>, Fault>,
        smoothed: EditOp,
    | #[trigger]
        preparing(host, raw, results, smoothing, naming, smoothed, result)
}

/// The edit with another action.
fn set_action(op: EditOp, id: u64) -> (changed: EditOp)
    ensures
        changed == with_action(op, id),
{
    match op {
        EditOp::Remove { track, .. } => EditOp::Remove { track, action_id: id },
        EditOp::Move { track, start_at, duration, .. } => EditOp::Move {
            track,
            action_id: id,
            start_at,
            duration,
        },
        EditOp::Update { patch, .. } => EditOp::Update { action_id: id, patch },
        other => other,
    }
}

/// A copy of a placement on another entity.
fn placed_on(at: &Placement, entity: u64) -> (placed: Placement)
    ensures
        placed == (Placement { entity, ..*at }),
{
    Placement {
        track: at.track,
        entity,
        component: at.component.clone(),
        field: at.field.clone(),
        asset_of: copy_text(&at.asset_of),
        duration: at.duration,
        start_at: at.start_at,
        ease: match &at.ease {
            Some(ease) => Some(ease.copy()),
            None => None,
        },
        label: copy_text(&at.label),
        color: at.color,
        enabled: at.enabled,
    }
}

/// The edit with another entity.
fn set_entity(op: EditOp, entity: u64) -> (changed: EditOp)
    ensures
        has_entity(op, entity, changed),
{
    match op {
        EditOp::Insert { at, to, to_relative, exact, restore_id } => EditOp::Insert {
            at: Arc::new(placed_on(&at, entity)),
            to,
            to_relative,
            exact,
            restore_id,
        },
        EditOp::InsertKeyframes { at, keyframes, exact, restore_id } => EditOp::InsertKeyframes {
            at: Arc::new(placed_on(&at, entity)),
            keyframes,
            exact,
            restore_id,
        },
        other => other,
    }
}

/// The edit with other keyframes.
fn set_keyframes(op: EditOp, docs: Vec<KeyframeDoc>) -> (changed: EditOp)
    ensures
        has_keyframes(op, docs@, changed),
{
    match op {
        EditOp::InsertKeyframes { at, exact, restore_id, .. } => EditOp::InsertKeyframes {
            at,
            keyframes: Arc::new(docs),
            exact,
            restore_id,
        },
        EditOp::Update { action_id, patch } => EditOp::Update {
            action_id,
            patch: Arc::new(
                UpdatePatch {
                    to: match &patch.to {
                        Some(to) => Some(to.clone()),
                        None => None,
                    },
                    to_relative: patch.to_relative,
                    ease: match &patch.ease {
                        Some(ease) => Some(ease.copy()),
                        None => None,
                    },
                    keyframes: Some(Arc::new(docs)),
                    label: match &patch.label {
                        Some(label) => Some(copy_text(label)),
                        None => None,
                    },
                    color: patch.color,
                    enabled: patch.enabled,
                },
            ),
        },
        other => other,
    }
}

/// Prepares a raw edit, given what those before it came to.
pub fn prepare_op<H: RemoteHost>(host: &H, raw: RawOp, results: &Vec<OpResult>) -> (result: Result<
    EditOp,
    Fault,
>)
    ensures
        op_prepared(host, raw, results@, result),
{
    let ghost given = raw;
    let ghost no_docs: Result<Option<Seq<KeyframeDoc>>, Fault> = Ok(None);
    let ghost no_name: Result<Option<u64>, Fault> = Ok(None);
    let ghost some_op = EditOp::Clear;
    let RawOp { action, smooth, name, draft } = raw;
    let action = match resolve_op_refs(action, results) {
        Ok(action) => action,
        Err(fault) => {
            assert(preparing(host, given, results@, no_docs, no_name, some_op, Err(fault)));
            return Err(fault);
        },
    };
    let smoothing = apply_smooth(host, smooth);
    let ghost smoothed_docs = smoothed_view(smoothing);
    let docs = match smoothing {
        Ok(docs) => docs,
        Err(fault) => {
            assert(preparing(host, given, results@, smoothed_docs, no_name, some_op, Err(fault)));
            return Err(fault);
        },
    };
    let naming = resolve_entity_name_in_op(host, &name);
    let ghost named = naming;
    let entity = match naming {
        Ok(entity) => entity,
        Err(fault) => {
            assert(preparing(host, given, results@, smoothed_docs, named, some_op, Err(fault)));
            return Err(fault);
        },
    };
    let draft = match draft {
        Ok(draft) => draft,
        Err(reason) => {
            let fault = Fault::Op(OpFault::Unreadable { reason });
            assert(preparing(host, given, results@, smoothed_docs, named, some_op, Err(fault)));
            return Err(fault);
        },
    };
    match &draft {
        EditOp::Clear | EditOp::Unrestorable { .. } => {
            let fault = Fault::Op(OpFault::NotBatchable);
            assert(preparing(host, given, results@, smoothed_docs, named, some_op, Err(fault)));
            return Err(fault);
        },
        _ => {},
    }
    let referred = match action {
        Some(id) => set_action(draft, id),
        None => draft,
    };
    let smoothed = match docs {
        Some(docs) => set_keyframes(referred, docs),
        None => referred,
    };
    let ghost with_docs = smoothed;
    let op = match entity {
        Some(entity) => set_entity(smoothed, entity),
        None => smoothed,
    };
    assert(preparing(host, given, results@, smoothed_docs, named, with_docs, Ok(op)));
    Ok(op)
}

/// What a batch came to.
#[derive(Debug)]
pub struct BatchResult {
    pub version: u64,
    pub results: Vec<OpResult>,
}

/// Whether raw edits were prepared so, each given what those before it came
/// to.
pub open spec fn all_prepared<H: RemoteHost>(
    host: &H,
    raws: Seq<RawOp>,
    results: Seq<OpResult>,
    ops: Seq<EditOp>,
) -> bool {
    &&& ops.len() <= raws.len()
    &&& ops.len() == results.len()
    &&& forall|i: int|
        0 <= i < ops.len() ==> op_prepared(
            host,
            raws[i],
            results.take(i),
            Ok(#[trigger] ops[i]),
        )
}

/// Whether the first of the raw edits were prepared and applied one after
/// another.
pub open spec fn raws_run<H: RemoteHost>(
    host: &H,
    id: TimelineId,
    raws: Seq<RawOp>,
    ops: Seq<EditOp>,
    trace: Seq<StudioModel>,
    results: Seq<OpResult>,
    forward: Seq<EditOp>,
    inverses: Seq<EditOp>,
) -> bool {
    &&& all_prepared(host, raws, results, ops)
    &&& ops_run(host, id, ops, trace, results, inverses)
    &&& all_stamped(ops, results, forward)
}

/// Whether a raw edit failed, as it was prepared or as it was applied.
pub open spec fn raw_failed<H: RemoteHost>(
    host: &H,
    id: TimelineId,
    raw: RawOp,
    results: Seq<OpResult>,
    before: StudioModel,
    after: StudioModel,
    fault: Fault,
) -> bool {
    ||| op_prepared(host, raw, results, Err(fault)) && after == before
    ||| exists|op: EditOp|
        {
            &&& #[trigger] op_prepared(host, raw, results, Ok(op))
            &&& op_applied(host, id, op, before, after, Err(fault))
        }
}

/// Whether a failed batch was taken back so: every edit that was applied,
/// newest first, and the timeline is baked.
pub open spec fn taken_back<H: RemoteHost>(
    host: &H,
    id: TimelineId,
    inverses: Seq<EditOp>,
    before: StudioModel,
    after: StudioModel,
    incomplete: bool,
) -> bool {
    exists|between: StudioModel|
        {
            &&& #[trigger] all_tried(host, id, inverses.reverse(), before, between, incomplete)
            &&& baked(host, id, between, after)
        }
}

/// Whether a batch had that outcome, by way of its edits and the studio in
/// which the last one ended.
pub open spec fn batch_stepped<H: RemoteHost>(
    host: &H,
    id: TimelineId,
    raws: Seq<RawOp>,
    before: StudioModel,
    ops: Seq<EditOp>,
    trace: Seq<StudioModel>,
    results: Seq<OpResult>,
    forward: Seq<EditOp>,
    inverses: Seq<EditOp>,
    failed: StudioModel,
    after: StudioModel,
    result: Result<(u64, Seq<OpResult>), Fault>,
) -> bool {
    &&& raws_run(host, id, raws, ops, trace, results, forward, inverses)
    &&& trace.first() == before
    &&& match result {
        Ok((version, told)) => {
            &&& ops.len() == raws.len()
            &&& told == results
            &&& edit_finished(
                host,
                id,
                forward,
                inverses.reverse(),
                trace.last(),
                after,
                version,
            )
        },
        Err(fault) => {
            &&& fault matches Fault::At { attempt, index, cause, rollback_incomplete }
            &&& attempt == Attempt::Batch
            &&& index == ops.len()
            &&& index < raws.len()
            &&& raw_failed(host, id, raws[index as int], results, trace.last(), failed, *cause)
            &&& taken_back(host, id, inverses, failed, after, rollback_incomplete)
        },
    }
}

/// Whether a batch had that outcome: all of its edits were applied and are
/// kept as one entry, or one failed and those before it were taken back.
pub open spec fn batch_applied<H: RemoteHost>(
    host: &H,
    id: TimelineId,
    raws: Seq<RawOp>,
    before: StudioModel,
    after: StudioModel,
    result: Result<(u64, Seq<OpResult>), Fault>,
) -> bool {
    if raws.len() == 0 {
        &&& result == Err::<(u64, Seq<OpResult>), Fault>(Fault::Op(OpFault::OpsEmpty))
        &&& after == before
    } else {
        batch_runs(host, id, raws, before, after, result)
    }
}

/// Whether running the edits of a batch had that outcome.
pub open spec fn batch_runs<H: RemoteHost>(
    host: &H,
    id: TimelineId,
    raws: Seq<RawOp>,
    before: StudioModel,
    after: StudioModel,
    result: Result<(u64, Seq<OpResult>), Fault>,
) -> bool {
    exists|
        ops: Seq<EditOp>,
        trace: Seq<StudioModel>,
        results: Seq<OpResult>,
        forward: Seq<EditOp>,
        inverses: Seq<EditOp>,
        failed: StudioModel,
    | #[trigger]
        batch_stepped(
            host,
            id,
            raws,
            before,
            ops,
            trace,
            results,
            forward,
            inverses,
            failed,
            after,
            result,
        )
}

/// The outcome of a batch with its results as a sequence.
pub open spec fn batch_view(result: Result<BatchResult, Fault>) -> Result<
    (u64, Seq<OpResult>),
    Fault,
> {
    match result {
        Ok(outcome) => Ok((outcome.version, outcome.results@)),
        Err(fault) => Err(fault),
    }
}

/// Whether nothing is kept of a request that failed: the journal, the version,
/// the events, the markers and the name of every timeline are what they were.
pub open spec fn nothing_kept(id: TimelineId, before: StudioModel, after: StudioModel) -> bool {
    only_content(id, before, after)
}

/// Apply several edits as one request: one re-bake, all-or-nothing (failures
/// unwind the prefix), one journal entry.
#[verifier::rlimit(30)]
pub fn timeline_batch<H: RemoteHost>(
    host: &H,
    studio: &mut Studio,
    id: u64,
    ops: Vec<RawOp>,
) -> (result: Result<BatchResult, Fault>)
    ensures
        batch_applied(
            host,
            TimelineId { raw: id },
            ops@,
            old(studio)@,
            final(studio)@,
            batch_view(result),
        ),
        result is Err ==> nothing_kept(TimelineId { raw: id }, old(studio)@, final(studio)@),
        stays_seekable(old(studio)@, final(studio)@),
{
    let ghost before = studio@;
    let ghost raws = ops@;
    let tid = TimelineId::from_raw(id);
    if ops.len() == 0 {
        return Err(Fault::Op(OpFault::OpsEmpty));
    }
    let mut rest = ops;
    let mut results: Vec<OpResult> = Vec::new();
    let mut forward: Vec<EditOp> = Vec::new();
    let mut inverses: Vec<EditOp> = Vec::new();
    let ghost mut applied_ops: Seq<EditOp> = Seq::empty();
    let ghost mut trace: Seq<StudioModel> = seq![before];
    let mut index: usize = 0;
    assert(rest@ =~= raws.skip(0));
    while rest.len() > 0
        invariant
            before == old(studio)@,
            tid == (TimelineId { raw: id }),
            raws == ops@,
            index <= raws.len(),
            rest@ == raws.skip(index as int),
            raws.len() > 0,
            raws.len() <= usize::MAX,
            applied_ops.len() == index,
            raws_run(
                host,
                tid,
                raws,
                applied_ops,
                trace,
                results@,
                forward@,
                inverses@,
            ),
            trace.first() == before,
            trace.last() == studio@,
            only_content(tid, before, studio@),
        decreases rest@.len(),
    {
        let ghost current = studio@;
        let ghost done = results@;
        let raw = rest.remove(0);
        proof {
            assert(raw == raws[index as int]);
            assert(rest@ =~= raws.skip(index + 1));
        }
        let prepared = prepare_op(host, raw, &results);
        let mut failing: Option<Fault> = None;
        match prepared {
            Err(fault) => {
                assert(raw_failed(
                    host,
                    tid,
                    raws[index as int],
                    results@,
                    current,
                    studio@,
                    fault,
                ));
                failing = Some(fault);
            },
            Ok(op) => {
                let applied = apply_op(host, studio, tid, &op);
                let ghost came_to = applied;
                proof {
                    edits_change_content_only(host, tid, op, current, studio@, came_to);
                    only_content_twice(tid, before, current, studio@);
                }
                match applied {
                    Err(fault) => {
                        assert(op_prepared(host, raws[index as int], results@, Ok(op)));
                        assert(raw_failed(
                            host,
                            tid,
                            raws[index as int],
                            results@,
                            current,
                            studio@,
                            fault,
                        ));
                        failing = Some(fault);
                    },
                    Ok((result, inverse)) => {
                        let ghost prepared_op = op;
                        let stamped = stamp_insert_id(op, &result);
                        proof {
                            one_more_kept(
                                host,
                                tid,
                                raws,
                                applied_ops,
                                trace,
                                results@,
                                forward@,
                                inverses@,
                                prepared_op,
                                studio@,
                                result,
                                stamped,
                                inverse,
                            );
                            trace = trace.push(studio@);
                            applied_ops = applied_ops.push(prepared_op);
                        }
                        forward.push(stamped);
                        results.push(result);
                        inverses.push(inverse);
                    },
                }
            },
        }
        match failing {
            Some(fault) => {
                // Unwind the applied prefix, newest first.
                let ghost failed = studio@;
                let ghost cause = fault;
                let incomplete = unwind(host, studio, tid, &inverses);
                proof {
                    only_content_twice(tid, before, failed, studio@);
                    content_stays_seekable(tid, before, studio@);
                }
                let told = Fault::At {
                    attempt: Attempt::Batch,
                    index,
                    cause: Box::new(fault),
                    rollback_incomplete: incomplete,
                };
                proof {
                    assert(raw_failed(
                        host,
                        tid,
                        raws[index as int],
                        results@,
                        current,
                        failed,
                        cause,
                    ));
                    assert(batch_stepped(
                        host,
                        tid,
                        raws,
                        before,
                        applied_ops,
                        trace,
                        results@,
                        forward@,
                        inverses@,
                        failed,
                        studio@,
                        Err(told),
                    ));
                    assert(batch_runs(host, tid, raws, before, studio@, Err(told)));
                }
                return Err(told);
            },
            None => {},
        }
        index += 1;
    }
    assert(index == raws.len());
    // Inverses must undo in reverse application order.
    let ghost last = studio@;
    proof {
        content_stays_seekable(tid, before, last);
    }
    let ghost kept = forward@;
    let backward = reverse_ops(&inverses);
    let version = finish_edit(host, studio, tid, forward, backward);
    let outcome = BatchResult { version, results };
    proof {
        assert(batch_stepped(
            host,
            tid,
            raws,
            before,
            applied_ops,
            trace,
            results@,
            kept,
            inverses@,
            last,
            studio@,
            Ok((version, results@)),
        ));
        assert(batch_runs(host, tid, raws, before, studio@, Ok((version, results@))));
    }
    Ok(outcome)
}

/// One more edit of a batch after others.
proof fn one_more_kept<H: RemoteHost>(
    host: &H,
    id: TimelineId,
    raws: Seq<RawOp>,
    ops: Seq<EditOp>,
    trace: Seq<StudioModel>,
    results: Seq<OpResult>,
    forward: Seq<EditOp>,
    inverses: Seq<EditOp>,
    op: EditOp,
    after: StudioModel,
    result: OpResult,
    stamped: EditOp,
    inverse: EditOp,
)
    requires
        raws_run(host, id, raws, ops, trace, results, forward, inverses),
        ops.len() < raws.len(),
        op_prepared(host, raws[ops.len() as int], results, Ok(op)),
        op_applied(host, id, op, trace.last(), after, Ok((result, inverse))),
        is_stamped(op, result, stamped),
    ensures
        raws_run(
            host,
            id,
            raws,
            ops.push(op),
            trace.push(after),
            results.push(result),
            forward.push(stamped),
            inverses.push(inverse),
        ),
{
    one_more_run(host, id, ops, trace, results, inverses, op, after, result, inverse);
    let more = ops.push(op);
    let told = results.push(result);
    assert forall|i: int| 0 <= i < more.len() implies op_prepared(
        host,
        raws[i],
        told.take(i),
        Ok(#[trigger] more[i]),
    ) by {
        assert(told.take(i) =~= results.take(i));
        if i < ops.len() {
            assert(more[i] == ops[i]);
        } else {
            assert(results.take(i) =~= results);
        }
    }
    assert forall|i: int| 0 <= i < more.len() implies is_stamped(
        #[trigger] more[i],
        told[i],
        forward.push(stamped)[i],
    ) by {
        if i < ops.len() {
            assert(more[i] == ops[i]);
        }
    }
}

/// Takes the edits of a failed batch back, newest first, and bakes. Returns
/// whether one could not be taken back.
fn unwind<H: RemoteHost>(
    host: &H,
    studio: &mut Studio,
    id: TimelineId,
    inverses: &Vec<EditOp>,
) -> (incomplete: bool)
    ensures
        taken_back(host, id, inverses@, old(studio)@, final(studio)@, incomplete),
        only_content(id, old(studio)@, final(studio)@),
{
    let ghost before = studio@;
    let backward = reverse_ops(inverses);
    let incomplete = try_all(host, studio, id, &backward);
    let ghost between = studio@;
    studio.bake(host, &id);
    proof {
        assert(all_tried(host, id, inverses@.reverse(), before, between, incomplete));
        crate::bevy_motiongfx::remote::batch::apply::baking_is_content(
            host,
            id,
            between,
            studio@,
        );
        only_content_twice(id, before, between, studio@);
    }
    incomplete
}

} // verus!
