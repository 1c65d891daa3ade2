//! Undoing and redoing edits.
use crate::bevy_motiongfx::manager::TimelineId;
use crate::bevy_motiongfx::remote::batch::apply::{
    apply_op, baking_is_content, content_stays_seekable, edits_change_content_only, only_content,
    only_content_twice, op_applied, stays_seekable,
};
use crate::bevy_motiongfx::remote::batch::op::{EditOp, OpResult};
use crate::bevy_motiongfx::remote::fault::{Attempt, Fault};
use crate::bevy_motiongfx::remote::host::RemoteHost;
use crate::bevy_motiongfx::remote::state::events::{next_number, EventKind};
use crate::bevy_motiongfx::remote::state::journal::{EntryModel, JournalEntry, JOURNAL_CAP};
use crate::bevy_motiongfx::remote::state::{remapped_entry, remapped_journal, EditsModel};
use crate::bevy_motiongfx::remote::studio::{baked, Studio, StudioModel};
use vstd::prelude::*;

verus! {

/// Whether an edit was applied with that result.
pub open spec fn op_succeeded<H: RemoteHost>(
    host: &H,
    id: TimelineId,
    op: EditOp,
    before: StudioModel,
    after: StudioModel,
    result: OpResult,
) -> bool {
    exists|inverse: EditOp| #[trigger]
        op_applied(host, id, op, before, after, Ok((result, inverse)))
}

/// Whether an edit failed, after which the timeline was baked.
pub open spec fn op_failed<H: RemoteHost>(
    host: &H,
    id: TimelineId,
    op: EditOp,
    before: StudioModel,
    after: StudioModel,
    fault: Fault,
) -> bool {
    exists|between: StudioModel|
        {
            &&& #[trigger] op_applied(host, id, op, before, between, Err(fault))
            &&& baked(host, id, between, after)
        }
}

/// Whether the first of the edits were applied one after another.
pub open spec fn ops_applied<H: RemoteHost>(
    host: &H,
    id: TimelineId,
    ops: Seq<EditOp>,
    trace: Seq<StudioModel>,
    results: Seq<OpResult>,
) -> bool {
    &&& results.len() <= ops.len()
    &&& trace.len() == results.len() + 1
    &&& forall|i: int|
        0 <= i < results.len() ==> op_succeeded(
            host,
            id,
            ops[i],
            trace[i],
            trace[i + 1],
            #[trigger] results[i],
        )
}

/// What an action is called after an edit created it again.
pub open spec fn renaming(op: EditOp, result: OpResult) -> Option<(u64, u64)> {
    match (op.spec_restores(), result.spec_action_id()) {
        (Some(from), Some(to)) => if from != to {
            Some((from, to))
        } else {
            None
        },
        _ => None,
    }
}

/// What actions are called after edits created them again.
pub open spec fn renamings(ops: Seq<EditOp>, results: Seq<OpResult>) -> Seq<(u64, u64)>
    decreases results.len(),
{
    if results.len() == 0 {
        Seq::empty()
    } else {
        let earlier = renamings(ops, results.drop_last());
        match renaming(ops[results.len() - 1], results.last()) {
            Some(pair) => earlier.push(pair),
            None => earlier,
        }
    }
}

/// The edits of an entry in a direction.
pub open spec fn entry_ops(entry: EntryModel, redo: bool) -> Seq<EditOp> {
    if redo {
        entry.forward
    } else {
        entry.inverse
    }
}

/// What is told about a step.
pub open spec fn step_event(redo: bool, version: u64) -> EventKind {
    if redo {
        EventKind::Redo { version }
    } else {
        EventKind::Undo { version }
    }
}

/// What is kept about a timeline after a step: the entry is where it can be
/// stepped back, everything refers to actions by what they are called now,
/// the version is the next one, and there is one more event.
pub open spec fn kept_step(
    edits: EditsModel,
    redo: bool,
    entry: EntryModel,
    remaps: Seq<(u64, u64)>,
    version: u64,
) -> EditsModel {
    EditsModel {
        journal: Some(
            remapped_journal(edits.journal->0, remaps).stepped(redo, remapped_entry(entry, remaps)),
        ),
        ..edits
    }.bumped().told(step_event(redo, version))
}

/// Whether a step was concluded so, with the timeline baked.
pub open spec fn step_concluded<H: RemoteHost>(
    host: &H,
    id: TimelineId,
    redo: bool,
    entry: EntryModel,
    remaps: Seq<(u64, u64)>,
    before: StudioModel,
    after: StudioModel,
    version: u64,
) -> bool {
    exists|between: StudioModel|
        {
            &&& #[trigger] baked(host, id, before, between)
            &&& version == next_number(between.edits_of(id).version)
            &&& after == between.with_edits(
                id,
                kept_step(between.edits_of(id), redo, entry, remaps, version),
            )
        }
}

/// The studio without the entry that is stepped through next.
pub open spec fn entry_taken(studio: StudioModel, id: TimelineId, redo: bool) -> StudioModel {
    let edits = studio.edits_of(id);
    studio.with_edits(
        id,
        EditsModel { journal: Some(edits.journal_or_empty().popped(redo)), ..edits },
    )
}

/// Whether a step had that outcome, by way of its edits.
pub open spec fn history_stepped<H: RemoteHost>(
    host: &H,
    id: TimelineId,
    redo: bool,
    entry: EntryModel,
    before: StudioModel,
    trace: Seq<StudioModel>,
    results: Seq<OpResult>,
    after: StudioModel,
    result: Result<(u64, usize), Fault>,
) -> bool {
    let ops = entry_ops(entry, redo);
    &&& ops_applied(host, id, ops, trace, results)
    &&& trace.first() == entry_taken(before, id, redo)
    &&& match result {
        Ok((version, count)) => {
            &&& results.len() == ops.len()
            &&& count == ops.len()
            &&& step_concluded(
                host,
                id,
                redo,
                entry,
                renamings(ops, results),
                trace.last(),
                after,
                version,
            )
        },
        Err(fault) => {
            &&& fault matches Fault::At { attempt, index, cause, rollback_incomplete }
            &&& attempt == step_attempt(redo)
            &&& index == results.len()
            &&& index < ops.len()
            &&& !rollback_incomplete
            &&& op_failed(host, id, ops[index as int], trace.last(), after, *cause)
        },
    }
}

/// What is attempted by a step.
pub open spec fn step_attempt(redo: bool) -> Attempt {
    if redo {
        Attempt::Redo
    } else {
        Attempt::Undo
    }
}

/// Whether undoing or redoing had that outcome: the most recent entry was
/// stepped through, or there is none. An entry whose edits fail is lost.
pub open spec fn history_applied<H: RemoteHost>(
    host: &H,
    id: TimelineId,
    redo: bool,
    before: StudioModel,
    after: StudioModel,
    result: Result<(u64, usize), Fault>,
) -> bool {
    let stack = before.edits_of(id).journal_or_empty().stack(redo);
    if stack.len() == 0 {
        &&& result == Err::<(u64, usize), Fault>(
            if redo {
                Fault::NothingToRedo
            } else {
                Fault::NothingToUndo
            },
        )
        &&& after == before
    } else {
        steps_through(host, id, redo, stack.last(), before, after, result)
    }
}

/// Whether stepping through an entry had that outcome.
pub open spec fn steps_through<H: RemoteHost>(
    host: &H,
    id: TimelineId,
    redo: bool,
    entry: EntryModel,
    before: StudioModel,
    after: StudioModel,
    result: Result<(u64, usize), Fault>,
) -> bool {
    exists|trace: Seq<StudioModel>, results: Seq<OpResult>| #[trigger]
        history_stepped(host, id, redo, entry, before, trace, results, after, result)
}

/// Applies one more edit to a trace of them.
pub proof fn one_more_applied<H: RemoteHost>(
    host: &H,
    id: TimelineId,
    ops: Seq<EditOp>,
    trace: Seq<StudioModel>,
    results: Seq<OpResult>,
    after: StudioModel,
    result: OpResult,
)
    requires
        ops_applied(host, id, ops, trace, results),
        results.len() < ops.len(),
        op_succeeded(host, id, ops[results.len() as int], trace.last(), after, result),
    ensures
        ops_applied(host, id, ops, trace.push(after), results.push(result)),
{
    let longer = trace.push(after);
    let more = results.push(result);
    assert forall|i: int| 0 <= i < more.len() implies op_succeeded(
        host,
        id,
        ops[i],
        longer[i],
        longer[i + 1],
        #[trigger] more[i],
    ) by {
        if i < results.len() {
            assert(more[i] == results[i]);
            assert(longer[i] == trace[i] && longer[i + 1] == trace[i + 1]);
        }
    }
}

/// Concludes a step: bakes, puts the entry where it can be stepped back, and
/// tells it.
fn conclude_step<H: RemoteHost>(
    host: &H,
    studio: &mut Studio,
    id: TimelineId,
    redo: bool,
    entry: JournalEntry,
    remaps: &Vec<(u64, u64)>,
) -> (version: u64)
    requires
        old(studio)@.edits_of(id).journal is Some,
        old(studio)@.edits_of(id).journal->0.size() < JOURNAL_CAP,
    ensures
        step_concluded(
            host,
            id,
            redo,
            entry@,
            remaps@,
            old(studio)@,
            final(studio)@,
            version,
        ),
        stays_seekable(old(studio)@, final(studio)@),
{
    let ghost before = studio@;
    studio.bake(host, &id);
    let ghost between = studio@;
    let ghost stepped = entry@;
    // Point every journal reference (including this entry's own
    // other-direction ops) at the recreated actions.
    studio.state.push_entry(id, redo, entry, remaps);
    let version = studio.state.bump(id);
    if redo {
        studio.state.push_event(id, EventKind::Redo { version });
    } else {
        studio.state.push_event(id, EventKind::Undo { version });
    }
    assert(studio@ =~= between.with_edits(
        id,
        kept_step(between.edits_of(id), redo, stepped, remaps@, version),
    ));
    proof {
        baking_is_content(host, id, before, between);
        content_stays_seekable(id, before, between);
        assert(studio@.timelines == between.timelines);
    }
    version
}

/// Pop an entry off one stack, re-apply one of its op lists, remap recreated
/// action ids across the whole journal, push the entry onto the other stack.
/// Returns the new version and the number of edits.
pub fn apply_history<H: RemoteHost>(
    host: &H,
    studio: &mut Studio,
    id: TimelineId,
    redo: bool,
) -> (result: Result<(u64, usize), Fault>)
    ensures
        history_applied(host, id, redo, old(studio)@, final(studio)@, result),
        stays_seekable(old(studio)@, final(studio)@),
{
    let ghost before = studio@;
    let entry = match studio.state.pop_entry(id, redo) {
        Some(entry) => entry,
        None => {
            return Err(
                if redo {
                    Fault::NothingToRedo
                } else {
                    Fault::NothingToUndo
                },
            );
        },
    };
    let ghost popped = studio@;
    assert(popped =~= entry_taken(before, id, redo));
    let ghost ops = entry_ops(entry@, redo);
    let count = if redo {
        entry.forward.len()
    } else {
        entry.inverse.len()
    };
    let mut remaps: Vec<(u64, u64)> = Vec::new();
    let ghost mut trace: Seq<StudioModel> = seq![popped];
    let ghost mut results: Seq<OpResult> = Seq::empty();
    let mut index: usize = 0;
    while index < count
        invariant
            index <= count,
            before == old(studio)@,
            before.edits_of(id).journal_or_empty().stack(redo).len() > 0,
            entry@ == before.edits_of(id).journal_or_empty().stack(redo).last(),
            popped == entry_taken(before, id, redo),
            popped.edits_of(id).journal is Some,
            popped.edits_of(id).journal->0.size() < JOURNAL_CAP,
            ops == entry_ops(entry@, redo),
            count == ops.len(),
            results.len() == index,
            ops_applied(host, id, ops, trace, results),
            trace.first() == popped,
            trace.last() == studio@,
            remaps@ == renamings(ops, results),
            only_content(id, popped, studio@),
        decreases count - index,
    {
        let ghost current = studio@;
        let op = if redo {
            &entry.forward[index]
        } else {
            &entry.inverse[index]
        };
        let applied = apply_op(host, studio, id, op);
        let ghost came_to = applied;
        proof {
            edits_change_content_only(host, id, *op, current, studio@, came_to);
            only_content_twice(id, popped, current, studio@);
        }
        match applied {
            Ok((result, inverse)) => {
                // An insert re-creates its action under a new id. Remember
                // the mapping.
                match (op.restores(), result.action_id()) {
                    (Some(from), Some(to)) => {
                        if from != to {
                            remaps.push((from, to));
                        }
                    },
                    _ => {},
                }
                proof {
                    assert(op_succeeded(host, id, ops[index as int], current, studio@, result));
                    one_more_applied(host, id, ops, trace, results, studio@, result);
                    trace = trace.push(studio@);
                    assert(results.push(result).drop_last() =~= results);
                    results = results.push(result);
                }
            },
            Err(fault) => {
                // The entry is consumed and state may be partially stepped.
                // Clients should re-inspect.
                let ghost failed = studio@;
                let ghost cause = fault;
                studio.bake(host, &id);
                proof {
                    baking_is_content(host, id, failed, studio@);
                    only_content_twice(id, popped, failed, studio@);
                    content_stays_seekable(id, popped, studio@);
                    assert(popped.timelines == before.timelines);
                }
                assert(op_applied(host, id, ops[index as int], current, failed, Err(cause)));
                assert(op_failed(host, id, ops[index as int], current, studio@, cause));
                let told = Fault::At {
                    attempt: if redo {
                        Attempt::Redo
                    } else {
                        Attempt::Undo
                    },
                    index,
                    cause: Box::new(fault),
                    rollback_incomplete: false,
                };
                assert(history_stepped(
                    host,
                    id,
                    redo,
                    entry@,
                    before,
                    trace,
                    results,
                    studio@,
                    Err(told),
                ));
                assert(steps_through(host, id, redo, entry@, before, studio@, Err(told)));
                return Err(told);
            },
        }
        index += 1;
    }
    let ghost stepped = entry@;
    proof {
        content_stays_seekable(id, popped, studio@);
        assert(popped.timelines == before.timelines);
    }
    let version = conclude_step(host, studio, id, redo, entry, &remaps);
    assert(history_stepped(
        host,
        id,
        redo,
        stepped,
        before,
        trace,
        results,
        studio@,
        Ok((version, count)),
    ));
    assert(steps_through(host, id, redo, stepped, before, studio@, Ok((version, count))));
    Ok((version, count))
}

/// Revert the most recent edit (a batch or import is one step). Undoing a
/// remove re-creates the action under a new id, so inspect again after undo.
/// Returns the new version and how many edits were undone.
pub fn timeline_undo<H: RemoteHost>(host: &H, studio: &mut Studio, id: u64) -> (result: Result<
    (u64, usize),
    Fault,
>)
    ensures
        history_applied(
            host,
            TimelineId { raw: id },
            false,
            old(studio)@,
            final(studio)@,
            result,
        ),
        stays_seekable(old(studio)@, final(studio)@),
{
    apply_history(host, studio, TimelineId::from_raw(id), false)
}

/// Re-apply the most recently undone edit. Returns the new version and how
/// many edits were redone.
pub fn timeline_redo<H: RemoteHost>(host: &H, studio: &mut Studio, id: u64) -> (result: Result<
    (u64, usize),
    Fault,
>)
    ensures
        history_applied(
            host,
            TimelineId { raw: id },
            true,
            old(studio)@,
            final(studio)@,
            result,
        ),
        stays_seekable(old(studio)@, final(studio)@),
{
    apply_history(host, studio, TimelineId::from_raw(id), true)
}

} // verus!
