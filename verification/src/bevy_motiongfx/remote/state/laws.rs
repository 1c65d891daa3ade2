//! What is kept about edits.
use crate::bevy_motiongfx::remote::batch::history::{kept_step, renaming, renamings};
use crate::bevy_motiongfx::remote::batch::op::{is_stamped, remapped, EditOp, OpResult};
use crate::bevy_motiongfx::remote::state::events::{EventKind, EventsModel, EVENT_CAP};
use crate::bevy_motiongfx::remote::state::journal::{EntryModel, JournalModel, JOURNAL_CAP};
use crate::bevy_motiongfx::remote::state::{remapped_entry, remapped_journal, ClipMeta, EditsModel};
use crate::bevy_motiongfx::remote::state::journal::kinds_of;
use vstd::prelude::*;

verus! {

/// A journal keeps the latest edits in their order: behind a new one stand the ones that
/// were there, the latest first, as many as are kept.
pub proof fn journals_keep_the_latest_in_order(journal: JournalModel, entry: EntryModel, k: int)
    requires
        journal.size() <= JOURNAL_CAP,
    ensures
        ({
            let after = journal.recorded(entry).undo;
            let (n, m) = (after.len() as int, journal.undo.len() as int);
            &&& n == if m < JOURNAL_CAP {
                m + 1
            } else {
                JOURNAL_CAP as int
            }
            &&& after[n - 1] == entry
            &&& 1 <= k < n ==> after[n - 1 - k] == journal.undo[m - k]
            &&& journal.recorded(entry).redo.len() == 0
        }),
{
}

/// What is undone or redone next is what was done or undone last, and the other stack is
/// left alone.
pub proof fn journals_step_through_the_latest(journal: JournalModel, redo: bool, entry: EntryModel)
    requires
        journal.undo.len() > 0,
        journal.redo.len() > 0,
    ensures
        journal.popped(false).undo == journal.undo.take(journal.undo.len() - 1),
        journal.popped(false).redo == journal.redo,
        journal.popped(true).redo == journal.redo.take(journal.redo.len() - 1),
        journal.popped(true).undo == journal.undo,
        journal.stack(false) == journal.undo,
        journal.stack(true) == journal.redo,
        journal.stepped(false, entry).redo == journal.redo.push(entry),
        journal.stepped(false, entry).undo == journal.undo,
        journal.stepped(true, entry).undo == journal.undo.push(entry),
        journal.stepped(true, entry).redo == journal.redo,
{
    assert(journal.undo.drop_last() =~= journal.undo.take(journal.undo.len() - 1));
    assert(journal.redo.drop_last() =~= journal.redo.take(journal.redo.len() - 1));
}

/// The action that an edit is about, if it is about one that was there.
pub open spec fn about(op: EditOp) -> Option<u64> {
    match op {
        EditOp::Remove { action_id, .. } => Some(action_id),
        EditOp::Move { action_id, .. } => Some(action_id),
        EditOp::Update { action_id, .. } => Some(action_id),
        EditOp::Insert { restore_id, .. } => restore_id,
        EditOp::InsertKeyframes { restore_id, .. } => restore_id,
        _ => None,
    }
}

/// Renaming an action in an edit makes the edit be about the action by its new name, and
/// changes nothing else of it: naming it back gives the edit that there was. An edit
/// about another action stays as it is.
pub proof fn renaming_changes_the_name_alone(op: EditOp, from: u64, to: u64)
    ensures
        about(op) == Some(from) ==> about(remapped(op, from, to)) == Some(to),
        about(op) == Some(from) ==> remapped(remapped(op, from, to), to, from) == op,
        about(op) != Some(from) ==> remapped(op, from, to) == op,
{
}

/// Renaming an action in a journal renames it in every entry of both stacks, in both
/// directions, and neither adds nor drops nor reorders entries.
pub proof fn renaming_reaches_every_entry(
    journal: JournalModel,
    from: u64,
    to: u64,
    i: int,
    j: int,
)
    ensures
        ({
            let after = journal.remapped(from, to);
            &&& after.undo.len() == journal.undo.len()
            &&& after.redo.len() == journal.redo.len()
            &&& 0 <= i < journal.undo.len() ==> {
                &&& after.undo[i].forward.len() == journal.undo[i].forward.len()
                &&& after.undo[i].inverse.len() == journal.undo[i].inverse.len()
                &&& 0 <= j < journal.undo[i].forward.len() ==> after.undo[i].forward[j] == remapped(
                    journal.undo[i].forward[j],
                    from,
                    to,
                )
                &&& 0 <= j < journal.undo[i].inverse.len() ==> after.undo[i].inverse[j] == remapped(
                    journal.undo[i].inverse[j],
                    from,
                    to,
                )
            }
            &&& 0 <= i < journal.redo.len() ==> {
                &&& after.redo[i].forward.len() == journal.redo[i].forward.len()
                &&& after.redo[i].inverse.len() == journal.redo[i].inverse.len()
                &&& 0 <= j < journal.redo[i].forward.len() ==> after.redo[i].forward[j] == remapped(
                    journal.redo[i].forward[j],
                    from,
                    to,
                )
                &&& 0 <= j < journal.redo[i].inverse.len() ==> after.redo[i].inverse[j] == remapped(
                    journal.redo[i].inverse[j],
                    from,
                    to,
                )
            }
        }),
{
}

/// An action that an edit created again under another id is renamed to that, and one that
/// kept its id, or that was not created again, is not.
pub proof fn recreated_actions_are_renamed(op: EditOp, result: OpResult, from: u64, to: u64)
    ensures
        renaming(op, result) == Some((from, to)) <==> {
            &&& op is Insert || op is InsertKeyframes
            &&& about(op) == Some(from)
            &&& result matches OpResult::Action { action_id, .. } && action_id == to
            &&& from != to
        },
{
}

/// Every action that was created again under another id is among the renamings.
pub proof fn every_recreated_action_is_renamed(
    ops: Seq<EditOp>,
    results: Seq<OpResult>,
    i: int,
    from: u64,
    to: u64,
)
    requires
        0 <= i < results.len(),
        renaming(ops[i], results[i]) == Some((from, to)),
    ensures
        renamings(ops, results).contains((from, to)),
    decreases results.len(),
{
    let n = results.len() - 1;
    let front = results.drop_last();
    if i < n {
        assert(front[i] == results[i]);
        every_recreated_action_is_renamed(ops, front, i, from, to);
        let earlier = renamings(ops, front);
        let k = choose|k: int| 0 <= k < earlier.len() && earlier[k] == (from, to);
        assert(renamings(ops, results)[k] == (from, to));
    } else {
        let all = renamings(ops, results);
        assert(all[all.len() - 1] == (from, to));
    }
}

/// The step through an entry is kept so that it can be stepped back, under the names that
/// actions have now. It moves the version and is told as what it was.
pub proof fn steps_can_be_stepped_back(
    edits: EditsModel,
    redo: bool,
    entry: EntryModel,
    remaps: Seq<(u64, u64)>,
    version: u64,
)
    requires
        edits.journal is Some,
        edits.version < u64::MAX,
    ensures
        ({
            let after = kept_step(edits, redo, entry, remaps, version);
            let journal = after.journal->0;
            let before = remapped_journal(edits.journal->0, remaps);
            &&& after.journal is Some
            &&& after.version == edits.version + 1
            &&& redo ==> journal.undo == before.undo.push(remapped_entry(entry, remaps))
                && journal.redo == before.redo
            &&& !redo ==> journal.redo == before.redo.push(remapped_entry(entry, remaps))
                && journal.undo == before.undo
            &&& after.events.events.len() > 0
            &&& redo ==> after.events.events.last().kind == (EventKind::Redo { version })
            &&& !redo ==> after.events.events.last().kind == (EventKind::Undo { version })
            &&& after.markers == edits.markers
            &&& after.name == edits.name
            &&& after.clip_meta == edits.clip_meta
            &&& after.asset_refs == edits.asset_refs
        }),
{
}

/// An edit is kept as it was applied: an insert under the id of the action that it
/// created, and a relative target as the absolute one that it came to, so that doing
/// it again does the same.
pub proof fn edits_are_kept_as_applied(
    op: EditOp,
    result: OpResult,
    stamped: EditOp,
    created: u64,
)
    requires
        is_stamped(op, result, stamped),
        result matches OpResult::Action { action_id, .. } && action_id == created,
    ensures
        op is Insert ==> stamped is Insert && about(stamped) == Some(created)
            && stamped->Insert_at == op->Insert_at && stamped->Insert_exact == op->Insert_exact,
        op is InsertKeyframes ==> stamped is InsertKeyframes && about(stamped) == Some(created)
            && stamped->InsertKeyframes_keyframes == op->InsertKeyframes_keyframes,
        op is Update ==> stamped is Update && about(stamped) == about(op),
        op is Insert && result->resolved_to is Some ==> stamped->to_relative is None
            && stamped->Insert_to == result->resolved_to->0,
        op is Insert && result->resolved_to is None ==> stamped->Insert_to == op->Insert_to,
        op is Update && result->resolved_to is Some ==> {
            let patch = *stamped->Update_patch;
            patch.to == result->resolved_to && patch.to_relative is None
        },
        op is Update && result->resolved_to is None ==> stamped == op,
        op is Remove || op is Move || op is Clear ==> stamped == op,
{
}

/// An event log keeps the latest events in their order: the new one is the last one, with
/// the next number, and in front of it stand those that were there, as many as are kept.
pub proof fn logs_keep_the_latest_in_order(log: EventsModel, kind: EventKind, k: int)
    requires
        log.without_gaps(),
        log.seq < u64::MAX,
    ensures
        ({
            let after = log.pushed(kind);
            let (n, m) = (after.events.len() as int, log.events.len() as int);
            &&& n == if m < EVENT_CAP {
                m + 1
            } else {
                EVENT_CAP as int
            }
            &&& after.events[n - 1].kind == kind
            &&& after.events[n - 1].seq == log.seq + 1
            &&& 1 <= k < n ==> after.events[n - 1 - k] == log.events[m - k]
        }),
{
}

/// What is kept about one clip is changed without what is kept about others, and what
/// belongs to a clip goes with it.
pub proof fn clips_are_kept_apart(edits: EditsModel, action: u64, meta: ClipMeta, other: u64)
    requires
        other != action,
    ensures
        edits.with_meta(action, meta).meta_of(other) == edits.meta_of(other),
        edits.without_clip(action).meta_of(other) == edits.meta_of(other),
        edits.without_clip(action).meta_of(action).label is None,
        edits.without_clip(action).meta_of(action).color is None,
        !edits.without_clip(action).asset_refs.contains_key(action),
        edits.without_clip(action).asset_refs.contains_key(other)
            == edits.asset_refs.contains_key(other),
        edits.without_clips().meta_of(other).label is None,
        edits.without_clips().markers == edits.markers,
        edits.without_clip(action).markers == edits.markers,
{
}

/// The kinds of edits are each named once, and no other is.
pub proof fn kinds_are_named_once(ops: Seq<EditOp>)
    ensures
        kinds_of(ops).no_duplicates(),
        kinds_of(ops).len() <= ops.len(),
        forall|i: int|
            0 <= i < ops.len() ==> kinds_of(ops).contains((#[trigger] ops[i]).spec_kind_label()),
        forall|k: int|
            0 <= k < kinds_of(ops).len() ==> exists|i: int|
                #![trigger ops[i]]
                0 <= i < ops.len() && ops[i].spec_kind_label() == #[trigger] kinds_of(ops)[k],
    decreases ops.len(),
{
    if ops.len() > 0 {
        let front = ops.drop_last();
        let n = front.len() as int;
        kinds_are_named_once(front);
        let had = kinds_of(front);
        let all = kinds_of(ops);
        assert(ops[n] == ops.last());
        assert forall|i: int| 0 <= i < ops.len() implies all.contains(
            (#[trigger] ops[i]).spec_kind_label(),
        ) by {
            let label = ops[i].spec_kind_label();
            if i < n {
                assert(front[i] == ops[i]);
                assert(had.contains(label));
            }
            if had.contains(label) {
                let k = choose|k: int| 0 <= k < had.len() && had[k] == label;
                assert(all[k] == label);
            } else {
                assert(all[all.len() - 1] == label);
            }
        }
        assert forall|k: int| 0 <= k < all.len() implies exists|i: int|
            #![trigger ops[i]]
            0 <= i < ops.len() && ops[i].spec_kind_label() == #[trigger] all[k] by {
            if k < had.len() {
                assert(had[k] == all[k]);
                let i = choose|i: int|
                    #![trigger front[i]]
                    0 <= i < front.len() && front[i].spec_kind_label() == had[k];
                assert(ops[i].spec_kind_label() == all[k]);
            } else {
                assert(ops[n].spec_kind_label() == all[k]);
            }
        }
    }
}

} // verus!
