//! What the world of actions keeps when actions come and go.
use crate::action::subjects::{claiming_keeps_known, releasing_keeps_known, slot_of};
use crate::action::world::{released, ActionModel};
use crate::action::ActionId;
use crate::remote::action_added;
use crate::subject::{Subject, UntypedField};
use vstd::prelude::*;

verus! {

/// The subject of the sequence of an action.
pub open spec fn subject_animated(model: ActionModel, id: ActionId) -> Subject {
    let slot = slot_of(model.actions[id].key);
    Subject { type_id: slot.0, bits: model.known[slot] }
}

/// Adding an action keeps what is known of subjects in order.
pub proof fn adding_stays_coherent(
    before: ActionModel,
    after: ActionModel,
    id: ActionId,
    subject: Subject,
    field: UntypedField,
)
    requires
        before.coherent(),
        action_added(before, after, id, subject, field),
    ensures
        after.coherent(),
{
    let uid = after.actions[id].key.subject_id.uid;
    claiming_keeps_known(before.subjects, before.known, subject, uid);
}

/// An action that is added where one was removed, on the same field of the same
/// subject, belongs to the sequence that the other one belonged to, also if that
/// was the last action of the subject. The baseline of the field is the one that it
/// had, and it is not restored while the action is there.
pub proof fn adding_again_keeps_baseline(
    before: ActionModel,
    between: ActionModel,
    after: ActionModel,
    id: ActionId,
    again: ActionId,
)
    requires
        before.coherent(),
        before.has(id),
        before.known.contains_key(slot_of(before.actions[id].key)),
        between == (ActionModel {
            actions: before.actions.remove(id),
            subjects: released(before.subjects, slot_of(before.actions[id].key)),
            ..before
        }),
        action_added(
            between,
            after,
            again,
            subject_animated(before, id),
            before.actions[id].key.field,
        ),
    ensures
        after.actions[again].key == before.actions[id].key,
        after.baselines == before.baselines,
        after.known == before.known,
        !after.emptied(before.actions[id].key),
        after.coherent(),
{
    let key = before.actions[id].key;
    let subject = subject_animated(before, id);
    let own = after.actions[again].key;
    releasing_keeps_known(before.subjects, before.known, slot_of(key));
    adding_stays_coherent(between, after, again, subject, key.field);
    if !before.known.contains_key(slot_of(own)) {
        assert(between.known.contains_key((subject.type_id, key.subject_id.uid)));
    }
    assert(slot_of(own) == slot_of(key));
    assert(after.known =~= before.known);
    assert(after.actions.contains_key(again));
}

} // verus!
