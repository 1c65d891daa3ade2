//! What building a timeline adds and takes away.
use crate::action::{Action, ActionBuilder, ActionId, ActionKey, InterpFn};
use crate::pipeline::PipelineKey;
use crate::subject::{Subject, UntypedField};
use crate::timeline::builder::{acted, compiled, BuilderModel};
use vstd::prelude::*;

verus! {

/// An action that was added is there with what was asked for, and no more: its function and
/// its interpolation, without an ease, without keyframes and not muted. It is of the
/// subject, under the bits that it has. The pipeline of its field has one more action,
/// and no other one has.
pub proof fn added_actions_are_as_asked(
    before: BuilderModel,
    after: BuilderModel,
    world: u64,
    subject: Subject,
    field: UntypedField,
    action: Action,
    interp: Option<InterpFn>,
    builder: ActionBuilder,
    other: ActionId,
    pipeline: PipelineKey,
)
    requires
        acted(before, after, world, subject, field, action, interp, builder),
    ensures
        ({
            let record = after.actions.actions[builder.id];
            let own = PipelineKey {
                world_id: world,
                subject_id: subject.type_id,
                source_id: field.source_id,
                target_id: field.target_id,
            };
            &&& after.actions.has(builder.id)
            &&& record.action == action
            &&& record.interp == interp
            &&& record.ease is None && record.keyframes is None && record.segment is None
            &&& !record.disabled
            &&& record.key.field == field
            &&& record.target_type == field.target_id
            &&& after.actions.known.contains_key(
                (record.key.subject_id.type_id, record.key.subject_id.uid),
            )
            &&& after.actions.known[(record.key.subject_id.type_id, record.key.subject_id.uid)]
                == subject.bits
            &&& other != builder.id ==> after.actions.has(other) == before.actions.has(other)
                && after.actions.actions[other] == before.actions.actions[other]
            &&& after.counts.contains_key(own)
            &&& !before.counts.contains_key(own) ==> after.counts[own] == 1
            &&& before.counts.contains_key(own) && before.counts[own] < u32::MAX
                ==> after.counts[own] == before.counts[own] + 1
            &&& pipeline != own ==> after.counts.contains_key(pipeline)
                == before.counts.contains_key(pipeline) && after.counts[pipeline]
                == before.counts[pipeline]
            &&& after.tracks == before.tracks
        }),
{
}

/// A timeline starts with what was built, at the start of its first track, and with nothing
/// to sample.
pub proof fn timelines_start_at_the_start(model: BuilderModel)
    ensures
        compiled(model).tracks == model.tracks,
        compiled(model).actions == model.actions,
        compiled(model).counts == model.counts,
        compiled(model).curr_time == 0 && compiled(model).target_time == 0,
        compiled(model).curr_index == 0 && compiled(model).target_index == 0,
        forall|key: ActionKey| !compiled(model).queue.contains_key(key),
{
}

} // verus!
