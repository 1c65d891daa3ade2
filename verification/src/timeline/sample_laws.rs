//! What sampling a timeline writes.
use crate::action::{ActionId, ActionKey};
use crate::pipeline::sample_laws::{
    is_written, sampled_for, sampling_writes_what_is_marked, serves, writes_baseline_of,
};
use crate::pipeline::{PipelineKey, PipelineUntyped, Write};
use crate::subject::UntypedField;
use crate::timeline::play::{pipeline_in_use, pipelines_sampled};
use crate::timeline::TimelineModel;
use crate::world::SubjectSource;
use vstd::prelude::*;

verus! {

/// What one of several parts holds, all of them together hold.
proof fn parts_are_held(parts: Seq<Seq<Write>>, i: int, k: int)
    requires
        0 <= i < parts.len(),
        0 <= k < parts[i].len(),
    ensures
        parts.flatten().contains(parts[i][k]),
    decreases parts.len(),
{
    let rest = parts.drop_first();
    let all = parts.flatten();
    assert(all == parts.first() + rest.flatten());
    if i == 0 {
        assert(all[k] == parts[0][k]);
    } else {
        assert(rest[i - 1] == parts[i]);
        parts_are_held(rest, i - 1, k);
        let j = choose|j: int| 0 <= j < rest.flatten().len() && rest.flatten()[j] == parts[i][k];
        assert(all[parts.first().len() + j] == parts[i][k]);
    }
}

/// What several parts hold together, one of them holds.
proof fn held_is_of_a_part(parts: Seq<Seq<Write>>, j: int) -> (i: int)
    requires
        0 <= j < parts.flatten().len(),
    ensures
        0 <= i < parts.len(),
        parts[i].contains(parts.flatten()[j]),
    decreases parts.len(),
{
    let rest = parts.drop_first();
    let all = parts.flatten();
    if parts.len() == 0 {
        assert(all.len() == 0);
        0
    } else {
        assert(all == parts.first() + rest.flatten());
        if j < parts.first().len() {
            assert(parts[0][j] == all[j]);
            0
        } else {
            let k = held_is_of_a_part(rest, j - parts.first().len());
            assert(rest[k] == parts[k + 1]);
            assert(rest.flatten()[j - parts.first().len()] == all[j]);
            k + 1
        }
    }
}

/// Sampling a timeline writes what its marked actions give to their fields, and the baselines
/// of the fields whose actions are gone, and nothing else. Every action that is marked,
/// baked and can be written is among them, where its pipeline is counted and declared.
pub proof fn timelines_write_what_is_marked<H: SubjectSource>(
    source: &H,
    pipelines: Map<PipelineKey, PipelineUntyped>,
    fields: Set<UntypedField>,
    model: TimelineModel,
    world: u64,
    order: Seq<PipelineKey>,
    parts: Seq<Seq<Write>>,
    writes: Seq<Write>,
    id: ActionId,
    pipeline: PipelineKey,
)
    requires
        pipelines_sampled(source, pipelines, fields, model.actions, order, parts),
        forall|key: PipelineKey| order.contains(key) <==> pipeline_in_use(model, world, key),
        writes == parts.flatten(),
    ensures
        forall|j: int|
            0 <= j < writes.len() ==> is_written(source, model.actions, #[trigger] writes[j]),
        ({
            let record = model.actions.actions[id];
            let slot = (record.key.subject_id.type_id, record.key.subject_id.uid);
            &&& model.counts.contains_key(pipeline) && pipelines.contains_key(pipeline)
                && pipelines[pipeline].key == pipeline && model.actions.has(id) && serves(
                pipeline,
                fields,
                record.key,
            ) && record.target_type == pipeline.target_id && record.mark is Some
                && record.segment is Some && record.interp is Some
                && model.actions.subjects.contains_key(slot) ==> exists|j: int|
                0 <= j < writes.len() && sampled_for(
                    source,
                    model.actions,
                    id,
                    #[trigger] writes[j],
                )
        }),
{
    assert forall|j: int| 0 <= j < writes.len() implies is_written(
        source,
        model.actions,
        #[trigger] writes[j],
    ) by {
        let i = held_is_of_a_part(parts, j);
        let k = choose|k: int| 0 <= k < parts[i].len() && parts[i][k] == writes[j];
        assert(pipelines.contains_key(order[i]));
        sampling_writes_what_is_marked(
            source,
            pipelines[order[i]].key,
            fields,
            model.actions,
            parts[i],
        );
    }
    let record = model.actions.actions[id];
    let slot = (record.key.subject_id.type_id, record.key.subject_id.uid);
    if model.counts.contains_key(pipeline) && pipelines.contains_key(pipeline)
        && pipelines[pipeline].key == pipeline && model.actions.has(id) && serves(
        pipeline,
        fields,
        record.key,
    ) && record.target_type == pipeline.target_id && record.mark is Some && record.segment is Some
        && record.interp is Some && model.actions.subjects.contains_key(slot) {
        assert(pipeline_in_use(model, world, pipeline));
        assert(order.contains(pipeline));
        let i = choose|i: int| 0 <= i < order.len() && order[i] == pipeline;
        assert(pipelines.contains_key(order[i]));
        sampling_writes_what_is_marked(source, pipeline, fields, model.actions, parts[i]);
        let k = choose|k: int|
            0 <= k < parts[i].len() && sampled_for(
                source,
                model.actions,
                id,
                #[trigger] parts[i][k],
            );
        parts_are_held(parts, i, k);
        let j = choose|j: int| 0 <= j < writes.len() && writes[j] == parts[i][k];
        assert(sampled_for(source, model.actions, id, writes[j]));
    }
}

/// A field that was animated and whose actions are gone gets its baseline back, where its
/// pipeline is declared.
pub proof fn timelines_restore_what_is_gone<H: SubjectSource>(
    source: &H,
    pipelines: Map<PipelineKey, PipelineUntyped>,
    fields: Set<UntypedField>,
    model: TimelineModel,
    world: u64,
    order: Seq<PipelineKey>,
    parts: Seq<Seq<Write>>,
    writes: Seq<Write>,
    gone: ActionKey,
)
    requires
        pipelines_sampled(source, pipelines, fields, model.actions, order, parts),
        forall|key: PipelineKey| order.contains(key) <==> pipeline_in_use(model, world, key),
        writes == parts.flatten(),
        model.actions.baselines.contains_key(gone),
        forall|id: ActionId| #[trigger]
            model.actions.has(id) ==> model.actions.actions[id].key != gone,
        fields.contains(gone.field),
        model.actions.baselines[gone].type_id == gone.field.target_id,
        pipelines.contains_key(PipelineKey::of_action_key(world, gone)),
        pipelines[PipelineKey::of_action_key(world, gone)].key == PipelineKey::of_action_key(
            world,
            gone,
        ),
    ensures
        exists|j: int|
            0 <= j < writes.len() && writes_baseline_of(model.actions, gone, #[trigger] writes[j]),
{
    let pipeline = PipelineKey::of_action_key(world, gone);
    assert(!model.actions.in_use(gone)) by {
        if model.actions.in_use(gone) {
            let id = choose|id: ActionId| #[trigger]
                model.actions.actions.contains_key(id) && model.actions.actions[id].key == gone;
            assert(model.actions.has(id));
        }
    }
    assert(model.actions.emptied(gone));
    assert(pipeline_in_use(model, world, pipeline));
    assert(order.contains(pipeline));
    let i = choose|i: int| 0 <= i < order.len() && order[i] == pipeline;
    assert(pipelines.contains_key(order[i]));
    sampling_writes_what_is_marked(source, pipeline, fields, model.actions, parts[i]);
    assert(model.actions.baselines.contains_key(gone));
    let k = choose|k: int|
        0 <= k < parts[i].len() && writes_baseline_of(
            model.actions,
            gone,
            #[trigger] parts[i][k],
        );
    parts_are_held(parts, i, k);
    let j = choose|j: int| 0 <= j < writes.len() && writes[j] == parts[i][k];
    assert(writes_baseline_of(model.actions, gone, writes[j]));
}

} // verus!
