//! What the clips of a lane run between once they are baked.
use crate::action::world::ActionModel;
use crate::action::{Action, ActionClip, ActionKey, Value};
use crate::pipeline::bake_laws::{baselines_typed, clip_rests, finds_all, rest_at};
use crate::pipeline::{
    clip_baked, clips_baked, lane_baked, only_baked, sequence_baked, subject_of, with_baseline,
    PipelineKey,
};
use crate::registry::Registry;
use crate::subject::{Subject, UntypedField};
use crate::timeline::bake_laws::{lanes_differ, served, timelines_settle};
use crate::timeline::play::timeline_baked;
use crate::timeline::TimelineModel;
use crate::world::SubjectSource;
use vstd::prelude::*;

verus! {

/// Where the clip at `i` of a baked lane starts from: the first one from the baseline,
/// every other one from where the clip in front of it ends.
pub open spec fn runs_on_from(
    actions: ActionModel,
    clips: Seq<ActionClip>,
    baseline: Value,
    i: int,
) -> Value {
    if i == 0 {
        baseline
    } else {
        actions.actions[clips[i - 1].id].segment->0.end
    }
}

/// Whether the clip at `i` of a lane is baked: it starts from where the one in front of
/// it ends, and leads to its constant, or to what its function makes of where it
/// starts. A muted clip stays where it starts.
pub open spec fn clip_chained<H: SubjectSource>(
    source: &H,
    actions: ActionModel,
    clips: Seq<ActionClip>,
    baseline: Value,
    i: int,
) -> bool {
    let record = actions.actions[clips[i].id];
    let start = runs_on_from(actions, clips, baseline, i);
    &&& record.segment is Some
    &&& record.segment->0.start == start
    &&& record.disabled ==> record.segment->0.end == start
    &&& !record.disabled ==> match record.action {
        Action::Constant(value) => record.segment->0.end == value,
        Action::Custom(function) => call_ensures(
            H::act,
            (source, function, start),
            record.segment->0.end,
        ),
    }
}

/// Once a timeline is baked, the clips of a lane that is baked with it chain: the first
/// one starts from the baseline of the field, every other one from where the one in front
/// ends, and each leads to where its action says. This is for lanes of actions whose
/// values are of the type of the field, and for sources that find the fields.
pub proof fn baked_lanes_chain<H: SubjectSource>(
    source: &H,
    registry: Registry,
    world: u64,
    before: TimelineModel,
    after: TimelineModel,
    t: int,
    key: ActionKey,
)
    requires
        finds_all(source),
        baselines_typed(before.actions),
        lanes_differ(before.tracks),
        timeline_baked(source, registry, before, after),
        0 <= t < before.tracks.len(),
        before.tracks[t].lanes().contains_key(key),
        served(registry, before, world, key),
        forall|i: int|
            0 <= i < before.tracks[t].lanes()[key].len() ==> before.actions.has(
                (#[trigger] before.tracks[t].lanes()[key][i]).id,
            ) && before.actions.actions[before.tracks[t].lanes()[key][i].id].target_type
                == key.field.target_id,
    ensures
        after.actions.baselines.contains_key(key),
        before.actions.baselines.contains_key(key) ==> after.actions.baselines[key]
            == before.actions.baselines[key],
        forall|i: int|
            0 <= i < before.tracks[t].lanes()[key].len() ==> #[trigger] clip_chained(
                source,
                after.actions,
                before.tracks[t].lanes()[key],
                after.actions.baselines[key],
                i,
            ),
{
    let clips = before.tracks[t].lanes()[key];
    let target = key.field.target_id;
    timelines_settle(source, registry, world, before, after, t, key);
    let actions = after.actions;
    let start = actions.baseline(key, target)->0;
    let values = choose|values: Seq<Value>| #[trigger]
        rest_at(source, target, clips, actions, values) && values.first() == start;
    assert(values[0] == start);
    assert forall|i: int| 0 <= i < clips.len() implies #[trigger] clip_chained(
        source,
        actions,
        clips,
        actions.baselines[key],
        i,
    ) by {
        assert(before.actions.has(clips[i].id));
        assert(before.actions.actions.contains_key(clips[i].id));
        assert(actions.actions.dom().contains(clips[i].id));
        assert(clip_rests(source, target, actions, clips[i], values[i], values[i + 1]));
        if i > 0 {
            assert(before.actions.has(clips[i - 1].id));
            assert(before.actions.actions.contains_key(clips[i - 1].id));
            assert(actions.actions.dom().contains(clips[i - 1].id));
            assert(clip_rests(source, target, actions, clips[i - 1], values[i - 1], values[i]));
        }
    }
}

/// The baseline of a field that has none is read from the subject of its sequence when it
/// is baked, and one that is there is kept.
pub proof fn baselines_are_read_once<H: SubjectSource>(
    source: &H,
    pipeline: PipelineKey,
    fields: Set<UntypedField>,
    key: ActionKey,
    clips: Seq<ActionClip>,
    before: ActionModel,
    after: ActionModel,
)
    requires
        sequence_baked(source, pipeline, fields, key, clips, before, after),
        only_baked(before, after),
        fields.contains(key.field),
        key.field.source_id == pipeline.source_id,
        key.field.target_id == pipeline.target_id,
        key.subject_id.type_id == pipeline.subject_id,
        before.subjects.contains_key((key.subject_id.type_id, key.subject_id.uid)),
        before.baselines.contains_key(key) ==> before.baselines[key].type_id
            == pipeline.target_id,
    ensures
        before.baselines.contains_key(key) ==> after.baselines.contains_key(key)
            && after.baselines[key] == before.baselines[key],
        !before.baselines.contains_key(key) && after != before ==> baseline_read(
            source,
            key,
            before,
            after,
        ),
{
    let target = pipeline.target_id;
    let subject = subject_of(pipeline, before, key)->0;
    if !before.baselines.contains_key(key) && after != before {
        let read = choose|read: Option<Value>| #[trigger]
            call_ensures(H::get_source, (source, subject, key.field), read) && match read {
                None => after == before,
                Some(start) => lane_baked(
                    source,
                    target,
                    clips,
                    start,
                    with_baseline(before, key, start),
                    after,
                ),
            };
        let start = read->0;
        let ready = with_baseline(before, key, start);
        let trace = choose|trace: Seq<(ActionModel, Value)>| #[trigger]
            clips_baked(source, target, clips, trace) && trace.first() == (
                ready,
                start,
            ) && trace.last().0 == after;
        clips_keep_baselines(source, target, clips, trace, clips.len() as int);
        assert(trace[0] == (ready, start));
        assert(after.baselines[key] == start);
        assert(baseline_read(source, key, before, after));
    }
}

/// Whether the baseline of a sequence is what was read of its field on its subject.
pub open spec fn baseline_read<H: SubjectSource>(
    source: &H,
    key: ActionKey,
    before: ActionModel,
    after: ActionModel,
) -> bool {
    &&& after.baselines.contains_key(key)
    &&& call_ensures(
        H::get_source,
        (
            source,
            Subject {
                type_id: key.subject_id.type_id,
                bits: before.subjects[(key.subject_id.type_id, key.subject_id.uid)].bits,
            },
            key.field,
        ),
        Some(after.baselines[key]),
    )
}

/// Baking clips changes no baselines.
proof fn clips_keep_baselines<H: SubjectSource>(
    source: &H,
    target: u64,
    clips: Seq<ActionClip>,
    trace: Seq<(ActionModel, Value)>,
    n: int,
)
    requires
        clips_baked(source, target, clips, trace),
        0 <= n <= clips.len(),
    ensures
        trace[n].0.baselines == trace[0].0.baselines,
    decreases n,
{
    if n > 0 {
        clips_keep_baselines(source, target, clips, trace, n - 1);
        assert(clip_baked(
            source,
            target,
            clips[n - 1],
            trace[n - 1],
            trace[n],
        ));
    }
}

} // verus!
