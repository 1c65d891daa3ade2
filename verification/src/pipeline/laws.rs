//! What baking again leaves as it is.
use crate::action::world::ActionModel;
use crate::action::{ActionClip, ActionId, ActionKey, Value};
use crate::pipeline::{
    clip_baked, clips_baked, lane_baked, sequence_baked, subject_of, with_baseline,
    PipelineKey,
};
use crate::registry::accessible;
use crate::subject::{TypeTag, UntypedField};
use crate::world::SubjectSource;
use vstd::prelude::*;

verus! {

/// Whether the custom actions of two sources are the same functions.
pub open spec fn act_alike<H: SubjectSource>(first: &H, second: &H) -> bool {
    forall|function: u64, start: Value, x: Value, y: Value|
        {
            &&& #[trigger] call_ensures(H::act, (first, function, start), x)
            &&& #[trigger] call_ensures(H::act, (second, function, start), y)
        } ==> x == y
}

/// Whether an action is the same in two worlds, but for its segment: it is
/// there in both or in neither, does the same, and is muted or not.
pub open spec fn same_deed(a: ActionModel, b: ActionModel, id: ActionId) -> bool {
    &&& a.has(id) == b.has(id)
    &&& a.has(id) ==> {
        &&& a.actions[id].target_type == b.actions[id].target_type
        &&& a.actions[id].action == b.actions[id].action
        &&& a.actions[id].disabled == b.actions[id].disabled
    }
}

/// Whether the actions of clips are the same in two worlds, and so are their
/// segments.
pub open spec fn same_deeds(clips: Seq<ActionClip>, a: ActionModel, b: ActionModel) -> bool {
    forall|j: int|
        0 <= j < clips.len() ==> {
            &&& same_deed(a, b, (#[trigger] clips[j]).id)
            &&& a.has(clips[j].id) ==> a.actions[clips[j].id].segment
                == b.actions[clips[j].id].segment
        }
}

/// Baking clips leaves what actions do alone, and the baselines.
proof fn baking_keeps_deeds<H: SubjectSource>(
    source: &H,
    target: TypeTag,
    clips: Seq<ActionClip>,
    trace: Seq<(ActionModel, Value)>,
    n: int,
)
    requires
        clips_baked(source, target, clips, trace),
        0 <= n <= clips.len(),
    ensures
        trace[n].0.baselines == trace[0].0.baselines,
        forall|id: ActionId| #[trigger] same_deed(trace[0].0, trace[n].0, id),
    decreases n,
{
    if n > 0 {
        baking_keeps_deeds(source, target, clips, trace, n - 1);
        assert(clip_baked(source, target, clips[n - 1], trace[n - 1], trace[n]));
        assert forall|id: ActionId| #[trigger] same_deed(trace[0].0, trace[n].0, id) by {
            assert(same_deed(trace[0].0, trace[n - 1].0, id));
        }
    }
}

/// Whether one of the first clips bakes the action.
spec fn bakes(clips: Seq<ActionClip>, model: ActionModel, target: TypeTag, n: int, id: ActionId) -> bool {
    model.has(id) && model.actions[id].target_type == target && exists|j: int|
        0 <= j < n && (#[trigger] clips[j]).id == id
}

/// Clips that are baked from the same value on by the same functions run
/// through the same values.
proof fn lanes_bake_alike<H: SubjectSource>(
    first: &H,
    second: &H,
    target: TypeTag,
    clips: Seq<ActionClip>,
    once: Seq<(ActionModel, Value)>,
    twice: Seq<(ActionModel, Value)>,
    n: int,
)
    requires
        act_alike(first, second),
        clips_baked(first, target, clips, once),
        clips_baked(second, target, clips, twice),
        once[0].1 == twice[0].1,
        same_deeds(clips, once.last().0, twice[0].0),
        0 <= n <= clips.len(),
    ensures
        once[n].1 == twice[n].1,
        forall|id: ActionId|
            bakes(clips, once[0].0, target, n, id) ==> (#[trigger] twice[n].0.actions[id]).segment
                == once[n].0.actions[id].segment,
        forall|id: ActionId|
            !bakes(clips, once[0].0, target, n, id) ==> (#[trigger] twice[n].0.actions[id])
                == twice[0].0.actions[id],
    decreases n,
{
    if n > 0 {
        let last = clips.len() as int;
        lanes_bake_alike(first, second, target, clips, once, twice, n - 1);
        baking_keeps_deeds(first, target, clips, once, n - 1);
        baking_keeps_deeds(first, target, clips, once, last);
        baking_keeps_deeds(second, target, clips, twice, n - 1);
        let clip = clips[n - 1];
        assert(clip_baked(first, target, clip, once[n - 1], once[n]));
        assert(clip_baked(second, target, clip, twice[n - 1], twice[n]));
        assert(same_deed(once[0].0, once[n - 1].0, clip.id));
        assert(same_deed(once[0].0, once[last].0, clip.id));
        assert(same_deed(once.last().0, twice[0].0, clip.id));
        assert(same_deed(twice[0].0, twice[n - 1].0, clip.id));
        assert forall|id: ActionId| bakes(clips, once[0].0, target, n, id) implies (
        #[trigger] twice[n].0.actions[id]).segment == once[n].0.actions[id].segment by {
            assert(same_deed(once[0].0, once[n - 1].0, id));
            if id != clip.id {
                let j = choose|j: int| 0 <= j < n && (#[trigger] clips[j]).id == id;
                assert(clips[j].id == id);
                assert(bakes(clips, once[0].0, target, n - 1, id));
                assert(twice[n].0.actions[id] == twice[n - 1].0.actions[id]);
            }
        }
        assert forall|id: ActionId| !bakes(clips, once[0].0, target, n, id) implies (
        #[trigger] twice[n].0.actions[id]) == twice[0].0.actions[id] by {
            if bakes(clips, once[0].0, target, n - 1, id) {
                let j = choose|j: int| 0 <= j < n - 1 && (#[trigger] clips[j]).id == id;
                assert(clips[j].id == id);
                assert(false);
            }
            if id == clip.id {
                assert(clips[n - 1].id == id);
            }
            assert(twice[n].0.actions[id] == twice[n - 1].0.actions[id]);
        }
    }
}

/// Baking a sequence again gives every clip the segment that it has, whatever
/// the world has become in between: the sequence starts from its baseline,
/// which is not read again, and its actions do the same to the same values.
/// Clips, actions and whether they are muted have to be left alone.
pub proof fn baking_again_keeps_segments<H: SubjectSource>(
    first: &H,
    second: &H,
    pipeline: PipelineKey,
    fields: Set<UntypedField>,
    key: ActionKey,
    clips: Seq<ActionClip>,
    before: ActionModel,
    baked: ActionModel,
    later: ActionModel,
    after: ActionModel,
)
    requires
        act_alike(first, second),
        accessible(fields, key.field, pipeline.source_id, pipeline.target_id),
        subject_of(pipeline, before, key) is Some,
        sequence_baked(first, pipeline, fields, key, clips, before, baked),
        baked.baseline(key, pipeline.target_id) is Some,
        later.baseline(key, pipeline.target_id) == baked.baseline(key, pipeline.target_id),
        same_deeds(clips, baked, later),
        sequence_baked(second, pipeline, fields, key, clips, later, after),
    ensures
        same_deeds(clips, baked, after),
{
    let target = pipeline.target_id;
    let start = baked.baseline(key, target)->0;
    if subject_of(pipeline, later, key) is Some {
        let ready = if before.baseline(key, target) is Some {
            before
        } else {
            with_baseline(before, key, start)
        };
        assert(lane_baked(first, target, clips, start, ready, baked)) by {
            match before.baseline(key, target) {
                Some(value) => {
                    let trace = choose|trace: Seq<(ActionModel, Value)>| #[trigger]
                        clips_baked(first, target, clips, trace) && trace.first() == (before, value)
                            && trace.last().0 == baked;
                    baking_keeps_deeds(first, target, clips, trace, clips.len() as int);
                },
                None => {
                    let read = choose|read: Option<Value>| #[trigger]
                        call_ensures(
                            H::get_source,
                            (first, subject_of(pipeline, before, key)->0, key.field),
                            read,
                        ) && match read {
                            None => baked == before,
                            Some(value) => lane_baked(
                                first,
                                target,
                                clips,
                                value,
                                with_baseline(before, key, value),
                                baked,
                            ),
                        };
                    let value = read->0;
                    let trace = choose|trace: Seq<(ActionModel, Value)>| #[trigger]
                        clips_baked(first, target, clips, trace) && trace.first() == (
                            with_baseline(before, key, value),
                            value,
                        ) && trace.last().0 == baked;
                    baking_keeps_deeds(first, target, clips, trace, clips.len() as int);
                },
            }
        }
        let once = choose|trace: Seq<(ActionModel, Value)>| #[trigger]
            clips_baked(first, target, clips, trace) && trace.first() == (ready, start)
                && trace.last().0 == baked;
        let twice = choose|trace: Seq<(ActionModel, Value)>| #[trigger]
            clips_baked(second, target, clips, trace) && trace.first() == (later, start)
                && trace.last().0 == after;
        let n = clips.len() as int;
        lanes_bake_alike(first, second, target, clips, once, twice, n);
        baking_keeps_deeds(first, target, clips, once, n);
        baking_keeps_deeds(second, target, clips, twice, n);
        assert forall|j: int| 0 <= j < clips.len() implies {
            &&& same_deed(baked, after, (#[trigger] clips[j]).id)
            &&& baked.has(clips[j].id) ==> baked.actions[clips[j].id].segment
                == after.actions[clips[j].id].segment
        } by {
            let id = clips[j].id;
            assert(same_deed(baked, later, id));
            assert(same_deed(twice[0].0, twice[n].0, id));
            assert(same_deed(once[0].0, once[n].0, id));
            assert(twice[n].0.actions[id] == after.actions[id]);
        }
    }
}

} // verus!
