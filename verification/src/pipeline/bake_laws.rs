//! What baking leaves of a sequence.
use crate::action::world::ActionModel;
use crate::action::{ActionClip, ActionId, ActionKey, ActionRecord, Segment, Value};
use crate::pipeline::laws::act_alike;
use crate::pipeline::{
    clip_baked, clips_baked, lane_baked, runs_to, sequence_baked, subject_of, with_baseline,
    PipelineKey,
};
use crate::registry::accessible;
use crate::subject::{TypeTag, UntypedField};
use crate::world::SubjectSource;
use vstd::prelude::*;

verus! {

/// Whether a source finds every field, with a value of its type.
pub open spec fn finds_all<H: SubjectSource>(source: &H) -> bool {
    forall|subject: crate::subject::Subject, field: UntypedField, read: Option<Value>|
        #[trigger] call_ensures(H::get_source, (source, subject, field), read) ==> (
        read matches Some(value) && value.type_id == field.target_id)
}

/// Whether baselines are of the types of their fields.
pub open spec fn baselines_typed(model: ActionModel) -> bool {
    forall|key: ActionKey| #[trigger]
        model.baselines.contains_key(key) ==> model.baselines[key].type_id == key.field.target_id
}

/// Whether a clip rests baked between two values.
pub open spec fn clip_rests<H: SubjectSource>(
    source: &H,
    target: TypeTag,
    model: ActionModel,
    clip: ActionClip,
    from: Value,
    to: Value,
) -> bool {
    let record = model.actions[clip.id];
    if !model.has(clip.id) || record.target_type != target {
        to == from
    } else {
        &&& record.segment == Some(Segment { start: from, end: to })
        &&& if record.disabled {
            to == from
        } else {
            runs_to(source, record.action, from, to)
        }
    }
}

/// Whether clips rest baked at values, one after another.
pub open spec fn rest_at<H: SubjectSource>(
    source: &H,
    target: TypeTag,
    clips: Seq<ActionClip>,
    model: ActionModel,
    values: Seq<Value>,
) -> bool {
    &&& values.len() == clips.len() + 1
    &&& forall|i: int|
        0 <= i < clips.len() ==> clip_rests(
            source,
            target,
            model,
            #[trigger] clips[i],
            values[i],
            values[i + 1],
        )
}

/// Whether clips rest baked from a value on.
pub open spec fn lane_rests<H: SubjectSource>(
    source: &H,
    target: TypeTag,
    clips: Seq<ActionClip>,
    model: ActionModel,
    start: Value,
) -> bool {
    exists|values: Seq<Value>| #[trigger]
        rest_at(source, target, clips, model, values) && values.first() == start
}

/// Whether a sequence is settled: it has a baseline, and its clips rest baked from
/// there on.
pub open spec fn settled<H: SubjectSource>(
    source: &H,
    key: ActionKey,
    clips: Seq<ActionClip>,
    model: ActionModel,
) -> bool {
    let target = key.field.target_id;
    model.baseline(key, target) matches Some(start) && lane_rests(
        source,
        target,
        clips,
        model,
        start,
    )
}

/// Whether each clip is of another action.
pub open spec fn ids_differ(clips: Seq<ActionClip>) -> bool {
    forall|i: int, j: int|
        0 <= i < j < clips.len() ==> (#[trigger] clips[i]).id != (#[trigger] clips[j]).id
}

/// Whether no clip of one sequence is of an action of another one.
pub open spec fn clips_differ(a: Seq<ActionClip>, b: Seq<ActionClip>) -> bool {
    forall|i: int, j: int|
        0 <= i < a.len() && 0 <= j < b.len() ==> (#[trigger] a[i]).id != (#[trigger] b[j]).id
}

/// Whether only segments of the clips changed from one world to another, and
/// baselines only came, of the types of their fields.
pub open spec fn bakes_only(clips: Seq<ActionClip>, before: ActionModel, after: ActionModel) -> bool {
    &&& after.subjects == before.subjects
    &&& after.known == before.known
    &&& forall|key: ActionKey| #[trigger]
        before.baselines.contains_key(key) ==> after.baselines.contains_key(key)
            && after.baselines[key] == before.baselines[key]
    &&& after.actions.dom() == before.actions.dom()
    &&& forall|id: ActionId| #[trigger]
        before.actions.contains_key(id) ==> after.actions[id] == (ActionRecord {
            segment: after.actions[id].segment,
            ..before.actions[id]
        })
    &&& forall|id: ActionId|
        (forall|i: int| 0 <= i < clips.len() ==> (#[trigger] clips[i]).id != id)
            && before.actions.contains_key(id) ==> #[trigger] after.actions[id]
            == before.actions[id]
}

/// What baking clips leaves after `n` of them.
proof fn clips_bake_only<H: SubjectSource>(
    source: &H,
    target: TypeTag,
    clips: Seq<ActionClip>,
    trace: Seq<(ActionModel, Value)>,
    n: int,
)
    requires
        clips_baked(source, target, clips, trace),
        0 <= n <= clips.len(),
    ensures
        bakes_only(clips, trace[0].0, trace[n].0),
        trace[n].0.baselines == trace[0].0.baselines,
        ids_differ(clips) ==> forall|i: int|
            0 <= i < n ==> clip_rests(
                source,
                target,
                trace[n].0,
                #[trigger] clips[i],
                trace[i].1,
                trace[i + 1].1,
            ),
    decreases n,
{
    if n > 0 {
        let m = n - 1;
        clips_bake_only(source, target, clips, trace, m);
        let clip = clips[m];
        assert(clip_baked(source, target, clip, trace[m], trace[n]));
        assert(trace[n].0.actions.dom() =~= trace[m].0.actions.dom());
        if ids_differ(clips) {
            assert forall|i: int| 0 <= i < n implies clip_rests(
                source,
                target,
                trace[n].0,
                #[trigger] clips[i],
                trace[i].1,
                trace[i + 1].1,
            ) by {
                if i < m {
                    assert(clips[i].id != clips[m].id);
                    assert(clip_rests(
                        source,
                        target,
                        trace[m].0,
                        clips[i],
                        trace[i].1,
                        trace[i + 1].1,
                    ));
                }
            }
        }
    }
}

/// Clips that are baked rest baked.
proof fn lanes_come_to_rest<H: SubjectSource>(
    source: &H,
    target: TypeTag,
    clips: Seq<ActionClip>,
    start: Value,
    before: ActionModel,
    after: ActionModel,
)
    requires
        lane_baked(source, target, clips, start, before, after),
    ensures
        bakes_only(clips, before, after),
        after.baselines == before.baselines,
        ids_differ(clips) ==> lane_rests(source, target, clips, after, start),
{
    let trace = choose|trace: Seq<(ActionModel, Value)>| #[trigger]
        clips_baked(source, target, clips, trace) && trace.first() == (before, start)
            && trace.last().0 == after;
    let n = clips.len() as int;
    clips_bake_only(source, target, clips, trace, n);
    let values = trace.map_values(|step: (ActionModel, Value)| step.1);
    if ids_differ(clips) {
        assert(rest_at(source, target, clips, after, values));
    }
}

/// Baking a sequence changes the segments of its clips only, and where the source
/// finds its field, settles it.
pub proof fn sequences_settle<H: SubjectSource>(
    source: &H,
    pipeline: PipelineKey,
    fields: Set<UntypedField>,
    key: ActionKey,
    clips: Seq<ActionClip>,
    before: ActionModel,
    after: ActionModel,
)
    requires
        finds_all(source),
        baselines_typed(before),
        sequence_baked(source, pipeline, fields, key, clips, before, after),
    ensures
        bakes_only(clips, before, after),
        baselines_typed(after),
        forall|k: ActionKey| #[trigger]
            after.baselines.contains_key(k) && k != key ==> before.baselines.contains_key(k),
        after == before || (ids_differ(clips) ==> settled(source, key, clips, after)),
        ids_differ(clips) && accessible(fields, key.field, pipeline.source_id, pipeline.target_id)
            && subject_of(pipeline, before, key) is Some ==> settled(source, key, clips, after),
{
    let target = pipeline.target_id;
    let subject = subject_of(pipeline, before, key);
    if accessible(fields, key.field, pipeline.source_id, target) && subject is Some {
        match before.baseline(key, target) {
            Some(start) => {
                lanes_come_to_rest(source, target, clips, start, before, after);
            },
            None => {
                let read = choose|read: Option<Value>| #[trigger]
                    call_ensures(H::get_source, (source, subject->0, key.field), read)
                        && match read {
                        None => after == before,
                        Some(start) => lane_baked(
                            source,
                            target,
                            clips,
                            start,
                            with_baseline(before, key, start),
                            after,
                        ),
                    };
                let start = read->0;
                let ready = with_baseline(before, key, start);
                lanes_come_to_rest(source, target, clips, start, ready, after);
                assert(!before.baselines.contains_key(key));
                assert(bakes_only(clips, before, after));
            },
        }
    } else {
        assert(after.actions.dom() =~= before.actions.dom());
    }
}

/// A sequence stays settled when other clips are baked.
pub proof fn settled_stays<H: SubjectSource>(
    source: &H,
    key: ActionKey,
    clips: Seq<ActionClip>,
    others: Seq<ActionClip>,
    before: ActionModel,
    after: ActionModel,
)
    requires
        settled(source, key, clips, before),
        clips_differ(clips, others),
        bakes_only(others, before, after),
    ensures
        settled(source, key, clips, after),
{
    let target = key.field.target_id;
    let start = before.baseline(key, target)->0;
    let values = choose|values: Seq<Value>| #[trigger]
        rest_at(source, target, clips, before, values) && values.first() == start;
    assert(rest_at(source, target, clips, after, values)) by {
        assert forall|i: int| 0 <= i < clips.len() implies clip_rests(
            source,
            target,
            after,
            #[trigger] clips[i],
            values[i],
            values[i + 1],
        ) by {
            let id = clips[i].id;
            assert(clip_rests(source, target, before, clips[i], values[i], values[i + 1]));
            assert forall|j: int| 0 <= j < others.len() implies (#[trigger] others[j]).id != id by {
                assert(clips[i].id != others[j].id);
            }
            assert(before.actions.dom().contains(id) == after.actions.dom().contains(id));
            if before.actions.contains_key(id) {
                assert(after.actions[id] == before.actions[id]);
            }
        }
    }
}

/// Whether clips of two worlds do the same, one after another: they are of actions
/// that are there in both or in neither, of one type, of one function and muted
/// alike.
pub open spec fn deeds_alike(
    x: Seq<ActionClip>,
    a: ActionModel,
    y: Seq<ActionClip>,
    b: ActionModel,
) -> bool {
    &&& x.len() == y.len()
    &&& forall|i: int|
        0 <= i < x.len() ==> {
            let (p, q) = ((#[trigger] x[i]).id, y[i].id);
            &&& a.has(p) == b.has(q)
            &&& a.has(p) ==> {
                &&& a.actions[p].target_type == b.actions[q].target_type
                &&& a.actions[p].action == b.actions[q].action
                &&& a.actions[p].disabled == b.actions[q].disabled
            }
        }
}

/// Settled sequences that do the same from the same baseline on have the same
/// segments.
pub proof fn settled_alike<H: SubjectSource>(
    first: &H,
    second: &H,
    key: ActionKey,
    x: Seq<ActionClip>,
    a: ActionModel,
    y: Seq<ActionClip>,
    b: ActionModel,
)
    requires
        act_alike(first, second),
        settled(first, key, x, a),
        settled(second, key, y, b),
        a.baseline(key, key.field.target_id) == b.baseline(key, key.field.target_id),
        deeds_alike(x, a, y, b),
    ensures
        forall|i: int|
            0 <= i < x.len() && a.has((#[trigger] x[i]).id) && a.actions[x[i].id].target_type
                == key.field.target_id ==> {
                &&& a.actions[x[i].id].segment is Some
                &&& a.actions[x[i].id].segment == b.actions[y[i].id].segment
            },
{
    let target = key.field.target_id;
    let start = a.baseline(key, target)->0;
    let v = choose|v: Seq<Value>| #[trigger]
        rest_at(first, target, x, a, v) && v.first() == start;
    let w = choose|w: Seq<Value>| #[trigger]
        rest_at(second, target, y, b, w) && w.first() == start;
    assert forall|i: int|
        0 <= i < x.len() && a.has((#[trigger] x[i]).id) && a.actions[x[i].id].target_type
            == target implies {
        &&& a.actions[x[i].id].segment is Some
        &&& a.actions[x[i].id].segment == b.actions[y[i].id].segment
    } by {
        values_alike(first, second, target, x, a, y, b, v, w, i);
        values_alike(first, second, target, x, a, y, b, v, w, i + 1);
        assert(clip_rests(first, target, a, x[i], v[i], v[i + 1]));
        assert(clip_rests(second, target, b, y[i], w[i], w[i + 1]));
    }
}

/// Clips that do the same run through the same values.
proof fn values_alike<H: SubjectSource>(
    first: &H,
    second: &H,
    target: TypeTag,
    x: Seq<ActionClip>,
    a: ActionModel,
    y: Seq<ActionClip>,
    b: ActionModel,
    v: Seq<Value>,
    w: Seq<Value>,
    n: int,
)
    requires
        act_alike(first, second),
        rest_at(first, target, x, a, v),
        rest_at(second, target, y, b, w),
        v.first() == w.first(),
        deeds_alike(x, a, y, b),
        0 <= n <= x.len(),
    ensures
        v[n] == w[n],
    decreases n,
{
    if n > 0 {
        values_alike(first, second, target, x, a, y, b, v, w, n - 1);
        assert(clip_rests(first, target, a, x[n - 1], v[n - 1], v[n]));
        assert(clip_rests(second, target, b, y[n - 1], w[n - 1], w[n]));
    }
}

} // verus!
