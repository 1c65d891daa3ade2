//! What sampling writes.
use crate::action::world::ActionModel;
use crate::action::{
    keyframes_valid, ActionId, ActionKey, ActionRecord, Ease, InterpFn, Keyframe, SampleMode,
    Segment, Value,
};
use crate::pipeline::{
    eased_to, evaluates_to, is_next_point, is_sample, keyframes_give, keyframes_sampled,
    local_phase, pipeline_sampled, reached, restored_by, restoring, sampled_by, samples_to,
    writes_match, PipelineKey, Write,
};
use crate::seqs::ascending;
use crate::subject::{Subject, UntypedField};
use crate::time::laws::{clamping_is_nearest, is_part, phases_are_parts};
use crate::time::{phase_at, saturated, Phase, PHASE_EPSILON, PHASE_ONE};
use crate::world::SubjectSource;
use vstd::prelude::*;

verus! {

/// Whether an ease makes one part of another. Without an ease a part stays what it is.
pub open spec fn eases<H: SubjectSource>(
    source: &H,
    ease: Option<Ease>,
    t: Option<Phase>,
    eased: Option<Phase>,
) -> bool {
    match ease {
        Some(ease) => call_ensures(H::ease, (source, ease, t), eased),
        None => eased == t,
    }
}

/// Whether `local` is the part of the way from one point to the next that has passed. A
/// way without extent is at its end.
pub open spec fn is_local(local: Option<Phase>, t: Option<Phase>, from: Phase, to: Phase) -> bool {
    if to - from <= PHASE_EPSILON {
        local == Some(PHASE_ONE)
    } else {
        match t {
            None => local is None,
            Some(p) => if p <= from {
                local == Some(0i64)
            } else {
                is_part(local, p - from, to - from)
            },
        }
    }
}

/// The part of the way between two points that has passed is zero at the first one, all
/// of it at the second one, and in between what has passed of it.
pub proof fn local_phases_are_parts(t: Option<Phase>, from: Phase, to: Phase)
    requires
        0 <= from <= to <= PHASE_ONE,
        t matches Some(p) ==> p <= to,
    ensures
        is_local(local_phase(t, from, to), t, from, to),
        local_phase(t, from, to) matches Some(local) ==> 0 <= local <= PHASE_ONE,
        to - from > PHASE_EPSILON ==> local_phase(Some(from), from, to) == Some(0i64)
            && local_phase(Some(to), from, to) == Some(PHASE_ONE),
{
    let span = to - from;
    if span > PHASE_EPSILON {
        phases_are_parts(0, span, 0);
        phases_are_parts(span, span, span);
        match t {
            Some(p) => if p <= from {
                if p < from {
                    let missing = saturated(p - from);
                    assert(missing < 0);
                    assert(missing * PHASE_ONE / span < 0) by (nonlinear_arith)
                        requires
                            missing < 0,
                            span > 0,
                    ;
                    let phase = saturated(missing * PHASE_ONE / span);
                    clamping_is_nearest(phase);
                }
            } else {
                phases_are_parts(p - from, span, p - from);
                clamping_is_nearest(phase_at(p - from, span)->0);
            },
            None => {},
        }
    }
}

/// Whether a value lies on the way from a value at a time to a point: a point that holds
/// keeps what was there, and else it is interpolated from there to the value of the
/// point, by the part of the way that has passed, as the point eases it.
pub open spec fn led<H: SubjectSource>(
    source: &H,
    from: Value,
    since: Phase,
    to: Keyframe<Value>,
    interp: InterpFn,
    t: Option<Phase>,
    value: Value,
) -> bool {
    if to.hold {
        value == from
    } else {
        exists|local: Option<Phase>, eased: Option<Phase>|
            {
                &&& #[trigger] eases(source, to.ease, local, eased)
                &&& is_local(local, t, since, to.t)
                &&& call_ensures(H::interp, (source, interp, from, to.value, eased), value)
            }
    }
}

/// Whether a time is before a point.
pub open spec fn before_point(t: Option<Phase>, point: Phase) -> bool {
    t matches Some(p) ==> p < point
}

/// Whether a value is what keyframes show at a time: before the first point it is on the
/// way from where the clip starts to that point, between two points on the way from the
/// one to the other, and behind the last point the value of that one.
pub open spec fn keyframes_show<H: SubjectSource>(
    source: &H,
    points: Seq<Keyframe<Value>>,
    start: Value,
    interp: InterpFn,
    t: Option<Phase>,
    value: Value,
) -> bool {
    &&& before_point(t, points[0].t) ==> led(source, start, 0, points[0], interp, t, value)
    &&& forall|i: int|
        0 < i < points.len() && t is Some && points[i - 1].t <= t->0 && before_point(
            t,
            (#[trigger] points[i]).t,
        ) ==> led(source, points[i - 1].value, points[i - 1].t, points[i], interp, t, value)
    &&& t is Some && points[points.len() - 1].t <= t->0 ==> value == points[points.len()
        - 1].value
}

/// Points in order that the playhead has reached are those in front.
proof fn next_is_between<T>(points: Seq<Keyframe<T>>, t: Option<Phase>, next: int)
    requires
        keyframes_valid(points),
        is_next_point(points, t, next),
    ensures
        forall|i: int|
            0 <= i < points.len() ==> (reached((#[trigger] points[i]).t, t) <==> i < next),
{
    assert forall|i: int| 0 <= i < points.len() implies (reached((#[trigger] points[i]).t, t)
        <==> i < next) by {
        if i > next {
            let key = |point: Keyframe<T>| point.t as int;
            assert(ascending(points, key));
            assert(key(points[next]) <= key(points[i]));
        }
    }
}

/// What keyframes give at a time leads from point to point.
pub proof fn keyframes_lead_from_point_to_point<H: SubjectSource>(
    source: &H,
    points: Seq<Keyframe<Value>>,
    start: Value,
    interp: InterpFn,
    t: Option<Phase>,
    next: int,
    value: Value,
)
    requires
        keyframes_valid(points),
        is_next_point(points, t, next),
        keyframes_give(source, points, start, interp, t, next, value),
    ensures
        keyframes_show(source, points, start, interp, t, value),
{
    next_is_between(points, t, next);
    if next < points.len() {
        let since = if next > 0 {
            points[next - 1].t
        } else {
            0
        };
        let from = if next > 0 {
            points[next - 1].value
        } else {
            start
        };
        assert(0 <= points[next].t <= PHASE_ONE);
        if next > 0 {
            assert(reached(points[next - 1].t, t));
            let key = |point: Keyframe<Value>| point.t as int;
            assert(ascending(points, key));
            assert(key(points[next - 1]) <= key(points[next]));
        }
        assert(!reached(points[next].t, t));
        let local = local_phase(t, since, points[next].t);
        local_phases_are_parts(t, since, points[next].t);
        assert(led(source, from, since, points[next], interp, t, value)) by {
            if !points[next].hold {
                let eased = choose|eased: Option<Phase>| #[trigger]
                    eased_to(source, points[next].ease, local, eased)
                        && call_ensures(
                        H::interp,
                        (source, interp, from, points[next].value, eased),
                        value,
                    );
                assert(eases(source, points[next].ease, local, eased));
            }
        }
    }
    assert(before_point(t, points[0].t) ==> next == 0);
    assert forall|i: int|
        0 < i < points.len() && t is Some && points[i - 1].t <= t->0 && before_point(
            t,
            (#[trigger] points[i]).t,
        ) implies led(
        source,
        points[i - 1].value,
        points[i - 1].t,
        points[i],
        interp,
        t,
        value,
    ) by {
        assert(reached(points[i - 1].t, t));
        assert(!reached(points[i].t, t));
        assert(next == i);
    }
    if t is Some && points[points.len() - 1].t <= t->0 {
        assert(reached(points[points.len() - 1].t, t));
        assert(next == points.len());
    }
}

/// What an action gives for its mark: at its start the value that its field runs from,
/// at its end the one that it runs to, and a muted one always the former.
pub proof fn ends_are_exact<H: SubjectSource>(
    source: &H,
    record: ActionRecord,
    segment: Segment<Value>,
    mode: SampleMode,
    interp: InterpFn,
    value: Value,
)
    requires
        samples_to(source, record, segment, mode, interp, value),
    ensures
        record.disabled || mode == SampleMode::Start ==> value == segment.start,
        !record.disabled && mode == SampleMode::End ==> value == segment.end,
{
}

/// What a plain action gives at a part of its way is interpolated between the ends of
/// its segment, by that part as its ease makes it.
pub proof fn plain_actions_run_between_ends<H: SubjectSource>(
    source: &H,
    record: ActionRecord,
    segment: Segment<Value>,
    t: Option<Phase>,
    interp: InterpFn,
    value: Value,
)
    requires
        !record.disabled,
        record.keyframes is None,
    ensures
        samples_to(source, record, segment, SampleMode::Interp(t), interp, value) <==> exists|
            eased: Option<Phase>,
        | #[trigger]
            eases(source, record.ease, t, eased) && call_ensures(
                H::interp,
                (source, interp, segment.start, segment.end, eased),
                value,
            ),
{
    if samples_to(source, record, segment, SampleMode::Interp(t), interp, value) {
        let eased = choose|eased: Option<Phase>| #[trigger]
            eased_to(source, record.ease, t, eased) && call_ensures(
                H::interp,
                (source, interp, segment.start, segment.end, eased),
                value,
            );
        assert(eases(source, record.ease, t, eased));
    }
    if exists|eased: Option<Phase>| #[trigger]
        eases(source, record.ease, t, eased) && call_ensures(
            H::interp,
            (source, interp, segment.start, segment.end, eased),
            value,
        ) {
        let eased = choose|eased: Option<Phase>| #[trigger]
            eases(source, record.ease, t, eased) && call_ensures(
                H::interp,
                (source, interp, segment.start, segment.end, eased),
                value,
            );
        assert(eased_to(source, record.ease, t, eased));
    }
}

/// What a keyframed action gives at a part of its way leads from the start of its
/// segment to its first point and then from point to point, at that part as its ease
/// makes it. Where its segment ends does not matter for it.
pub proof fn keyframed_actions_run_through_points<H: SubjectSource>(
    source: &H,
    record: ActionRecord,
    segment: Segment<Value>,
    other: Segment<Value>,
    t: Option<Phase>,
    interp: InterpFn,
    value: Value,
)
    requires
        !record.disabled,
        record.keyframes is Some,
        keyframes_valid(record.keyframes->0@),
        samples_to(source, record, segment, SampleMode::Interp(t), interp, value),
    ensures
        exists|eased: Option<Phase>| #[trigger]
            eases(source, record.ease, t, eased) && keyframes_show(
                source,
                record.keyframes->0@,
                segment.start,
                interp,
                eased,
                value,
            ),
        other.start == segment.start ==> samples_to(
            source,
            record,
            other,
            SampleMode::Interp(t),
            interp,
            value,
        ),
{
    let points = record.keyframes->0@;
    let (eased, next) = choose|eased: Option<Phase>, next: int|
        {
            &&& #[trigger] eased_to(source, record.ease, t, eased)
            &&& #[trigger] is_next_point(points, eased, next)
            &&& keyframes_give(source, points, segment.start, interp, eased, next, value)
        };
    keyframes_lead_from_point_to_point(source, points, segment.start, interp, eased, next, value);
    assert(eases(source, record.ease, t, eased));
}

/// Whether a value is on the way from a value at a time to a point, by functions.
pub open spec fn led_by<T, E, F>(
    from: T,
    since: Phase,
    to: Keyframe<T>,
    eval: E,
    interp: F,
    t: Option<Phase>,
    value: T,
) -> bool where
    T: Clone,
    E: Fn(Ease, Option<Phase>) -> Option<Phase>,
    F: Fn(&T, &T, Option<Phase>) -> T,
 {
    if to.hold {
        cloned::<T>(from, value)
    } else {
        exists|local: Option<Phase>, eased: Option<Phase>|
            {
                &&& #[trigger] is_eased(eval, to.ease, local, eased)
                &&& is_local(local, t, since, to.t)
                &&& call_ensures(interp, (&from, &to.value, eased), value)
            }
    }
}

/// Whether an ease makes one part of another, by a function.
pub open spec fn is_eased<E>(
    eval: E,
    ease: Option<Ease>,
    t: Option<Phase>,
    eased: Option<Phase>,
) -> bool where E: Fn(Ease, Option<Phase>) -> Option<Phase> {
    match ease {
        Some(ease) => call_ensures(eval, (ease, t), eased),
        None => eased == t,
    }
}

/// What keyframes give by functions leads from point to point too: before the first
/// point from the start, between two points from the one to the other, and behind the
/// last point it is the value of that one.
pub proof fn sampled_keyframes_lead_from_point_to_point<T, E, F>(
    points: Seq<Keyframe<T>>,
    start: T,
    eval: E,
    interp: F,
    t: Option<Phase>,
    next: int,
    value: T,
) where
    T: Clone,
    E: Fn(Ease, Option<Phase>) -> Option<Phase>,
    F: Fn(&T, &T, Option<Phase>) -> T,

    requires
        keyframes_valid(points),
        is_next_point(points, t, next),
        keyframes_sampled(points, start, eval, interp, t, next, value),
    ensures
        before_point(t, points[0].t) ==> led_by(start, 0, points[0], eval, interp, t, value),
        forall|i: int|
            0 < i < points.len() && t is Some && points[i - 1].t <= t->0 && before_point(
                t,
                (#[trigger] points[i]).t,
            ) ==> led_by(
                points[i - 1].value,
                points[i - 1].t,
                points[i],
                eval,
                interp,
                t,
                value,
            ),
        t is Some && points[points.len() - 1].t <= t->0 ==> cloned::<T>(
            points[points.len() - 1].value,
            value,
        ),
{
    next_is_between(points, t, next);
    if next < points.len() {
        let since = if next > 0 {
            points[next - 1].t
        } else {
            0
        };
        let from = if next > 0 {
            points[next - 1].value
        } else {
            start
        };
        assert(0 <= points[next].t <= PHASE_ONE);
        if next > 0 {
            assert(reached(points[next - 1].t, t));
            let key = |point: Keyframe<T>| point.t as int;
            assert(ascending(points, key));
            assert(key(points[next - 1]) <= key(points[next]));
        }
        assert(!reached(points[next].t, t));
        let local = local_phase(t, since, points[next].t);
        local_phases_are_parts(t, since, points[next].t);
        assert(led_by(from, since, points[next], eval, interp, t, value)) by {
            if !points[next].hold {
                let eased = choose|eased: Option<Phase>| #[trigger]
                    evaluates_to(eval, points[next].ease, local, eased) && call_ensures(
                        interp,
                        (&from, &points[next].value, eased),
                        value,
                    );
                assert(is_eased(eval, points[next].ease, local, eased));
            }
        }
    }
    assert(before_point(t, points[0].t) ==> next == 0);
    assert forall|i: int|
        0 < i < points.len() && t is Some && points[i - 1].t <= t->0 && before_point(
            t,
            (#[trigger] points[i]).t,
        ) implies led_by(
        points[i - 1].value,
        points[i - 1].t,
        points[i],
        eval,
        interp,
        t,
        value,
    ) by {
        assert(reached(points[i - 1].t, t));
        assert(!reached(points[i].t, t));
        assert(next == i);
    }
    if t is Some && points[points.len() - 1].t <= t->0 {
        assert(reached(points[points.len() - 1].t, t));
        assert(next == points.len());
    }
}

/// Whether a write is for the field of an action, on the subject that it is kept under.
pub open spec fn writes_field_of(model: ActionModel, id: ActionId, write: Write) -> bool {
    let key = model.actions[id].key;
    let slot = (key.subject_id.type_id, key.subject_id.uid);
    &&& write.field == key.field
    &&& model.subjects.contains_key(slot)
    &&& write.subject == (Subject {
        type_id: key.subject_id.type_id,
        bits: model.subjects[slot].bits,
    })
}

/// Whether a write puts a field back to its baseline, of which no action is left.
pub open spec fn writes_baseline_of(model: ActionModel, key: ActionKey, write: Write) -> bool {
    &&& model.baselines.contains_key(key)
    &&& forall|id: ActionId| #[trigger] model.has(id) ==> model.actions[id].key != key
    &&& write.field == key.field
    &&& write.subject.type_id == key.subject_id.type_id
    &&& write.subject.bits == model.known[(key.subject_id.type_id, key.subject_id.uid)]
    &&& write.value == model.baselines[key]
}

/// Whether a pipeline is the one of a sequence, and its field can be read and written.
pub open spec fn serves(
    pipeline: PipelineKey,
    fields: Set<UntypedField>,
    key: ActionKey,
) -> bool {
    &&& fields.contains(key.field)
    &&& key.field.source_id == pipeline.source_id
    &&& key.field.target_id == pipeline.target_id
    &&& key.subject_id.type_id == pipeline.subject_id
}

/// Sampling writes nothing but what marked and baked actions give to their own fields,
/// and the baselines of fields without actions; and it writes every one of those that
/// the pipeline serves.
pub proof fn sampling_writes_what_is_marked<H: SubjectSource>(
    source: &H,
    pipeline: PipelineKey,
    fields: Set<UntypedField>,
    model: ActionModel,
    writes: Seq<Write>,
)
    requires
        pipeline_sampled(source, pipeline, fields, model, writes),
    ensures
        forall|i: int|
            0 <= i < writes.len() ==> is_written(source, model, #[trigger] writes[i]),
        forall|id: ActionId| #[trigger]
            model.has(id) && serves(pipeline, fields, model.actions[id].key)
                && model.actions[id].target_type == pipeline.target_id
                && model.actions[id].mark is Some && model.actions[id].segment is Some
                && model.actions[id].interp is Some && model.subjects.contains_key(
                (
                    model.actions[id].key.subject_id.type_id,
                    model.actions[id].key.subject_id.uid,
                ),
            ) ==> exists|i: int|
                0 <= i < writes.len() && sampled_for(source, model, id, #[trigger] writes[i]),
        forall|key: ActionKey| #[trigger]
            model.baselines.contains_key(key) && serves(pipeline, fields, key)
                && model.baselines[key].type_id == pipeline.target_id && (forall|id: ActionId|
                #[trigger]
                model.has(id) ==> model.actions[id].key != key) ==> exists|i: int|
                0 <= i < writes.len() && writes_baseline_of(model, key, #[trigger] writes[i]),
{
    let (order, emptied) = choose|order: Seq<ActionId>, emptied: Seq<ActionKey>|
        {
            &&& #[trigger] writes_match(source, pipeline, model, writes, order, emptied)
            &&& order.no_duplicates()
            &&& forall|id: ActionId| order.contains(id) <==> sampled_by(pipeline, fields, model, id)
            &&& emptied.no_duplicates()
            &&& forall|key: ActionKey|
                emptied.contains(key) <==> restored_by(pipeline, fields, model, key)
        };
    assert forall|i: int| 0 <= i < writes.len() implies is_written(
        source,
        model,
        #[trigger] writes[i],
    ) by {
        if i < order.len() {
            let id = order[i];
            assert(order.contains(id));
            assert(sampled_by(pipeline, fields, model, id));
            assert(is_sample(source, pipeline, model, order[i], writes[i]));
            assert(sampled_for(source, model, id, writes[i]));
        } else {
            let key = emptied[i - order.len()];
            assert(emptied.contains(key));
            assert(restored_by(pipeline, fields, model, key));
            assert(writes[i] == writes[order.len() + (i - order.len())]);
            assert forall|id: ActionId| #[trigger] model.has(id) implies model.actions[id].key
                != key by {
                assert(model.actions.contains_key(id));
            }
            assert(writes_baseline_of(model, key, writes[i]));
        }
    }
    assert forall|id: ActionId| #[trigger]
        model.has(id) && serves(pipeline, fields, model.actions[id].key)
            && model.actions[id].target_type == pipeline.target_id
            && model.actions[id].mark is Some && model.actions[id].segment is Some
            && model.actions[id].interp is Some && model.subjects.contains_key(
            (
                model.actions[id].key.subject_id.type_id,
                model.actions[id].key.subject_id.uid,
            ),
        ) implies exists|i: int|
        0 <= i < writes.len() && sampled_for(source, model, id, #[trigger] writes[i]) by {
        assert(sampled_by(pipeline, fields, model, id));
        assert(order.contains(id));
        let i = choose|i: int| 0 <= i < order.len() && order[i] == id;
        assert(is_sample(source, pipeline, model, order[i], writes[i]));
        assert(sampled_for(source, model, id, writes[i]));
    }
    assert forall|key: ActionKey| #[trigger]
        model.baselines.contains_key(key) && serves(pipeline, fields, key)
            && model.baselines[key].type_id == pipeline.target_id && (forall|id: ActionId| #[trigger]
            model.has(id) ==> model.actions[id].key != key) implies exists|i: int|
        0 <= i < writes.len() && writes_baseline_of(model, key, #[trigger] writes[i]) by {
        assert(!model.in_use(key)) by {
            if model.in_use(key) {
                let id = choose|id: ActionId| #[trigger]
                    model.actions.contains_key(id) && model.actions[id].key == key;
                assert(model.has(id));
            }
        }
        assert(restored_by(pipeline, fields, model, key));
        assert(emptied.contains(key));
        let j = choose|j: int| 0 <= j < emptied.len() && emptied[j] == key;
        let i = order.len() + j;
        assert(writes[i] == restoring(pipeline, model, emptied[j]));
        assert(writes_baseline_of(model, key, writes[i]));
    }
}

/// Whether a write is what a marked and baked action gives to its own field.
pub open spec fn sampled_for<H: SubjectSource>(
    source: &H,
    model: ActionModel,
    id: ActionId,
    write: Write,
) -> bool {
    let record = model.actions[id];
    &&& model.has(id)
    &&& record.mark is Some
    &&& record.segment is Some
    &&& record.interp is Some
    &&& writes_field_of(model, id, write)
    &&& samples_to(
        source,
        record,
        record.segment->0,
        record.mark->0,
        record.interp->0,
        write.value,
    )
}

/// Whether a write is one of a marked action or of a baseline.
pub open spec fn is_written<H: SubjectSource>(
    source: &H,
    model: ActionModel,
    write: Write,
) -> bool {
    ||| exists|id: ActionId| #[trigger] sampled_for(source, model, id, write)
    ||| exists|key: ActionKey| #[trigger] writes_baseline_of(model, key, write)
}

} // verus!
