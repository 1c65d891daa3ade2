//! Baking and sampling the actions of one combination of types.
use crate::action::subjects::slot_of;
use crate::action::world::ActionModel;
use crate::action::{
    Action, ActionClip, ActionId, ActionKey, ActionRecord, ActionWorld, Ease, InterpFn, Keyframe,
    SampleMode, Segment, Value,
};
use crate::registry::{accessible, AccessorRegistry};
use crate::seqs::{push_adds_one, take_one_more};
use crate::subject::{Subject, Tagged, TypeTag, UntypedField};
use crate::table::{RawKey, TableKey};
use crate::time::{
    clamp_phase, clamped_phase, phase_at, phase_of, saturated, ticks_sub, Phase, Ticks,
    PHASE_EPSILON, PHASE_ONE,
};
use crate::track::Track;
use crate::world::SubjectSource;
use core::marker::PhantomData;
use vstd::prelude::*;

pub mod bake_laws;
pub mod laws;
pub mod sample_laws;

verus! {

/// The types of a pipeline, as a value.
pub struct PipelineHandle<W, I, S, T> {
    marker: PhantomData<(W, I, S, T)>,
}

impl<W: Tagged, I: Tagged, S: Tagged, T: Tagged> PipelineHandle<W, I, S, T> {
    /// The handle of the types.
    pub fn new() -> Self {
        PipelineHandle { marker: PhantomData }
    }

    /// The key of the types.
    pub fn as_key(&self) -> (key: PipelineKey)
        ensures
            key == (PipelineKey {
                world_id: W::tag(),
                subject_id: I::tag(),
                source_id: S::tag(),
                target_id: T::tag(),
            }),
    {
        PipelineKey::new::<W, I, S, T>()
    }
}

/// Uniquely identifies a [`Pipeline`] by its world, subject, source,
/// and target types.
#[derive(Debug, Clone, Copy, PartialEq, Eq, Hash, PartialOrd, Ord, Structural)]
pub struct PipelineKey {
    pub world_id: TypeTag,
    pub subject_id: TypeTag,
    pub source_id: TypeTag,
    pub target_id: TypeTag,
}

impl PipelineKey {
    /// The key of the types.
    pub fn new<W: Tagged, I: Tagged, S: Tagged, T: Tagged>() -> (key: Self)
        ensures
            key == (PipelineKey {
                world_id: W::tag(),
                subject_id: I::tag(),
                source_id: S::tag(),
                target_id: T::tag(),
            }),
    {
        PipelineKey {
            world_id: W::type_tag(),
            subject_id: I::type_tag(),
            source_id: S::type_tag(),
            target_id: T::type_tag(),
        }
    }

    /// The pipeline that the actions of `key` go through in the world `world`.
    pub open spec fn of_action_key(world: TypeTag, key: ActionKey) -> Self {
        PipelineKey {
            world_id: world,
            subject_id: key.subject_id.type_id,
            source_id: key.field.source_id,
            target_id: key.field.target_id,
        }
    }

    /// The pipeline that the actions of `key` go through.
    pub fn from_action_key<W: Tagged>(key: ActionKey) -> (pipeline: Self)
        ensures
            pipeline == Self::of_action_key(W::tag(), key),
    {
        PipelineKey {
            world_id: W::type_tag(),
            subject_id: key.subject_id.type_id,
            source_id: key.field.source_id,
            target_id: key.field.target_id,
        }
    }

    /// The tag of the world type `W`.
    pub fn world_id(&self) -> (tag: TypeTag)
        ensures
            tag == self.world_id,
    {
        self.world_id
    }

    /// The tag of the subject id type `I`.
    pub fn subject_id_type(&self) -> (tag: TypeTag)
        ensures
            tag == self.subject_id,
    {
        self.subject_id
    }

    /// The tag of the source (component/asset) type `S`.
    pub fn source_id_type(&self) -> (tag: TypeTag)
        ensures
            tag == self.source_id,
    {
        self.source_id
    }

    /// The tag of the target (field) type `T`.
    pub fn target_id_type(&self) -> (tag: TypeTag)
        ensures
            tag == self.target_id,
    {
        self.target_id
    }
}

impl TableKey for PipelineKey {
    open spec fn raw(self) -> RawKey {
        (self.world_id, self.subject_id, self.source_id, self.target_id, 0)
    }

    proof fn raw_is_injective(a: Self, b: Self) {
    }

    fn to_raw(&self) -> (raw: RawKey) {
        (self.world_id, self.subject_id, self.source_id, self.target_id, 0)
    }
}

/// A pipeline for baking and sampling actions of type `(I, S, T)`.
/// The world type `W` is erased at storage. It must match at call sites.
pub struct Pipeline<W, I, S, T> {
    key: PipelineKey,
    marker: PhantomData<(W, I, S, T)>,
}

impl<W: Tagged, I: Tagged, S: Tagged, T: Tagged> Pipeline<W, I, S, T> {
    /// The types that the pipeline handles.
    pub closed spec fn types(self) -> PipelineKey {
        self.key
    }

    /// The pipeline of the types.
    pub fn new() -> (pipeline: Self)
        ensures
            pipeline.types() == (PipelineKey {
                world_id: W::tag(),
                subject_id: I::tag(),
                source_id: S::tag(),
                target_id: T::tag(),
            }),
    {
        Pipeline { key: PipelineKey::new::<W, I, S, T>(), marker: PhantomData }
    }

    /// The pipeline with its types erased.
    pub fn untyped(&self) -> (pipeline: PipelineUntyped)
        ensures
            pipeline.key == self.types(),
    {
        PipelineUntyped { key: self.key }
    }
}

/// A pipeline with its types erased.
#[derive(Debug, Clone, Copy, PartialEq, Eq, Structural)]
pub struct PipelineUntyped {
    pub key: PipelineKey,
}

/// Whether `end` can be what an action makes of `start`.
pub open spec fn runs_to<H: SubjectSource>(source: &H, action: Action, start: Value, end: Value) -> bool {
    match action {
        Action::Constant(value) => end == value,
        Action::Custom(function) => call_ensures(H::act, (source, function, start), end),
    }
}

/// The world with a segment for `id`.
pub open spec fn with_segment(model: ActionModel, id: ActionId, segment: Segment<Value>) -> ActionModel {
    model.with_record(id, ActionRecord { segment: Some(segment), ..model.actions[id] })
}

/// Whether baking one clip leads from one world and value to another. A muted
/// action keeps the value, and one of another type is passed over.
pub open spec fn clip_baked<H: SubjectSource>(
    source: &H,
    target: TypeTag,
    clip: ActionClip,
    before: (ActionModel, Value),
    after: (ActionModel, Value),
) -> bool {
    let (model, start) = before;
    if !model.has(clip.id) || model.actions[clip.id].target_type != target {
        after == before
    } else if model.actions[clip.id].disabled {
        after == (with_segment(model, clip.id, Segment { start, end: start }), start)
    } else {
        &&& runs_to(source, model.actions[clip.id].action, start, after.1)
        &&& after.0 == with_segment(model, clip.id, Segment { start, end: after.1 })
    }
}

/// Whether the steps of `trace` bake the clips one after another.
pub open spec fn clips_baked<H: SubjectSource>(
    source: &H,
    target: TypeTag,
    clips: Seq<ActionClip>,
    trace: Seq<(ActionModel, Value)>,
) -> bool {
    &&& trace.len() == clips.len() + 1
    &&& forall|i: int|
        0 <= i < clips.len() ==> clip_baked(
            source,
            target,
            #[trigger] clips[i],
            trace[i],
            trace[i + 1],
        )
}

/// Whether baking the clips from the value `start` on leads from one world to
/// another.
pub open spec fn lane_baked<H: SubjectSource>(
    source: &H,
    target: TypeTag,
    clips: Seq<ActionClip>,
    start: Value,
    before: ActionModel,
    after: ActionModel,
) -> bool {
    exists|trace: Seq<(ActionModel, Value)>| #[trigger]
        clips_baked(source, target, clips, trace) && trace.first() == (before, start)
            && trace.last().0 == after
}

/// The world with a baseline for `key`, unless it has one.
pub open spec fn with_baseline(model: ActionModel, key: ActionKey, value: Value) -> ActionModel {
    if model.baselines.contains_key(key) {
        model
    } else {
        ActionModel { baselines: model.baselines.insert(key, value), ..model }
    }
}

/// The subject of a sequence, if it is one of the pipeline's type and has an
/// action.
pub open spec fn subject_of(pipeline: PipelineKey, model: ActionModel, key: ActionKey) -> Option<Subject> {
    let slot = slot_of(key);
    if slot.0 == pipeline.subject_id && model.subjects.contains_key(slot) {
        Some(Subject { type_id: pipeline.subject_id, bits: model.subjects[slot].bits })
    } else {
        None
    }
}

/// The subject of a sequence, if it is one of the pipeline's type and has an
/// action.
fn find_subject(pipeline: &PipelineKey, action_world: &ActionWorld, key: &ActionKey) -> (subject:
    Option<Subject>)
    ensures
        subject == subject_of(*pipeline, action_world@, *key),
{
    if key.subject_id.type_id != pipeline.subject_id {
        return None;
    }
    match action_world.get_id(pipeline.subject_id, &key.subject_id.uid) {
        Some(bits) => Some(Subject { type_id: pipeline.subject_id, bits }),
        None => None,
    }
}

/// Whether baking a sequence leads from one world to another. It starts from
/// the baseline, which is read from the source the first time.
pub open spec fn sequence_baked<H: SubjectSource>(
    source: &H,
    pipeline: PipelineKey,
    fields: Set<UntypedField>,
    key: ActionKey,
    clips: Seq<ActionClip>,
    before: ActionModel,
    after: ActionModel,
) -> bool {
    let target = pipeline.target_id;
    let subject = subject_of(pipeline, before, key);
    if !accessible(fields, key.field, pipeline.source_id, target) || subject is None {
        after == before
    } else {
        match before.baseline(key, target) {
            Some(start) => lane_baked(source, target, clips, start, before, after),
            None => exists|read: Option<Value>| #[trigger]
                call_ensures(H::get_source, (source, subject->0, key.field), read) && match read {
                    None => after == before,
                    Some(start) => lane_baked(
                        source,
                        target,
                        clips,
                        start,
                        with_baseline(before, key, start),
                        after,
                    ),
                },
        }
    }
}

/// Whether the steps of `trace` bake the sequences of a track one after
/// another.
pub open spec fn sequences_baked<H: SubjectSource>(
    source: &H,
    pipeline: PipelineKey,
    fields: Set<UntypedField>,
    track: Track,
    trace: Seq<ActionModel>,
) -> bool {
    &&& trace.len() == track.spans().len() + 1
    &&& forall|i: int|
        0 <= i < track.spans().len() ==> sequence_baked(
            source,
            pipeline,
            fields,
            (#[trigger] track.spans()[i]).0,
            track.clips_in(track.spans()[i].1),
            trace[i],
            trace[i + 1],
        )
}

/// Whether baking a track with one pipeline leads from one world to another.
pub open spec fn track_baked<H: SubjectSource>(
    source: &H,
    pipeline: PipelineKey,
    fields: Set<UntypedField>,
    track: Track,
    before: ActionModel,
    after: ActionModel,
) -> bool {
    exists|trace: Seq<ActionModel>| #[trigger]
        sequences_baked(source, pipeline, fields, track, trace) && trace.first() == before
            && trace.last() == after
}

/// Whether nothing but segments and new baselines changed.
pub open spec fn only_baked(before: ActionModel, after: ActionModel) -> bool {
    &&& after.subjects == before.subjects
    &&& after.known == before.known
    &&& forall|key: ActionKey| #[trigger]
        before.baselines.contains_key(key) ==> after.baselines.contains_key(key)
            && after.baselines[key] == before.baselines[key]
    &&& forall|id: ActionId|
        #![trigger before.actions.contains_key(id)]
        #![trigger after.actions.contains_key(id)]
        before.actions.contains_key(id) <==> after.actions.contains_key(id)
    &&& forall|id: ActionId| #[trigger]
        after.actions.contains_key(id) ==> after.actions[id] == (ActionRecord {
            segment: after.actions[id].segment,
            ..before.actions[id]
        }) && (before.actions[id].segment is Some ==> after.actions[id].segment is Some)
}

impl PipelineUntyped {
    /// The values that the marked actions give to their fields.
    pub fn sample<H: SubjectSource>(
        &self,
        source: &H,
        action_world: &ActionWorld,
        accessors: &AccessorRegistry,
    ) -> (writes: Vec<Write>)
        ensures
            pipeline_sampled(source, self.key, accessors@, action_world@, writes@),
            marked_apart(action_world@) ==> written_once(writes@),
    {
        sample(&self.key, source, action_world, accessors)
    }

    /// Bakes the actions of a track: each gets the values that its field runs
    /// between.
    pub fn bake<H: SubjectSource>(
        &self,
        source: &H,
        track: &Track,
        action_world: &mut ActionWorld,
        accessors: &AccessorRegistry,
    )
        ensures
            track_baked(source, self.key, accessors@, *track, old(action_world)@, final(action_world)@),
            only_baked(old(action_world)@, final(action_world)@),
    {
        bake(&self.key, source, track, action_world, accessors)
    }
}

/// Bakes the actions of a track with one pipeline.
pub fn bake<H: SubjectSource>(
    pipeline: &PipelineKey,
    source: &H,
    track: &Track,
    action_world: &mut ActionWorld,
    accessors: &AccessorRegistry,
)
    ensures
        track_baked(source, *pipeline, accessors@, *track, old(action_world)@, final(action_world)@),
        only_baked(old(action_world)@, final(action_world)@),
{
    let ghost before = action_world@;
    let ghost mut trace: Seq<ActionModel> = seq![before];
    let spans = track.sequences_spans();
    let mut i: usize = 0;
    while i < spans.len()
        invariant
            i <= spans@.len(),
            spans@ == track.spans(),
            track.laid_out(),
            trace.len() == i + 1,
            trace.first() == before,
            trace.last() == action_world@,
            forall|j: int|
                0 <= j < i ==> sequence_baked(
                    source,
                    *pipeline,
                    accessors@,
                    (#[trigger] track.spans()[j]).0,
                    track.clips_in(track.spans()[j].1),
                    trace[j],
                    trace[j + 1],
                ),
            only_baked(before, action_world@),
        decreases spans@.len() - i,
    {
        let (key, span) = spans[i];
        assert(track.spans()[i as int] == (key, span));
        bake_sequence(pipeline, source, &key, track.clips(span), action_world, accessors);
        proof {
            trace = trace.push(action_world@);
        }
        i += 1;
    }
    assert(sequences_baked(source, *pipeline, accessors@, *track, trace));
}

/// Bakes the actions of one sequence.
fn bake_sequence<H: SubjectSource>(
    pipeline: &PipelineKey,
    source: &H,
    key: &ActionKey,
    clips: &[ActionClip],
    action_world: &mut ActionWorld,
    accessors: &AccessorRegistry,
)
    ensures
        sequence_baked(
            source,
            *pipeline,
            accessors@,
            *key,
            clips@,
            old(action_world)@,
            final(action_world)@,
        ),
        only_baked(old(action_world)@, final(action_world)@),
{
    if !accessors.get(&key.field, pipeline.source_id, pipeline.target_id) {
        return;
    }
    let subject = match find_subject(pipeline, action_world, key) {
        Some(subject) => subject,
        None => {
            return;
        },
    };
    let start = match action_world.get_baseline(key, pipeline.target_id) {
        Some(baseline) => baseline,
        None => {
            let read = source.get_source(subject, key.field);
            assert(call_ensures(H::get_source, (source, subject, key.field), read));
            match read {
                Some(baseline) => {
                    action_world.set_baseline(*key, baseline);
                    baseline
                },
                None => {
                    return;
                },
            }
        },
    };
    let ghost ready = action_world@;
    bake_clips(pipeline.target_id, source, clips, start, action_world);
    proof {
        only_baked_twice(old(action_world)@, ready, action_world@);
    }
}

/// Baking twice changes no more than baking once.
pub proof fn only_baked_twice(before: ActionModel, between: ActionModel, after: ActionModel)
    requires
        only_baked(before, between),
        only_baked(between, after),
    ensures
        only_baked(before, after),
{
}

/// Bakes clips one after another, each from the value that the one in front
/// of it leads to.
fn bake_clips<H: SubjectSource>(
    target: TypeTag,
    source: &H,
    clips: &[ActionClip],
    start: Value,
    action_world: &mut ActionWorld,
)
    ensures
        lane_baked(source, target, clips@, start, old(action_world)@, final(action_world)@),
        only_baked(old(action_world)@, final(action_world)@),
{
    let ghost before = action_world@;
    let ghost mut trace: Seq<(ActionModel, Value)> = seq![(before, start)];
    let ghost first = start;
    let mut start = start;
    let mut i: usize = 0;
    while i < clips.len()
        invariant
            i <= clips@.len(),
            trace.len() == i + 1,
            trace.first() == (before, first),
            trace.last() == (action_world@, start),
            forall|j: int|
                0 <= j < i ==> clip_baked(
                    source,
                    target,
                    #[trigger] clips@[j],
                    trace[j],
                    trace[j + 1],
                ),
            only_baked(before, action_world@),
        decreases clips@.len() - i,
    {
        let id = clips[i].id;
        if action_world.get_action(id, target).is_some() && action_world.is_disabled(id) {
            action_world.set_segment(id, Segment::new(start, start));
        } else {
            match action_world.get_action(id, target) {
                Some(action) => {
                    let end = match action {
                        Action::Constant(value) => value,
                        Action::Custom(function) => source.act(function, start),
                    };
                    assert(runs_to(source, action, start, end));
                    action_world.set_segment(id, Segment::new(start, end));
                    start = end;
                },
                None => {},
            }
        }
        proof {
            trace = trace.push((action_world@, start));
        }
        i += 1;
    }
    assert(clips_baked(source, target, clips@, trace));
}

/// Whether the playhead has reached a point.
pub open spec fn reached(point: Phase, t: Option<Phase>) -> bool {
    t is Some && point <= t->0
}

/// Whether `next` is the first of the points that the playhead has not
/// reached.
pub open spec fn is_next_point<T>(points: Seq<Keyframe<T>>, t: Option<Phase>, next: int) -> bool {
    &&& 0 <= next <= points.len()
    &&& forall|i: int| 0 <= i < next ==> reached((#[trigger] points[i]).t, t)
    &&& next < points.len() ==> !reached(points[next].t, t)
}

/// How much of the way from one point to the next has passed.
pub open spec fn local_phase(t: Option<Phase>, from: Phase, to: Phase) -> Option<Phase> {
    let span = saturated(to - from);
    if span <= PHASE_EPSILON {
        Some(PHASE_ONE)
    } else {
        match t {
            Some(t) => Some(clamped_phase(phase_at(saturated(t - from) as int, span as int)->0)),
            None => None,
        }
    }
}

/// How much of the way from one point to the next has passed.
pub fn local_phase_of(t: Option<Phase>, from: Phase, to: Phase) -> (local: Option<Phase>)
    ensures
        local == local_phase(t, from, to),
{
    let span = ticks_sub(to, from);
    if span <= PHASE_EPSILON {
        return Some(PHASE_ONE);
    }
    match t {
        Some(t) => match phase_of(ticks_sub(t, from), span) {
            Some(phase) => Some(clamp_phase(phase)),
            None => None,
        },
        None => None,
    }
}

/// The value that the way to the point at `next` starts from.
pub open spec fn value_before<T>(points: Seq<Keyframe<T>>, start: T, next: int) -> T {
    if next > 0 {
        points[next - 1].value
    } else {
        start
    }
}

/// The time that the way to the point at `next` starts from.
pub open spec fn time_before<T>(points: Seq<Keyframe<T>>, next: int) -> Phase {
    if next > 0 {
        points[next - 1].t
    } else {
        0
    }
}

/// Whether `eased` can be what the ease makes of `t`.
pub open spec fn evaluates_to<E>(
    eval: E,
    ease: Option<Ease>,
    t: Option<Phase>,
    eased: Option<Phase>,
) -> bool where E: Fn(Ease, Option<Phase>) -> Option<Phase> {
    match ease {
        Some(ease) => call_ensures(eval, (ease, t), eased),
        None => eased == t,
    }
}

/// Whether `value` can be what keyframes give. Behind the last point it is
/// the value of that one. Before it, the way leads from the point in front,
/// `start` if there is none, to the next one, which may hold or ease it.
pub open spec fn keyframes_sampled<T, E, F>(
    points: Seq<Keyframe<T>>,
    start: T,
    eval: E,
    interp: F,
    t: Option<Phase>,
    next: int,
    value: T,
) -> bool where
    T: Clone,
    E: Fn(Ease, Option<Phase>) -> Option<Phase>,
    F: Fn(&T, &T, Option<Phase>) -> T,
 {
    if next >= points.len() {
        cloned::<T>(points.last().value, value)
    } else {
        let from = value_before(points, start, next);
        let local = local_phase(t, time_before(points, next), points[next].t);
        if points[next].hold {
            cloned::<T>(from, value)
        } else {
            exists|eased: Option<Phase>| #[trigger]
                evaluates_to(eval, points[next].ease, local, eased) && call_ensures(
                    interp,
                    (&from, &points[next].value, eased),
                    value,
                )
        }
    }
}

/// The value that keyframes give at a part of a clip.
pub fn sample_keyframes<T, E, F>(
    points: &[Keyframe<T>],
    start: &T,
    eval: &E,
    interp: &F,
    t: Option<Phase>,
) -> (value: T) where
    T: Clone,
    E: Fn(Ease, Option<Phase>) -> Option<Phase>,
    F: Fn(&T, &T, Option<Phase>) -> T,

    requires
        points@.len() >= 1,
        forall|ease: Ease, t: Option<Phase>| #[trigger] call_requires(*eval, (ease, t)),
        forall|a: &T, b: &T, t: Option<Phase>| #[trigger] call_requires(*interp, (a, b, t)),
    ensures
        exists|next: int| #[trigger]
            is_next_point(points@, t, next) && keyframes_sampled(
                points@,
                *start,
                *eval,
                *interp,
                t,
                next,
                value,
            ),
{
    let mut next: usize = 0;
    while next < points.len() && has_reached(points[next].t, t)
        invariant
            next <= points@.len(),
            forall|i: int| 0 <= i < next ==> reached((#[trigger] points@[i]).t, t),
        decreases points@.len() - next,
    {
        next += 1;
    }
    assert(is_next_point(points@, t, next as int));
    if next >= points.len() {
        return points[points.len() - 1].value.clone();
    }
    let point = &points[next];
    let (from_t, from): (Phase, &T) = if next > 0 {
        (points[next - 1].t, &points[next - 1].value)
    } else {
        (0, start)
    };
    if point.hold {
        return from.clone();
    }
    let local = local_phase_of(t, from_t, point.t);
    let eased = match point.ease {
        Some(ease) => eval(ease, local),
        None => local,
    };
    assert(evaluates_to(*eval, point.ease, local, eased));
    interp(from, &point.value, eased)
}

/// Whether the playhead has reached a point.
pub(crate) fn has_reached(point: Phase, t: Option<Phase>) -> (has: bool)
    ensures
        has == reached(point, t),
{
    match t {
        Some(t) => point <= t,
        None => false,
    }
}

/// A value that a field of a subject is to have.
#[derive(Debug, Clone, Copy, PartialEq, Eq, Structural)]
pub struct Write {
    pub subject: Subject,
    pub field: UntypedField,
    pub value: Value,
}

/// Whether `eased` can be what the ease makes of `t`. Without an ease it is
/// `t` itself.
pub open spec fn eased_to<H: SubjectSource>(
    source: &H,
    ease: Option<Ease>,
    t: Option<Phase>,
    eased: Option<Phase>,
) -> bool {
    match ease {
        Some(ease) => call_ensures(H::ease, (source, ease, t), eased),
        None => eased == t,
    }
}

/// Whether `value` can be what the keyframes give between `segment.start` and
/// their points.
pub open spec fn keyframes_give<H: SubjectSource>(
    source: &H,
    points: Seq<Keyframe<Value>>,
    start: Value,
    interp: InterpFn,
    t: Option<Phase>,
    next: int,
    value: Value,
) -> bool {
    if next >= points.len() {
        value == points.last().value
    } else {
        let from = value_before(points, start, next);
        let local = local_phase(t, time_before(points, next), points[next].t);
        if points[next].hold {
            value == from
        } else {
            exists|eased: Option<Phase>| #[trigger]
                eased_to(source, points[next].ease, local, eased) && call_ensures(
                    H::interp,
                    (source, interp, from, points[next].value, eased),
                    value,
                )
        }
    }
}

/// Whether `value` can be what an action gives for its mark. A muted action
/// gives what its field starts from.
pub open spec fn samples_to<H: SubjectSource>(
    source: &H,
    record: ActionRecord,
    segment: Segment<Value>,
    mode: SampleMode,
    interp: InterpFn,
    value: Value,
) -> bool {
    if record.disabled {
        value == segment.start
    } else {
        match mode {
            SampleMode::Start => value == segment.start,
            SampleMode::End => value == segment.end,
            SampleMode::Interp(t) => exists|eased: Option<Phase>| #[trigger]
                eased_to(source, record.ease, t, eased) && match record.keyframes {
                    Some(keyframes) => exists|next: int| #[trigger]
                        is_next_point(keyframes@, eased, next) && keyframes_give(
                            source,
                            keyframes@,
                            segment.start,
                            interp,
                            eased,
                            next,
                            value,
                        ),
                    None => call_ensures(
                        H::interp,
                        (source, interp, segment.start, segment.end, eased),
                        value,
                    ),
                },
        }
    }
}

/// The value that keyframes give at a part of a clip, with the functions of a
/// source.
fn sample_value_keyframes<H: SubjectSource>(
    source: &H,
    points: &[Keyframe<Value>],
    start: Value,
    interp: InterpFn,
    t: Option<Phase>,
) -> (value: Value)
    requires
        points@.len() >= 1,
    ensures
        exists|next: int| #[trigger]
            is_next_point(points@, t, next) && keyframes_give(
                source,
                points@,
                start,
                interp,
                t,
                next,
                value,
            ),
{
    let eval = |ease: Ease, t: Option<Phase>| -> (eased: Option<Phase>)
        ensures
            call_ensures(H::ease, (source, ease, t), eased),
        { source.ease(ease, t) };
    let between = |a: &Value, b: &Value, t: Option<Phase>| -> (value: Value)
        ensures
            call_ensures(H::interp, (source, interp, *a, *b, t), value),
        { source.interp(interp, *a, *b, t) };
    let value = sample_keyframes(points, &start, &eval, &between, t);
    proof {
        let next = choose|next: int| #[trigger]
            is_next_point(points@, t, next) && keyframes_sampled(
                points@,
                start,
                eval,
                between,
                t,
                next,
                value,
            );
        if next < points@.len() && !points@[next].hold {
            let from = value_before(points@, start, next);
            let local = local_phase(t, time_before(points@, next), points@[next].t);
            let eased = choose|eased: Option<Phase>| #[trigger]
                evaluates_to(eval, points@[next].ease, local, eased) && call_ensures(
                    between,
                    (&from, &points@[next].value, eased),
                    value,
                );
            assert(eased_to(source, points@[next].ease, local, eased));
        }
        assert(keyframes_give(source, points@, start, interp, t, next, value));
    }
    value
}

/// The value that an action gives for its mark.
pub fn sample_action<H: SubjectSource>(
    source: &H,
    record: &ActionRecord,
    segment: Segment<Value>,
    mode: SampleMode,
    interp: InterpFn,
) -> (value: Value)
    ensures
        samples_to(source, *record, segment, mode, interp, value),
{
    if record.disabled {
        return segment.start;
    }
    match mode {
        SampleMode::Start => segment.start,
        SampleMode::End => segment.end,
        SampleMode::Interp(t) => {
            let eased = match record.ease {
                Some(ease) => source.ease(ease, t),
                None => t,
            };
            assert(eased_to(source, record.ease, t, eased));
            match &record.keyframes {
                Some(keyframes) => sample_value_keyframes(
                    source,
                    keyframes.points(),
                    segment.start,
                    interp,
                    eased,
                ),
                None => source.interp(interp, segment.start, segment.end, eased),
            }
        },
    }
}

/// Whether the pipeline samples an action: it is marked, baked and has an
/// interpolation, and its subject and field can be written.
pub open spec fn sampled_by(
    pipeline: PipelineKey,
    fields: Set<UntypedField>,
    model: ActionModel,
    id: ActionId,
) -> bool {
    &&& model.has(id)
    &&& model.actions[id].target_type == pipeline.target_id
    &&& model.actions[id].mark is Some
    &&& model.actions[id].segment is Some
    &&& model.actions[id].interp is Some
    &&& accessible(fields, model.actions[id].key.field, pipeline.source_id, pipeline.target_id)
    &&& subject_of(pipeline, model, model.actions[id].key) is Some
}

/// Whether the pipeline restores the baseline of a sequence that has lost all
/// of its actions: its types are those of the pipeline, and its field can be
/// written.
pub open spec fn restored_by(
    pipeline: PipelineKey,
    fields: Set<UntypedField>,
    model: ActionModel,
    key: ActionKey,
) -> bool {
    &&& model.emptied(key)
    &&& accessible(fields, key.field, pipeline.source_id, pipeline.target_id)
    &&& key.subject_id.type_id == pipeline.subject_id
    &&& model.baseline(key, pipeline.target_id) is Some
}

/// Whether `write` is what sampling an action gives.
pub open spec fn is_sample<H: SubjectSource>(
    source: &H,
    pipeline: PipelineKey,
    model: ActionModel,
    id: ActionId,
    write: Write,
) -> bool {
    let record = model.actions[id];
    &&& write.subject == subject_of(pipeline, model, record.key)->0
    &&& write.field == record.key.field
    &&& samples_to(
        source,
        record,
        record.segment->0,
        record.mark->0,
        record.interp->0,
        write.value,
    )
}

/// The write that restores the baseline of a sequence.
pub open spec fn restoring(pipeline: PipelineKey, model: ActionModel, key: ActionKey) -> Write {
    Write {
        subject: Subject { type_id: pipeline.subject_id, bits: model.known[slot_of(key)] },
        field: key.field,
        value: model.baseline(key, pipeline.target_id)->0,
    }
}

/// Whether the writes sample the actions of `order` and then restore the
/// sequences of `emptied`.
pub open spec fn writes_match<H: SubjectSource>(
    source: &H,
    pipeline: PipelineKey,
    model: ActionModel,
    writes: Seq<Write>,
    order: Seq<ActionId>,
    emptied: Seq<ActionKey>,
) -> bool {
    &&& writes.len() == order.len() + emptied.len()
    &&& forall|i: int|
        0 <= i < order.len() ==> is_sample(
            source,
            pipeline,
            model,
            #[trigger] order[i],
            writes[i],
        )
    &&& forall|j: int|
        0 <= j < emptied.len() ==> writes[order.len() + j] == restoring(
            pipeline,
            model,
            #[trigger] emptied[j],
        )
}

/// Whether the writes are what one pipeline samples: every action that it
/// samples, once, then every sequence that it restores, once.
pub open spec fn pipeline_sampled<H: SubjectSource>(
    source: &H,
    pipeline: PipelineKey,
    fields: Set<UntypedField>,
    model: ActionModel,
    writes: Seq<Write>,
) -> bool {
    exists|order: Seq<ActionId>, emptied: Seq<ActionKey>|
        {
            &&& #[trigger] writes_match(source, pipeline, model, writes, order, emptied)
            &&& order.no_duplicates()
            &&& forall|id: ActionId|
                order.contains(id) <==> sampled_by(pipeline, fields, model, id)
            &&& emptied.no_duplicates()
            &&& forall|key: ActionKey|
                emptied.contains(key) <==> restored_by(pipeline, fields, model, key)
        }
}

/// Whether no two actions of one sequence are marked.
pub open spec fn marked_apart(model: ActionModel) -> bool {
    forall|a: ActionId, b: ActionId|
        {
            &&& #[trigger] model.actions.contains_key(a)
            &&& #[trigger] model.actions.contains_key(b)
            &&& model.actions[a].mark is Some
            &&& model.actions[b].mark is Some
            &&& model.actions[a].key == model.actions[b].key
        } ==> a == b
}

/// Whether no field of a subject is written twice.
pub open spec fn written_once(writes: Seq<Write>) -> bool {
    forall|i: int, j: int|
        0 <= i < j < writes.len() ==> !((#[trigger] writes[i]).subject == (
        #[trigger] writes[j]).subject && writes[i].field == writes[j].field)
}

/// The key of the sequence that a write is for.
spec fn key_written(
    model: ActionModel,
    order: Seq<ActionId>,
    emptied: Seq<ActionKey>,
    i: int,
) -> ActionKey {
    if i < order.len() {
        model.actions[order[i]].key
    } else {
        emptied[i - order.len()]
    }
}

/// Sampling writes no field twice, where no two actions of one sequence are
/// marked: a field whose actions are all gone has no other sequence.
pub proof fn sampling_writes_once<H: SubjectSource>(
    source: &H,
    pipeline: PipelineKey,
    fields: Set<UntypedField>,
    model: ActionModel,
    writes: Seq<Write>,
)
    requires
        model.coherent(),
        marked_apart(model),
        pipeline_sampled(source, pipeline, fields, model, writes),
    ensures
        written_once(writes),
{
    let (order, emptied) = choose|order: Seq<ActionId>, emptied: Seq<ActionKey>|
        {
            &&& #[trigger] writes_match(source, pipeline, model, writes, order, emptied)
            &&& order.no_duplicates()
            &&& forall|id: ActionId|
                order.contains(id) <==> sampled_by(pipeline, fields, model, id)
            &&& emptied.no_duplicates()
            &&& forall|key: ActionKey|
                emptied.contains(key) <==> restored_by(pipeline, fields, model, key)
        };
    let n = order.len();
    assert forall|i: int| 0 <= i < writes.len() implies {
        let key = #[trigger] key_written(model, order, emptied, i);
        &&& model.known.contains_key(slot_of(key))
        &&& writes[i].subject == (Subject {
            type_id: slot_of(key).0,
            bits: model.known[slot_of(key)],
        })
        &&& writes[i].field == key.field
        &&& i < n <==> model.in_use(key)
    } by {
        let key = key_written(model, order, emptied, i);
        if i < n {
            assert(order.contains(order[i]));
            assert(sampled_by(pipeline, fields, model, order[i]));
            assert(is_sample(source, pipeline, model, order[i], writes[i]));
            assert(model.subjects.contains_key(slot_of(key)));
            assert(model.actions.contains_key(order[i]));
        } else {
            assert(emptied.contains(emptied[i - n]));
            assert(restored_by(pipeline, fields, model, key));
            assert(writes[n + (i - n)] == restoring(pipeline, model, emptied[i - n]));
            assert(model.baselines.contains_key(key));
        }
    }
    assert forall|i: int, j: int| 0 <= i < j < writes.len() implies !((
    #[trigger] writes[i]).subject == (#[trigger] writes[j]).subject && writes[i].field
        == writes[j].field) by {
        let (a, b) = (
            key_written(model, order, emptied, i),
            key_written(model, order, emptied, j),
        );
        if writes[i].subject == writes[j].subject && writes[i].field == writes[j].field {
            assert(slot_of(a) == slot_of(b));
            assert(a == b);
            if i < n {
                assert(order.contains(order[i]) && order.contains(order[j]));
                assert(sampled_by(pipeline, fields, model, order[i]));
                assert(sampled_by(pipeline, fields, model, order[j]));
                assert(order[i] == order[j]);
            } else {
                assert(emptied[i - n] == emptied[j - n]);
            }
        }
    }
}

/// What a pipeline writes is of its types.
pub proof fn writes_are_typed<H: SubjectSource>(
    source: &H,
    pipeline: PipelineKey,
    fields: Set<UntypedField>,
    model: ActionModel,
    writes: Seq<Write>,
)
    requires
        pipeline_sampled(source, pipeline, fields, model, writes),
    ensures
        forall|i: int|
            0 <= i < writes.len() ==> {
                &&& (#[trigger] writes[i]).subject.type_id == pipeline.subject_id
                &&& writes[i].field.source_id == pipeline.source_id
                &&& writes[i].field.target_id == pipeline.target_id
            },
{
    let (order, emptied) = choose|order: Seq<ActionId>, emptied: Seq<ActionKey>|
        {
            &&& #[trigger] writes_match(source, pipeline, model, writes, order, emptied)
            &&& order.no_duplicates()
            &&& forall|id: ActionId|
                order.contains(id) <==> sampled_by(pipeline, fields, model, id)
            &&& emptied.no_duplicates()
            &&& forall|key: ActionKey|
                emptied.contains(key) <==> restored_by(pipeline, fields, model, key)
        };
    let n = order.len();
    assert forall|i: int| 0 <= i < writes.len() implies {
        &&& (#[trigger] writes[i]).subject.type_id == pipeline.subject_id
        &&& writes[i].field.source_id == pipeline.source_id
        &&& writes[i].field.target_id == pipeline.target_id
    } by {
        if i < n {
            assert(order.contains(order[i]));
            assert(sampled_by(pipeline, fields, model, order[i]));
            assert(is_sample(source, pipeline, model, order[i], writes[i]));
        } else {
            assert(emptied.contains(emptied[i - n]));
            assert(restored_by(pipeline, fields, model, emptied[i - n]));
            assert(writes[n + (i - n)] == restoring(pipeline, model, emptied[i - n]));
        }
    }
}

/// The values that the marked actions of one pipeline give to their fields.
/// No field is written twice, unless several actions of one sequence are marked.
pub fn sample<H: SubjectSource>(
    pipeline: &PipelineKey,
    source: &H,
    action_world: &ActionWorld,
    accessors: &AccessorRegistry,
) -> (writes: Vec<Write>)
    ensures
        pipeline_sampled(source, *pipeline, accessors@, action_world@, writes@),
        marked_apart(action_world@) ==> written_once(writes@),
{
    let ghost model = action_world@;
    let ids = action_world.ids();
    let mut writes: Vec<Write> = Vec::new();
    let ghost mut order: Seq<ActionId> = Seq::empty();
    let mut i: usize = 0;
    while i < ids.len()
        invariant
            i <= ids@.len(),
            ids@.no_duplicates(),
            model == action_world@,
            forall|id: ActionId| ids@.contains(id) <==> model.has(id),
            order.no_duplicates(),
            forall|id: ActionId|
                #![trigger order.contains(id)]
                #![trigger ids@.take(i as int).contains(id)]
                order.contains(id) <==> ids@.take(i as int).contains(id) && sampled_by(
                    *pipeline,
                    accessors@,
                    model,
                    id,
                ),
            writes@.len() == order.len(),
            forall|j: int|
                0 <= j < order.len() ==> is_sample(
                    source,
                    *pipeline,
                    model,
                    #[trigger] order[j],
                    writes@[j],
                ),
        decreases ids@.len() - i,
    {
        let id = ids[i];
        let ghost sampled = order;
        proof {
            take_one_more(ids@, i as int);
            assert(ids@.contains(id));
        }
        match sample_one(pipeline, source, action_world, accessors, id) {
            Some(write) => {
                writes.push(write);
                proof {
                    order = order.push(id);
                    push_adds_one(sampled, id);
                }
            },
            None => {},
        }
        assert forall|k: ActionId|
            #![trigger order.contains(k)]
            #![trigger ids@.take(i + 1).contains(k)]
            order.contains(k) <==> ids@.take(i + 1).contains(k) && sampled_by(
                *pipeline,
                accessors@,
                model,
                k,
            ) by {
            assert(sampled.contains(k) <==> ids@.take(i as int).contains(k) && sampled_by(
                *pipeline,
                accessors@,
                model,
                k,
            ));
        }
        i += 1;
    }
    assert(ids@.take(i as int) =~= ids@);
    let keys = action_world.emptied_baseline_keys();
    let ghost mut emptied: Seq<ActionKey> = Seq::empty();
    let mut k: usize = 0;
    while k < keys.len()
        invariant
            k <= keys@.len(),
            keys@.no_duplicates(),
            model == action_world@,
            forall|key: ActionKey| keys@.contains(key) <==> model.emptied(key),
            emptied.no_duplicates(),
            forall|key: ActionKey|
                #![trigger emptied.contains(key)]
                #![trigger keys@.take(k as int).contains(key)]
                emptied.contains(key) <==> keys@.take(k as int).contains(key) && restored_by(
                    *pipeline,
                    accessors@,
                    model,
                    key,
                ),
            writes_match(source, *pipeline, model, writes@, order, emptied),
        decreases keys@.len() - k,
    {
        let key = keys[k];
        let ghost restored = emptied;
        proof {
            take_one_more(keys@, k as int);
            assert(keys@.contains(key));
        }
        match restore_one(pipeline, action_world, accessors, key) {
            Some(write) => {
                writes.push(write);
                proof {
                    emptied = emptied.push(key);
                    push_adds_one(restored, key);
                }
            },
            None => {},
        }
        assert forall|x: ActionKey|
            #![trigger emptied.contains(x)]
            #![trigger keys@.take(k + 1).contains(x)]
            emptied.contains(x) <==> keys@.take(k + 1).contains(x) && restored_by(
                *pipeline,
                accessors@,
                model,
                x,
            ) by {
            assert(restored.contains(x) <==> keys@.take(k as int).contains(x) && restored_by(
                *pipeline,
                accessors@,
                model,
                x,
            ));
        }
        k += 1;
    }
    assert(keys@.take(k as int) =~= keys@);
    proof {
        if marked_apart(model) {
            sampling_writes_once(source, *pipeline, accessors@, model, writes@);
        }
    }
    writes
}

/// The write of one action, if the pipeline samples it.
fn sample_one<H: SubjectSource>(
    pipeline: &PipelineKey,
    source: &H,
    action_world: &ActionWorld,
    accessors: &AccessorRegistry,
    id: ActionId,
) -> (write: Option<Write>)
    ensures
        write is Some <==> sampled_by(*pipeline, accessors@, action_world@, id),
        write is Some ==> is_sample(source, *pipeline, action_world@, id, write->0),
{
    let record = match action_world.record(id) {
        Some(record) => record,
        None => {
            return None;
        },
    };
    if record.target_type != pipeline.target_id {
        return None;
    }
    if !accessors.get(&record.key.field, pipeline.source_id, pipeline.target_id) {
        return None;
    }
    let subject = match find_subject(pipeline, action_world, &record.key) {
        Some(subject) => subject,
        None => {
            return None;
        },
    };
    match (record.mark, record.segment, record.interp) {
        (Some(mode), Some(segment), Some(interp)) => {
            let value = sample_action(source, record, segment, mode, interp);
            Some(
                Write { subject, field: record.key.field, value },
            )
        },
        _ => None,
    }
}

/// The write that restores a sequence, if the pipeline does.
fn restore_one(
    pipeline: &PipelineKey,
    action_world: &ActionWorld,
    accessors: &AccessorRegistry,
    key: ActionKey,
) -> (write: Option<Write>)
    requires
        action_world@.emptied(key),
    ensures
        write is Some <==> restored_by(*pipeline, accessors@, action_world@, key),
        write is Some ==> write->0 == restoring(*pipeline, action_world@, key),
{
    if !accessors.get(&key.field, pipeline.source_id, pipeline.target_id) {
        return None;
    }
    if key.subject_id.type_id != pipeline.subject_id {
        return None;
    }
    let bits = match action_world.baseline_owner(&key) {
        Some(bits) => bits,
        None => {
            return None;
        },
    };
    match action_world.get_baseline(&key, pipeline.target_id) {
        Some(value) => Some(
            Write {
                subject: Subject { type_id: pipeline.subject_id, bits },
                field: key.field,
                value,
            },
        ),
        None => None,
    }
}

/// A stretch of time.
#[derive(Default, Debug, PartialEq, Eq, Clone, Copy, Structural)]
pub struct Range {
    pub start: Ticks,
    pub end: Ticks,
}

impl Range {
    /// Whether some time is in both ranges, ends included.
    pub open spec fn overlaps(self, other: Self) -> bool {
        self.start <= other.end && other.start <= self.end
    }

    /// Calculate if 2 [`Range`]s overlap.
    pub fn overlap(&self, other: &Self) -> (overlap: bool)
        ensures
            overlap == self.overlaps(*other),
    {
        self.start <= other.end && other.start <= self.end
    }
}

/// Two ranges that do not run backwards overlap exactly where they share a
/// time.
pub proof fn overlap_is_a_shared_time(a: Range, b: Range)
    requires
        a.start <= a.end,
        b.start <= b.end,
    ensures
        a.overlaps(b) <==> exists|t: Ticks|
            #![trigger time_inside(a, t)]
            time_inside(a, t) && time_inside(b, t),
        a.overlaps(b) == b.overlaps(a),
{
    if a.overlaps(b) {
        let t = if a.start >= b.start {
            a.start
        } else {
            b.start
        };
        assert(time_inside(a, t) && time_inside(b, t));
    }
}

/// Whether a time is in a range, ends included.
pub open spec fn time_inside(range: Range, t: Ticks) -> bool {
    range.start <= t <= range.end
}

/// The world with the record of an action as it was in another one.
pub open spec fn with_record_of(model: ActionModel, other: ActionModel, id: ActionId) -> ActionModel {
    model.with_record(id, other.actions[id])
}

/// A muted clip behaves exactly as if it were absent: baking the clips without
/// it leads to the same value, and to the same world but for the muted action
/// itself, whose field rests at the value that it starts from.
pub proof fn muted_clips_are_absent<H: SubjectSource>(
    source: &H,
    target: TypeTag,
    clips: Seq<ActionClip>,
    trace: Seq<(ActionModel, Value)>,
    k: int,
) -> (without: Seq<(ActionModel, Value)>)
    requires
        0 <= k < clips.len(),
        clips_baked(source, target, clips, trace),
        trace[k].0.has(clips[k].id),
        trace[k].0.actions[clips[k].id].target_type == target,
        trace[k].0.actions[clips[k].id].disabled,
        forall|i: int|
            0 <= i < clips.len() && i != k ==> (#[trigger] clips[i]).id != clips[k].id,
    ensures
        clips_baked(source, target, clips.remove(k), without),
        without.first() == trace.first(),
        without.last().1 == trace.last().1,
        without.last().0 == with_record_of(trace.last().0, trace[k].0, clips[k].id),
        trace[k + 1].0.actions[clips[k].id].segment == Some(
            Segment { start: trace[k].1, end: trace[k].1 },
        ),
{
    let id = clips[k].id;
    let kept = trace[k].0;
    let fewer = clips.remove(k);
    let without = Seq::new(
        clips.len(),
        |i: int|
            if i <= k {
                trace[i]
            } else {
                (with_record_of(trace[i + 1].0, kept, id), trace[i + 1].1)
            },
    );
    assert(clip_baked(source, target, clips[k], trace[k], trace[k + 1]));
    assert(with_record_of(trace[k + 1].0, kept, id) =~= kept);
    assert forall|i: int| 0 <= i < fewer.len() implies clip_baked(
        source,
        target,
        #[trigger] fewer[i],
        without[i],
        without[i + 1],
    ) by {
        if i < k {
            assert(fewer[i] == clips[i]);
            assert(clip_baked(source, target, clips[i], trace[i], trace[i + 1]));
        } else {
            let clip = clips[i + 1];
            assert(fewer[i] == clip);
            assert(clip_baked(source, target, clip, trace[i + 1], trace[i + 2]));
            let model = trace[i + 1].0;
            let after = trace[i + 2].0;
            assert(without[i] == (with_record_of(model, kept, id), trace[i + 1].1));
            assert(without[i + 1] == (with_record_of(after, kept, id), trace[i + 2].1));
            assert(clip.id != id);
            if model.has(clip.id) && model.actions[clip.id].target_type == target {
                let segment = after.actions[clip.id].segment->0;
                assert(after == with_segment(model, clip.id, segment));
                assert(with_record_of(after, kept, id) =~= with_segment(
                    with_record_of(model, kept, id),
                    clip.id,
                    segment,
                ));
            }
        }
    }
    if k == clips.len() - 1 {
        assert(without.last() == trace[k]);
        assert(trace.last() == trace[k + 1]);
    } else {
        assert(trace.last() == trace[clips.len() as int]);
        assert(without.last() == without[clips.len() - 1]);
    }
    without
}

} // verus!
