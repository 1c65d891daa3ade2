use motiongfx::action::world::ActionWorld;
use motiongfx::action::{
    Action, ActionId, CubicBezier, Ease, EaseFn, InterpFn, Keyframe, KeyframesStorage, Value,
};
use motiongfx::bevy_motiongfx::world::{BevyTimeline, BevyTimelineBuilder, BevyWorld};
use motiongfx::pipeline::{
    local_phase_of, sample_keyframes, Pipeline, PipelineHandle, PipelineKey, Range,
};
use motiongfx::registry::Registry;
use motiongfx::remote::{RemoteFieldKey, RemoteTarget};
use motiongfx::subject::{EntityId, Subject, UntypedField, BEVY_WORLD_TAG, ENTITY_TAG};
use motiongfx::time::{phase_of, Phase, Ticks, PHASE_ONE, TICKS_PER_SECOND};
use motiongfx::track::ordering::TrackOrdering;
use motiongfx::world::SubjectSource;

const FLOAT: u64 = 100;
const SOURCE: u64 = 101;
const QUAD_IN: u64 = 1;
const ADD_TEN: u64 = 7;

fn seconds(count: i64) -> Ticks {
    count * TICKS_PER_SECOND
}

fn phase(t: f64) -> Option<Phase> {
    Some((t * PHASE_ONE as f64) as Phase)
}

fn ratio(t: Option<Phase>) -> f64 {
    match t {
        Some(t) => t as f64 / PHASE_ONE as f64,
        None => f64::NAN,
    }
}

fn value(number: f64) -> Value {
    Value { type_id: FLOAT, handle: number.to_bits() }
}

fn number(value: Value) -> f64 {
    f64::from_bits(value.handle)
}

fn field(path: u64) -> UntypedField {
    UntypedField { source_id: SOURCE, target_id: FLOAT, path }
}

fn entity(bits: u64) -> Subject {
    Subject { type_id: ENTITY_TAG, bits }
}

/// A world in which each field of each subject holds one number.
struct Numbers {
    fields: Vec<(Subject, UntypedField, Value)>,
}

impl SubjectSource for Numbers {
    fn get_source(&self, subject: Subject, field: UntypedField) -> Option<Value> {
        self.fields
            .iter()
            .find(|entry| entry.0 == subject && entry.1 == field)
            .map(|entry| entry.2)
    }

    fn act(&self, action: u64, start: Value) -> Value {
        assert_eq!(action, ADD_TEN);
        value(number(start) + 10.0)
    }

    fn ease(&self, ease: Ease, t: Option<Phase>) -> Option<Phase> {
        match ease {
            Ease::Fn(EaseFn { id: QUAD_IN }) => phase(ratio(t) * ratio(t)),
            _ => t,
        }
    }

    fn interp(&self, _: InterpFn, start: Value, end: Value, t: Option<Phase>) -> Value {
        value(number(start) + (number(end) - number(start)) * ratio(t))
    }
}

const LERP: InterpFn = InterpFn { id: 1 };

fn kf(t: f64, value: f32) -> Keyframe<f32> {
    Keyframe { t: (t * PHASE_ONE as f64) as Phase, value, ease: None, hold: false }
}

fn sampled(points: &[Keyframe<f32>], start: f32, t: f64) -> f32 {
    let eval = |ease: Ease, t: Option<Phase>| match ease {
        Ease::Fn(EaseFn { id: QUAD_IN }) => phase(ratio(t) * ratio(t)),
        _ => t,
    };
    let lerp = |a: &f32, b: &f32, t: Option<Phase>| a + (b - a) * ratio(t) as f32;
    sample_keyframes(points, &start, &eval, &lerp, phase(t))
}

#[test]
fn keyframes_interpolate_with_implicit_anchor_and_hold() {
    let points = [kf(0.5, 20.0), kf(0.75, 40.0)];

    assert_eq!(sampled(&points, 10.0, 0.0), 10.0);
    assert_eq!(sampled(&points, 10.0, 0.25), 15.0);
    assert_eq!(sampled(&points, 10.0, 0.625), 30.0);
    assert_eq!(sampled(&points, 10.0, 0.75), 40.0);
    assert_eq!(sampled(&points, 10.0, 0.9), 40.0);
    assert_eq!(sampled(&points, 10.0, 1.0), 40.0);
}

#[test]
fn keyframes_segment_ease_and_snap() {
    let points = [Keyframe {
        t: PHASE_ONE,
        value: 100.0,
        ease: Some(Ease::from(EaseFn { id: QUAD_IN })),
        hold: false,
    }];

    assert_eq!(sampled(&points, 0.0, 0.5), 25.0);

    let points = [kf(0.0, 50.0), kf(1.0, 100.0)];
    assert_eq!(sampled(&points, 0.0, 0.0), 50.0);
    assert_eq!(sampled(&points, 0.0, 0.5), 75.0);

    let points = [kf(0.5, 1.0), kf(0.5, 9.0), kf(1.0, 9.0)];
    assert_eq!(sampled(&points, 1.0, 0.4), 1.0);
    assert_eq!(sampled(&points, 1.0, 0.6), 9.0);
}

#[test]
fn range_overlap_behavior() {
    let a = Range { start: 0, end: seconds(5) };
    let b = Range { start: seconds(3), end: seconds(8) };
    let c = Range { start: seconds(6), end: seconds(10) };
    // Touching boundary.
    let d = Range { start: seconds(5), end: seconds(5) };

    assert!(a.overlap(&b), "Overlapping ranges should return true");
    assert!(!a.overlap(&c), "Separated ranges should return false");
    assert!(a.overlap(&d), "Touching at end should count as overlap");
}

#[test]
fn a_held_keyframe_is_reached_all_at_once() {
    let points = [
        Keyframe { t: PHASE_ONE / 2, value: 4.0, ease: None, hold: true },
        kf(1.0, 8.0),
    ];
    assert_eq!(sampled(&points, 2.0, 0.25), 2.0);
    assert_eq!(sampled(&points, 2.0, 0.5), 4.0);
    assert_eq!(sampled(&points, 2.0, 0.75), 6.0);
    assert_eq!(sampled(&points, 2.0, 1.0), 8.0);
}

#[test]
fn stored_keyframes_are_clamped_and_sorted() {
    let storage = KeyframesStorage::new(vec![kf(2.0, 1.0), kf(-1.0, 2.0), kf(0.5, 3.0)]);
    let points: Vec<(Phase, f32)> =
        storage.points().iter().map(|point| (point.t, point.value)).collect();
    assert_eq!(points, vec![(0, 2.0), (PHASE_ONE / 2, 3.0), (PHASE_ONE, 1.0)]);
}

#[test]
fn a_phase_is_the_share_of_the_length() {
    assert_eq!(phase_of(seconds(1), seconds(4)), Some(PHASE_ONE / 4));
    assert_eq!(phase_of(seconds(-1), seconds(4)), Some(-PHASE_ONE / 4));
    assert_eq!(phase_of(seconds(1), 0), None);
    assert_eq!(
        local_phase_of(phase(0.75), PHASE_ONE / 2, PHASE_ONE),
        Some(PHASE_ONE / 2)
    );
}

#[test]
fn the_keys_of_a_handle_and_of_a_pipeline_agree() {
    let handle = PipelineHandle::<BevyWorld, EntityId, EntityId, EntityId>::new();
    let pipeline = Pipeline::<BevyWorld, EntityId, EntityId, EntityId>::new();
    let key = handle.as_key();
    assert_eq!(key, PipelineKey::new::<BevyWorld, EntityId, EntityId, EntityId>());
    assert_eq!(pipeline.untyped().key, key);
    assert_eq!(key.subject_id_type(), ENTITY_TAG);
}

/// A timeline that moves one field to 10 in a second and on by ten in another.
fn two_steps(registry: &mut Registry) -> (BevyTimeline, ActionId, ActionId) {
    let mut builder = BevyTimelineBuilder::new();
    registry.register(
        PipelineKey {
            world_id: PipelineKey::new::<BevyWorld, EntityId, EntityId, EntityId>().world_id,
            subject_id: ENTITY_TAG,
            source_id: SOURCE,
            target_id: FLOAT,
        },
        field(1),
    );
    let first = builder.act(registry, entity(3), field(1), Action::Constant(value(10.0)), LERP);
    let second = builder.act(registry, entity(3), field(1), Action::Custom(ADD_TEN), LERP);
    let ids = (first.id(), second.id());
    let track = vec![first.play(seconds(1)), second.play(seconds(1))].ord_chain();
    builder.add_tracks(vec![track.compile()]);
    (builder.compile(), ids.0, ids.1)
}

fn world() -> Numbers {
    Numbers { fields: vec![(entity(3), field(1), value(2.0))] }
}

fn written(timeline: &BevyTimeline, registry: &Registry) -> Vec<f64> {
    timeline
        .sample_queued_actions(registry, &world())
        .iter()
        .map(|write| {
            assert_eq!(write.subject, entity(3));
            assert_eq!(write.field, field(1));
            number(write.value)
        })
        .collect()
}

#[test]
fn a_timeline_is_baked_queued_and_sampled() {
    let mut registry = Registry::new();
    let (mut timeline, first, second) = two_steps(&mut registry);
    timeline.bake_actions(&registry, &world());

    let segment = timeline.action_world().get_segment(first, FLOAT).unwrap();
    assert_eq!((number(segment.start), number(segment.end)), (2.0, 10.0));
    let segment = timeline.action_world().get_segment(second, FLOAT).unwrap();
    assert_eq!((number(segment.start), number(segment.end)), (10.0, 20.0));

    timeline.set_target_time(seconds(1) / 2);
    timeline.queue_actions();
    assert_eq!(timeline.queue_cache().iter_ids(), vec![first]);
    assert_eq!(written(&timeline, &registry), vec![6.0]);

    // Crossing into the next clip leaves the first one behind.
    timeline.set_target_time(seconds(1) + seconds(1) / 2);
    timeline.queue_actions();
    assert_eq!(timeline.queue_cache().iter_ids(), vec![second]);
    assert_eq!(written(&timeline, &registry), vec![15.0]);

    // The target time is held inside the track.
    timeline.set_target_time(seconds(9));
    assert_eq!(timeline.target_time(), seconds(2));
    timeline.queue_actions();
    assert!(timeline.is_complete());
    assert_eq!(written(&timeline, &registry), vec![20.0]);

    // And back to before everything.
    timeline.set_target_time(seconds(-1));
    timeline.queue_actions();
    assert_eq!(timeline.curr_time(), 0);
    assert_eq!(written(&timeline, &registry), vec![2.0]);
}

#[test]
fn a_muted_clip_is_as_good_as_absent() {
    let mut registry = Registry::new();
    let (mut timeline, first, second) = two_steps(&mut registry);
    assert_eq!(timeline.set_action_enabled(first, false), Ok(()));
    assert_eq!(timeline.is_action_enabled(first), Some(false));
    timeline.bake_actions(&registry, &world());
    let segment = timeline.action_world().get_segment(second, FLOAT).unwrap();
    assert_eq!((number(segment.start), number(segment.end)), (2.0, 12.0));
    let segment = timeline.action_world().get_segment(first, FLOAT).unwrap();
    assert_eq!((number(segment.start), number(segment.end)), (2.0, 2.0));

    // Unmuting restores what the next baking sees.
    assert_eq!(timeline.set_action_enabled(first, true), Ok(()));
    assert_eq!(timeline.is_action_enabled(first), Some(true));
    timeline.bake_actions(&registry, &world());
    let segment = timeline.action_world().get_segment(second, FLOAT).unwrap();
    assert_eq!((number(segment.start), number(segment.end)), (10.0, 20.0));
}

#[test]
fn what_is_baked_later_keeps_the_first_start() {
    let mut registry = Registry::new();
    let (mut timeline, first, _) = two_steps(&mut registry);
    timeline.bake_actions(&registry, &world());
    let moved = Numbers { fields: vec![(entity(3), field(1), value(99.0))] };
    timeline.bake_actions(&registry, &moved);
    let segment = timeline.action_world().get_segment(first, FLOAT).unwrap();
    assert_eq!((number(segment.start), number(segment.end)), (2.0, 10.0));
}

#[test]
fn an_eased_action_is_sampled_along_its_curve() {
    let mut registry = Registry::new();
    let mut builder = BevyTimelineBuilder::new();
    let mut actions = ActionWorld::new();
    let built = actions
        .add(entity(3), field(1), FLOAT, Action::Constant(value(10.0)))
        .with_interp(&mut actions, LERP)
        .with_ease(&mut actions, EaseFn { id: QUAD_IN });
    assert_eq!(actions.get_ease(built.id()), Some(Ease::Fn(EaseFn { id: QUAD_IN })));
    let curve = CubicBezier { x1: 0, y1: 0, x2: 0, y2: 0 };
    let built = built.with_easing(&mut actions, Ease::CubicBezier(curve));
    assert_eq!(actions.get_ease(built.id()), Some(Ease::CubicBezier(curve)));

    let first = builder.act(&mut registry, entity(3), field(1), Action::Constant(value(10.0)), LERP);
    let id = first.id();
    builder.add_tracks(vec![first.play(seconds(2)).compile()]);
    let mut timeline = builder.compile();
    assert_eq!(timeline.set_action_ease(id, Some(Ease::Fn(EaseFn { id: QUAD_IN }))), Ok(()));
    timeline.bake_actions(&registry, &world());
    timeline.set_target_time(seconds(1));
    timeline.queue_actions();
    assert_eq!(written(&timeline, &registry), vec![4.0]);
}

#[test]
fn removing_an_action_forgets_its_subject() {
    let mut actions = ActionWorld::new();
    let first = actions.add(entity(3), field(1), FLOAT, Action::Constant(value(1.0)));
    let second = actions.add(entity(3), field(2), FLOAT, Action::Constant(value(2.0)));
    let uid = first.key.subject_id.uid;
    assert_eq!(uid, second.key.subject_id.uid);
    assert_ne!(first.id(), second.id());
    assert_eq!(actions.get_id(ENTITY_TAG, &uid), Some(3));
    assert_eq!(actions.action_key(second.id()), Some(second.key));
    assert_eq!(actions.get_action(first.id(), FLOAT), Some(Action::Constant(value(1.0))));
    assert_eq!(actions.get_action(first.id(), SOURCE), None);

    assert_eq!(actions.remove(first.id()), Some(first.key));
    assert_eq!(actions.remove(first.id()), None);
    assert_eq!(actions.get_id(ENTITY_TAG, &uid), Some(3));
    assert_eq!(actions.remove(second.id()), Some(second.key));
    assert_eq!(actions.get_id(ENTITY_TAG, &uid), None);
    assert!(actions.ids().is_empty());
    // An id that was never given out names no action.
    assert_eq!(actions.remove(ActionId { bits: 0 }), None);
}

#[test]
fn a_field_without_actions_is_restored() {
    let mut registry = Registry::new();
    let mut builder = BevyTimelineBuilder::new();
    let first = builder.act(&mut registry, entity(3), field(1), Action::Constant(value(10.0)), LERP);
    let id = first.id();
    builder.add_tracks(vec![first.play(seconds(2)).compile()]);
    let mut timeline = builder.compile();
    timeline.bake_actions(&registry, &world());
    assert_eq!(timeline.remove_action(0, id), Ok(()));
    let moved = Numbers { fields: vec![(entity(3), field(1), value(99.0))] };
    let writes = timeline.sample_queued_actions(&registry, &moved);
    assert_eq!(writes.len(), 1);
    assert_eq!((writes[0].subject, number(writes[0].value)), (entity(3), 2.0));
}

#[test]
fn a_field_that_is_animated_again_is_written_once() {
    let mut registry = Registry::new();
    let mut builder = BevyTimelineBuilder::new();
    let first = builder.act(&mut registry, entity(3), field(1), Action::Constant(value(10.0)), LERP);
    let id = first.id();
    builder.add_tracks(vec![first.play(seconds(2)).compile()]);
    let mut timeline = builder.compile();
    timeline.bake_actions(&registry, &world());
    let own = timeline.action_world().action_key(id);
    assert_eq!(timeline.remove_action(0, id), Ok(()));

    let pipeline = PipelineKey {
        world_id: BEVY_WORLD_TAG,
        subject_id: ENTITY_TAG,
        source_id: SOURCE,
        target_id: FLOAT,
    };
    registry.remote.register(pipeline, LERP);
    let key = RemoteFieldKey { pipeline, field: field(1) };
    let target = RemoteTarget { end: value(6.0) };
    let added = timeline
        .insert_constant_action(0, &registry.remote, key, entity(3), target, seconds(2), 0, None)
        .unwrap();
    assert!(own.is_some());
    assert_eq!(timeline.action_world().action_key(added), own);
    // The field has the baseline that it had, wherever it is now.
    let moved = Numbers { fields: vec![(entity(3), field(1), value(99.0))] };
    timeline.bake_actions(&registry, &moved);
    timeline.set_target_time(seconds(1));
    timeline.queue_actions();
    let writes = timeline.sample_queued_actions(&registry, &moved);
    assert_eq!(writes.len(), 1);
    assert_eq!((writes[0].subject, number(writes[0].value)), (entity(3), 4.0));
}

#[test]
fn a_known_subject_comes_back_under_its_id() {
    let mut actions = ActionWorld::new();
    let first = actions.add(entity(3), field(1), FLOAT, Action::Constant(value(1.0)));
    actions.remove(first.id());
    assert_eq!(actions.get_id(ENTITY_TAG, &first.key.subject_id.uid), None);
    actions.add(entity(4), field(1), FLOAT, Action::Constant(value(2.0)));
    let again = actions.add(entity(3), field(1), FLOAT, Action::Constant(value(3.0)));
    assert_eq!(again.key, first.key);
    assert_eq!(actions.get_id(ENTITY_TAG, &first.key.subject_id.uid), Some(3));
}

#[test]
fn no_subject_takes_the_id_of_another() {
    let mut actions = ActionWorld::new();
    let first = actions.add(entity(3), field(1), FLOAT, Action::Constant(value(1.0)));
    actions.remove(first.id());
    let second = actions.add(entity(4), field(1), FLOAT, Action::Constant(value(2.0)));
    assert_ne!(first.key, second.key);
    assert_eq!(actions.get_id(ENTITY_TAG, &second.key.subject_id.uid), Some(4));
}
