use std::sync::Arc;

use bevy_ecs::entity::Entity;
use motiongfx::action::{CubicBezier, Ease, EaseFn, InterpFn, Value};
use motiongfx::bevy_motiongfx::controller::{
    fixed_rate_player_timing, realtime_player_timing, FixedRatePlayer, RealtimePlayer,
};
use motiongfx::bevy_motiongfx::manager::TimelineId;
use motiongfx::bevy_motiongfx::remote::batch::history::{timeline_redo, timeline_undo};
use motiongfx::bevy_motiongfx::remote::batch::insert::resolve_asset;
use motiongfx::bevy_motiongfx::remote::batch::op::{
    EditOp, KeyframeDoc, KeyframeTime, OpResult, Placement, UpdatePatch,
};
use motiongfx::bevy_motiongfx::remote::batch::request::{
    timeline_batch, ActionRef, NameParam, RawOp, SmoothParam,
};
use motiongfx::bevy_motiongfx::remote::catalog::{
    animatable_fields, motiongfx_path_to_reflect, MotionGfxCatalog, SubjectKind,
};
use motiongfx::bevy_motiongfx::remote::dynamic::{
    brp_animate, brp_list_animations, brp_remove_animation, brp_spawn, AnimateParams, DynAnimId,
    DynAnimations, FieldParam, FieldWrite, SpawnFacts,
};
use motiongfx::bevy_motiongfx::remote::ease::{
    ease_fn_from_name, ease_name, ease_to_json, resolve_ease, EaseParam,
};
use motiongfx::bevy_motiongfx::remote::edit::{
    timeline_clear, timeline_gc, timeline_insert_action, timeline_insert_keyframes,
    timeline_move_action, timeline_remove_action, timeline_track_add, timeline_update_action,
    InsertKeyframesParams, InsertParams, UpdateParams,
};
use motiongfx::bevy_motiongfx::remote::fault::{
    AssetFault, CatalogError, DocumentFault, ErrorCode, Fault, OpFault, SubjectFault,
};
use motiongfx::bevy_motiongfx::remote::host::{
    AssetFacts, ComponentFacts, LeafFacts, LiveFacts, NamedEntity, RemoteHost,
};
use motiongfx::bevy_motiongfx::remote::inspect::{
    timeline_inspect, value_at, ClipInfo, Place, ValueAtParams,
};
use motiongfx::bevy_motiongfx::remote::json::{Json, Number};
use motiongfx::bevy_motiongfx::remote::names::resolve_subject_entity;
use motiongfx::bevy_motiongfx::remote::persist::document::{Document, DocSubject};
use motiongfx::bevy_motiongfx::remote::persist::export::timeline_export;
use motiongfx::bevy_motiongfx::remote::persist::import::{timeline_import, ImportParams};
use motiongfx::bevy_motiongfx::remote::persist::marker::{
    marker_list, marker_remove, marker_set, MarkerSetParams,
};
use motiongfx::bevy_motiongfx::remote::project::{
    check_project, find_project_subjects, load_source, project_load, project_save, LoadSource,
    MotionGfxProjectConfig, ProjectEntry, SceneEntity, Written,
};
use motiongfx::bevy_motiongfx::remote::schema::{schema, MethodRow, MotionGfxSchema};
use motiongfx::bevy_motiongfx::remote::state::events::{EventKind, EVENT_CAP};
use motiongfx::bevy_motiongfx::remote::state::journal::JOURNAL_CAP;
use motiongfx::bevy_motiongfx::remote::studio::Studio;
use motiongfx::bevy_motiongfx::remote::transport::{
    get_timeline, list_timelines, pause_timeline, play_timeline, remove_timeline, seek_timeline,
    set_time_scale, timeline_create, timeline_rename, CreateParams, PlayerSlot, SeekParams,
};
use motiongfx::bevy_motiongfx::remote::watch::{
    get_timeline_watching, journal_watching, JournalWatchParams, WatchEvent, WatchRef,
};
use motiongfx::name_table::NameTable;
use motiongfx::pipeline::{PipelineKey, Write};
use motiongfx::remote::RemoteEditError;
use motiongfx::subject::{Subject, UntypedField, BEVY_WORLD_TAG, ENTITY_TAG};
use motiongfx::time::{Phase, Ticks, PHASE_ONE, TICKS_PER_SECOND};
use motiongfx::world::SubjectSource;

const FLOAT: u64 = 100;
const BALL: u64 = 101;
const BALL_PATH: &str = "demo::Ball";
/// A resource.
const WIND_PATH: &str = "demo::Wind";
/// A component that no ball has.
const HAT_PATH: &str = "demo::Hat";

fn seconds(count: i64) -> Ticks {
    count * TICKS_PER_SECOND
}

fn entity(index: u32) -> u64 {
    Entity::from_raw_u32(index).unwrap().to_bits()
}

fn float(number: f64) -> Json {
    Json::Number(Number::Float(number.to_bits()))
}

fn as_f64(number: Number) -> f64 {
    match number {
        Number::PosInt(n) => n as f64,
        Number::NegInt(n) => n as f64,
        Number::Float(bits) => f64::from_bits(bits),
    }
}

fn json_f64(json: &Json) -> f64 {
    match json {
        Json::Number(number) => as_f64(*number),
        other => panic!("{other:?} is no number"),
    }
}

fn ratio(t: Option<Phase>) -> f64 {
    t.map_or(f64::NAN, |t| t as f64 / PHASE_ONE as f64)
}

fn field(path: u64) -> UntypedField {
    UntypedField { source_id: BALL, target_id: FLOAT, path }
}

/// A scene of balls: each stands at its own `x`, and some have names.
struct Scene {
    balls: Vec<(u64, f64, Option<&'static str>)>,
}

impl Scene {
    fn x(&self, bits: u64) -> Option<f64> {
        self.balls.iter().find(|ball| ball.0 == bits).map(|ball| ball.1)
    }
}

impl SubjectSource for Scene {
    fn get_source(&self, subject: Subject, _: UntypedField) -> Option<Value> {
        assert_eq!(subject.type_id, ENTITY_TAG);
        self.x(subject.bits).map(|x| Value { type_id: FLOAT, handle: x.to_bits() })
    }

    fn act(&self, _: u64, start: Value) -> Value {
        start
    }

    fn ease(&self, _: Ease, t: Option<Phase>) -> Option<Phase> {
        t
    }

    fn interp(&self, _: InterpFn, start: Value, end: Value, t: Option<Phase>) -> Value {
        let (a, b) = (f64::from_bits(start.handle), f64::from_bits(end.handle));
        Value { type_id: FLOAT, handle: (a + (b - a) * ratio(t)).to_bits() }
    }
}

impl RemoteHost for Scene {
    fn decode(&self, target: u64, value: &Json) -> Result<Value, CatalogError> {
        if target != FLOAT {
            return Err(CatalogError::TypeNotRegistered);
        }
        match value {
            Json::Number(number) => {
                Ok(Value { type_id: FLOAT, handle: as_f64(*number).to_bits() })
            }
            Json::Null => Err(CatalogError::FromReflect),
            Json::Other(text) => Err(CatalogError::Deserialize(text.clone())),
        }
    }

    fn encode(&self, value: Value) -> Option<Json> {
        if value.type_id == FLOAT {
            Some(Json::Number(Number::Float(value.handle)))
        } else {
            None
        }
    }

    fn sum(&self, base: Number, delta: u64) -> Json {
        float(as_f64(base) + f64::from_bits(delta))
    }

    fn blend(&self, start: Number, end: Number, t: Option<Phase>) -> Number {
        let (a, b) = (as_f64(start), as_f64(end));
        Number::Float((a + (b - a) * ratio(t)).to_bits())
    }

    fn glide(&self, _: &Vec<KeyframeTime>, values: &Vec<Number>, at: usize) -> Option<CubicBezier> {
        if values[at] == values[at + 1] {
            None
        } else {
            Some(CubicBezier { x1: 0, y1: 0, x2: 0x3F80_0000, y2: at as u32 })
        }
    }

    fn live_facts(&self, entity: u64, component: &str, field: &str) -> LiveFacts {
        let number = match (component, field) {
            (BALL_PATH, "x") => self.x(entity).map(|x| Number::Float(x.to_bits())),
            _ => None,
        };
        LiveFacts {
            is_component: component == BALL_PATH,
            entity_exists: self.x(entity).is_some(),
            number,
        }
    }

    fn asset_facts(&self, entity: u64, component: &str) -> AssetFacts {
        AssetFacts {
            is_registered: component == BALL_PATH,
            is_component: component == BALL_PATH,
            entity_exists: self.x(entity).is_some(),
            has_component: true,
            candidates: vec![None, Some(77)],
        }
    }

    fn named_entities(&self) -> Vec<NamedEntity> {
        let named = |ball: &(u64, f64, Option<&'static str>)| {
            ball.2.map(|name| NamedEntity { bits: ball.0, name: name.to_string() })
        };
        self.balls.iter().filter_map(named).collect()
    }

    fn name_of(&self, entity: u64) -> Option<String> {
        let ball = self.balls.iter().find(|ball| ball.0 == entity)?;
        ball.2.map(|name| name.to_string())
    }

    fn entity_exists(&self, entity: u64) -> bool {
        self.x(entity).is_some()
    }

    fn component_facts(&self, entity: u64, component: &str) -> ComponentFacts {
        ComponentFacts {
            is_registered: matches!(component, BALL_PATH | WIND_PATH | HAT_PATH),
            is_component: component != WIND_PATH,
            entity_exists: self.x(entity).is_some(),
            has_component: component == BALL_PATH,
        }
    }

    fn leaf_facts(&self, entity: u64, _: &str, path: &str, _: &Json) -> LeafFacts {
        let is_known = matches!(path, "x" | "skin" | "mood");
        let number = if path == "x" { self.x(entity) } else { None };
        LeafFacts {
            path_fault: if is_known { None } else { Some("no such field".to_string()) },
            number: number.map(f64::to_bits),
            type_path: "demo::Leaf".to_string(),
            type_registered: path != "skin",
            value_fault: if path == "mood" { Some("unknown mood".to_string()) } else { None },
        }
    }
}

fn scene() -> Scene {
    Scene {
        balls: vec![
            (entity(1), 2.0, Some("red")),
            (entity(2), 5.0, Some("blue")),
            (entity(3), 0.0, Some("blue")),
        ],
    }
}

fn pipeline() -> PipelineKey {
    PipelineKey {
        world_id: BEVY_WORLD_TAG,
        subject_id: ENTITY_TAG,
        source_id: BALL,
        target_id: FLOAT,
    }
}

/// A studio in which the `x` of balls can be edited, with one timeline of two
/// tracks.
fn studio() -> (Studio, Vec<PlayerSlot>, u64) {
    let mut studio = Studio::new();
    studio.manager.register_remote(pipeline(), field(1), InterpFn { id: 1 });
    studio.catalog.insert(
        BALL_PATH.to_string(),
        "::x",
        "f64".to_string(),
        pipeline(),
        field(1),
    );
    let mut slots = Vec::new();
    let params = CreateParams { name: Some("main".to_string()), tracks: Some(2), player: None };
    let state = timeline_create(&mut studio, &mut slots, params).unwrap();
    (studio, slots, state.id)
}

fn insertion(id: u64, subject: u64, to: f64, start: Option<i64>) -> InsertParams {
    InsertParams {
        id,
        track: 0,
        entity: Some(subject),
        entity_name: None,
        component: BALL_PATH.to_string(),
        field: "x".to_string(),
        asset_of: None,
        to: float(to),
        to_relative: None,
        duration: seconds(2),
        start_at: start.map(seconds),
        ease: None,
        label: None,
        color: None,
        enabled: None,
    }
}

fn placement(subject: u64, start: Option<i64>) -> Placement {
    Placement {
        track: 0,
        entity: subject,
        component: BALL_PATH.to_string(),
        field: "x".to_string(),
        asset_of: None,
        duration: seconds(2),
        start_at: start.map(seconds),
        ease: None,
        label: None,
        color: None,
        enabled: None,
    }
}

fn insert_op(subject: u64, to: f64, start: Option<i64>) -> EditOp {
    EditOp::Insert {
        at: Arc::new(placement(subject, start)),
        to: Arc::new(float(to)),
        to_relative: None,
        exact: false,
        restore_id: None,
    }
}

fn raw(op: EditOp) -> RawOp {
    RawOp {
        action: ActionRef::Plain,
        smooth: SmoothParam::Off,
        name: NameParam::Absent,
        draft: Ok(op),
    }
}

fn point(t: f64, value: f64) -> KeyframeDoc {
    KeyframeDoc {
        t: KeyframeTime::At((t * PHASE_ONE as f64) as Phase),
        shown: format!("{t}"),
        value: float(value),
        ease: None,
        hold: None,
    }
}

fn action_of(result: Result<(OpResult, u64), Fault>) -> (u64, u64) {
    let (outcome, version) = result.unwrap();
    (outcome.action_id().unwrap(), version)
}

/// The clips of a timeline in order.
fn clips(scene: &Scene, studio: &Studio, id: u64) -> Vec<ClipInfo> {
    let inspected = timeline_inspect(scene, studio, id, true).unwrap();
    let mut all = Vec::new();
    for track in inspected.tracks {
        for sequence in track.sequences {
            all.extend(sequence.clips);
        }
    }
    all
}

/// Where each clip starts and what it leads to.
fn shape(scene: &Scene, studio: &Studio, id: u64) -> Vec<(Ticks, Ticks, f64)> {
    clips(scene, studio, id)
        .iter()
        .map(|clip| (clip.start, clip.duration, json_f64(clip.end_value.as_ref().unwrap())))
        .collect()
}

fn message<T: std::fmt::Debug>(result: Result<T, Fault>) -> String {
    result.unwrap_err().message()
}

#[test]
fn inserting_is_undone_and_redone() {
    let scene = scene();
    let (mut studio, _, id) = studio();
    let (first, version) =
        action_of(timeline_insert_action(&scene, &mut studio, insertion(id, entity(1), 10.0, None)));
    assert_eq!(version, 1);
    assert_eq!(shape(&scene, &studio, id), vec![(0, seconds(2), 10.0)]);

    // Without a start, a clip goes behind the last one.
    let (second, version) =
        action_of(timeline_insert_action(&scene, &mut studio, insertion(id, entity(1), 20.0, None)));
    assert_eq!(version, 2);
    assert_ne!(first, second);
    let both = vec![(0, seconds(2), 10.0), (seconds(2), seconds(2), 20.0)];
    assert_eq!(shape(&scene, &studio, id), both);
    let inspected = clips(&scene, &studio, id);
    assert_eq!(json_f64(inspected[0].start_value.as_ref().unwrap()), 2.0);
    assert_eq!(json_f64(inspected[1].start_value.as_ref().unwrap()), 10.0);

    assert_eq!(timeline_undo(&scene, &mut studio, id).unwrap(), (3, 1));
    assert_eq!(shape(&scene, &studio, id), vec![(0, seconds(2), 10.0)]);
    assert_eq!(timeline_redo(&scene, &mut studio, id).unwrap(), (4, 1));
    assert_eq!(shape(&scene, &studio, id), both);
    assert!(matches!(timeline_redo(&scene, &mut studio, id), Err(Fault::NothingToRedo)));
    timeline_undo(&scene, &mut studio, id).unwrap();
    timeline_undo(&scene, &mut studio, id).unwrap();
    assert!(shape(&scene, &studio, id).is_empty());
    assert!(matches!(timeline_undo(&scene, &mut studio, id), Err(Fault::NothingToUndo)));
}

#[test]
fn values_are_read_between_clips() {
    let scene = scene();
    let (mut studio, _, id) = studio();
    timeline_insert_action(&scene, &mut studio, insertion(id, entity(1), 10.0, Some(1))).unwrap();
    timeline_insert_action(&scene, &mut studio, insertion(id, entity(1), 20.0, Some(5))).unwrap();
    let mut at = |time: Ticks| {
        let params = ValueAtParams {
            id,
            time,
            track: 0,
            entity: None,
            entity_name: Some("red".to_string()),
            component: BALL_PATH.to_string(),
            field: "x".to_string(),
        };
        let value = value_at(&scene, &mut studio, &params).unwrap();
        (as_f64(value.value), value.place)
    };
    assert_eq!(at(0), (2.0, Place::Before));
    assert_eq!(at(seconds(2)), (6.0, Place::Inside(0)));
    assert_eq!(at(seconds(4)), (10.0, Place::Gap(0)));
    assert_eq!(at(seconds(6)), (15.0, Place::Inside(1)));
    assert_eq!(at(seconds(9)), (20.0, Place::After));
}

#[test]
fn a_relative_target_adds_to_the_live_value() {
    let scene = scene();
    let (mut studio, _, id) = studio();
    let mut params = insertion(id, entity(2), 0.0, None);
    params.to = Json::Null;
    params.to_relative = Some(1.5f64.to_bits());
    let (outcome, _) = timeline_insert_action(&scene, &mut studio, params).unwrap();
    match outcome {
        OpResult::Action { resolved_to: Some(to), .. } => assert_eq!(json_f64(&to), 6.5),
        other => panic!("{other:?}"),
    }
    assert_eq!(shape(&scene, &studio, id), vec![(0, seconds(2), 6.5)]);

    let mut params = insertion(id, entity(2), 0.0, None);
    params.to_relative = Some(1.5f64.to_bits());
    let fault = timeline_insert_action(&scene, &mut studio, params).unwrap_err();
    assert_eq!(fault.code(), ErrorCode::InvalidParams);
    assert_eq!(fault.message(), "`to` and `to_relative` are mutually exclusive");
}

#[test]
fn requests_on_what_is_not_there_fail() {
    let scene = scene();
    let (mut studio, slots, id) = studio();
    assert!(matches!(
        timeline_insert_action(&scene, &mut studio, insertion(9, entity(1), 1.0, None)),
        Err(Fault::NoTimeline { id: 9 })
    ));
    assert_eq!(message(get_timeline(&studio, &slots, 9)), "No timeline with id 9");

    let mut params = insertion(id, entity(1), 1.0, None);
    params.field = "y".to_string();
    assert_eq!(
        message(timeline_insert_action(&scene, &mut studio, params)),
        "`demo::Ball`.`y` is not registered as animatable (animate it via act() or call \
         App::register_animatable)"
    );

    let mut params = insertion(id, entity(1), 1.0, None);
    params.to = Json::Other("\"far\"".to_string());
    assert_eq!(
        message(timeline_insert_action(&scene, &mut studio, params)),
        "could not deserialize `to`: \"far\""
    );

    let mut params = insertion(id, entity(1), 1.0, None);
    params.track = 5;
    assert!(matches!(
        timeline_insert_action(&scene, &mut studio, params),
        Err(Fault::Edit(RemoteEditError::TrackOutOfRange))
    ));
    assert!(matches!(
        timeline_remove_action(&scene, &mut studio, id, 0, 12345),
        Err(Fault::Edit(RemoteEditError::NotFound))
    ));
    assert!(shape(&scene, &studio, id).is_empty());
    assert_eq!(get_timeline(&studio, &slots, id).unwrap().version, 0);
}

#[test]
fn bits_that_are_no_entity_are_refused() {
    let scene = scene();
    let (mut studio, _, id) = studio();
    assert!(Entity::try_from_bits(0).is_none());
    assert_eq!(
        message(timeline_insert_action(&scene, &mut studio, insertion(id, 0, 1.0, None))),
        "missing or invalid `entity` bits"
    );
}

#[test]
fn entities_are_found_by_their_names() {
    let scene = scene();
    assert_eq!(resolve_subject_entity(&scene, Some(4), &None).unwrap(), 4);
    let name = |name: &str| Some(name.to_string());
    assert_eq!(resolve_subject_entity(&scene, None, &name("red")).unwrap(), entity(1));
    assert_eq!(
        message(resolve_subject_entity(&scene, Some(4), &name("red"))),
        "`entity` and `entity_name` are mutually exclusive"
    );
    assert_eq!(
        message(resolve_subject_entity(&scene, None, &None)),
        "one of `entity` or `entity_name` is required"
    );
    assert_eq!(
        message(resolve_subject_entity(&scene, None, &name("green"))),
        "no entity named `green`"
    );
    match resolve_subject_entity(&scene, None, &name("blue")) {
        Err(Fault::Subject(SubjectFault::ManyNamed { matches, .. })) => {
            assert_eq!(matches, vec![entity(2), entity(3)]);
        }
        other => panic!("{other:?}"),
    }
    assert_eq!(
        message(resolve_subject_entity(&scene, None, &name("blue"))),
        "2 entities are named `blue`. use raw `entity` bits instead."
    );
}

#[test]
fn moving_and_removing_keep_clips_apart() {
    let scene = scene();
    let (mut studio, _, id) = studio();
    let (first, _) =
        action_of(timeline_insert_action(&scene, &mut studio, insertion(id, entity(1), 1.0, None)));
    let (second, _) =
        action_of(timeline_insert_action(&scene, &mut studio, insertion(id, entity(1), 2.0, None)));

    let fault = timeline_move_action(&scene, &mut studio, id, 0, second, seconds(1), None).unwrap_err();
    assert_eq!(fault.message(), format!("clip would overlap action {first}"));
    timeline_move_action(&scene, &mut studio, id, 0, second, seconds(6), Some(seconds(1))).unwrap();
    let moved = vec![(0, seconds(2), 1.0), (seconds(6), seconds(1), 2.0)];
    assert_eq!(shape(&scene, &studio, id), moved);
    timeline_undo(&scene, &mut studio, id).unwrap();
    assert_eq!(
        shape(&scene, &studio, id),
        vec![(0, seconds(2), 1.0), (seconds(2), seconds(2), 2.0)]
    );

    let (outcome, version) = timeline_remove_action(&scene, &mut studio, id, 0, first).unwrap();
    assert!(matches!(outcome, OpResult::Removed));
    assert_eq!(version, 5);
    assert_eq!(shape(&scene, &studio, id), vec![(seconds(2), seconds(2), 2.0)]);
    timeline_undo(&scene, &mut studio, id).unwrap();
    assert_eq!(
        shape(&scene, &studio, id),
        vec![(0, seconds(2), 1.0), (seconds(2), seconds(2), 2.0)]
    );
}

/// What a timeline writes when it is baked and its playhead comes from the start.
fn written_at(scene: &Scene, studio: &mut Studio, id: u64, time: Ticks) -> Vec<(u64, f64)> {
    let id = TimelineId::from_raw(id);
    studio.bake(scene, &id);
    let mut timeline = studio.manager.take(&id).unwrap();
    timeline.set_target_time(0);
    timeline.queue_actions();
    timeline.set_target_time(time);
    timeline.queue_actions();
    let writes = timeline.sample_queued_actions(studio.manager.registry(), scene);
    studio.manager.put(id, timeline);
    let written = |write: &Write| (write.subject.bits, f64::from_bits(write.value.handle));
    writes.iter().map(written).collect()
}

#[test]
fn an_undone_removal_plays_what_played() {
    let scene = scene();
    let (mut studio, _, id) = studio();
    let (action, _) =
        action_of(timeline_insert_action(&scene, &mut studio, insertion(id, entity(1), 10.0, None)));
    let played = vec![(entity(1), 6.0)];
    assert_eq!(written_at(&scene, &mut studio, id, seconds(1)), played);

    timeline_remove_action(&scene, &mut studio, id, 0, action).unwrap();
    assert_eq!(written_at(&scene, &mut studio, id, seconds(1)), vec![(entity(1), 2.0)]);

    timeline_undo(&scene, &mut studio, id).unwrap();
    assert_eq!(written_at(&scene, &mut studio, id, seconds(1)), played);
    timeline_redo(&scene, &mut studio, id).unwrap();
    timeline_undo(&scene, &mut studio, id).unwrap();
    // The ball moved meanwhile, and the field has the baseline that it had.
    let moved = Scene { balls: vec![(entity(1), 99.0, None)] };
    assert_eq!(written_at(&moved, &mut studio, id, seconds(1)), played);
    assert_eq!(written_at(&moved, &mut studio, id, seconds(2)), vec![(entity(1), 10.0)]);
}

#[test]
fn what_is_kept_about_a_clip_reads_back() {
    let scene = scene();
    let (mut studio, _, id) = studio();
    let mut params = insertion(id, entity(1), 1.0, None);
    params.label = Some("hop".to_string());
    params.color = Some([1, 2, 3]);
    params.ease = Some(EaseParam::Named("cubic_in".to_string()));
    let (action, _) = action_of(timeline_insert_action(&scene, &mut studio, params));
    let clip = &clips(&scene, &studio, id)[0];
    assert_eq!(clip.label.as_deref(), Some("hop"));
    assert_eq!(clip.color, Some([1, 2, 3]));
    assert_eq!(clip.action_id, action);

    let nothing = || UpdateParams {
        id,
        action_id: action,
        to: None,
        to_relative: None,
        ease: None,
        keyframes: None,
        smooth: None,
        label: None,
        color: None,
        enabled: None,
    };
    assert!(matches!(
        timeline_update_action(&scene, &mut studio, nothing()),
        Err(Fault::Op(OpFault::NothingToUpdate))
    ));
    let params = UpdateParams {
        to: Some(float(7.0)),
        label: Some(None),
        enabled: Some(false),
        ..nothing()
    };
    timeline_update_action(&scene, &mut studio, params).unwrap();
    let clip = &clips(&scene, &studio, id)[0];
    assert_eq!(clip.label, None);
    assert_eq!(clip.color, Some([1, 2, 3]));
    assert_eq!(clip.enabled, Some(false));
    timeline_update_action(&scene, &mut studio, UpdateParams { enabled: Some(true), ..nothing() })
        .unwrap();
    assert_eq!(shape(&scene, &studio, id), vec![(0, seconds(2), 7.0)]);

    timeline_undo(&scene, &mut studio, id).unwrap();
    timeline_undo(&scene, &mut studio, id).unwrap();
    let clip = &clips(&scene, &studio, id)[0];
    assert_eq!(clip.label.as_deref(), Some("hop"));
    assert_eq!(json_f64(clip.end_value.as_ref().unwrap()), 1.0);

    let params = UpdateParams { keyframes: Some(vec![point(1.0, 3.0)]), ..nothing() };
    assert!(matches!(
        timeline_update_action(&scene, &mut studio, params),
        Err(Fault::Op(OpFault::NotKeyframed))
    ));
    let params = UpdateParams { smooth: Some(true), label: Some(None), ..nothing() };
    assert!(matches!(
        timeline_update_action(&scene, &mut studio, params),
        Err(Fault::Op(OpFault::SmoothNeedsKeyframes))
    ));
}

fn keyframed(id: u64, keyframes: Vec<KeyframeDoc>, smooth: Option<bool>) -> InsertKeyframesParams {
    InsertKeyframesParams {
        id,
        track: 0,
        entity: Some(entity(1)),
        entity_name: None,
        component: BALL_PATH.to_string(),
        field: "x".to_string(),
        asset_of: None,
        keyframes,
        duration: seconds(4),
        start_at: None,
        ease: None,
        smooth,
        label: None,
        color: None,
        enabled: None,
    }
}

#[test]
fn keyframes_are_inserted_in_order_and_smoothed() {
    let scene = scene();
    let (mut studio, _, id) = studio();
    let points = vec![point(1.0, 8.0), point(0.5, 4.0)];
    timeline_insert_keyframes(&scene, &mut studio, keyframed(id, points, Some(true))).unwrap();
    let inspected = clips(&scene, &studio, id);
    let docs = inspected[0].keyframes.as_ref().unwrap();
    let times: Vec<KeyframeTime> = docs.iter().map(|doc| doc.t).collect();
    assert_eq!(times, vec![KeyframeTime::At(PHASE_ONE / 2), KeyframeTime::At(PHASE_ONE)]);
    assert_eq!(json_f64(&docs[1].value), 8.0);
    assert!(docs[0].ease.is_none());
    assert!(matches!(docs[1].ease, Some(EaseParam::Curve(CubicBezier { y2: 0, .. }))));

    assert!(matches!(
        timeline_insert_keyframes(&scene, &mut studio, keyframed(id, Vec::new(), None)),
        Err(Fault::Op(OpFault::NoKeyframes))
    ));
    let late = vec![point(2.0, 1.0)];
    assert_eq!(
        message(timeline_insert_keyframes(&scene, &mut studio, keyframed(id, late, None))),
        "keyframe 0: `t` must lie in [0, 1] (got 2)"
    );
    let mut words = vec![point(0.5, 1.0), point(1.0, 1.0)];
    words[1].value = Json::Other("\"up\"".to_string());
    assert!(matches!(
        timeline_insert_keyframes(&scene, &mut studio, keyframed(id, words, Some(true))),
        Err(Fault::Op(OpFault::SmoothNeedsNumbers))
    ));
}

#[test]
fn a_batch_is_all_or_nothing() {
    let scene = scene();
    let (mut studio, slots, id) = studio();
    let ops = vec![
        raw(insert_op(entity(1), 4.0, None)),
        // The clip that the first edit inserts.
        RawOp {
            action: ActionRef::Op(0),
            ..raw(EditOp::Move { track: 0, action_id: 0, start_at: seconds(3), duration: None })
        },
        RawOp { name: NameParam::Name("red".to_string()), ..raw(insert_op(0, 9.0, None)) },
    ];
    let outcome = timeline_batch(&scene, &mut studio, id, ops).unwrap();
    assert_eq!(outcome.version, 1);
    assert_eq!(outcome.results.len(), 3);
    let made = vec![(seconds(3), seconds(2), 4.0), (seconds(5), seconds(2), 9.0)];
    assert_eq!(shape(&scene, &studio, id), made);

    let ops = vec![
        raw(insert_op(entity(1), 1.0, None)),
        raw(EditOp::Remove { track: 0, action_id: 99 }),
    ];
    let fault = timeline_batch(&scene, &mut studio, id, ops).unwrap_err();
    assert_eq!(
        fault.message(),
        "batch op 1 failed: no action with that id on the given track"
    );
    assert_eq!(shape(&scene, &studio, id), made);
    assert_eq!(get_timeline(&studio, &slots, id).unwrap().version, 1);

    // The whole batch is one step back.
    assert_eq!(timeline_undo(&scene, &mut studio, id).unwrap(), (2, 3));
    assert!(shape(&scene, &studio, id).is_empty());

    // The clip comes back under another id, so its move finds it no more.
    let fault = timeline_redo(&scene, &mut studio, id).unwrap_err();
    assert_eq!(
        fault.message(),
        "redo failed at op 1: no action with that id on the given track"
    );
    assert!(matches!(timeline_redo(&scene, &mut studio, id), Err(Fault::NothingToRedo)));
}

#[test]
fn a_refused_batch_puts_removed_clips_back() {
    let scene = scene();
    let (mut studio, _, id) = studio();
    let (first, _) =
        action_of(timeline_insert_action(&scene, &mut studio, insertion(id, entity(1), 10.0, None)));
    let (second, _) =
        action_of(timeline_insert_action(&scene, &mut studio, insertion(id, entity(1), 4.0, None)));
    let before = shape(&scene, &studio, id);
    let played = written_at(&scene, &mut studio, id, seconds(3));
    assert_eq!(played, vec![(entity(1), 7.0)]);

    let ops = vec![
        raw(EditOp::Remove { track: 0, action_id: first }),
        raw(EditOp::Remove { track: 0, action_id: second }),
        raw(insert_op(entity(1), 1.0, None)),
        raw(EditOp::Remove { track: 0, action_id: 99 }),
    ];
    let fault = timeline_batch(&scene, &mut studio, id, ops).unwrap_err();
    assert!(matches!(fault, Fault::At { index: 3, rollback_incomplete: false, .. }));
    assert_eq!(shape(&scene, &studio, id), before);
    assert_eq!(written_at(&scene, &mut studio, id, seconds(3)), played);
}

#[test]
fn a_batch_is_one_step_forth() {
    let scene = scene();
    let (mut studio, _, id) = studio();
    let ops = vec![
        raw(insert_op(entity(1), 4.0, None)),
        raw(insert_op(entity(1), 9.0, Some(7))),
    ];
    timeline_batch(&scene, &mut studio, id, ops).unwrap();
    let made = vec![(0, seconds(2), 4.0), (seconds(7), seconds(2), 9.0)];
    assert_eq!(shape(&scene, &studio, id), made);
    assert_eq!(timeline_undo(&scene, &mut studio, id).unwrap(), (2, 2));
    assert_eq!(timeline_redo(&scene, &mut studio, id).unwrap(), (3, 2));
    assert_eq!(shape(&scene, &studio, id), made);
    assert_eq!(timeline_undo(&scene, &mut studio, id).unwrap(), (4, 2));
    assert!(shape(&scene, &studio, id).is_empty());
}

#[test]
fn batches_with_bad_references_are_refused() {
    let scene = scene();
    let (mut studio, _, id) = studio();
    assert!(matches!(
        timeline_batch(&scene, &mut studio, id, Vec::new()),
        Err(Fault::Op(OpFault::OpsEmpty))
    ));
    let removal = || EditOp::Remove { track: 0, action_id: 0 };
    let mut refused = |op: RawOp| message(timeline_batch(&scene, &mut studio, id, vec![op]));
    assert_eq!(
        refused(RawOp { action: ActionRef::Op(0), ..raw(removal()) }),
        "batch op 0 failed: {\"$op\": 0} must reference an EARLIER op of this batch that created \
         an action (an insert)"
    );
    assert_eq!(
        refused(RawOp { action: ActionRef::NotIndex, ..raw(removal()) }),
        "batch op 0 failed: `$op` must be an op index"
    );
    assert_eq!(
        refused(RawOp { action: ActionRef::Unknown, ..raw(removal()) }),
        "batch op 0 failed: `action_id` must be a raw id or {\"$op\": <index>}"
    );
    assert_eq!(
        refused(raw(EditOp::Clear)),
        "batch op 0 failed: `clear` is not a batch op; call motiongfx.timeline_clear"
    );
    assert_eq!(
        refused(RawOp { draft: Err("missing field `track`".to_string()), ..raw(removal()) }),
        "batch op 0 failed: missing field `track`"
    );
    assert_eq!(
        refused(RawOp { smooth: SmoothParam::NotBool, ..raw(removal()) }),
        "batch op 0 failed: `smooth` must be a boolean"
    );
    assert_eq!(
        refused(RawOp { name: NameParam::NotText, ..raw(removal()) }),
        "batch op 0 failed: `entity_name` must be a string"
    );
    let patch = UpdatePatch {
        to: None,
        to_relative: None,
        ease: Some(EaseParam::Named("bouncy".to_string())),
        keyframes: None,
        label: None,
        color: None,
        enabled: None,
    };
    assert_eq!(
        refused(raw(EditOp::Update { action_id: 5, patch: Arc::new(patch) })),
        "batch op 0 failed: unknown ease `bouncy`"
    );
}

#[test]
fn the_journal_keeps_the_latest_entries() {
    let scene = scene();
    let (mut studio, _, id) = studio();
    for n in 0..JOURNAL_CAP + 5 {
        timeline_insert_action(&scene, &mut studio, insertion(id, entity(1), n as f64, None))
            .unwrap();
    }
    for _ in 0..JOURNAL_CAP {
        timeline_undo(&scene, &mut studio, id).unwrap();
    }
    assert!(matches!(timeline_undo(&scene, &mut studio, id), Err(Fault::NothingToUndo)));
    assert_eq!(shape(&scene, &studio, id).len(), 5);
}

#[test]
fn clearing_is_one_step_back() {
    let scene = scene();
    let (mut studio, slots, id) = studio();
    timeline_insert_action(&scene, &mut studio, insertion(id, entity(1), 1.0, None)).unwrap();
    timeline_insert_action(&scene, &mut studio, insertion(id, entity(2), 2.0, Some(3))).unwrap();
    marker_set(
        &mut studio,
        &MarkerSetParams { id, name: "here".to_string(), time: 5, track: Some(0) },
    )
    .unwrap();
    let before = shape(&scene, &studio, id);
    let (outcome, _) = timeline_clear(&scene, &mut studio, id).unwrap();
    assert!(matches!(outcome, OpResult::Cleared { timeline } if timeline == id));
    assert!(shape(&scene, &studio, id).is_empty());
    assert!(marker_list(&studio, id).is_empty());
    assert_eq!(get_timeline(&studio, &slots, id).unwrap().track_count, 1);
    timeline_undo(&scene, &mut studio, id).unwrap();
    assert_eq!(shape(&scene, &studio, id), before);
}

#[test]
fn undoing_a_clear_tells_how_many_clips_came_back() {
    let scene = scene();
    let (mut studio, _, id) = studio();
    timeline_insert_action(&scene, &mut studio, insertion(id, entity(1), 1.0, None)).unwrap();
    timeline_insert_action(&scene, &mut studio, insertion(id, entity(2), 2.0, None)).unwrap();
    let (_, version) = timeline_clear(&scene, &mut studio, id).unwrap();
    assert_eq!(version, 3);
    assert_eq!(timeline_undo(&scene, &mut studio, id).unwrap(), (4, 2));
}

#[test]
fn undoing_clears_an_ease_that_was_linear_by_name() {
    let scene = scene();
    let (mut studio, _, id) = studio();
    let mut params = insertion(id, entity(1), 1.0, None);
    params.ease = Some(EaseParam::Named("linear".to_string()));
    let (action, _) = action_of(timeline_insert_action(&scene, &mut studio, params));
    let ease = |studio: &Studio| match &clips(&scene, studio, id)[0].ease {
        Some(EaseParam::Named(name)) => Some(name.clone()),
        _ => None,
    };
    assert_eq!(ease(&studio).as_deref(), Some("linear"));
    let params = UpdateParams {
        id,
        action_id: action,
        to: None,
        to_relative: None,
        ease: Some(EaseParam::Named("cubic_in".to_string())),
        keyframes: None,
        smooth: None,
        label: None,
        color: None,
        enabled: None,
    };
    timeline_update_action(&scene, &mut studio, params).unwrap();
    assert_eq!(ease(&studio).as_deref(), Some("cubic_in"));
    timeline_undo(&scene, &mut studio, id).unwrap();
    assert_eq!(ease(&studio), None);
    assert_eq!(shape(&scene, &studio, id), vec![(0, seconds(2), 1.0)]);
}

#[test]
fn clips_of_entities_that_are_gone_are_collected() {
    let scene = scene();
    let (mut studio, _, id) = studio();
    let (kept, _) =
        action_of(timeline_insert_action(&scene, &mut studio, insertion(id, entity(1), 1.0, None)));
    let (gone, _) =
        action_of(timeline_insert_action(&scene, &mut studio, insertion(id, entity(2), 2.0, None)));
    let later = Scene { balls: vec![(entity(1), 2.0, None)] };
    let found = timeline_gc(&later, &mut studio, id, true).unwrap();
    assert_eq!((found.dangling, found.removed), (vec![gone], None));
    let found = timeline_gc(&later, &mut studio, id, false).unwrap();
    assert_eq!((found.dangling, found.removed), (vec![gone], Some(3)));
    let left: Vec<u64> = clips(&later, &studio, id).iter().map(|clip| clip.action_id).collect();
    assert_eq!(left, vec![kept]);
    let found = timeline_gc(&later, &mut studio, id, false).unwrap();
    assert_eq!((found.dangling.len(), found.removed), (0, None));
}

#[test]
fn documents_read_back_into_another_timeline() {
    let scene = scene();
    let (mut studio, mut slots, id) = studio();
    let mut params = insertion(id, entity(1), 1.0, None);
    params.label = Some("hop".to_string());
    params.ease = Some(EaseParam::Named("quad_in_out".to_string()));
    timeline_insert_action(&scene, &mut studio, params).unwrap();
    let mut params = keyframed(id, vec![point(0.5, 4.0), point(1.0, 8.0)], None);
    params.track = 1;
    timeline_insert_keyframes(&scene, &mut studio, params).unwrap();
    marker_set(
        &mut studio,
        &MarkerSetParams { id, name: "here".to_string(), time: seconds(1), track: None },
    )
    .unwrap();
    let document = timeline_export(&scene, &mut studio, id).unwrap();
    assert_eq!(document.format, "motiongfx-timeline");
    assert_eq!(document.format_version, 3);
    assert_eq!(document.tracks.len(), 2);
    assert!(matches!(&document.tracks[0][0].subject, DocSubject::Name { name } if name == "red"));

    let blank = CreateParams { name: None, tracks: None, player: Some(false) };
    let other = timeline_create(&mut studio, &mut slots, blank).unwrap().id;
    let params = ImportParams { id: other, document, mode: None, bindings: Vec::new() };
    assert_eq!(timeline_import(&scene, &mut studio, &params).unwrap(), (1, 2));
    let again = timeline_export(&scene, &mut studio, other).unwrap();
    let first = timeline_export(&scene, &mut studio, id).unwrap();
    assert_eq!(format!("{again:?}"), format!("{first:?}"));

    // Bound to another entity, the clips move over.
    let params = ImportParams {
        id: other,
        document: first,
        mode: Some("append".to_string()),
        bindings: vec![("red".to_string(), entity(2))],
    };
    assert_eq!(timeline_import(&scene, &mut studio, &params).unwrap(), (2, 2));
    assert_eq!(clips(&scene, &studio, other).len(), 4);
    assert_eq!(timeline_undo(&scene, &mut studio, other).unwrap().0, 3);
    assert_eq!(clips(&scene, &studio, other).len(), 2);
}

fn document(studio: &mut Studio, id: u64) -> Document {
    timeline_export(&scene(), studio, id).unwrap()
}

#[test]
fn documents_that_do_not_fit_are_refused() {
    let scene = scene();
    let (mut studio, _, id) = studio();
    timeline_insert_action(&scene, &mut studio, insertion(id, entity(1), 1.0, None)).unwrap();
    let import = |studio: &mut Studio, document: Document, mode: Option<&str>| {
        let mode = mode.map(|mode| mode.to_string());
        let params = ImportParams { id, document, mode, bindings: Vec::new() };
        message(timeline_import(&scene, studio, &params))
    };
    let good = document(&mut studio, id);
    assert_eq!(
        import(&mut studio, good, Some("merge")),
        "unknown mode `merge` (expected `replace` or `append`)"
    );
    let mut other = document(&mut studio, id);
    other.format = "something".to_string();
    assert_eq!(
        import(&mut studio, other, None),
        "unknown format `something` (expected `motiongfx-timeline`)"
    );
    let mut newer = document(&mut studio, id);
    newer.format_version = 4;
    assert_eq!(
        import(&mut studio, newer, None),
        "unsupported format_version 4 (expected 1..=3)"
    );
    let mut stranger = document(&mut studio, id);
    stranger.tracks[0][0].subject = DocSubject::Name { name: "green".to_string() };
    assert_eq!(
        import(&mut studio, stranger, None),
        "track 0 action 0: no entity named `green` (pass it via `bindings`)"
    );
    let mut aimless = document(&mut studio, id);
    aimless.tracks[0][0].to = None;
    assert_eq!(
        import(&mut studio, aimless, None),
        "track 0 action 0: exactly one of `to` / `keyframes` is required"
    );
    let mut odd = document(&mut studio, id);
    odd.tracks[0][0].field = "y".to_string();
    assert_eq!(
        import(&mut studio, odd, None),
        "`demo::Ball`.`y` is not registered as animatable on this app"
    );
    assert_eq!(shape(&scene, &studio, id), vec![(0, seconds(2), 1.0)]);
}

#[test]
fn markers_are_set_listed_and_sought() {
    let scene = scene();
    let (mut studio, slots, id) = studio();
    timeline_insert_action(&scene, &mut studio, insertion(id, entity(1), 1.0, None)).unwrap();
    for (name, time) in [("b", 2), ("a", 1), ("b", 1)] {
        let params = MarkerSetParams { id, name: name.to_string(), time: seconds(time), track: None };
        marker_set(&mut studio, &params).unwrap();
    }
    let names: Vec<String> = marker_list(&studio, id).into_iter().map(|entry| entry.0).collect();
    assert_eq!(names, vec!["a", "b"]);

    let to_marker = |marker: &str| SeekParams {
        id,
        time: None,
        track: None,
        marker: Some(marker.to_string()),
    };
    let state = seek_timeline(&mut studio, &slots, &to_marker("b")).unwrap();
    assert_eq!(state.target_time, seconds(1));
    assert_eq!(
        message(seek_timeline(&mut studio, &slots, &to_marker("c"))),
        format!("no marker `c` on timeline {id}")
    );
    let both = SeekParams { time: Some(3), ..to_marker("b") };
    assert!(matches!(
        seek_timeline(&mut studio, &slots, &both),
        Err(Fault::MarkerExclusive)
    ));
    // The time is held inside the track.
    let far = SeekParams { id, time: Some(seconds(60)), track: None, marker: None };
    assert_eq!(seek_timeline(&mut studio, &slots, &far).unwrap().target_time, seconds(2));

    marker_remove(&mut studio, id, &"a".to_string()).unwrap();
    assert!(matches!(
        marker_remove(&mut studio, id, &"a".to_string()),
        Err(Fault::NoMarker { .. })
    ));
    assert_eq!(marker_list(&studio, id).len(), 1);
}

#[test]
fn timelines_are_created_listed_and_removed() {
    let (mut studio, mut slots, id) = studio();
    let state = get_timeline(&studio, &slots, id).unwrap();
    assert_eq!(state.name.as_deref(), Some("main"));
    assert_eq!((state.track_count, state.is_playing, state.version), (2, Some(false), 0));
    assert_eq!(state.time_scale, Some(1f32.to_bits()));

    let nameless = CreateParams { name: Some(String::new()), tracks: None, player: Some(false) };
    let other = timeline_create(&mut studio, &mut slots, nameless).unwrap();
    assert_eq!((other.name, other.track_count, other.is_playing), (None, 1, None));
    let listed = list_timelines(Some(&studio), &slots).unwrap();
    assert_eq!(listed.len(), 2);
    assert!(matches!(list_timelines(None, &slots), Err(Fault::NothingToList)));
    for tracks in [0, 1025] {
        let params = CreateParams { name: None, tracks: Some(tracks), player: None };
        assert!(matches!(
            timeline_create(&mut studio, &mut slots, params),
            Err(Fault::TrackCount)
        ));
    }

    let state = play_timeline(&studio, &mut slots, id, Some(2f32.to_bits())).unwrap();
    assert_eq!((state.is_playing, state.time_scale), (Some(true), Some(2f32.to_bits())));
    let state = pause_timeline(&studio, &mut slots, id).unwrap();
    assert_eq!(state.is_playing, Some(false));
    let state = set_time_scale(&studio, &mut slots, id, (-1f32).to_bits()).unwrap();
    assert_eq!(state.time_scale, Some((-1f32).to_bits()));
    assert!(matches!(
        play_timeline(&studio, &mut slots, other.id, None),
        Err(Fault::NoTimeline { .. })
    ));
    slots.push(PlayerSlot { id: other.id, player: None });
    assert_eq!(
        message(play_timeline(&studio, &mut slots, other.id, None)),
        format!("Timeline {} has no RealtimePlayer", other.id)
    );

    let renamed = timeline_rename(&mut studio, &slots, id, Some("lead".to_string())).unwrap();
    assert_eq!((renamed.name.as_deref(), renamed.version), (Some("lead"), 1));
    assert_eq!(timeline_track_add(&mut studio, id, 3).unwrap(), (5, 2));
    assert!(matches!(timeline_track_add(&mut studio, id, 0), Err(Fault::AddCount)));

    assert_eq!(remove_timeline(&mut studio, &mut slots, id).unwrap(), id);
    assert_eq!(slots, vec![PlayerSlot { id: other.id, player: None }]);
    assert!(matches!(
        remove_timeline(&mut studio, &mut slots, id),
        Err(Fault::NoTimeline { .. })
    ));
}

#[test]
fn a_state_is_told_when_it_changes() {
    let scene = scene();
    let (mut studio, slots, id) = studio();
    let mut seen = NameTable::new();
    let watch = WatchRef { id, watcher: None };
    let told = get_timeline_watching(&studio, &slots, &mut seen, &watch).unwrap();
    assert_eq!(told.unwrap().version, 0);
    assert!(get_timeline_watching(&studio, &slots, &mut seen, &watch).unwrap().is_none());
    timeline_insert_action(&scene, &mut studio, insertion(id, entity(1), 1.0, None)).unwrap();
    let told = get_timeline_watching(&studio, &slots, &mut seen, &watch).unwrap();
    assert_eq!(told.unwrap().version, 1);

    // Another watcher of the same timeline is told on its own.
    let other = WatchRef { id, watcher: Some("w".to_string()) };
    assert!(get_timeline_watching(&studio, &slots, &mut seen, &other).unwrap().is_some());
    assert!(get_timeline_watching(&studio, &slots, &mut seen, &watch).unwrap().is_none());
}

#[test]
fn watchers_are_told_of_every_edit() {
    let scene = scene();
    let (mut studio, slots, id) = studio();
    let mut cursors = NameTable::new();
    let watch = JournalWatchParams { id, watcher: None, marker_events: true };
    let told = journal_watching(&studio, &mut cursors, &watch).unwrap().unwrap();
    assert!(matches!(told[..], [WatchEvent::Hello { version: 0, seq: 0 }]));
    assert!(journal_watching(&studio, &mut cursors, &watch).unwrap().is_none());

    timeline_insert_action(&scene, &mut studio, insertion(id, entity(1), 1.0, None)).unwrap();
    timeline_undo(&scene, &mut studio, id).unwrap();
    timeline_redo(&scene, &mut studio, id).unwrap();
    timeline_rename(&mut studio, &slots, id, None).unwrap();
    timeline_track_add(&mut studio, id, 1).unwrap();
    let here = MarkerSetParams { id, name: "here".to_string(), time: 7, track: Some(1) };
    marker_set(&mut studio, &here).unwrap();
    marker_remove(&mut studio, id, &here.name).unwrap();
    let told = journal_watching(&studio, &mut cursors, &watch).unwrap().unwrap();
    let kinds: Vec<&EventKind> = told
        .iter()
        .map(|event| match event {
            WatchEvent::Event(event) => &event.kind,
            other => panic!("{other:?}"),
        })
        .collect();
    assert!(matches!(
        kinds[..],
        [
            EventKind::Edit { version: 1, .. },
            EventKind::Undo { version: 2 },
            EventKind::Redo { version: 3 },
            EventKind::Renamed { name: None, version: 4 },
            EventKind::TrackAdd { track_count: 3, version: 5 },
            EventKind::MarkerSet { track: 1, time: 7, version: 6, .. },
            EventKind::MarkerRemoved { version: 7, .. },
        ]
    ));

    for _ in 0..EVENT_CAP + 3 {
        timeline_rename(&mut studio, &slots, id, None).unwrap();
    }
    let told = journal_watching(&studio, &mut cursors, &watch).unwrap().unwrap();
    assert!(matches!(told[0], WatchEvent::Lost { missed: 3 }));
    assert_eq!(told.len(), EVENT_CAP + 1);
    assert!(matches!(
        journal_watching(
            &studio,
            &mut cursors,
            &JournalWatchParams { id: 8, watcher: None, marker_events: false }
        ),
        Err(Fault::NoTimeline { id: 8 })
    ));
}

#[test]
fn watchers_are_told_of_markers_that_are_crossed() {
    let scene = scene();
    let (mut studio, slots, id) = studio();
    timeline_insert_action(&scene, &mut studio, insertion(id, entity(1), 1.0, None)).unwrap();
    for (name, time) in [("late", 2), ("early", 0), ("middle", 1)] {
        let params =
            MarkerSetParams { id, name: name.to_string(), time: seconds(time), track: Some(0) };
        marker_set(&mut studio, &params).unwrap();
    }
    let mut cursors = NameTable::new();
    let watch = JournalWatchParams { id, watcher: Some("w".to_string()), marker_events: true };
    journal_watching(&studio, &mut cursors, &watch).unwrap();
    let ahead = SeekParams { id, time: Some(seconds(2)), track: None, marker: None };
    seek_timeline(&mut studio, &slots, &ahead).unwrap();
    // The playhead has not been there yet.
    assert!(journal_watching(&studio, &mut cursors, &watch).unwrap().is_none());
    play_out(&mut studio, id);
    let told = journal_watching(&studio, &mut cursors, &watch).unwrap().unwrap();
    let crossed: Vec<&str> = told
        .iter()
        .map(|event| match event {
            WatchEvent::Marker { name, playhead, .. } if *playhead == seconds(2) => name.as_str(),
            other => panic!("{other:?}"),
        })
        .collect();
    // The one at the start was never crossed.
    assert_eq!(crossed, vec!["late", "middle"]);
    assert!(journal_watching(&studio, &mut cursors, &watch).unwrap().is_none());
}

/// Moves the playhead of a timeline to its target.
fn play_out(studio: &mut Studio, id: u64) {
    let id = TimelineId::from_raw(id);
    let mut timeline = studio.manager.take(&id).unwrap();
    timeline.queue_actions();
    studio.manager.put(id, timeline);
}

#[test]
fn players_move_the_playhead() {
    let scene = scene();
    let (mut studio, slots, id) = studio();
    timeline_insert_action(&scene, &mut studio, insertion(id, entity(1), 1.0, None)).unwrap();
    let tid = TimelineId::from_raw(id);
    let target = |studio: &Studio| get_timeline(studio, &slots, id).unwrap().target_time;

    let still = RealtimePlayer::new();
    realtime_player_timing(&mut studio.manager, tid, &still, seconds(1));
    assert_eq!(target(&studio), 0);
    let playing = still.with_playing(true).with_time_scale(2f32.to_bits());
    realtime_player_timing(&mut studio.manager, tid, &playing, seconds(1));
    assert_eq!(target(&studio), seconds(1));
    realtime_player_timing(&mut studio.manager, tid, &playing, seconds(5));
    assert_eq!(target(&studio), seconds(2));
    realtime_player_timing(&mut studio.manager, tid, &playing, seconds(-5));
    assert_eq!(target(&studio), 0);

    let mut frames = FixedRatePlayer::default();
    assert_eq!(frames.delta_secs(), TICKS_PER_SECOND / 30);
    frames.set_playing(true);
    for _ in 0..3 {
        fixed_rate_player_timing(&mut studio.manager, tid, &mut frames);
    }
    assert_eq!(frames.curr_frame, 3);
    assert_eq!(target(&studio), TICKS_PER_SECOND / 10);
    // A timeline that is not there is not counted on.
    fixed_rate_player_timing(&mut studio.manager, TimelineId::from_raw(9), &mut frames);
    assert_eq!(frames.curr_frame, 3);
}

#[test]
fn dynamic_animations_run_to_their_end() {
    let scene = scene();
    let mut anims = DynAnimations::default();
    let asked = |fields: Vec<(&str, Json)>| AnimateParams {
        entity: None,
        entity_name: Some("red".to_string()),
        component: BALL_PATH.to_string(),
        duration: seconds(2),
        playing: true,
        fields: fields
            .into_iter()
            .map(|(path, to)| FieldParam { path: path.to_string(), to })
            .collect(),
    };
    let params = asked(vec![("x", float(9.0)), ("x", Json::Other("true".to_string()))]);
    let (id, fields) = brp_animate(&scene, &mut anims, &params).unwrap();
    assert_eq!((id, fields), (DynAnimId(0), 2));
    let listed = brp_list_animations(&anims);
    assert_eq!((listed.len(), listed[0].entity, listed[0].playing), (1, entity(1), true));

    let mut anim = anims.take(&id).unwrap();
    assert!(anim.drive(&scene.component_facts(entity(1), BALL_PATH)));
    anim.advance(seconds(1));
    match anim.step_field(0, true) {
        Some(FieldWrite::Number { from, to, elapsed, duration }) => {
            assert_eq!((f64::from_bits(from), as_f64(to)), (2.0, 9.0));
            assert_eq!((elapsed, duration), (seconds(1), seconds(2)));
        }
        other => panic!("{other:?}"),
    }
    assert!(anim.step_field(1, true).is_none());
    anim.advance(seconds(5));
    assert_eq!((anim.elapsed, anim.playing), (seconds(2), false));
    assert!(anim.step_field(1, false).is_none());
    assert!(matches!(anim.step_field(1, true), Some(FieldWrite::Value(_))));
    // The value is applied once.
    assert!(anim.step_field(1, true).is_none());
    assert!(!anim.drive(&scene.component_facts(entity(8), BALL_PATH)));
    anims.put(id, anim);

    assert_eq!(brp_remove_animation(&mut anims, 0).unwrap(), 0);
    assert_eq!(message(brp_remove_animation(&mut anims, 0)), "No animation with id 0");

    let mut refused = |params: AnimateParams| message(brp_animate(&scene, &mut anims, &params));
    assert_eq!(refused(asked(Vec::new())), "no fields to animate");
    assert_eq!(
        refused(AnimateParams { duration: 0, ..asked(vec![("x", float(1.0))]) }),
        "duration must be > 0"
    );
    assert_eq!(
        refused(AnimateParams { component: "demo::Sky".into(), ..asked(vec![("x", float(1.0))]) }),
        "Unknown/unregistered type: demo::Sky"
    );
    assert_eq!(refused(asked(vec![("y", float(1.0))])), "path `y`: no such field");
    let one = || vec![("x", float(1.0))];
    assert_eq!(
        refused(AnimateParams { component: WIND_PATH.into(), ..asked(one()) }),
        "`demo::Wind` is not a ReflectComponent"
    );
    let gone = AnimateParams { entity: Some(entity(9)), entity_name: None, ..asked(one()) };
    assert_eq!(refused(gone), format!("No such entity: {}", entity(9)));
    assert_eq!(
        refused(AnimateParams { component: HAT_PATH.into(), ..asked(one()) }),
        format!("Entity {} has no `demo::Hat`", entity(1))
    );
    assert_eq!(
        refused(asked(vec![("mood", float(1.0))])),
        "field `mood` is not numeric; cannot tween"
    );
    let word = || Json::Other("\"red\"".to_string());
    assert_eq!(
        refused(asked(vec![("skin", word())])),
        "field `skin` type `demo::Leaf` not registered"
    );
    assert_eq!(refused(asked(vec![("mood", word())])), "field `mood`: unknown mood");
    assert!(brp_list_animations(&anims).is_empty());
}

#[test]
fn spawning_needs_known_components() {
    let part = |is_registered: bool, is_component: bool, value_fault: Option<&str>| {
        let value_fault = value_fault.map(|reason| reason.to_string());
        ("demo::Ball".to_string(), SpawnFacts { is_registered, is_component, value_fault })
    };
    assert!(brp_spawn(&vec![part(true, true, None)]).is_ok());
    assert_eq!(
        message(brp_spawn(&vec![part(true, true, None), part(false, true, None)])),
        "Unknown/unregistered type: demo::Ball"
    );
    assert_eq!(
        message(brp_spawn(&vec![part(true, false, None)])),
        "`demo::Ball` is not a ReflectComponent"
    );
    assert_eq!(
        message(brp_spawn(&vec![part(true, true, Some("bad"))])),
        "`demo::Ball`: bad"
    );
}

#[test]
fn methods_are_described_once() {
    let row = |name: &str| MethodRow {
        name: name.to_string(),
        params: "{}".to_string(),
        gives: "{}".to_string(),
        doc: String::new(),
        app_local: false,
    };
    let table = vec![row("motiongfx.a"), row("motiongfx.b")];
    let mut local = MotionGfxSchema::default();
    local.describe_brp_method("demo.jump", "{height}", "{}", "Jumps.");
    let rows = schema(&table, Some(&local));
    let names: Vec<(&str, bool)> =
        rows.iter().map(|row| (row.name.as_str(), row.app_local)).collect();
    assert_eq!(
        names,
        vec![("motiongfx.a", false), ("motiongfx.b", false), ("demo.jump", true)]
    );
    assert_eq!(schema(&table, None).len(), 2);
}

#[test]
fn an_asset_is_found_through_its_handle() {
    let scene = scene();
    let facts = scene.asset_facts(entity(1), BALL_PATH);
    assert_eq!(resolve_asset(&facts, entity(1), &BALL_PATH.to_string()).unwrap(), 77);
    let facts = scene.asset_facts(entity(1), "demo::Sky");
    assert_eq!(
        message(resolve_asset(&facts, entity(1), &"demo::Sky".to_string())),
        "`demo::Sky` is not a registered type"
    );
    let facts = AssetFacts { candidates: vec![None], ..scene.asset_facts(entity(1), BALL_PATH) };
    assert!(matches!(
        resolve_asset(&facts, entity(1), &BALL_PATH.to_string()),
        Err(Fault::Asset(AssetFault::NoHandle { .. }))
    ));
}

#[test]
fn eases_survive_the_wire() {
    let named = |name: &str| resolve_ease(&EaseParam::Named(name.to_string()));
    let linear = named("linear").unwrap();
    let elastic = named("elastic_out").unwrap();
    assert_ne!(linear, elastic);
    for ease in [linear, elastic] {
        assert_eq!(resolve_ease(&ease_to_json(ease)).unwrap(), ease);
    }
    assert_eq!(message(named("wobbly")), "unknown ease `wobbly`");
    let f = ease_fn_from_name("expo_in").unwrap();
    assert_eq!(ease_name(f), Some("expo_in"));
    assert_eq!(ease_name(EaseFn { id: 9999 }), None);
    assert!(ease_fn_from_name("wobbly").is_none());

    let curve = |x1: f32| {
        EaseParam::Curve(CubicBezier {
            x1: x1.to_bits(),
            y1: 0,
            x2: 0.5f32.to_bits(),
            y2: 1f32.to_bits(),
        })
    };
    assert!(matches!(resolve_ease(&curve(0.25)), Ok(Ease::CubicBezier(_))));
    assert_eq!(
        message(resolve_ease(&curve(1.25))),
        "cubic_bezier x1/x2 must lie in [0,1]"
    );
    assert!(matches!(
        resolve_ease(&EaseParam::Unreadable("odd".to_string())),
        Err(Fault::Op(OpFault::EaseUnreadable { .. }))
    ));
}

#[test]
fn the_catalog_finds_fields_by_name_and_by_field() {
    assert_eq!(motiongfx_path_to_reflect("::translation::x"), "translation.x");
    let mut catalog = MotionGfxCatalog::default();
    catalog.insert(BALL_PATH.to_string(), "::x", "f64".to_string(), pipeline(), field(1));
    catalog.insert_with_subject(
        "demo::Sky".to_string(),
        "::color::r",
        "f32".to_string(),
        pipeline(),
        field(2),
        SubjectKind::Resource,
    );
    assert_eq!(catalog.get(BALL_PATH, "x").unwrap().field, field(1));
    assert!(catalog.get(BALL_PATH, "::x").is_none());
    assert_eq!(catalog.get_by_field(&field(2)).unwrap().field_name, "color.r");
    assert!(catalog.is_resource_field("demo::Sky", "color.r"));
    assert!(!catalog.is_resource_field(BALL_PATH, "x"));
    assert_eq!(catalog.iter().len(), 2);

    let listed = animatable_fields(Some(&catalog), &Some("demo::Sky".to_string())).unwrap();
    assert_eq!(listed.len(), 1);
    assert_eq!((listed[0].field.as_str(), listed[0].subject), ("color.r", "resource"));
    assert!(matches!(animatable_fields(None, &None), Err(Fault::NoCatalogPlugin)));
}

fn stage(bits: u64, name: &str, subject: Written) -> SceneEntity {
    SceneEntity {
        bits,
        name: Some(name.to_string()),
        subjects: vec![(BALL_PATH.to_string(), subject)],
        extras: vec![("demo::Tint".to_string(), Written::Absent)],
    }
}

#[test]
fn projects_are_saved_and_loaded() {
    let scene = scene();
    let (mut studio, mut slots, id) = studio();
    timeline_insert_action(&scene, &mut studio, insertion(id, entity(1), 1.0, None)).unwrap();
    let mut config = MotionGfxProjectConfig::default();
    let cast = vec![
        stage(entity(1), "red", Written::Value(float(2.0))),
        stage(entity(9), "lamp", Written::Absent),
    ];
    assert!(matches!(
        project_save(&scene, &mut studio, &config, &cast, None),
        Err(Fault::Document(DocumentFault::NoProjectSubjects))
    ));
    config.register_project_subject(BALL_PATH.to_string());
    let project = project_save(&scene, &mut studio, &config, &cast, None).unwrap();
    assert_eq!(project.format, "motiongfx-project");
    assert_eq!(project.entities.len(), 1);
    assert_eq!(project.entities[0].name.as_deref(), Some("red"));
    assert_eq!(project.timelines.len(), 1);
    assert_eq!(find_project_subjects(&cast), vec![entity(1)]);

    let broken = vec![stage(entity(1), "red", Written::Failed("no serializer".to_string()))];
    assert_eq!(
        message(project_save(&scene, &mut studio, &config, &broken, None)),
        "cannot serialize `demo::Ball`: no serializer"
    );

    // A timeline that there is no more is made anew.
    remove_timeline(&mut studio, &mut slots, id).unwrap();
    let saved = project.timelines.into_iter().next().unwrap();
    let entries = vec![ProjectEntry {
        id: Some(saved.id),
        name: saved.name,
        document: Ok(saved.document),
    }];
    let loaded = project_load(&scene, &mut studio, &mut slots, 0, &Vec::new(), entries).unwrap();
    assert_eq!((loaded.len(), loaded[0].from, loaded[0].inserted), (1, Some(id), 1));
    assert_ne!(loaded[0].into, id);
    let state = get_timeline(&studio, &slots, loaded[0].into).unwrap();
    assert_eq!(state.name.as_deref(), Some("main"));
    assert_eq!(shape(&scene, &studio, loaded[0].into), vec![(0, seconds(2), 1.0)]);

    let shown = "\"motiongfx-timeline\"".to_string();
    assert!(check_project(&Some("motiongfx-project".to_string()), &shown).is_ok());
    assert_eq!(
        message(check_project(&Some("motiongfx-timeline".to_string()), &shown)),
        "not a motiongfx-project document (format = \"motiongfx-timeline\")"
    );
    let unread = vec![ProjectEntry { id: None, name: None, document: Err("bad".to_string()) }];
    assert_eq!(
        message(project_load(&scene, &mut studio, &mut slots, 0, &Vec::new(), unread)),
        "bad"
    );
}

#[test]
fn values_of_fields_without_clips_are_not_known() {
    let scene = scene();
    let (mut studio, _, id) = studio();
    timeline_insert_action(&scene, &mut studio, insertion(id, entity(1), 10.0, None)).unwrap();
    let params = |track: usize, subject: u64, component: &str| ValueAtParams {
        id,
        time: seconds(1),
        track,
        entity: Some(subject),
        entity_name: None,
        component: component.to_string(),
        field: "x".to_string(),
    };
    let mut refused = |params: ValueAtParams| value_at(&scene, &mut studio, &params).unwrap_err();
    let fault = refused(params(7, entity(1), BALL_PATH));
    assert_eq!(fault.code(), ErrorCode::ResourceError);
    assert!(matches!(fault, Fault::TrackOutOfRange { .. }));
    assert!(matches!(
        refused(params(1, entity(1), BALL_PATH)),
        Fault::NoClips { track: 1, .. }
    ));
    assert!(matches!(refused(params(0, entity(2), BALL_PATH)), Fault::NoClips { .. }));
    assert!(matches!(refused(params(0, entity(1), HAT_PATH)), Fault::NoClips { .. }));
    let nameless = ValueAtParams { entity: None, ..params(0, 0, BALL_PATH) };
    assert!(matches!(refused(nameless), Fault::Subject(SubjectFault::Missing)));
}

#[test]
fn resources_and_unreadable_fields_have_no_relative_targets() {
    let scene = scene();
    let (mut studio, _, id) = studio();
    studio.catalog.insert_with_subject(
        WIND_PATH.to_string(),
        "::x",
        "f64".to_string(),
        pipeline(),
        field(2),
        SubjectKind::Resource,
    );
    studio.catalog.insert(BALL_PATH.to_string(), "::y", "f64".to_string(), pipeline(), field(3));
    let relative = |component: &str, path: &str, subject: u64| InsertParams {
        component: component.to_string(),
        field: path.to_string(),
        to: Json::Null,
        to_relative: Some(1f64.to_bits()),
        ..insertion(id, subject, 0.0, None)
    };
    let mut refused =
        |params: InsertParams| message(timeline_insert_action(&scene, &mut studio, params));
    assert_eq!(
        refused(relative(WIND_PATH, "x", entity(1))),
        "`to_relative` supports component subjects only"
    );
    assert_eq!(
        refused(InsertParams {
            asset_of: Some(BALL_PATH.to_string()),
            ..relative(BALL_PATH, "x", entity(1))
        }),
        "`to_relative` supports component subjects only"
    );
    assert_eq!(
        refused(relative(BALL_PATH, "x", entity(9))),
        format!("entity {} does not exist", entity(9))
    );
    assert_eq!(
        refused(relative(BALL_PATH, "y", entity(1))),
        "`to_relative` needs a numeric field with a readable live value (`demo::Ball`.`y`)"
    );
    assert_eq!(
        refused(InsertParams {
            asset_of: Some(BALL_PATH.to_string()),
            component: WIND_PATH.to_string(),
            ..insertion(id, entity(1), 1.0, None)
        }),
        "resource fields take no `asset_of`"
    );
    assert!(shape(&scene, &studio, id).is_empty());
}

#[test]
fn fields_whose_types_do_not_fit_are_refused() {
    let scene = scene();
    let (mut studio, _, id) = studio();
    let odd = PipelineKey { target_id: 5, ..pipeline() };
    let odd_field = UntypedField { target_id: 5, ..field(4) };
    studio.catalog.insert(BALL_PATH.to_string(), "::odd", "u8".to_string(), odd, odd_field);
    let bare = PipelineKey { source_id: 6, ..pipeline() };
    let bare_field = UntypedField { source_id: 6, ..field(5) };
    studio.catalog.insert(BALL_PATH.to_string(), "::bare", "f64".to_string(), bare, bare_field);
    let mut refused = |path: &str, to: Json| {
        let params =
            InsertParams { field: path.to_string(), to, ..insertion(id, entity(1), 0.0, None) };
        let fault = timeline_insert_action(&scene, &mut studio, params).unwrap_err();
        (fault.code(), fault.message())
    };
    assert_eq!(
        refused("odd", float(1.0)),
        (ErrorCode::ComponentError, "target type is not in the type registry".to_string())
    );
    assert_eq!(
        refused("x", Json::Null),
        (ErrorCode::InvalidParams, "`to` value did not match the target field type".to_string())
    );
    assert_eq!(
        refused("bare", float(1.0)),
        (ErrorCode::ComponentError, "field is not registered for remote editing".to_string())
    );
}

#[test]
fn clips_of_forgotten_fields_keep_their_targets() {
    let scene = scene();
    let (mut studio, _, id) = studio();
    let (plain, _) =
        action_of(timeline_insert_action(&scene, &mut studio, insertion(id, entity(1), 9.0, None)));
    let points = vec![point(0.5, 4.0), point(1.0, 8.0)];
    let (pointed, _) = action_of(timeline_insert_keyframes(
        &scene,
        &mut studio,
        keyframed(id, points, None),
    ));
    let patch = |action: u64| UpdateParams {
        id,
        action_id: action,
        to: None,
        to_relative: None,
        ease: None,
        keyframes: None,
        smooth: None,
        label: None,
        color: None,
        enabled: None,
    };
    let mut refused =
        |params: UpdateParams| message(timeline_update_action(&scene, &mut studio, params));
    let moved = || Some(vec![point(1.0, 2.0)]);
    assert_eq!(
        refused(UpdateParams { to: Some(float(1.0)), ..patch(pointed) }),
        "this action has keyframes; update them via `keyframes`, not `to`"
    );
    assert_eq!(
        refused(UpdateParams { to: Some(float(1.0)), keyframes: moved(), ..patch(pointed) }),
        "`to` and `keyframes` are mutually exclusive"
    );
    assert_eq!(
        refused(UpdateParams {
            to: Some(float(1.0)),
            to_relative: Some(1f64.to_bits()),
            ..patch(plain)
        }),
        "`to` and `to_relative` are mutually exclusive"
    );

    studio.catalog = MotionGfxCatalog::default();
    let mut refused =
        |params: UpdateParams| message(timeline_update_action(&scene, &mut studio, params));
    assert_eq!(
        refused(UpdateParams { to: Some(float(1.0)), ..patch(plain) }),
        "the action's field is not registered as animatable, so its value type is unknown \
         (ease-only updates still work)"
    );
    assert_eq!(
        refused(UpdateParams { keyframes: moved(), ..patch(pointed) }),
        "the action's field is not registered as animatable"
    );
    let eased = EaseParam::Named("cubic_in".to_string());
    let params = UpdateParams { ease: Some(eased), ..patch(plain) };
    timeline_update_action(&scene, &mut studio, params).unwrap();

    assert_eq!(
        message(timeline_export(&scene, &mut studio, id)),
        "2 clip(s) cannot be exported; register their fields as animatable"
    );
    // What is removed now cannot be brought back.
    timeline_remove_action(&scene, &mut studio, id, 0, plain).unwrap();
    assert_eq!(
        message(timeline_undo(&scene, &mut studio, id)),
        format!(
            "undo failed at op 0: cannot apply this edit: clip {plain} cannot be restored: its \
             field is not registered as animatable"
        )
    );
}

#[test]
fn undoing_a_clear_brings_tracks_back() {
    let scene = scene();
    let (mut studio, slots, id) = studio();
    let params = InsertParams { track: 1, ..insertion(id, entity(1), 4.0, Some(3)) };
    timeline_insert_action(&scene, &mut studio, params).unwrap();
    let before = shape(&scene, &studio, id);
    timeline_clear(&scene, &mut studio, id).unwrap();
    assert_eq!(get_timeline(&studio, &slots, id).unwrap().track_count, 1);
    assert_eq!(timeline_undo(&scene, &mut studio, id).unwrap(), (3, 1));
    assert_eq!(shape(&scene, &studio, id), before);
    assert_eq!(get_timeline(&studio, &slots, id).unwrap().track_count, 2);
    let tracks = timeline_inspect(&scene, &studio, id, true).unwrap().tracks;
    assert!(tracks[0].sequences.is_empty());
    assert_eq!(tracks[1].sequences.len(), 1);
}

#[test]
fn a_refused_import_restores_every_track() {
    let scene = scene();
    let (mut studio, mut slots, id) = studio();
    let params = InsertParams { track: 1, ..insertion(id, entity(1), 4.0, Some(3)) };
    timeline_insert_action(&scene, &mut studio, params).unwrap();
    let before = format!("{:?}", document(&mut studio, id));

    let blank = CreateParams { name: None, tracks: None, player: Some(false) };
    let other = timeline_create(&mut studio, &mut slots, blank).unwrap().id;
    for _ in 0..2 {
        timeline_insert_action(&scene, &mut studio, insertion(other, entity(1), 1.0, None)).unwrap();
    }
    let mut overlapping = document(&mut studio, other);
    overlapping.tracks[0][1].start = overlapping.tracks[0][0].start;
    let params =
        ImportParams { id, document: overlapping, mode: Some("replace".into()), bindings: vec![] };
    match timeline_import(&scene, &mut studio, &params) {
        Err(Fault::At { index, rollback_incomplete, .. }) => {
            assert_eq!((index, rollback_incomplete), (1, false));
        }
        other => panic!("{other:?}"),
    }
    assert_eq!(format!("{:?}", document(&mut studio, id)), before);
    let state = get_timeline(&studio, &slots, id).unwrap();
    assert_eq!((state.track_count, state.version), (2, 1));
}

#[test]
fn a_muted_clip_keeps_its_target() {
    let scene = scene();
    let (mut studio, _, id) = studio();
    let muted = InsertParams { enabled: Some(false), ..insertion(id, entity(1), 10.0, None) };
    let (action, _) = action_of(timeline_insert_action(&scene, &mut studio, muted));
    let written = document(&mut studio, id);
    assert_eq!(json_f64(written.tracks[0][0].to.as_ref().unwrap()), 10.0);
    assert_eq!(written.tracks[0][0].enabled, Some(false));

    timeline_remove_action(&scene, &mut studio, id, 0, action).unwrap();
    timeline_undo(&scene, &mut studio, id).unwrap();
    let again = &clips(&scene, &studio, id)[0];
    assert_eq!((again.enabled, json_f64(again.end_value.as_ref().unwrap())), (Some(false), 2.0));
    let action = again.action_id;
    let patch = |to: Option<Json>, enabled: Option<bool>| UpdateParams {
        id,
        action_id: action,
        to,
        to_relative: None,
        ease: None,
        keyframes: None,
        smooth: None,
        label: None,
        color: None,
        enabled,
    };
    timeline_update_action(&scene, &mut studio, patch(Some(float(7.0)), None)).unwrap();
    timeline_undo(&scene, &mut studio, id).unwrap();
    timeline_update_action(&scene, &mut studio, patch(None, Some(true))).unwrap();
    assert_eq!(shape(&scene, &studio, id), vec![(0, seconds(2), 10.0)]);
}

#[test]
fn a_shared_name_is_written_as_bits() {
    let scene = scene();
    let (mut studio, _, id) = studio();
    for index in [2, 3] {
        let params = InsertKeyframesParams {
            entity: Some(entity(index)),
            ..keyframed(id, vec![point(1.0, 8.0)], None)
        };
        timeline_insert_keyframes(&scene, &mut studio, params).unwrap();
    }
    let written = document(&mut studio, id);
    let mut bits: Vec<u64> = Vec::new();
    for action in &written.tracks[0] {
        match action.subject {
            DocSubject::Entity { entity } => bits.push(entity),
            ref other => panic!("{other:?}"),
        }
    }
    bits.sort();
    let mut both = vec![entity(2), entity(3)];
    both.sort();
    assert_eq!(bits, both);
    assert_eq!(written.warnings.len(), 2);
}

#[test]
fn a_project_comes_from_one_source() {
    assert_eq!(load_source(true, false).unwrap(), LoadSource::Path);
    assert_eq!(load_source(false, true).unwrap(), LoadSource::Document);
    assert_eq!(message(load_source(true, true)), "`path` and `document` are mutually exclusive");
    assert_eq!(message(load_source(false, false)), "pass `path` or `document`");
}

#[test]
fn a_clip_removed_from_the_middle_comes_back_to_its_place() {
    let scene = scene();
    let (mut studio, _, id) = studio();
    let mut middle = 0;
    for (to, start) in [(1.0, 0), (5.0, 3), (9.0, 6)] {
        let params = InsertParams {
            label: Some(format!("to {to}")),
            ease: Some(EaseParam::Named("quad_in_out".to_string())),
            ..insertion(id, entity(1), to, Some(start))
        };
        let (action, _) = action_of(timeline_insert_action(&scene, &mut studio, params));
        if start == 3 {
            middle = action;
        }
    }
    let before = format!("{:?}", document(&mut studio, id));
    let shown = shape(&scene, &studio, id);
    assert_eq!(
        shown,
        vec![
            (0, seconds(2), 1.0),
            (seconds(3), seconds(2), 5.0),
            (seconds(6), seconds(2), 9.0),
        ]
    );
    timeline_remove_action(&scene, &mut studio, id, 0, middle).unwrap();
    assert_eq!(shape(&scene, &studio, id).len(), 2);
    timeline_undo(&scene, &mut studio, id).unwrap();
    assert_eq!(shape(&scene, &studio, id), shown);
    assert_eq!(format!("{:?}", document(&mut studio, id)), before);

    let again = clips(&scene, &studio, id)[1].action_id;
    timeline_move_action(&scene, &mut studio, id, 0, again, seconds(9), None).unwrap();
    assert_eq!(shape(&scene, &studio, id)[2], (seconds(9), seconds(2), 5.0));
    timeline_undo(&scene, &mut studio, id).unwrap();
    assert_eq!(format!("{:?}", document(&mut studio, id)), before);
}
