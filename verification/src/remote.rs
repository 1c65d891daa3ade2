//! Editing a timeline while it runs.
use crate::action::subjects::slot_of;
use crate::action::world::{claimed, is_uid_for, ActionModel};
use crate::action::{
    clamped_keyframe, entity_bits, sorted_keyframes, Action, ActionId, ActionKey, ActionRecord, ActionWorld, Ease,
    InterpFn, Keyframe, KeyframesStorage, Value,
};
use crate::pipeline::PipelineKey;
use crate::seqs::{stable_sort_is_sound, take_one_more};
use crate::subject::{Subject, TypeTag, UntypedField};
use crate::table::Table;
use crate::time::Phase;
use std::sync::Arc;
use vstd::prelude::*;

verus! {

/// A target of any type.
#[derive(Debug, Clone, Copy, PartialEq, Eq, Structural)]
pub struct RemoteTarget {
    pub end: Value,
}

impl RemoteTarget {
    /// The target `end`.
    pub fn new(end: Value) -> (target: Self)
        ensures
            target.end == end,
    {
        RemoteTarget { end }
    }
}

/// A keyframe of any type.
#[derive(Debug, Clone, Copy, PartialEq, Eq, Structural)]
pub struct RemoteKeyframe {
    /// Normalised time within the clip, `None` where it is not finite.
    pub t: Option<Phase>,
    /// The value at `t`.
    pub value: RemoteTarget,
    /// Ease of the segment ending at this keyframe.
    pub ease: Option<Ease>,
    pub hold: bool,
}

/// Identifies an animatable field at runtime.
#[derive(Debug, Clone, Copy, PartialEq, Eq, Structural)]
pub struct RemoteFieldKey {
    pub pipeline: PipelineKey,
    pub field: UntypedField,
}

impl RemoteFieldKey {
    /// The field of a pipeline.
    pub fn new(pipeline: PipelineKey, field: UntypedField) -> (key: Self)
        ensures
            key == (RemoteFieldKey { pipeline, field }),
    {
        RemoteFieldKey { pipeline, field }
    }

    /// The type of the subjects that have the field.
    pub fn subject_type(&self) -> (tag: TypeTag)
        ensures
            tag == self.pipeline.subject_id,
    {
        self.pipeline.subject_id
    }
}

/// Why a keyframe list is not one.
#[derive(Debug, Clone, Copy, PartialEq, Eq, Structural)]
pub enum KeyframesFault {
    /// There is no keyframe.
    Empty,
    /// A keyframe has no finite time.
    NotFinite,
}

impl KeyframesFault {
    /// What is wrong, in words.
    pub open spec fn spec_reason(self) -> Seq<char> {
        match self {
            KeyframesFault::Empty => "keyframe list is empty"@,
            KeyframesFault::NotFinite => "keyframe `t` is not finite"@,
        }
    }

    /// What is wrong, in words.
    pub fn reason(&self) -> (reason: &'static str)
        ensures
            reason@ == self.spec_reason(),
    {
        match self {
            KeyframesFault::Empty => "keyframe list is empty",
            KeyframesFault::NotFinite => "keyframe `t` is not finite",
        }
    }
}

/// Errors from a remote action construction.
#[derive(Debug, Clone, Copy, PartialEq, Eq, Structural)]
pub enum RemoteActionError {
    /// No constructor registered for the requested key/field.
    Unregistered,
    /// The [`RemoteTarget`] value was not of the expected type.
    TypeMismatch,
    /// A keyframe list was rejected.
    InvalidKeyframes(KeyframesFault),
}

/// Errors from a structural remote edit on a compiled
/// [`Timeline`](crate::timeline::Timeline).
#[derive(Debug, Clone, Copy, PartialEq, Eq, Structural)]
pub enum RemoteEditError {
    /// Constructing the action failed.
    Action(RemoteActionError),
    /// The edit would make the clip overlap an existing clip
    /// for the same subject + field.
    Overlap { conflict: ActionId },
    /// No action with the given id exists on the given track.
    NotFound,
    /// The track index is out of range.
    TrackOutOfRange,
}

impl From<RemoteActionError> for RemoteEditError {
    fn from(err: RemoteActionError) -> (edit: Self) {
        RemoteEditError::Action(err)
    }
}

impl vstd::std_specs::convert::FromSpecImpl<RemoteActionError> for RemoteEditError {
    open spec fn obeys_from_spec() -> bool {
        true
    }

    open spec fn from_spec(err: RemoteActionError) -> Self {
        RemoteEditError::Action(err)
    }
}

/// Registry of the pipelines whose fields can be edited while a timeline
/// runs, with how their values interpolate.
pub struct RemoteActionRegistry {
    entries: Table<PipelineKey, InterpFn>,
}

impl View for RemoteActionRegistry {
    type V = Map<PipelineKey, InterpFn>;

    closed spec fn view(&self) -> Map<PipelineKey, InterpFn> {
        self.entries@
    }
}

impl RemoteActionRegistry {
    /// A registry without pipelines.
    pub fn new() -> (registry: Self)
        ensures
            registry@ == Map::<PipelineKey, InterpFn>::empty(),
    {
        RemoteActionRegistry { entries: Table::new() }
    }

    /// Declares the fields of a pipeline remote-editable. A pipeline that was
    /// declared before keeps its interpolation.
    pub fn register(&mut self, key: PipelineKey, interp: InterpFn)
        ensures
            final(self)@ == (if old(self)@.contains_key(key) {
                old(self)@
            } else {
                old(self)@.insert(key, interp)
            }),
    {
        if self.entries.contains_key(&key) {
            return;
        }
        self.entries.insert(key, interp);
    }
}

/// What is wrong with the first keyframe that cannot be used, if there is one.
pub open spec fn keyframe_fault(keyframes: Seq<RemoteKeyframe>, target: TypeTag) -> Option<
    RemoteActionError,
>
    decreases keyframes.len(),
{
    if keyframes.len() == 0 {
        None
    } else {
        match keyframe_fault(keyframes.drop_last(), target) {
            Some(fault) => Some(fault),
            None => if keyframes.last().t is None {
                Some(RemoteActionError::InvalidKeyframes(KeyframesFault::NotFinite))
            } else if keyframes.last().value.end.type_id != target {
                Some(RemoteActionError::TypeMismatch)
            } else {
                None
            },
        }
    }
}

/// Why a keyframe list cannot be used, if it cannot.
pub open spec fn keyframes_fault(keyframes: Seq<RemoteKeyframe>, target: TypeTag) -> Option<
    RemoteActionError,
> {
    if keyframes.len() == 0 {
        Some(RemoteActionError::InvalidKeyframes(KeyframesFault::Empty))
    } else {
        keyframe_fault(keyframes, target)
    }
}

/// The keyframes with their types taken for granted.
pub open spec fn typed_keyframes(keyframes: Seq<RemoteKeyframe>) -> Seq<Keyframe<Value>> {
    keyframes.map_values(
        |keyframe: RemoteKeyframe|
            Keyframe {
                t: keyframe.t->0,
                value: keyframe.value.end,
                ease: keyframe.ease,
                hold: keyframe.hold,
            },
    )
}

/// Takes a [`RemoteKeyframe`] list for one of type `target`, then sorts
/// by `t` and clamps each `t` into the clip.
fn downcast_keyframes(keyframes: &Vec<RemoteKeyframe>, target: TypeTag) -> (result: Result<
    KeyframesStorage<Value>,
    RemoteActionError,
>)
    ensures
        match result {
            Ok(storage) => keyframes_fault(keyframes@, target) is None && storage@
                == sorted_keyframes(typed_keyframes(keyframes@)),
            Err(fault) => keyframes_fault(keyframes@, target) == Some(fault),
        },
{
    if keyframes.len() == 0 {
        return Err(RemoteActionError::InvalidKeyframes(KeyframesFault::Empty));
    }
    let mut points: Vec<Keyframe<Value>> = Vec::new();
    let mut i: usize = 0;
    while i < keyframes.len()
        invariant
            i <= keyframes@.len(),
            keyframes@.len() >= 1,
            keyframe_fault(keyframes@.take(i as int), target) is None,
            points@ =~= typed_keyframes(keyframes@.take(i as int)),
        decreases keyframes@.len() - i,
    {
        let keyframe = keyframes[i];
        proof {
            take_one_more(keyframes@, i as int);
            fault_stays(keyframes@, i + 1, target);
        }
        let t = match keyframe.t {
            Some(t) => t,
            None => {
                return Err(RemoteActionError::InvalidKeyframes(KeyframesFault::NotFinite));
            },
        };
        if keyframe.value.end.type_id != target {
            return Err(RemoteActionError::TypeMismatch);
        }
        points.push(
            Keyframe { t, value: keyframe.value.end, ease: keyframe.ease, hold: keyframe.hold },
        );
        i += 1;
    }
    assert(keyframes@.take(i as int) =~= keyframes@);
    Ok(KeyframesStorage::new(points))
}

/// What is wrong with a prefix is wrong with the whole.
proof fn fault_stays(keyframes: Seq<RemoteKeyframe>, n: int, target: TypeTag)
    requires
        0 <= n <= keyframes.len(),
    ensures
        keyframe_fault(keyframes.take(n), target) is Some ==> keyframe_fault(keyframes, target)
            == keyframe_fault(keyframes.take(n), target),
    decreases keyframes.len(),
{
    if n == keyframes.len() {
        assert(keyframes.take(n) =~= keyframes);
    } else {
        fault_stays(keyframes.drop_last(), n, target);
        assert(keyframes.drop_last().take(n) =~= keyframes.take(n));
    }
}

/// A new action of a remote edit.
pub open spec fn remote_record(
    key: ActionKey,
    target_type: TypeTag,
    end: Value,
    interp: InterpFn,
    ease: Option<Ease>,
    keyframes: Option<Arc<KeyframesStorage<Value>>>,
) -> ActionRecord {
    ActionRecord {
        key,
        target_type,
        action: Action::Constant(end),
        interp: Some(interp),
        ease,
        keyframes,
        disabled: false,
        mark: None,
        segment: None,
    }
}

/// Whether `after` has one more action than `before`, on the field of the
/// subject, under a new id.
pub open spec fn action_added(
    before: ActionModel,
    after: ActionModel,
    id: ActionId,
    subject: Subject,
    field: UntypedField,
) -> bool {
    let record = after.actions[id];
    &&& entity_bits(id.bits)
    &&& !before.has(id)
    &&& record.key.field == field
    &&& record.key.subject_id.type_id == subject.type_id
    &&& is_uid_for(before.known, subject, record.key.subject_id.uid)
    &&& after == (ActionModel {
        actions: before.actions.insert(id, record),
        subjects: claimed(before.subjects, subject, record.key.subject_id.uid),
        known: before.known.insert(slot_of(record.key), subject.bits),
        baselines: before.baselines,
    })
}

impl RemoteActionRegistry {
    /// Adds an action with an interpolation and maybe an ease.
    fn add(
        &self,
        action_world: &mut ActionWorld,
        subject: Subject,
        field: UntypedField,
        end: Value,
        interp: InterpFn,
        ease: Option<Ease>,
    ) -> (id: ActionId)
        ensures
            action_added(old(action_world)@, final(action_world)@, id, subject, field),
            final(action_world)@.actions[id] == remote_record(
                final(action_world)@.actions[id].key,
                end.type_id,
                end,
                interp,
                ease,
                None,
            ),
    {
        let ghost before = action_world@;
        let builder = action_world.add(subject, field, end.type_id, Action::Constant(end));
        let id = builder.id();
        let builder = builder.with_interp(action_world, interp);
        match ease {
            Some(ease) => {
                builder.with_easing(action_world, ease);
            },
            None => {},
        }
        proof {
            let record = remote_record(builder.inner.key, end.type_id, end, interp, ease, None);
            assert(action_world@.actions =~= before.actions.insert(id, record));
        }
        id
    }

    /// Construct and insert a remote action, returning its [`ActionId`].
    pub fn construct(
        &self,
        key: &PipelineKey,
        action_world: &mut ActionWorld,
        subject: Subject,
        field: UntypedField,
        target: RemoteTarget,
        ease: Option<Ease>,
    ) -> (result: Result<ActionId, RemoteActionError>)
        ensures
            match result {
                Ok(id) => {
                    &&& self@.contains_key(*key)
                    &&& subject.type_id == key.subject_id
                    &&& target.end.type_id == key.target_id
                    &&& action_added(old(action_world)@, final(action_world)@, id, subject, field)
                    &&& final(action_world)@.actions[id] == remote_record(
                        final(action_world)@.actions[id].key,
                        key.target_id,
                        target.end,
                        self@[*key],
                        ease,
                        None,
                    )
                },
                Err(error) => {
                    &&& final(action_world)@ == old(action_world)@
                    &&& error == if !self@.contains_key(*key) {
                        RemoteActionError::Unregistered
                    } else {
                        RemoteActionError::TypeMismatch
                    }
                    &&& self@.contains_key(*key) ==> subject.type_id != key.subject_id
                        || target.end.type_id != key.target_id
                },
            },
    {
        let interp = match self.entries.get(key) {
            Some(interp) => *interp,
            None => {
                return Err(RemoteActionError::Unregistered);
            },
        };
        if subject.type_id != key.subject_id || target.end.type_id != key.target_id {
            return Err(RemoteActionError::TypeMismatch);
        }
        Ok(self.add(action_world, subject, field, target.end, interp, ease))
    }

    /// Replace an existing action's target value with `target`.
    pub fn update(
        &self,
        key: &PipelineKey,
        action_world: &mut ActionWorld,
        id: ActionId,
        target: RemoteTarget,
    ) -> (result: Result<(), RemoteActionError>)
        ensures
            result == update_result(self@, *key, old(action_world)@, id, target),
            result is Err ==> final(action_world)@ == old(action_world)@,
            result is Ok ==> final(action_world)@ == retargeted(
                old(action_world)@,
                id,
                target.end,
            ),
    {
        if !self.entries.contains_key(key) {
            return Err(RemoteActionError::Unregistered);
        }
        if target.end.type_id != key.target_id {
            return Err(RemoteActionError::TypeMismatch);
        }
        if !action_world.replace_action(id, key.target_id, Action::Constant(target.end)) {
            return Err(RemoteActionError::TypeMismatch);
        }
        Ok(())
    }

    /// Construct and insert a remote **keyframed** action, returning its
    /// [`ActionId`].
    pub fn construct_keyframes(
        &self,
        key: &PipelineKey,
        action_world: &mut ActionWorld,
        subject: Subject,
        field: UntypedField,
        keyframes: &Vec<RemoteKeyframe>,
        ease: Option<Ease>,
    ) -> (result: Result<ActionId, RemoteActionError>)
        ensures
            match result {
                Ok(id) => {
                    &&& self@.contains_key(*key)
                    &&& subject.type_id == key.subject_id
                    &&& keyframes_fault(keyframes@, key.target_id) is None
                    &&& action_added(old(action_world)@, final(action_world)@, id, subject, field)
                    &&& keyframes_kept(
                        final(action_world)@.actions[id],
                        keyframes@,
                        key.target_id,
                        self@[*key],
                        ease,
                    )
                },
                Err(error) => {
                    &&& final(action_world)@ == old(action_world)@
                    &&& Some(error) == if !self@.contains_key(*key) {
                        Some(RemoteActionError::Unregistered)
                    } else if subject.type_id != key.subject_id {
                        Some(RemoteActionError::TypeMismatch)
                    } else {
                        keyframes_fault(keyframes@, key.target_id)
                    }
                },
            },
    {
        let interp = match self.entries.get(key) {
            Some(interp) => *interp,
            None => {
                return Err(RemoteActionError::Unregistered);
            },
        };
        if subject.type_id != key.subject_id {
            return Err(RemoteActionError::TypeMismatch);
        }
        let storage = match downcast_keyframes(keyframes, key.target_id) {
            Ok(storage) => storage,
            Err(error) => {
                return Err(error);
            },
        };
        let ghost before = action_world@;
        let last = last_value(&storage);
        proof {
            last_has_type(keyframes@, key.target_id);
        }
        let id = self.add(action_world, subject, field, last, interp, ease);
        let ghost added = action_world@;
        let storage = Arc::new(storage);
        action_world.set_keyframes(id, storage);
        proof {
            assert(action_world@.actions =~= before.actions.insert(
                id,
                action_world@.actions[id],
            ));
            assert(action_world@ =~= (ActionModel {
                actions: before.actions.insert(id, action_world@.actions[id]),
                subjects: added.subjects,
                known: added.known,
                baselines: before.baselines,
            }));
        }
        Ok(id)
    }

    /// Replace an existing keyframed action's points in place.
    pub fn update_keyframes(
        &self,
        key: &PipelineKey,
        action_world: &mut ActionWorld,
        id: ActionId,
        keyframes: &Vec<RemoteKeyframe>,
    ) -> (result: Result<(), RemoteActionError>)
        ensures
            match result {
                Ok(()) => {
                    &&& self@.contains_key(*key)
                    &&& is_keyframed(old(action_world)@, id, key.target_id)
                    &&& keyframes_fault(keyframes@, key.target_id) is None
                    &&& rekeyframed(
                        old(action_world)@,
                        final(action_world)@,
                        id,
                        keyframes@,
                    )
                },
                Err(error) => {
                    &&& final(action_world)@ == old(action_world)@
                    &&& Some(error) == if !self@.contains_key(*key) {
                        Some(RemoteActionError::Unregistered)
                    } else if !is_keyframed(old(action_world)@, id, key.target_id) {
                        Some(RemoteActionError::TypeMismatch)
                    } else {
                        keyframes_fault(keyframes@, key.target_id)
                    }
                },
            },
    {
        if !self.entries.contains_key(key) {
            return Err(RemoteActionError::Unregistered);
        }
        if action_world.get_keyframes(id, key.target_id).is_none() {
            return Err(RemoteActionError::TypeMismatch);
        }
        let storage = match downcast_keyframes(keyframes, key.target_id) {
            Ok(storage) => storage,
            Err(error) => {
                return Err(error);
            },
        };
        let ghost before = action_world@;
        let last = last_value(&storage);
        if !action_world.replace_action(id, key.target_id, Action::Constant(last)) {
            return Err(RemoteActionError::TypeMismatch);
        }
        let storage = Arc::new(storage);
        action_world.set_keyframes(id, storage);
        assert(action_world@ =~= before.with_record(id, action_world@.actions[id]));
        Ok(())
    }

    /// Whether a constructor exists for `key`.
    pub fn contains(&self, key: &PipelineKey) -> (found: bool)
        ensures
            found == self@.contains_key(*key),
    {
        self.entries.contains_key(key)
    }
}

/// What giving an action another target comes to.
pub open spec fn update_result(
    entries: Map<PipelineKey, InterpFn>,
    key: PipelineKey,
    model: ActionModel,
    id: ActionId,
    target: RemoteTarget,
) -> Result<(), RemoteActionError> {
    if !entries.contains_key(key) {
        Err(RemoteActionError::Unregistered)
    } else if target.end.type_id != key.target_id || !model.has(id)
        || model.actions[id].target_type != key.target_id {
        Err(RemoteActionError::TypeMismatch)
    } else {
        Ok(())
    }
}

/// The world with another target for an action.
pub open spec fn retargeted(model: ActionModel, id: ActionId, end: Value) -> ActionModel {
    model.with_record(id, ActionRecord { action: Action::Constant(end), ..model.actions[id] })
}

/// Whether the action exists, has values of the type, and has keyframes.
pub open spec fn is_keyframed(model: ActionModel, id: ActionId, target: TypeTag) -> bool {
    model.has(id) && model.actions[id].target_type == target && model.actions[id].keyframes is Some
}

/// Whether a record is a new action with the given keyframes, which ends at
/// the last of them.
pub open spec fn keyframes_kept(
    record: ActionRecord,
    keyframes: Seq<RemoteKeyframe>,
    target: TypeTag,
    interp: InterpFn,
    ease: Option<Ease>,
) -> bool {
    let points = sorted_keyframes(typed_keyframes(keyframes));
    &&& record.keyframes is Some
    &&& record.keyframes->0@ == points
    &&& record == remote_record(
        record.key,
        target,
        points.last().value,
        interp,
        ease,
        record.keyframes,
    )
}

/// Whether nothing but the keyframes of an action changed, and where it ends.
pub open spec fn rekeyframed(
    before: ActionModel,
    after: ActionModel,
    id: ActionId,
    keyframes: Seq<RemoteKeyframe>,
) -> bool {
    let points = sorted_keyframes(typed_keyframes(keyframes));
    &&& after == before.with_record(id, after.actions[id])
    &&& after.actions[id].keyframes is Some
    &&& after.actions[id].keyframes->0@ == points
    &&& after.actions[id] == (ActionRecord {
        action: Action::Constant(points.last().value),
        keyframes: after.actions[id].keyframes,
        ..before.actions[id]
    })
}

/// The value of the last keyframe.
fn last_value(storage: &KeyframesStorage<Value>) -> (value: Value)
    ensures
        value == storage@.last().value,
        storage@.len() >= 1,
{
    let points = storage.points();
    points[points.len() - 1].value
}

/// The last of sorted keyframes is of their type.
proof fn last_has_type(keyframes: Seq<RemoteKeyframe>, target: TypeTag)
    requires
        keyframes_fault(keyframes, target) is None,
    ensures
        sorted_keyframes(typed_keyframes(keyframes)).last().value.type_id == target,
{
    let typed = typed_keyframes(keyframes);
    let clamped = typed.map_values(|point: Keyframe<Value>| clamped_keyframe(point));
    let key = |point: Keyframe<Value>| point.t as int;
    stable_sort_is_sound(clamped, key);
    let sorted = sorted_keyframes(typed);
    assert(sorted.contains(sorted.last()));
    assert(clamped.contains(sorted.last()));
    let i = choose|i: int| 0 <= i < clamped.len() && clamped[i] == sorted.last();
    without_fault(keyframes, target, i);
}

/// A list without a fault has none at any of its places.
proof fn without_fault(keyframes: Seq<RemoteKeyframe>, target: TypeTag, i: int)
    requires
        keyframe_fault(keyframes, target) is None,
        0 <= i < keyframes.len(),
    ensures
        keyframes[i].t is Some,
        keyframes[i].value.end.type_id == target,
    decreases keyframes.len(),
{
    if i < keyframes.len() - 1 {
        without_fault(keyframes.drop_last(), target, i);
    }
}

impl Default for RemoteActionRegistry {
    fn default() -> (registry: Self)
        ensures
            registry@ == Map::<PipelineKey, InterpFn>::empty(),
    {
        Self::new()
    }
}

} // verus!
