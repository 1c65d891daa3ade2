//! The actions of a timeline and the subjects that they animate.
use crate::action::registry::one_more;
use crate::action::store::ActionStore;
use crate::action::subjects::{known_differ, slot_of, used_are_known, Subjects};
use crate::action::{
    entity_bits, Action, ActionClip, ActionId, ActionKey, ActionRecord, Ease, EaseFn, InterpFn,
    KeyframesStorage, SampleMode, Segment, UId, UntypedSubjectId, Value,
};
use crate::seqs::{push_adds_one, take_one_more};
use crate::subject::{Subject, TypeTag, UntypedField};
use crate::time::Ticks;
use crate::track::TrackFragment;
use std::sync::Arc;
use vstd::prelude::*;

verus! {

/// A subject and the number of actions that animate it.
pub struct SubjectEntry {
    pub bits: u64,
    pub instances: u32,
}

/// What an action world holds.
#[verifier::ext_equal]
pub struct ActionModel {
    /// The actions.
    pub actions: Map<ActionId, ActionRecord>,
    /// Each subject that has an action, by type and [`UId`].
    pub subjects: Map<(TypeTag, UId), SubjectEntry>,
    /// The bits of each subject that ever had an action.
    pub known: Map<(TypeTag, UId), u64>,
    /// Per-sequence baseline: the field's value the first time that sequence
    /// was baked.
    pub baselines: Map<ActionKey, Value>,
}

impl ActionModel {
    /// The world without anything.
    pub open spec fn empty() -> Self {
        ActionModel {
            actions: Map::empty(),
            subjects: Map::empty(),
            known: Map::empty(),
            baselines: Map::empty(),
        }
    }

    /// The baseline of a sequence, if it is of the given type.
    pub open spec fn baseline(self, key: ActionKey, target: TypeTag) -> Option<Value> {
        if self.baselines.contains_key(key) && self.baselines[key].type_id == target {
            Some(self.baselines[key])
        } else {
            None
        }
    }

    /// Whether an action with the id exists.
    pub open spec fn has(self, id: ActionId) -> bool {
        self.actions.contains_key(id)
    }

    /// The world with another record for `id`.
    pub open spec fn with_record(self, id: ActionId, record: ActionRecord) -> Self {
        ActionModel { actions: self.actions.insert(id, record), ..self }
    }

    /// Whether an action belongs to the sequence of `key`.
    pub open spec fn in_use(self, key: ActionKey) -> bool {
        exists|id: ActionId| #[trigger] self.actions.contains_key(id) && self.actions[id].key == key
    }

    /// Whether what is known of subjects is in order: those that have actions are
    /// known by their bits, none of them by two [`UId`]s, and only sequences of
    /// known subjects have baselines.
    pub open spec fn coherent(self) -> bool {
        &&& used_are_known(self.subjects, self.known)
        &&& known_differ(self.known)
        &&& forall|key: ActionKey| #[trigger]
            self.baselines.contains_key(key) ==> self.known.contains_key(slot_of(key))
    }

    /// Whether `key` has a baseline and no action left.
    pub open spec fn emptied(self, key: ActionKey) -> bool {
        self.baselines.contains_key(key) && !self.in_use(key)
    }
}

/// The actions of a timeline.
pub struct ActionWorld {
    store: ActionStore,
    subjects: Subjects,
}

impl View for ActionWorld {
    type V = ActionModel;

    closed spec fn view(&self) -> ActionModel {
        ActionModel {
            actions: self.store@,
            subjects: self.subjects@.subjects,
            known: self.subjects@.known,
            baselines: self.subjects@.baselines,
        }
    }
}

impl ActionWorld {
    /// A world without actions.
    pub fn new() -> (world: Self)
        ensures
            world@ == ActionModel::empty(),
    {
        let world = ActionWorld { store: ActionStore::new(), subjects: Subjects::new() };
        assert(world@ =~= ActionModel::empty());
        world
    }

    /// Adds an action of values of type `target_type` on a field of a
    /// subject.
    pub fn add(
        &mut self,
        subject: Subject,
        field: UntypedField,
        target_type: TypeTag,
        action: Action,
    ) -> (builder: ActionBuilder)
        ensures
            builder.key.field == field,
            builder.key.subject_id.type_id == subject.type_id,
            entity_bits(builder.id.bits),
            !old(self)@.has(builder.id),
            final(self)@.actions == old(self)@.actions.insert(
                builder.id,
                new_record(builder.key, target_type, action),
            ),
            final(self)@.subjects == claimed(
                old(self)@.subjects,
                subject,
                builder.key.subject_id.uid,
            ),
            is_uid_for(old(self)@.known, subject, builder.key.subject_id.uid),
            final(self)@.known == old(self)@.known.insert(slot_of(builder.key), subject.bits),
            final(self)@.baselines == old(self)@.baselines,
            !old(self)@.known.contains_key(slot_of(builder.key)) ==> forall|key: ActionKey|
                #[trigger]
                old(self)@.baselines.contains_key(key) ==> slot_of(key) != slot_of(builder.key),
            final(self)@.coherent(),
    {
        let uid = self.subjects.claim(subject);
        let key = ActionKey::new(UntypedSubjectId { type_id: subject.type_id, uid }, field);
        let record = ActionRecord {
            key,
            target_type,
            action,
            interp: None,
            ease: None,
            keyframes: None,
            disabled: false,
            mark: None,
            segment: None,
        };
        let id = self.store.spawn(record);
        proof {
            use_type_invariant(&self.subjects);
        }
        ActionBuilder { id, key }
    }

    /// Drops an action. Returns the key of its sequence.
    pub fn remove(&mut self, id: ActionId) -> (key: Option<ActionKey>)
        ensures
            key is Some <==> old(self)@.has(id),
            key is None ==> final(self)@ == old(self)@,
            key is Some ==> {
                &&& key->0 == old(self)@.actions[id].key
                &&& final(self)@.actions == old(self)@.actions.remove(id)
                &&& final(self)@.known == old(self)@.known
                &&& final(self)@.baselines == old(self)@.baselines
                &&& final(self)@.subjects == released(
                    old(self)@.subjects,
                    (key->0.subject_id.type_id, key->0.subject_id.uid),
                )
            },
    {
        let ghost before = self@;
        let record = match self.store.despawn(id) {
            Some(record) => record,
            None => {
                assert(self@ =~= before);
                return None;
            },
        };
        let key = record.key;
        self.subjects.release(key.subject_id.type_id, &key.subject_id.uid);
        Some(key)
    }

    /// The action with the id, if its values are of type `target_type`.
    pub fn get_action(&self, id: ActionId, target_type: TypeTag) -> (action: Option<Action>)
        ensures
            action is Some <==> self@.has(id) && self@.actions[id].target_type == target_type,
            action is Some ==> action->0 == self@.actions[id].action,
    {
        match self.store.get(&id) {
            Some(record) => if record.target_type == target_type {
                Some(record.action)
            } else {
                None
            },
            None => None,
        }
    }

    /// The bits of a subject.
    pub fn get_id(&self, type_id: TypeTag, uid: &UId) -> (bits: Option<u64>)
        ensures
            bits is Some <==> self@.subjects.contains_key((type_id, *uid)),
            bits is Some ==> bits->0 == self@.subjects[(type_id, *uid)].bits,
    {
        self.subjects.get_id(type_id, uid)
    }

    /// Returns the [`ActionKey`] of an existing action, if present.
    pub fn action_key(&self, id: ActionId) -> (key: Option<ActionKey>)
        ensures
            key is Some <==> self@.has(id),
            key is Some ==> key->0 == self@.actions[id].key,
    {
        match self.store.get(&id) {
            Some(record) => Some(record.key),
            None => None,
        }
    }

    /// What is kept of an action.
    pub fn record(&self, id: ActionId) -> (record: Option<&ActionRecord>)
        ensures
            record is Some <==> self@.has(id),
            record is Some ==> *record->0 == self@.actions[id],
    {
        self.store.get(&id)
    }

    /// Every action, once.
    pub fn ids(&self) -> (ids: Vec<ActionId>)
        ensures
            ids@.no_duplicates(),
            forall|id: ActionId| ids@.contains(id) <==> self@.has(id),
            self@.coherent(),
    {
        proof {
            use_type_invariant(&self.subjects);
        }
        self.store.ids()
    }

    /// The baked [`Segment`] of an action.
    ///
    /// Returns `None` if the action does not exist, is of another type, or is
    /// not baked yet.
    pub fn get_segment(&self, id: ActionId, target_type: TypeTag) -> (segment: Option<
        Segment<Value>,
    >)
        ensures
            segment == (if self@.has(id) && self@.actions[id].target_type == target_type {
                self@.actions[id].segment
            } else {
                None
            }),
    {
        match self.store.get(&id) {
            Some(record) => if record.target_type == target_type {
                record.segment
            } else {
                None
            },
            None => None,
        }
    }

    /// The easing of an action, if the action exists and has one.
    /// If `None`, then it is implied to be linear.
    pub fn get_ease(&self, id: ActionId) -> (ease: Option<Ease>)
        ensures
            ease == (if self@.has(id) {
                self@.actions[id].ease
            } else {
                None
            }),
    {
        match self.store.get(&id) {
            Some(record) => record.ease,
            None => None,
        }
    }

    /// The keyframe points of an action, when it is a keyframed
    /// one of target type `target_type`.
    pub fn get_keyframes(&self, id: ActionId, target_type: TypeTag) -> (keyframes: Option<
        &Arc<KeyframesStorage<Value>>,
    >)
        ensures
            keyframes is Some <==> self@.has(id) && self@.actions[id].target_type == target_type
                && self@.actions[id].keyframes is Some,
            keyframes is Some ==> *keyframes->0 == self@.actions[id].keyframes->0,
    {
        match self.store.get(&id) {
            Some(record) => if record.target_type == target_type {
                match &record.keyframes {
                    Some(keyframes) => Some(keyframes),
                    None => None,
                }
            } else {
                None
            },
            None => None,
        }
    }

    /// Whether the action is disabled (muted). `false` also when
    /// no action with `id` exists.
    pub fn is_disabled(&self, id: ActionId) -> (disabled: bool)
        ensures
            disabled == (self@.has(id) && self@.actions[id].disabled),
    {
        match self.store.get(&id) {
            Some(record) => record.disabled,
            None => false,
        }
    }

    /// Replaces what is kept of an action.
    fn put(&mut self, id: ActionId, record: ActionRecord)
        requires
            old(self)@.has(id),
        ensures
            final(self)@ == old(self)@.with_record(id, record),
    {
        let ghost before = self@;
        self.store.put(id, record);
        assert(self@ =~= before.with_record(id, record));
    }

    /// Set or replace an action's keyframe points. Returns `false`
    /// if no action with `id` exists.
    pub fn set_keyframes(&mut self, id: ActionId, keyframes: Arc<KeyframesStorage<Value>>) -> (set:
        bool)
        ensures
            set == old(self)@.has(id),
            !set ==> final(self)@ == old(self)@,
            set ==> final(self)@ == old(self)@.with_record(
                id,
                (ActionRecord { keyframes: Some(keyframes), ..old(self)@.actions[id] }),
            ),
    {
        let record = match self.store.get(&id) {
            Some(record) => ActionRecord { keyframes: Some(keyframes), ..record.copy() },
            None => {
                return false;
            },
        };
        self.put(id, record);
        true
    }

    /// Disable (mute) or re-enable an action.
    ///
    /// Returns `false` if no action with `id` exists. The baked
    /// segments are stale afterwards.
    pub fn set_disabled(&mut self, id: ActionId, disabled: bool) -> (set: bool)
        ensures
            set == old(self)@.has(id),
            !set ==> final(self)@ == old(self)@,
            set ==> final(self)@ == old(self)@.with_record(
                id,
                (ActionRecord { disabled, ..old(self)@.actions[id] }),
            ),
    {
        let record = match self.store.get(&id) {
            Some(record) => ActionRecord { disabled, ..record.copy() },
            None => {
                return false;
            },
        };
        self.put(id, record);
        true
    }

    /// Set, replace or clear (`None` = linear) the easing of an action.
    pub fn set_ease(&mut self, id: ActionId, ease: Option<Ease>) -> (set: bool)
        ensures
            set == old(self)@.has(id),
            !set ==> final(self)@ == old(self)@,
            set ==> final(self)@ == old(self)@.with_record(
                id,
                (ActionRecord { ease, ..old(self)@.actions[id] }),
            ),
    {
        let record = match self.store.get(&id) {
            Some(record) => ActionRecord { ease, ..record.copy() },
            None => {
                return false;
            },
        };
        self.put(id, record);
        true
    }

    /// Sets how an action interpolates.
    pub(crate) fn set_interp(&mut self, id: ActionId, interp: InterpFn) -> (set: bool)
        ensures
            set == old(self)@.has(id),
            !set ==> final(self)@ == old(self)@,
            set ==> final(self)@ == old(self)@.with_record(
                id,
                (ActionRecord { interp: Some(interp), ..old(self)@.actions[id] }),
            ),
    {
        let record = match self.store.get(&id) {
            Some(record) => ActionRecord { interp: Some(interp), ..record.copy() },
            None => {
                return false;
            },
        };
        self.put(id, record);
        true
    }

    /// Replace an action by another one of the same type of values.
    pub fn replace_action(&mut self, id: ActionId, target_type: TypeTag, action: Action) -> (set:
        bool)
        ensures
            set == (old(self)@.has(id) && old(self)@.actions[id].target_type == target_type),
            !set ==> final(self)@ == old(self)@,
            set ==> final(self)@ == old(self)@.with_record(
                id,
                (ActionRecord { action, ..old(self)@.actions[id] }),
            ),
    {
        let record = match self.store.get(&id) {
            Some(record) => {
                if record.target_type != target_type {
                    return false;
                }
                ActionRecord { action, ..record.copy() }
            },
            None => {
                return false;
            },
        };
        self.put(id, record);
        true
    }

    /// The cached baseline for a sequence, if one of the type exists.
    pub(crate) fn get_baseline(&self, key: &ActionKey, target_type: TypeTag) -> (baseline: Option<
        Value,
    >)
        ensures
            baseline == self@.baseline(*key, target_type),
    {
        match self.subjects.baseline(key) {
            Some((_, value)) => if value.type_id == target_type {
                Some(value)
            } else {
                None
            },
            None => None,
        }
    }

    /// The bits of the subject of a sequence that has a baseline, whether or
    /// not it has actions left.
    pub(crate) fn baseline_owner(&self, key: &ActionKey) -> (bits: Option<u64>)
        ensures
            bits is Some <==> self@.baselines.contains_key(*key),
            bits is Some ==> self@.known.contains_key(slot_of(*key)) && bits->0
                == self@.known[slot_of(*key)],
    {
        match self.subjects.baseline(key) {
            Some((bits, _)) => Some(bits),
            None => None,
        }
    }

    /// Capture a sequence's baseline. A baseline that was captured before
    /// stays.
    pub(crate) fn set_baseline(&mut self, key: ActionKey, value: Value)
        requires
            old(self)@.subjects.contains_key(slot_of(key)),
        ensures
            old(self)@.baselines.contains_key(key) ==> final(self)@ == old(self)@,
            !old(self)@.baselines.contains_key(key) ==> final(self)@ == (ActionModel {
                baselines: old(self)@.baselines.insert(key, value),
                ..old(self)@
            }),
    {
        let ghost before = self@;
        proof {
            use_type_invariant(&self.subjects);
        }
        self.subjects.set_baseline(key, value);
        assert(before.baselines.contains_key(key) ==> self@ =~= before);
    }

    /// The sequences that have a baseline and no action left.
    pub(crate) fn emptied_baseline_keys(&self) -> (keys: Vec<ActionKey>)
        ensures
            keys@.no_duplicates(),
            forall|key: ActionKey| keys@.contains(key) <==> self@.emptied(key),
            self@.coherent(),
    {
        proof {
            use_type_invariant(&self.subjects);
        }
        let candidates = self.subjects.baseline_keys();
        let ids = self.store.ids();
        let mut keys: Vec<ActionKey> = Vec::new();
        let mut i: usize = 0;
        while i < candidates.len()
            invariant
                i <= candidates@.len(),
                candidates@.no_duplicates(),
                forall|key: ActionKey|
                    candidates@.contains(key) <==> self@.baselines.contains_key(key),
                forall|id: ActionId| ids@.contains(id) <==> self@.has(id),
                keys@.no_duplicates(),
                forall|key: ActionKey|
                    #![trigger keys@.contains(key)]
                    #![trigger candidates@.take(i as int).contains(key)]
                    keys@.contains(key) <==> candidates@.take(i as int).contains(key)
                        && self@.emptied(key),
            decreases candidates@.len() - i,
        {
            let key = candidates[i];
            let ghost kept = keys@;
            proof {
                take_one_more(candidates@, i as int);
                assert(candidates@.contains(key));
            }
            if !self.any_action_of(&ids, key) {
                keys.push(key);
                proof {
                    push_adds_one(kept, key);
                }
            }
            assert forall|k: ActionKey|
                #![trigger keys@.contains(k)]
                #![trigger candidates@.take(i + 1).contains(k)]
                keys@.contains(k) <==> candidates@.take(i + 1).contains(k) && self@.emptied(k) by {
                assert(kept.contains(k) <==> candidates@.take(i as int).contains(k)
                    && self@.emptied(k));
            }
            i += 1;
        }
        assert(candidates@.take(i as int) =~= candidates@);
        keys
    }

    /// Whether one of the actions belongs to the sequence of `key`.
    fn any_action_of(&self, ids: &Vec<ActionId>, key: ActionKey) -> (found: bool)
        requires
            forall|id: ActionId| ids@.contains(id) <==> self@.has(id),
        ensures
            found == self@.in_use(key),
    {
        let mut i: usize = 0;
        while i < ids.len()
            invariant
                i <= ids@.len(),
                forall|id: ActionId| ids@.contains(id) <==> self@.has(id),
                forall|j: int|
                    0 <= j < i ==> self@.actions[#[trigger] ids@[j]].key != key,
            decreases ids@.len() - i,
        {
            assert(ids@.contains(ids@[i as int]));
            assert(self@.has(ids@[i as int]));
            match self.store.get(&ids[i]) {
                Some(record) => {
                    if record.key == key {
                        assert(self@.actions.contains_key(ids@[i as int]));
                        return true;
                    }
                },
                None => {},
            }
            i += 1;
        }
        assert(!self@.in_use(key)) by {
            if self@.in_use(key) {
                let id = choose|id: ActionId| #[trigger]
                    self@.actions.contains_key(id) && self@.actions[id].key == key;
                assert(self@.has(id));
                assert(ids@.contains(id));
                let j = choose|j: int| 0 <= j < ids@.len() && ids@[j] == id;
                assert(self@.actions[ids@[j]].key != key);
            }
        }
        false
    }

    /// Marks an action for sampling.
    pub(crate) fn mark(&mut self, id: ActionId, mode: SampleMode)
        ensures
            final(self)@ == marked(old(self)@, id, Some(mode)),
    {
        let record = match self.store.get(&id) {
            Some(record) => ActionRecord { mark: Some(mode), ..record.copy() },
            None => {
                return;
            },
        };
        self.put(id, record);
    }

    /// Takes the mark of an action away.
    pub(crate) fn clear_mark(&mut self, id: ActionId)
        ensures
            final(self)@ == marked(old(self)@, id, None),
    {
        let record = match self.store.get(&id) {
            Some(record) => ActionRecord { mark: None, ..record.copy() },
            None => {
                return;
            },
        };
        self.put(id, record);
    }

    /// Add or replace the segment of an action.
    pub(crate) fn set_segment(&mut self, id: ActionId, segment: Segment<Value>)
        requires
            old(self)@.has(id),
        ensures
            final(self)@ == old(self)@.with_record(
                id,
                (ActionRecord { segment: Some(segment), ..old(self)@.actions[id] }),
            ),
    {
        let record = match self.store.get(&id) {
            Some(record) => ActionRecord { segment: Some(segment), ..record.copy() },
            None => {
                return;
            },
        };
        self.put(id, record);
    }

    /// Takes the marks of all actions away.
    pub(crate) fn clear_all_marks(&mut self)
        ensures
            final(self)@ == unmarked(old(self)@),
    {
        let ghost before = self@;
        let ids = self.store.ids();
        let mut i: usize = 0;
        while i < ids.len()
            invariant
                i <= ids@.len(),
                forall|id: ActionId| ids@.contains(id) <==> before.has(id),
                self@.subjects == before.subjects,
                self@.known == before.known,
                self@.baselines == before.baselines,
                forall|id: ActionId|
                    #![trigger self@.actions.contains_key(id)]
                    #![trigger before.actions.contains_key(id)]
                    self@.actions.contains_key(id) <==> before.actions.contains_key(id),
                forall|id: ActionId| #[trigger]
                    before.actions.contains_key(id) ==> self@.actions[id] == (
                    if ids@.take(i as int).contains(id) {
                        ActionRecord { mark: None, ..before.actions[id] }
                    } else {
                        before.actions[id]
                    }),
            decreases ids@.len() - i,
        {
            proof {
                take_one_more(ids@, i as int);
                assert(ids@.contains(ids@[i as int]));
                assert(before.has(ids@[i as int]));
            }
            self.clear_mark(ids[i]);
            i += 1;
        }
        proof {
            assert(ids@.take(i as int) =~= ids@);
            assert forall|id: ActionId| #[trigger] before.actions.contains_key(id) implies self@.actions[id]
                == unmarked(before).actions[id] by {
                assert(before.has(id));
                assert(ids@.contains(id));
            }
            assert(self@ =~= unmarked(before));
        }
    }
}

/// A new action, with nothing but its function.
pub open spec fn new_record(key: ActionKey, target_type: TypeTag, action: Action) -> ActionRecord {
    ActionRecord {
        key,
        target_type,
        action,
        interp: None,
        ease: None,
        keyframes: None,
        disabled: false,
        mark: None,
        segment: None,
    }
}

/// Whether `uid` is the one by which the subject is known, or a new one if it is
/// not known.
pub open spec fn is_uid_for(known: Map<(TypeTag, UId), u64>, subject: Subject, uid: UId) -> bool {
    if known.contains_key((subject.type_id, uid)) {
        known[(subject.type_id, uid)] == subject.bits
    } else {
        forall|u: UId| #[trigger]
            known.contains_key((subject.type_id, u)) ==> known[(subject.type_id, u)]
                != subject.bits
    }
}

/// The subjects after the one with `uid` got one more action.
pub open spec fn claimed(
    subjects: Map<(TypeTag, UId), SubjectEntry>,
    subject: Subject,
    uid: UId,
) -> Map<(TypeTag, UId), SubjectEntry> {
    let slot = (subject.type_id, uid);
    subjects.insert(
        slot,
        SubjectEntry {
            bits: subject.bits,
            instances: if subjects.contains_key(slot) {
                one_more(subjects[slot].instances)
            } else {
                1
            },
        },
    )
}

/// The subjects after the one at `slot` lost an action. It is gone with the
/// last one.
pub open spec fn released(
    subjects: Map<(TypeTag, UId), SubjectEntry>,
    slot: (TypeTag, UId),
) -> Map<(TypeTag, UId), SubjectEntry> {
    if !subjects.contains_key(slot) {
        subjects
    } else if subjects[slot].instances > 1 {
        subjects.insert(
            slot,
            SubjectEntry {
                instances: (subjects[slot].instances - 1) as u32,
                ..subjects[slot]
            },
        )
    } else {
        subjects.remove(slot)
    }
}

/// A subject that loses the action that it just got is what it was.
pub proof fn releasing_undoes_claiming(
    subjects: Map<(TypeTag, UId), SubjectEntry>,
    subject: Subject,
    uid: UId,
)
    requires
        subjects.contains_key((subject.type_id, uid)) ==> {
            let entry = subjects[(subject.type_id, uid)];
            entry.bits == subject.bits && 1 <= entry.instances < u32::MAX
        },
    ensures
        released(claimed(subjects, subject, uid), (subject.type_id, uid)) == subjects,
{
    assert(released(claimed(subjects, subject, uid), (subject.type_id, uid)) =~= subjects);
}

/// The world with another mark on `id`, if there is such an action.
pub open spec fn marked(model: ActionModel, id: ActionId, mark: Option<SampleMode>) -> ActionModel {
    if model.has(id) {
        model.with_record(id, ActionRecord { mark, ..model.actions[id] })
    } else {
        model
    }
}

/// The world without marks.
pub open spec fn unmarked(model: ActionModel) -> ActionModel {
    ActionModel {
        actions: model.actions.map_values(
            |record: ActionRecord| ActionRecord { mark: None, ..record },
        ),
        ..model
    }
}

impl Default for ActionWorld {
    fn default() -> (world: Self)
        ensures
            world@ == ActionModel::empty(),
    {
        Self::new()
    }
}

/// An action that has no interpolation yet.
#[derive(Debug, Clone, Copy, PartialEq, Eq, Structural)]
pub struct ActionBuilder {
    pub id: ActionId,
    pub key: ActionKey,
}

impl ActionBuilder {
    /// Get the [`ActionId`] of the containing action.
    pub fn id(&self) -> (id: ActionId)
        ensures
            id == self.id,
    {
        self.id
    }

    /// Set the interpolation method of the action.
    pub fn with_interp(self, world: &mut ActionWorld, interp: InterpFn) -> (builder:
        InterpActionBuilder)
        ensures
            builder.inner == self,
            final(world)@ == (if old(world)@.has(self.id) {
                old(world)@.with_record(
                    self.id,
                    ActionRecord { interp: Some(interp), ..old(world)@.actions[self.id] },
                )
            } else {
                old(world)@
            }),
    {
        world.set_interp(self.id, interp);
        InterpActionBuilder { inner: self }
    }
}

/// An action builder that has interpolation added. This builder
/// exposes more customizations for the action and allows it to be
/// compiled into a [`TrackFragment`].
#[derive(Debug, Clone, Copy, PartialEq, Eq, Structural)]
pub struct InterpActionBuilder {
    pub inner: ActionBuilder,
}

impl InterpActionBuilder {
    /// Set the easing method of the action.
    pub fn with_ease(self, world: &mut ActionWorld, ease: EaseFn) -> (builder: Self)
        ensures
            builder == self,
            final(world)@ == eased(old(world)@, self.inner.id, Ease::Fn(ease)),
    {
        self.with_easing(world, Ease::Fn(ease))
    }

    /// Set the easing of the action.
    pub fn with_easing(self, world: &mut ActionWorld, ease: Ease) -> (builder: Self)
        ensures
            builder == self,
            final(world)@ == eased(old(world)@, self.inner.id, ease),
    {
        world.set_ease(self.inner.id, Some(ease));
        self
    }

    /// Get the [`ActionId`] of the containing action.
    pub fn id(&self) -> (id: ActionId)
        ensures
            id == self.inner.id,
    {
        self.inner.id
    }

    /// Confirms the configuration of the action and creates a
    /// [`TrackFragment`].
    pub fn play(self, duration: Ticks) -> (fragment: TrackFragment)
        ensures
            fragment.lanes() == Map::<ActionKey, Seq<ActionClip>>::empty().insert(
                self.inner.key,
                seq![ActionClip { id: self.inner.id, start: 0, duration }],
            ),
            fragment.duration() == duration,
    {
        TrackFragment::single(self.inner.key, ActionClip::new(self.inner.id, duration))
    }
}

/// The world with another ease on `id`, if there is such an action.
pub open spec fn eased(model: ActionModel, id: ActionId, ease: Ease) -> ActionModel {
    if model.has(id) {
        model.with_record(id, ActionRecord { ease: Some(ease), ..model.actions[id] })
    } else {
        model
    }
}

} // verus!
