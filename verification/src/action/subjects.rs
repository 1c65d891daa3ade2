//! The subjects of actions, and what their fields were at first.
use crate::action::registry::IdRegistry;
use crate::action::world::{claimed, is_uid_for, released, SubjectEntry};
use crate::action::{ActionKey, UId, Value};
use crate::subject::{Subject, TypeTag};
use crate::table::Table;
use vstd::prelude::*;

verus! {

/// The subjects of actions, and the baselines of their sequences.
pub struct Subjects {
    /// The subjects of each type. A registry stays when it has no subject
    /// left, so that no [`UId`] is given twice.
    registries: Table<u64, IdRegistry<u64>>,
    baselines: Table<ActionKey, Value>,
}

/// What is kept of subjects.
#[verifier::ext_equal]
pub struct SubjectsModel {
    /// Each subject that has an action.
    pub subjects: Map<(TypeTag, UId), SubjectEntry>,
    /// The bits of each subject that ever had an action.
    pub known: Map<(TypeTag, UId), u64>,
    /// The baseline of each sequence that has one.
    pub baselines: Map<ActionKey, Value>,
}

/// Where the subject of a sequence is kept.
pub open spec fn slot_of(key: ActionKey) -> (TypeTag, UId) {
    (key.subject_id.type_id, key.subject_id.uid)
}

/// Whether every subject that has an action is known, by its bits.
pub open spec fn used_are_known(
    subjects: Map<(TypeTag, UId), SubjectEntry>,
    known: Map<(TypeTag, UId), u64>,
) -> bool {
    forall|slot: (TypeTag, UId)| #[trigger]
        subjects.contains_key(slot) ==> known.contains_key(slot) && known[slot]
            == subjects[slot].bits
}

/// Whether no subject is known by two [`UId`]s.
pub open spec fn known_differ(known: Map<(TypeTag, UId), u64>) -> bool {
    forall|a: (TypeTag, UId), b: (TypeTag, UId)|
        {
            &&& #[trigger] known.contains_key(a)
            &&& #[trigger] known.contains_key(b)
            &&& a.0 == b.0
            &&& known[a] == known[b]
        } ==> a == b
}

/// Claiming a subject keeps what is known of subjects in order.
pub proof fn claiming_keeps_known(
    subjects: Map<(TypeTag, UId), SubjectEntry>,
    known: Map<(TypeTag, UId), u64>,
    subject: Subject,
    uid: UId,
)
    requires
        used_are_known(subjects, known),
        known_differ(known),
        is_uid_for(known, subject, uid),
    ensures
        used_are_known(
            claimed(subjects, subject, uid),
            known.insert((subject.type_id, uid), subject.bits),
        ),
        known_differ(known.insert((subject.type_id, uid), subject.bits)),
        known.contains_key((subject.type_id, uid)) ==> known.insert(
            (subject.type_id, uid),
            subject.bits,
        ) == known,
{
    let slot = (subject.type_id, uid);
    let more = known.insert(slot, subject.bits);
    assert forall|a: (TypeTag, UId), b: (TypeTag, UId)|
        {
            &&& #[trigger] more.contains_key(a)
            &&& #[trigger] more.contains_key(b)
            &&& a.0 == b.0
            &&& more[a] == more[b]
        } implies a == b by {
        if known.contains_key(a) && known.contains_key(b) {
            assert(known[a] == known[b]);
        } else if a == slot && b != slot {
            assert(known.contains_key((subject.type_id, b.1)));
        } else if b == slot && a != slot {
            assert(known.contains_key((subject.type_id, a.1)));
        }
    }
    if known.contains_key(slot) {
        assert(more =~= known);
    }
}

/// Releasing a subject keeps those that have actions known.
pub proof fn releasing_keeps_known(
    subjects: Map<(TypeTag, UId), SubjectEntry>,
    known: Map<(TypeTag, UId), u64>,
    slot: (TypeTag, UId),
)
    requires
        used_are_known(subjects, known),
    ensures
        used_are_known(released(subjects, slot), known),
{
    let left = released(subjects, slot);
    assert forall|s: (TypeTag, UId)| #[trigger] left.contains_key(s) implies known.contains_key(s)
        && known[s] == left[s].bits by {
        assert(subjects.contains_key(s));
    }
}

impl View for Subjects {
    type V = SubjectsModel;

    closed spec fn view(&self) -> SubjectsModel {
        SubjectsModel {
            subjects: Map::new(
                |slot: (TypeTag, UId)|
                    self.registries@.contains_key(slot.0)
                        && self.registries@[slot.0]@.ids.contains_key(slot.1),
                |slot: (TypeTag, UId)|
                    SubjectEntry {
                        bits: self.registries@[slot.0]@.ids[slot.1],
                        instances: self.registries@[slot.0]@.instances[slot.1],
                    },
            ),
            known: Map::new(
                |slot: (TypeTag, UId)|
                    self.registries@.contains_key(slot.0)
                        && self.registries@[slot.0]@.given.contains_key(slot.1),
                |slot: (TypeTag, UId)| self.registries@[slot.0]@.given[slot.1],
            ),
            baselines: self.baselines@,
        }
    }
}

impl Subjects {
    /// Subjects that have actions are known by their bits, none of them by two
    /// [`UId`]s, and only sequences of known subjects have baselines.
    #[verifier::type_invariant]
    pub open spec fn kept_well(self) -> bool {
        &&& used_are_known(self@.subjects, self@.known)
        &&& known_differ(self@.known)
        &&& forall|key: ActionKey| #[trigger]
            self@.baselines.contains_key(key) ==> self@.known.contains_key(slot_of(key))
    }

    /// No subjects.
    pub fn new() -> (subjects: Self)
        ensures
            subjects@ == (SubjectsModel {
                subjects: Map::empty(),
                known: Map::empty(),
                baselines: Map::empty(),
            }),
    {
        let subjects = Subjects { registries: Table::new(), baselines: Table::new() };
        assert(subjects@.subjects =~= Map::<(TypeTag, UId), SubjectEntry>::empty());
        assert(subjects@.known =~= Map::<(TypeTag, UId), u64>::empty());
        subjects
    }

    /// One more action for a subject. One that is known has the [`UId`] that it
    /// always had. Another one gets a [`UId`] that no subject of the type ever
    /// had, so that it has no baselines.
    pub fn claim(&mut self, subject: Subject) -> (uid: UId)
        ensures
            final(self)@ == (SubjectsModel {
                subjects: claimed(old(self)@.subjects, subject, uid),
                known: old(self)@.known.insert((subject.type_id, uid), subject.bits),
                baselines: old(self)@.baselines,
            }),
            is_uid_for(old(self)@.known, subject, uid),
            !old(self)@.known.contains_key((subject.type_id, uid)) ==> forall|key: ActionKey|
                #[trigger]
                old(self)@.baselines.contains_key(key) ==> slot_of(key) != (subject.type_id, uid),
    {
        let ghost before = self@;
        let mut taken = Subjects::new();
        core::mem::swap(self, &mut taken);
        proof {
            use_type_invariant(&taken);
        }
        let Subjects { mut registries, baselines } = taken;
        let mut registry = match registries.remove(&subject.type_id) {
            Some(registry) => registry,
            None => IdRegistry::new(),
        };
        let ghost ids = registry@;
        let uid = registry.register_instance(subject.bits);
        registries.insert(subject.type_id, registry);
        let ghost slot = (subject.type_id, uid);
        let ghost made = Subjects { registries, baselines };
        proof {
            assert forall|u: UId| #[trigger]
                before.subjects.contains_key((subject.type_id, u)) <==> ids.ids.contains_key(u) by {}
            assert forall|u: UId| #[trigger]
                before.known.contains_key((subject.type_id, u)) <==> ids.given.contains_key(u) by {}
            if ids.remembers(subject.bits) {
                assert(before.known.contains_key(slot));
                if ids.knows(subject.bits) {
                    assert(before.subjects.contains_key(slot));
                }
            } else {
                assert(!before.known.contains_key(slot));
                assert forall|u: UId| #[trigger]
                    before.known.contains_key((subject.type_id, u)) implies before.known[(
                    subject.type_id,
                    u,
                )] != subject.bits by {
                    if ids.given[u] == subject.bits {
                        assert(ids.was_given(u, subject.bits));
                    }
                }
            }
            assert(made@.subjects =~= claimed(before.subjects, subject, uid));
            assert(made@.known =~= before.known.insert(slot, subject.bits));
            claiming_keeps_known(before.subjects, before.known, subject, uid);
            assert forall|key: ActionKey| #[trigger] baselines@.contains_key(
                key,
            ) implies made@.known.contains_key(slot_of(key)) by {
                assert(before.baselines.contains_key(key));
                assert(before.known.contains_key(slot_of(key)));
            }
        }
        *self = Subjects { registries, baselines };
        uid
    }

    /// One action less for a subject.
    pub fn release(&mut self, type_id: TypeTag, uid: &UId)
        ensures
            final(self)@ == (SubjectsModel {
                subjects: released(old(self)@.subjects, (type_id, *uid)),
                ..old(self)@
            }),
    {
        let ghost before = self@;
        let mut taken = Subjects::new();
        core::mem::swap(self, &mut taken);
        proof {
            use_type_invariant(&taken);
        }
        let Subjects { mut registries, baselines } = taken;
        let ghost slot = (type_id, *uid);
        let ghost after = released(before.subjects, slot);
        match registries.remove(&type_id) {
            Some(mut registry) => {
                let ghost ids = registry@;
                registry.remove_instance(uid);
                let ghost left = registry@;
                registries.insert(type_id, registry);
                let ghost made = Subjects { registries, baselines };
                proof {
                    assert(before.subjects.contains_key(slot) <==> ids.ids.contains_key(slot.1));
                    assert forall|k: (TypeTag, UId)| #[trigger]
                        made@.subjects.contains_key(k) <==> after.contains_key(k) by {
                        if k.0 == type_id {
                            assert(made@.subjects.contains_key(k) <==> left.ids.contains_key(k.1));
                            assert(before.subjects.contains_key(k) <==> ids.ids.contains_key(k.1));
                        }
                    }
                    assert forall|k: (TypeTag, UId)| #[trigger]
                        made@.subjects.contains_key(k) implies made@.subjects[k] == after[k] by {}
                    assert(made@.subjects =~= after);
                    assert(made@.known =~= before.known);
                    releasing_keeps_known(before.subjects, before.known, slot);
                    assert forall|key: ActionKey| #[trigger] baselines@.contains_key(
                        key,
                    ) implies made@.known.contains_key(slot_of(key)) by {
                        assert(before.baselines.contains_key(key));
                    }
                }
                *self = Subjects { registries, baselines };
            },
            None => {
                let ghost made = Subjects { registries, baselines };
                proof {
                    assert(made@.subjects =~= after);
                    assert(made@.known =~= before.known);
                    assert forall|key: ActionKey| #[trigger] baselines@.contains_key(
                        key,
                    ) implies made@.known.contains_key(slot_of(key)) by {
                        assert(before.baselines.contains_key(key));
                    }
                }
                *self = Subjects { registries, baselines };
            },
        }
    }

    /// The bits of a subject that has an action.
    pub fn get_id(&self, type_id: TypeTag, uid: &UId) -> (bits: Option<u64>)
        ensures
            bits is Some <==> self@.subjects.contains_key((type_id, *uid)),
            bits is Some ==> bits->0 == self@.subjects[(type_id, *uid)].bits,
    {
        match self.registries.get(&type_id) {
            Some(registry) => match registry.get_id(uid) {
                Some(bits) => Some(*bits),
                None => None,
            },
            None => None,
        }
    }

    /// The baseline of a sequence, with the bits of its subject.
    pub fn baseline(&self, key: &ActionKey) -> (baseline: Option<(u64, Value)>)
        ensures
            baseline is Some <==> self@.baselines.contains_key(*key),
            baseline matches Some((bits, value)) ==> {
                &&& self@.known.contains_key(slot_of(*key))
                &&& bits == self@.known[slot_of(*key)]
                &&& value == self@.baselines[*key]
            },
    {
        proof {
            use_type_invariant(self);
        }
        let value = match self.baselines.get(key) {
            Some(value) => *value,
            None => {
                return None;
            },
        };
        assert(self@.baselines.contains_key(*key));
        match self.registries.get(&key.subject_id.type_id) {
            Some(registry) => match registry.get_given(&key.subject_id.uid) {
                Some(bits) => Some((*bits, value)),
                None => None,
            },
            None => None,
        }
    }

    /// Keeps a baseline for a sequence, unless it has one.
    pub fn set_baseline(&mut self, key: ActionKey, value: Value)
        requires
            old(self)@.known.contains_key(slot_of(key)),
        ensures
            old(self)@.baselines.contains_key(key) ==> final(self)@ == old(self)@,
            !old(self)@.baselines.contains_key(key) ==> final(self)@ == (SubjectsModel {
                baselines: old(self)@.baselines.insert(key, value),
                ..old(self)@
            }),
    {
        let ghost before = self@;
        if self.baselines.contains_key(&key) {
            return;
        }
        let mut taken = Subjects::new();
        core::mem::swap(self, &mut taken);
        proof {
            use_type_invariant(&taken);
        }
        let Subjects { registries, mut baselines } = taken;
        baselines.insert(key, value);
        let ghost made = Subjects { registries, baselines };
        proof {
            assert(made@.subjects =~= before.subjects);
            assert(made@.known =~= before.known);
            assert forall|k: ActionKey| #[trigger] baselines@.contains_key(
                k,
            ) implies made@.known.contains_key(slot_of(k)) by {
                assert(k == key || before.baselines.contains_key(k));
            }
        }
        *self = Subjects { registries, baselines };
    }

    /// The sequences that have a baseline.
    pub fn baseline_keys(&self) -> (keys: Vec<ActionKey>)
        ensures
            keys@.no_duplicates(),
            forall|key: ActionKey| keys@.contains(key) <==> self@.baselines.contains_key(key),
    {
        self.baselines.keys()
    }
}

} // verus!
