//! Short identifiers for subjects.
use crate::action::UId;
use crate::table::{Table, TableKey};
use vstd::prelude::*;

verus! {

/// A subject and the number of instances that use it.
struct Slot<I> {
    id: I,
    instances: u32,
}

/// A type-erased [`UId`] map and generator for each unique subject id. It
/// also performs book keeping for all id instances and remove them when there
/// is none left. A subject that comes back gets the [`UId`] that it had.
pub struct IdRegistry<I: TableKey> {
    /// Maps every subject id that was ever registered to its [`UId`].
    uid_map: Table<I, UId>,
    /// The subject of each [`UId`] that was ever given, from one on. It is
    /// out of use where no instance is left.
    slots: Vec<Slot<I>>,
}

/// What a registry holds.
#[verifier::ext_equal]
pub struct RegistryModel<I> {
    /// The subject of each [`UId`] that is in use.
    pub ids: Map<UId, I>,
    /// The number of instances of each [`UId`] that is in use.
    pub instances: Map<UId, u32>,
    /// The subject of each [`UId`] that was ever given.
    pub given: Map<UId, I>,
    /// The last [`UId`] that was given.
    pub last: u64,
}

impl<I: TableKey> View for IdRegistry<I> {
    type V = RegistryModel<I>;

    closed spec fn view(&self) -> RegistryModel<I> {
        let used = |uid: UId|
            1 <= uid.raw <= self.slots@.len() && self.slots@[uid.raw - 1].instances > 0;
        RegistryModel {
            ids: Map::new(used, |uid: UId| self.slots@[uid.raw - 1].id),
            instances: Map::new(used, |uid: UId| self.slots@[uid.raw - 1].instances),
            given: Map::new(
                |uid: UId| 1 <= uid.raw <= self.slots@.len(),
                |uid: UId| self.slots@[uid.raw - 1].id,
            ),
            last: self.slots@.len() as u64,
        }
    }
}

impl<I> RegistryModel<I> {
    /// Whether `id` has the given [`UId`].
    pub open spec fn is_uid_of(self, uid: UId, id: I) -> bool {
        self.ids.contains_key(uid) && self.ids[uid] == id
    }

    /// Whether `id` has a [`UId`].
    pub open spec fn knows(self, id: I) -> bool {
        exists|uid: UId| #[trigger] self.is_uid_of(uid, id)
    }

    /// Whether the [`UId`] was given to `id`, in use or not.
    pub open spec fn was_given(self, uid: UId, id: I) -> bool {
        self.given.contains_key(uid) && self.given[uid] == id
    }

    /// Whether `id` ever had a [`UId`].
    pub open spec fn remembers(self, id: I) -> bool {
        exists|uid: UId| #[trigger] self.was_given(uid, id)
    }
}

/// One more, as long as the count holds it.
pub open spec fn one_more(count: u32) -> u32 {
    if count < u32::MAX {
        (count + 1) as u32
    } else {
        count
    }
}

impl<I: TableKey> IdRegistry<I> {
    /// The map and the slots name the same subjects.
    #[verifier::type_invariant]
    spec fn consistent(self) -> bool {
        &&& self.slots@.len() <= usize::MAX
        &&& forall|id: I| #[trigger]
            self.uid_map@.contains_key(id) ==> {
                let uid = self.uid_map@[id];
                &&& 1 <= uid.raw <= self.slots@.len()
                &&& self.slots@[uid.raw - 1].id == id
            }
        &&& forall|i: int|
            0 <= i < self.slots@.len() ==> self.uid_map@.contains_key(
                (#[trigger] self.slots@[i]).id,
            ) && self.uid_map@[self.slots@[i].id].raw == i + 1
    }

    /// A [`UId`] that is in use was given to the subject that has it.
    pub proof fn used_are_given(self, uid: UId)
        requires
            self@.ids.contains_key(uid),
        ensures
            self@.given.contains_key(uid),
            self@.given[uid] == self@.ids[uid],
    {
    }

    /// A registry without subjects.
    pub fn new() -> (registry: Self)
        ensures
            registry@.ids == Map::<UId, I>::empty(),
            registry@.instances == Map::<UId, u32>::empty(),
            registry@.given == Map::<UId, I>::empty(),
            registry@.last == 0,
    {
        let registry = IdRegistry { uid_map: Table::new(), slots: Vec::new() };
        assert(registry@.ids =~= Map::<UId, I>::empty());
        assert(registry@.instances =~= Map::<UId, u32>::empty());
        assert(registry@.given =~= Map::<UId, I>::empty());
        registry
    }

    /// Registers the subject with an intial instance count of 1
    /// if it doesn't exist yet, otherwise, increase the existing
    /// instance count.
    ///
    /// Returns the [`UId`] of the associated subject.
    pub fn register_instance(&mut self, id: I) -> (uid: UId)
        ensures
            old(self)@.remembers(id) ==> {
                &&& old(self)@.was_given(uid, id)
                &&& old(self)@.ids.contains_key(uid) == old(self)@.knows(id)
                &&& final(self)@.given == old(self)@.given
                &&& final(self)@.last == old(self)@.last
            },
            !old(self)@.remembers(id) ==> {
                &&& uid.raw == old(self)@.last + 1
                &&& !old(self)@.knows(id)
                &&& !old(self)@.ids.contains_key(uid)
                &&& !old(self)@.given.contains_key(uid)
                &&& final(self)@.given == old(self)@.given.insert(uid, id)
                &&& final(self)@.last == uid.raw
            },
            final(self)@.ids == old(self)@.ids.insert(uid, id),
            final(self)@.instances == old(self)@.instances.insert(
                uid,
                if old(self)@.knows(id) {
                    one_more(old(self)@.instances[uid])
                } else {
                    1
                },
            ),
            final(self)@.is_uid_of(uid, id),
    {
        proof {
            use_type_invariant(&*self);
        }
        let ghost before = self@;
        let mut taken = IdRegistry::new();
        core::mem::swap(self, &mut taken);
        let IdRegistry { mut uid_map, mut slots } = taken;
        let known = match uid_map.get(&id) {
            Some(uid) => Some(*uid),
            None => None,
        };
        let ghost old_slots = slots@;
        match known {
            Some(uid) => {
                let at: usize = (uid.raw - 1) as usize;
                let instances = slots[at].instances.saturating_add(1);
                slots.set(at, Slot { id, instances });
                *self = IdRegistry { uid_map, slots };
                proof {
                    assert(before.was_given(uid, id));
                    if old_slots[at as int].instances > 0 {
                        assert(before.is_uid_of(uid, id));
                    } else if before.knows(id) {
                        let u = choose|u: UId| #[trigger] before.is_uid_of(u, id);
                        assert(old_slots[u.raw - 1].id == id);
                        assert(u.raw == uid.raw);
                    }
                    assert(self@.ids =~= before.ids.insert(uid, id));
                    assert(self@.given =~= before.given);
                    assert(self@.instances =~= before.instances.insert(
                        uid,
                        if before.knows(id) {
                            one_more(before.instances[uid])
                        } else {
                            1
                        },
                    ));
                }
                uid
            },
            None => {
                slots.push(Slot { id, instances: 1 });
                let uid = UId { raw: slots.len() as u64 };
                uid_map.insert(id, uid);
                *self = IdRegistry { uid_map, slots };
                proof {
                    assert(!before.remembers(id)) by {
                        if before.remembers(id) {
                            let u = choose|u: UId| #[trigger] before.was_given(u, id);
                            assert(old_slots[u.raw - 1].id == id);
                        }
                    }
                    assert(!before.knows(id)) by {
                        if before.knows(id) {
                            let u = choose|u: UId| #[trigger] before.is_uid_of(u, id);
                            assert(before.was_given(u, id));
                        }
                    }
                    assert(self@.ids =~= before.ids.insert(uid, id));
                    assert(self@.given =~= before.given.insert(uid, id));
                    assert(self@.instances =~= before.instances.insert(uid, 1));
                    assert(self@.is_uid_of(uid, id));
                }
                uid
            },
        }
    }

    /// Reduce the instance count of a subject associated with
    /// the provided [`UId`]. When the instance count reaches 0, the
    /// entire registry will be erased.
    ///
    /// Returns `true` if the instance is being successfully removed,
    /// `false` if the registry doesn't exist in the first place.
    pub fn remove_instance(&mut self, uid: &UId) -> (removed: bool)
        ensures
            removed == old(self)@.ids.contains_key(*uid),
            removed ==> old(self)@.instances[*uid] >= 1,
            !removed ==> final(self)@ == old(self)@,
            removed && old(self)@.instances[*uid] > 1 ==> {
                &&& final(self)@.ids == old(self)@.ids
                &&& final(self)@.instances == old(self)@.instances.insert(
                    *uid,
                    (old(self)@.instances[*uid] - 1) as u32,
                )
            },
            removed && old(self)@.instances[*uid] == 1 ==> {
                &&& final(self)@.ids == old(self)@.ids.remove(*uid)
                &&& final(self)@.instances == old(self)@.instances.remove(*uid)
            },
            final(self)@.given == old(self)@.given,
            final(self)@.last == old(self)@.last,
    {
        proof {
            use_type_invariant(&*self);
        }
        let ghost before = self@;
        if uid.raw == 0 || uid.raw > self.slots.len() as u64 {
            return false;
        }
        let at: usize = (uid.raw - 1) as usize;
        if self.slots[at].instances == 0 {
            return false;
        }
        let mut taken = IdRegistry::new();
        core::mem::swap(self, &mut taken);
        let IdRegistry { uid_map, mut slots } = taken;
        let id = slots[at].id;
        let instances: u32 = slots[at].instances - 1;
        slots.set(at, Slot { id, instances });
        *self = IdRegistry { uid_map, slots };
        proof {
            assert(self@.given =~= before.given);
            if instances == 0 {
                assert(self@.ids =~= before.ids.remove(*uid));
                assert(self@.instances =~= before.instances.remove(*uid));
            } else {
                assert(self@.ids =~= before.ids);
                assert(self@.instances =~= before.instances.insert(*uid, instances));
            }
        }
        true
    }

    /// Checks if the registry is empty.
    pub fn is_empty(&self) -> (empty: bool)
        ensures
            empty == (self@.ids == Map::<UId, I>::empty()),
    {
        let mut i: usize = 0;
        while i < self.slots.len()
            invariant
                i <= self.slots@.len(),
                forall|j: int| 0 <= j < i ==> (#[trigger] self.slots@[j]).instances == 0,
            decreases self.slots@.len() - i,
        {
            if self.slots[i].instances > 0 {
                assert(self@.ids.contains_key(UId { raw: (i + 1) as u64 }));
                return false;
            }
            i += 1;
        }
        assert(self@.ids =~= Map::<UId, I>::empty());
        true
    }

    /// The [`UId`] of a subject, if it has one.
    pub fn get_uid(&self, id: &I) -> (uid: Option<&UId>)
        ensures
            uid is Some <==> self@.knows(*id),
            uid is Some ==> self@.is_uid_of(*uid->0, *id),
    {
        proof {
            use_type_invariant(self);
            if self@.knows(*id) {
                let u = choose|u: UId| #[trigger] self@.is_uid_of(u, *id);
                assert(self.slots@[u.raw - 1].id == *id);
                assert(self.uid_map@[*id] == u);
            }
        }
        match self.uid_map.get(id) {
            Some(uid) => {
                let at: usize = (uid.raw - 1) as usize;
                if self.slots[at].instances > 0 {
                    assert(self@.is_uid_of(*uid, *id));
                    Some(uid)
                } else {
                    None
                }
            },
            None => None,
        }
    }

    /// The subject of a [`UId`], if it is in use.
    pub fn get_id(&self, uid: &UId) -> (id: Option<&I>)
        ensures
            id is Some <==> self@.ids.contains_key(*uid),
            id is Some ==> *id->0 == self@.ids[*uid],
    {
        if uid.raw == 0 || uid.raw > self.slots.len() as u64 {
            return None;
        }
        let at: usize = (uid.raw - 1) as usize;
        if self.slots[at].instances == 0 {
            None
        } else {
            Some(&self.slots[at].id)
        }
    }

    /// The subject that a [`UId`] was given to, in use or not.
    pub fn get_given(&self, uid: &UId) -> (id: Option<&I>)
        ensures
            id is Some <==> self@.given.contains_key(*uid),
            id is Some ==> *id->0 == self@.given[*uid],
    {
        if uid.raw == 0 || uid.raw > self.slots.len() as u64 {
            return None;
        }
        let at: usize = (uid.raw - 1) as usize;
        Some(&self.slots[at].id)
    }
}

impl<I: TableKey> Default for IdRegistry<I> {
    fn default() -> (registry: Self)
        ensures
            registry@.ids == Map::<UId, I>::empty(),
            registry@.instances == Map::<UId, u32>::empty(),
            registry@.given == Map::<UId, I>::empty(),
            registry@.last == 0,
    {
        Self::new()
    }
}

} // verus!
