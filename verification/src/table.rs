//! A keyed table: the hash index of `bevy_platform` over a dense vector
//! of entries.
use bevy_platform::collections::HashMap;
use bevy_platform::hash::FixedHasher;
use vstd::prelude::*;

verus! {

/// The integers a key is hashed and found by.
pub type RawKey = (u64, u64, u64, u64, u64);

/// A key of a [`Table`].
pub trait TableKey: Copy {
    /// The integers that identify the key.
    spec fn raw(self) -> RawKey;

    /// Different keys have different integers.
    proof fn raw_is_injective(a: Self, b: Self)
        requires
            a.raw() == b.raw(),
        ensures
            a == b,
    ;

    /// The integers that identify the key.
    fn to_raw(&self) -> (raw: RawKey)
        ensures
            raw == self.raw(),
    ;
}

impl TableKey for u64 {
    open spec fn raw(self) -> RawKey {
        (self, 0, 0, 0, 0)
    }

    proof fn raw_is_injective(a: Self, b: Self) {
    }

    fn to_raw(&self) -> (raw: RawKey) {
        (*self, 0, 0, 0, 0)
    }
}

/// The hash map of `bevy_platform`, as an opaque type.
#[verifier::external_type_specification]
#[verifier::external_body]
#[verifier::reject_recursive_types(K)]
#[verifier::reject_recursive_types(V)]
#[verifier::reject_recursive_types(S)]
pub struct ExHashMap<K, V, S>(HashMap<K, V, S>);

/// The hasher of `bevy_platform`, as an opaque type.
#[verifier::external_type_specification]
#[verifier::external_body]
pub struct ExFixedHasher(FixedHasher);

/// The associations that a hash index holds.
pub uninterp spec fn index_slots(index: HashMap<RawKey, usize, FixedHasher>) -> Map<RawKey, usize>;

/// `bevy_platform::collections::HashMap::new`: a map that holds nothing.
#[verifier::external_body]
fn index_new() -> (index: HashMap<RawKey, usize, FixedHasher>)
    ensures
        forall|key: RawKey| !index_slots(index).contains_key(key),
{
    HashMap::new()
}

/// `bevy_platform::collections::HashMap::get`: the value under an equal key,
/// if there is one.
#[verifier::external_body]
fn index_get(index: &HashMap<RawKey, usize, FixedHasher>, key: &RawKey) -> (slot: Option<usize>)
    ensures
        slot is Some <==> index_slots(*index).contains_key(*key),
        slot is Some ==> slot->0 == index_slots(*index)[*key],
{
    index.get(key).copied()
}

/// `bevy_platform::collections::HashMap::insert`: the key then has the value
/// and every other key keeps its own.
#[verifier::external_body]
fn index_insert(index: &mut HashMap<RawKey, usize, FixedHasher>, key: RawKey, slot: usize)
    ensures
        index_slots(*final(index)) == index_slots(*old(index)).insert(key, slot),
{
    index.insert(key, slot);
}

/// `bevy_platform::collections::HashMap::remove`: the key is gone and every
/// other key keeps its value.
#[verifier::external_body]
fn index_remove(index: &mut HashMap<RawKey, usize, FixedHasher>, key: &RawKey)
    ensures
        index_slots(*final(index)) == index_slots(*old(index)).remove(*key),
{
    index.remove(key);
}

/// A map from keys to values.
pub struct Table<K: TableKey, V> {
    index: HashMap<RawKey, usize, FixedHasher>,
    entries: Vec<(K, V)>,
}

impl<K: TableKey, V> View for Table<K, V> {
    type V = Map<K, V>;

    closed spec fn view(&self) -> Map<K, V> {
        Map::new(
            |k: K| index_slots(self.index).contains_key(k.raw()),
            |k: K| self.entries@[index_slots(self.index)[k.raw()] as int].1,
        )
    }
}

impl<K: TableKey, V> Table<K, V> {
    /// Every slot of the index is the place of its key, and every entry is
    /// indexed.
    #[verifier::type_invariant]
    spec fn indexed(self) -> bool {
        let slots = index_slots(self.index);
        &&& forall|i: int|
            0 <= i < self.entries@.len() ==> slots.contains_key(
                (#[trigger] self.entries@[i]).0.raw(),
            ) && slots[self.entries@[i].0.raw()] == i
        &&& forall|r: RawKey| #[trigger]
            slots.contains_key(r) ==> slots[r] < self.entries@.len()
                && self.entries@[slots[r] as int].0.raw() == r
    }

    /// An empty table.
    pub fn new() -> (table: Self)
        ensures
            table@ == Map::<K, V>::empty(),
    {
        let table = Table { index: index_new(), entries: Vec::new() };
        assert(table@ =~= Map::<K, V>::empty());
        table
    }

    /// The value of `key`, if it has one.
    pub fn get(&self, key: &K) -> (value: Option<&V>)
        ensures
            value is Some <==> self@.contains_key(*key),
            value is Some ==> *value->0 == self@[*key],
    {
        proof {
            use_type_invariant(self);
        }
        match index_get(&self.index, &key.to_raw()) {
            Some(slot) => Some(&self.entries[slot].1),
            None => None,
        }
    }

    /// Whether `key` has a value.
    pub fn contains_key(&self, key: &K) -> (found: bool)
        ensures
            found == self@.contains_key(*key),
    {
        index_get(&self.index, &key.to_raw()).is_some()
    }

    /// Whether no key has a value.
    pub fn is_empty(&self) -> (empty: bool)
        ensures
            empty == (self@ == Map::<K, V>::empty()),
    {
        proof {
            use_type_invariant(self);
        }
        let empty = self.entries.len() == 0;
        proof {
            if empty {
                assert(self@ =~= Map::<K, V>::empty());
            } else {
                assert(self@.contains_key(self.entries@[0].0));
            }
        }
        empty
    }

    /// Every key that has a value, once.
    pub fn keys(&self) -> (keys: Vec<K>)
        ensures
            keys@.no_duplicates(),
            forall|k: K| keys@.contains(k) <==> self@.contains_key(k),
    {
        proof {
            use_type_invariant(self);
        }
        let mut keys: Vec<K> = Vec::new();
        let mut i: usize = 0;
        while i < self.entries.len()
            invariant
                i <= self.entries@.len(),
                keys@.len() == i,
                forall|j: int| 0 <= j < i ==> #[trigger] keys@[j] == self.entries@[j].0,
            decreases self.entries@.len() - i,
        {
            keys.push(self.entries[i].0);
            i += 1;
        }
        proof {
            assert forall|k: K| keys@.contains(k) <==> self@.contains_key(k) by {
                if keys@.contains(k) {
                    let j = choose|j: int| 0 <= j < keys@.len() && keys@[j] == k;
                    assert(self.entries@[j].0 == k);
                }
                if self@.contains_key(k) {
                    let slot = index_slots(self.index)[k.raw()] as int;
                    K::raw_is_injective(self.entries@[slot].0, k);
                    assert(keys@[slot] == k);
                }
            }
            assert forall|a: int, b: int|
                0 <= a < keys@.len() && 0 <= b < keys@.len() && a != b implies keys@[a]
                != keys@[b] by {
                assert(self.entries@[a].0 == keys@[a]);
                assert(self.entries@[b].0 == keys@[b]);
            }
        }
        keys
    }

    /// Gives `key` a value. Returns the value it had.
    pub fn insert(&mut self, key: K, value: V) -> (previous: Option<V>)
        ensures
            final(self)@ == old(self)@.insert(key, value),
            previous is Some <==> old(self)@.contains_key(key),
            previous is Some ==> previous->0 == old(self)@[key],
    {
        let mut taken = Table::new();
        core::mem::swap(self, &mut taken);
        proof {
            use_type_invariant(&taken);
        }
        let ghost before = taken;
        let raw = key.to_raw();
        let Table { mut index, mut entries } = taken;
        match index_get(&index, &raw) {
            Some(slot) => {
                let mut entry = (key, value);
                proof {
                    K::raw_is_injective(key, entries@[slot as int].0);
                }
                vec_swap_entry(&mut entries, slot, &mut entry);
                *self = Table { index, entries };
                assert(self@ =~= before@.insert(key, value)) by {
                    assert forall|k: K| #[trigger] before@.contains_key(k) && k != key implies self@[k]
                        == before@[k] by {
                        if index_slots(index)[k.raw()] == slot {
                            K::raw_is_injective(k, key);
                        }
                    }
                    assert forall|k: K| self@.contains_key(k) <==> #[trigger] before@.insert(
                        key,
                        value,
                    ).contains_key(k) by {}
                }
                Some(entry.1)
            },
            None => {
                let slot = entries.len();
                index_insert(&mut index, raw, slot);
                entries.push((key, value));
                *self = Table { index, entries };
                assert(self@ =~= before@.insert(key, value)) by {
                    assert forall|k: K| self@.contains_key(k) <==> #[trigger] before@.insert(
                        key,
                        value,
                    ).contains_key(k) by {
                        if k.raw() == raw {
                            K::raw_is_injective(k, key);
                        }
                    }
                    assert forall|k: K| #[trigger] before@.contains_key(k) && k != key implies self@[k]
                        == before@[k] by {
                        if k.raw() == raw {
                            K::raw_is_injective(k, key);
                        }
                    }
                }
                None
            },
        }
    }

    /// Takes the value of `key` away. Returns the value it had.
    pub fn remove(&mut self, key: &K) -> (previous: Option<V>)
        ensures
            final(self)@ == old(self)@.remove(*key),
            previous is Some <==> old(self)@.contains_key(*key),
            previous is Some ==> previous->0 == old(self)@[*key],
    {
        let mut taken = Table::new();
        core::mem::swap(self, &mut taken);
        proof {
            use_type_invariant(&taken);
        }
        let ghost before = taken;
        let raw = key.to_raw();
        let Table { mut index, mut entries } = taken;
        match index_get(&index, &raw) {
            Some(slot) => {
                let last = entries.len() - 1;
                let moved = entries[last].0.to_raw();
                let entry = entries.swap_remove(slot);
                index_insert(&mut index, moved, slot);
                index_remove(&mut index, &raw);
                *self = Table { index, entries };
                assert(self@ =~= before@.remove(*key)) by {
                    assert forall|k: K| self@.contains_key(k) <==> #[trigger] before@.remove(
                        *key,
                    ).contains_key(k) by {
                        if k.raw() == raw {
                            K::raw_is_injective(k, *key);
                        }
                    }
                    assert forall|k: K| #[trigger] self@.contains_key(k) implies self@[k]
                        == before@[k] by {}
                }
                Some(entry.1)
            },
            None => {
                *self = Table { index, entries };
                assert(self@ =~= before@.remove(*key));
                None
            },
        }
    }
}

/// Exchanges the entry at `slot` with `entry`.
fn vec_swap_entry<K, V>(entries: &mut Vec<(K, V)>, slot: usize, entry: &mut (K, V))
    requires
        slot < old(entries)@.len(),
    ensures
        final(entries)@ == old(entries)@.update(slot as int, *old(entry)),
        *final(entry) == old(entries)@[slot as int],
{
    core::mem::swap(&mut entries[slot], entry);
}

} // verus!
