//! A table keyed by two names: the hash index of `bevy_platform` over a dense
//! vector of entries.
use bevy_platform::collections::HashMap;
use bevy_platform::hash::FixedHasher;
use vstd::prelude::*;

verus! {

/// Two names.
pub type NamePair = (Seq<char>, Seq<char>);

/// The associations that an index of names holds.
pub uninterp spec fn name_slots(index: HashMap<(String, String), usize, FixedHasher>) -> Map<
    (Seq<char>, Seq<char>),
    usize,
>;

/// `bevy_platform::collections::HashMap::new`: a map that holds nothing.
#[verifier::external_body]
fn names_new() -> (index: HashMap<(String, String), usize, FixedHasher>)
    ensures
        forall|name: (Seq<char>, Seq<char>)| !name_slots(index).contains_key(name),
{
    HashMap::new()
}

/// `bevy_platform::collections::HashMap::get`: the value under an equal key,
/// if there is one.
#[verifier::external_body]
fn names_get(
    index: &HashMap<(String, String), usize, FixedHasher>,
    first: &str,
    second: &str,
) -> (slot: Option<usize>)
    ensures
        slot is Some <==> name_slots(*index).contains_key((first@, second@)),
        slot is Some ==> slot->0 == name_slots(*index)[(first@, second@)],
{
    index.get(&(first.to_string(), second.to_string())).copied()
}

/// `bevy_platform::collections::HashMap::insert`: the key then has the value
/// and every other key keeps its own.
#[verifier::external_body]
fn names_insert(
    index: &mut HashMap<(String, String), usize, FixedHasher>,
    first: String,
    second: String,
    slot: usize,
)
    ensures
        name_slots(*final(index)) == name_slots(*old(index)).insert((first@, second@), slot),
{
    index.insert((first, second), slot);
}

/// A map from two names to values.
pub struct NameTable<V> {
    index: HashMap<(String, String), usize, FixedHasher>,
    entries: Vec<((String, String), V)>,
}

/// The names of an entry.
pub open spec fn names_of<V>(entry: ((String, String), V)) -> NamePair {
    (entry.0.0@, entry.0.1@)
}

impl<V> View for NameTable<V> {
    type V = Map<NamePair, V>;

    closed spec fn view(&self) -> Map<NamePair, V> {
        Map::new(
            |name: NamePair| name_slots(self.index).contains_key(name),
            |name: NamePair| self.entries@[name_slots(self.index)[name] as int].1,
        )
    }
}

/// Whether every entry of a table is listed once, and nothing else.
pub open spec fn lists_table<V>(table: Map<NamePair, V>, entries: Seq<((String, String), V)>) -> bool {
    &&& forall|i: int|
        0 <= i < entries.len() ==> table.contains_key(names_of(#[trigger] entries[i]))
            && table[names_of(entries[i])] == entries[i].1
    &&& forall|i: int, j: int|
        0 <= i < j < entries.len() ==> names_of(#[trigger] entries[i]) != names_of(
            #[trigger] entries[j],
        )
    &&& forall|name: NamePair| #[trigger]
        table.contains_key(name) ==> exists|i: int|
            0 <= i < entries.len() && names_of(#[trigger] entries[i]) == name
}

impl<V> NameTable<V> {
    /// Every slot of the index is the place of its names, and every entry is
    /// indexed.
    #[verifier::type_invariant]
    spec fn indexed(self) -> bool {
        let slots = name_slots(self.index);
        &&& forall|i: int|
            0 <= i < self.entries@.len() ==> slots.contains_key(
                names_of(#[trigger] self.entries@[i]),
            ) && slots[names_of(self.entries@[i])] == i
        &&& forall|name: NamePair| #[trigger]
            slots.contains_key(name) ==> slots[name] < self.entries@.len() && names_of(
                self.entries@[slots[name] as int],
            ) == name
    }

    /// An empty table.
    pub fn new() -> (table: Self)
        ensures
            table@ == Map::<NamePair, V>::empty(),
    {
        let table = NameTable { index: names_new(), entries: Vec::new() };
        assert(table@ =~= Map::<NamePair, V>::empty());
        table
    }

    /// How many values there are.
    pub fn len(&self) -> (len: usize)
        ensures
            self@.dom().finite(),
            len == self@.dom().len(),
    {
        proof {
            use_type_invariant(self);
            let names = self.entries@.map_values(|entry: ((String, String), V)| names_of(entry));
            assert(names.no_duplicates()) by {
                assert forall|i: int, j: int|
                    0 <= i < names.len() && 0 <= j < names.len() && i != j implies names[i]
                    != names[j] by {
                    assert(names[i] == names_of(self.entries@[i]));
                    assert(names[j] == names_of(self.entries@[j]));
                }
            }
            names.unique_seq_to_set();
            assert(names.to_set() =~= self@.dom()) by {
                assert forall|name: NamePair| names.to_set().contains(name) <==> #[trigger]
                    self@.dom().contains(name) by {
                    if names.to_set().contains(name) {
                        let i = choose|i: int| 0 <= i < names.len() && names[i] == name;
                        assert(names_of(self.entries@[i]) == name);
                    }
                    if self@.dom().contains(name) {
                        let slot = name_slots(self.index)[name] as int;
                        assert(names[slot] == name);
                    }
                }
            }
        }
        self.entries.len()
    }

    /// The value of two names, if they have one.
    pub fn get(&self, first: &str, second: &str) -> (value: Option<&V>)
        ensures
            value is Some <==> self@.contains_key((first@, second@)),
            value is Some ==> *value->0 == self@[(first@, second@)],
    {
        proof {
            use_type_invariant(self);
        }
        match names_get(&self.index, first, second) {
            Some(slot) => Some(&self.entries[slot].1),
            None => None,
        }
    }

    /// Gives two names a value.
    pub fn insert(&mut self, first: String, second: String, value: V)
        ensures
            final(self)@ == old(self)@.insert((first@, second@), value),
    {
        let mut taken = NameTable::new();
        core::mem::swap(self, &mut taken);
        proof {
            use_type_invariant(&taken);
        }
        let ghost before = taken;
        let ghost name = (first@, second@);
        let NameTable { mut index, mut entries } = taken;
        match names_get(&index, first.as_str(), second.as_str()) {
            Some(slot) => {
                entries.set(slot, ((first, second), value));
            },
            None => {
                names_insert(&mut index, first.clone(), second.clone(), entries.len());
                entries.push(((first, second), value));
            },
        }
        *self = NameTable { index, entries };
        assert(self@ =~= before@.insert(name, value));
    }

    /// Takes all values away.
    pub fn clear(&mut self)
        ensures
            final(self)@ == Map::<NamePair, V>::empty(),
    {
        *self = NameTable::new();
    }

    /// Every entry, once.
    pub fn entries(&self) -> (entries: &Vec<((String, String), V)>)
        ensures
            lists_table(self@, entries@),
    {
        proof {
            use_type_invariant(self);
            assert forall|name: NamePair| #[trigger] self@.contains_key(name) implies exists|i: int|
                0 <= i < self.entries@.len() && names_of(#[trigger] self.entries@[i]) == name by {
                let i = name_slots(self.index)[name] as int;
                assert(names_of(self.entries@[i]) == name);
            }
        }
        &self.entries
    }
}

} // verus!
