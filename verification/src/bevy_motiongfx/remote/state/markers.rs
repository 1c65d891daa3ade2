//! Named time anchors.
use crate::text::{comes_before, name_before, name_order_leads_on, names_are_ordered, same_text};
use crate::time::Ticks;
use vstd::prelude::*;

verus! {

/// A named time anchor on a timeline, so clients can say
/// `seek {marker: "scene2"}` instead of hard-coding times.
#[derive(Debug, Clone, Copy, PartialEq, Eq, Structural)]
pub struct Marker {
    pub track: usize,
    pub time: Ticks,
}

/// Markers by name.
pub struct Markers {
    entries: Vec<(String, Marker)>,
}

/// What is under each name, in the order of the names.
pub open spec fn by_name(entries: Seq<(String, Marker)>) -> Map<Seq<char>, Marker> {
    Map::new(
        |name: Seq<char>| exists|i: int| is_at(entries, i, name),
        |name: Seq<char>| entries[choose|i: int| is_at(entries, i, name)].1,
    )
}

/// Whether the name stands at a place.
pub open spec fn is_at(entries: Seq<(String, Marker)>, i: int, name: Seq<char>) -> bool {
    0 <= i < entries.len() && (#[trigger] entries[i]).0@ == name
}

/// Whether the names ascend, so that none is there twice.
pub open spec fn names_ascend(entries: Seq<(String, Marker)>) -> bool {
    forall|i: int, j: int|
        0 <= i < j < entries.len() ==> name_before(
            (#[trigger] entries[i]).0@,
            (#[trigger] entries[j]).0@,
        )
}

/// What stands at a place is what is under its name.
pub proof fn found_by_name(entries: Seq<(String, Marker)>, i: int)
    requires
        names_ascend(entries),
        0 <= i < entries.len(),
    ensures
        by_name(entries).contains_key(entries[i].0@),
        by_name(entries)[entries[i].0@] == entries[i].1,
{
    let name = entries[i].0@;
    assert(is_at(entries, i, name));
    let other = choose|k: int| is_at(entries, k, name);
    names_are_ordered(name, name);
    if other < i {
        assert(name_before(entries[other].0@, entries[i].0@));
    }
    if other > i {
        assert(name_before(entries[i].0@, entries[other].0@));
    }
}

impl View for Markers {
    type V = Map<Seq<char>, Marker>;

    closed spec fn view(&self) -> Map<Seq<char>, Marker> {
        by_name(self.entries@)
    }
}

impl Markers {
    #[verifier::type_invariant]
    spec fn sorted(self) -> bool {
        names_ascend(self.entries@)
    }

    /// No markers.
    pub fn new() -> (markers: Self)
        ensures
            markers@ == Map::<Seq<char>, Marker>::empty(),
    {
        let markers = Markers { entries: Vec::new() };
        assert(markers@ =~= Map::<Seq<char>, Marker>::empty());
        markers
    }

    /// The markers with their names, in the order of the names.
    pub fn list(&self) -> (list: &Vec<(String, Marker)>)
        ensures
            names_ascend(list@),
            by_name(list@) == self@,
    {
        proof {
            use_type_invariant(self);
        }
        &self.entries
    }

    /// How many names come before `name`.
    fn place(&self, name: &str) -> (place: usize)
        ensures
            place <= self.entries@.len(),
            forall|i: int| 0 <= i < place ==> name_before((#[trigger] self.entries@[i]).0@, name@),
            forall|i: int|
                place <= i < self.entries@.len() ==> !name_before(
                    (#[trigger] self.entries@[i]).0@,
                    name@,
                ),
    {
        proof {
            use_type_invariant(self);
        }
        let mut i: usize = 0;
        while i < self.entries.len() && comes_before(self.entries[i].0.as_str(), name)
            invariant
                i <= self.entries@.len(),
                forall|j: int| 0 <= j < i ==> name_before((#[trigger] self.entries@[j]).0@, name@),
            decreases self.entries@.len() - i,
        {
            i += 1;
        }
        proof {
            assert forall|j: int| i <= j < self.entries@.len() implies !name_before(
                (#[trigger] self.entries@[j]).0@,
                name@,
            ) by {
                if j > i && name_before(self.entries@[j].0@, name@) {
                    name_order_leads_on(self.entries@[i as int].0@, self.entries@[j].0@, name@);
                }
            }
        }
        i
    }

    /// Whether the name stands at the place that it belongs to.
    fn stands_at(&self, place: usize, name: &str) -> (found: bool)
        requires
            place <= self.entries@.len(),
            forall|i: int| 0 <= i < place ==> name_before((#[trigger] self.entries@[i]).0@, name@),
            forall|i: int|
                place <= i < self.entries@.len() ==> !name_before(
                    (#[trigger] self.entries@[i]).0@,
                    name@,
                ),
        ensures
            found == self@.contains_key(name@),
            found ==> place < self.entries@.len() && self.entries@[place as int].0@ == name@,
            found ==> self@[name@] == self.entries@[place as int].1,
    {
        proof {
            use_type_invariant(self);
        }
        let found = place < self.entries.len() && same_text(
            self.entries[place].0.as_str(),
            name,
        );
        proof {
            if found {
                found_by_name(self.entries@, place as int);
            } else if self@.contains_key(name@) {
                let i = choose|i: int| is_at(self.entries@, i, name@);
                names_are_ordered(name@, name@);
                if i > place {
                    assert(name_before(self.entries@[place as int].0@, self.entries@[i].0@));
                }
            }
        }
        found
    }

    /// The marker with the name.
    pub fn get(&self, name: &str) -> (marker: Option<Marker>)
        ensures
            marker is Some <==> self@.contains_key(name@),
            marker is Some ==> marker->0 == self@[name@],
    {
        let place = self.place(name);
        if self.stands_at(place, name) {
            Some(self.entries[place].1)
        } else {
            None
        }
    }

    /// Takes the entries out.
    fn take(&mut self) -> (entries: Vec<(String, Marker)>)
        ensures
            entries@ == old(self).entries@,
            names_ascend(entries@),
    {
        let mut taken = Markers::new();
        core::mem::swap(self, &mut taken);
        proof {
            use_type_invariant(&taken);
        }
        let Markers { entries } = taken;
        entries
    }

    /// Creates or moves the marker with the name.
    pub fn set(&mut self, name: String, marker: Marker)
        ensures
            final(self)@ == old(self)@.insert(name@, marker),
    {
        let ghost before = self.entries@;
        let place = self.place(name.as_str());
        let found = self.stands_at(place, name.as_str());
        let mut entries = self.take();
        if found {
            entries.set(place, (name, marker));
        } else {
            proof {
                assert forall|i: int| place <= i < before.len() implies name_before(
                    name@,
                    (#[trigger] before[i]).0@,
                ) by {
                    names_are_ordered(before[i].0@, name@);
                    if before[i].0@ == name@ {
                        assert(is_at(before, i, name@));
                    }
                }
            }
            entries.insert(place, (name, marker));
        }
        let ghost after = entries@;
        *self = Markers { entries };
        proof {
            found_by_name(after, place as int);
            assert forall|other: Seq<char>| other != name@ implies (self@.contains_key(other)
                <==> #[trigger] by_name(before).contains_key(other)) && (self@.contains_key(other)
                ==> self@[other] == by_name(before)[other]) by {
                if by_name(before).contains_key(other) {
                    let i = choose|i: int| is_at(before, i, other);
                    found_by_name(before, i);
                    let k = if found || i < place {
                        i
                    } else {
                        i + 1
                    };
                    assert(after[k] == before[i]);
                    found_by_name(after, k);
                }
                if self@.contains_key(other) {
                    let k = choose|k: int| is_at(after, k, other);
                    let i = if found || k < place {
                        k
                    } else {
                        k - 1
                    };
                    assert(before[i] == after[k]);
                    found_by_name(before, i);
                }
            }
            assert(self@ =~= by_name(before).insert(name@, marker));
        }
    }

    /// Drops the marker with the name. Returns it.
    pub fn remove(&mut self, name: &str) -> (marker: Option<Marker>)
        ensures
            marker is Some <==> old(self)@.contains_key(name@),
            marker is Some ==> marker->0 == old(self)@[name@],
            final(self)@ == old(self)@.remove(name@),
    {
        let ghost before = self.entries@;
        let place = self.place(name);
        if !self.stands_at(place, name) {
            assert(self@ =~= self@.remove(name@));
            return None;
        }
        let mut entries = self.take();
        let ghost kept = entries@;
        let removed = entries.remove(place);
        let ghost after = entries@;
        *self = Markers { entries };
        proof {
            names_are_ordered(name@, name@);
            assert forall|other: Seq<char>| (self@.contains_key(other) <==> #[trigger] by_name(
                before,
            ).contains_key(other) && other != name@) && (self@.contains_key(other)
                ==> self@[other] == by_name(before)[other]) by {
                if by_name(before).contains_key(other) && other != name@ {
                    let i = choose|i: int| is_at(before, i, other);
                    found_by_name(before, i);
                    let k = if i < place {
                        i
                    } else {
                        i - 1
                    };
                    assert(after[k] == before[i]);
                    found_by_name(after, k);
                }
                if self@.contains_key(other) {
                    let k = choose|k: int| is_at(after, k, other);
                    let i = if k < place {
                        k
                    } else {
                        k + 1
                    };
                    assert(before[i] == after[k]);
                    found_by_name(before, i);
                    found_by_name(after, k);
                    if i < place {
                        assert(name_before(before[i].0@, before[place as int].0@));
                    } else {
                        assert(name_before(before[place as int].0@, before[i].0@));
                    }
                }
            }
            assert(self@ =~= by_name(before).remove(name@));
        }
        Some(removed.1)
    }

    /// Drops all markers.
    pub fn clear(&mut self)
        ensures
            final(self)@ == Map::<Seq<char>, Marker>::empty(),
    {
        *self = Markers::new();
    }
}

} // verus!
