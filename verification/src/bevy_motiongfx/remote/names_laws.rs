//! That entities are found by their names.
use crate::bevy_motiongfx::remote::ease::{
    ease_names_differ, ease_resolves, ease_table, in_unit_range, EaseParam, EASE_COUNT,
};
use crate::bevy_motiongfx::remote::fault::{Fault, OpFault, SubjectFault};
use crate::bevy_motiongfx::remote::host::{NamedEntity, RemoteHost};
use crate::bevy_motiongfx::remote::names::{are_named, bits_named, entity_resolved, named_among};
use crate::action::{CubicBezier, Ease};
use vstd::prelude::*;

verus! {

/// Whether places are those of the entities with a name, in order.
pub open spec fn places_named(entities: Seq<NamedEntity>, name: Seq<char>, places: Seq<int>) -> bool {
    &&& forall|k: int|
        0 <= k < places.len() ==> 0 <= #[trigger] places[k] < entities.len()
            && entities[places[k]].name@ == name
    &&& forall|k: int, l: int|
        0 <= k < l < places.len() ==> #[trigger] places[k] < #[trigger] places[l]
    &&& forall|i: int|
        0 <= i < entities.len() && (#[trigger] entities[i]).name@ == name ==> places.contains(i)
}

/// The entities that are found by a name are those that have it, each once and in their
/// order.
pub proof fn found_are_named(entities: Seq<NamedEntity>, name: Seq<char>) -> (places: Seq<int>)
    ensures
        places_named(entities, name, places),
        bits_named(entities, name).len() == places.len(),
        forall|k: int|
            0 <= k < places.len() ==> bits_named(entities, name)[k] == entities[
            #[trigger] places[k]].bits,
    decreases entities.len(),
{
    if entities.len() == 0 {
        Seq::empty()
    } else {
        let n = entities.len() - 1;
        let front = entities.drop_last();
        let before = found_are_named(front, name);
        assert forall|k: int| 0 <= k < before.len() implies entities[#[trigger] before[k]]
            == front[before[k]] by {}
        let places = if entities.last().name@ == name {
            before.push(n)
        } else {
            before
        };
        assert forall|i: int|
            0 <= i < entities.len() && (#[trigger] entities[i]).name@
                == name implies places.contains(i) by {
            if i < n {
                assert(front[i] == entities[i]);
                assert(before.contains(i));
                let k = choose|k: int| 0 <= k < before.len() && before[k] == i;
                assert(places[k] == i);
            } else {
                assert(places[places.len() - 1] == i);
            }
        }
        places
    }
}

/// An entity is found by a name exactly where it is the only one that has it. It is told
/// where none has it, and where several have it which those are.
pub proof fn names_find_the_only_one(
    entities: Seq<NamedEntity>,
    name: String,
    result: Result<u64, Fault>,
)
    requires
        named_among(entities, name, result),
    ensures
        result matches Ok(bits) ==> exists|i: int|
            0 <= i < entities.len() && #[trigger] is_only_one(entities, name@, i)
                && entities[i].bits == bits,
        result is Err ==> !exists|i: int| #[trigger] is_only_one(entities, name@, i),
        result matches Err(fault) ==> (fault == Fault::Subject(SubjectFault::NoneNamed { name })
            <==> forall|i: int| 0 <= i < entities.len() ==> (#[trigger] entities[i]).name@ != name@),
        result matches Err(Fault::Subject(SubjectFault::ManyNamed { matches, .. })) ==> forall|
            i: int,
        |
            0 <= i < entities.len() && (#[trigger] entities[i]).name@ == name@
                ==> matches@.contains(entities[i].bits),
{
    let places = found_are_named(entities, name@);
    let found = bits_named(entities, name@);
    match result {
        Ok(bits) => {
            let i = places[0];
            assert(is_only_one(entities, name@, i)) by {
                assert forall|j: int|
                    0 <= j < entities.len() && j != i implies (#[trigger] entities[j]).name@
                    != name@ by {
                    if entities[j].name@ == name@ {
                        assert(places.contains(j));
                        let k = choose|k: int| 0 <= k < places.len() && places[k] == j;
                    }
                }
            }
        },
        Err(fault) => {
            if exists|i: int| #[trigger] is_only_one(entities, name@, i) {
                let i = choose|i: int| #[trigger] is_only_one(entities, name@, i);
                assert(places.contains(i));
                if places.len() > 1 {
                    assert(places[0] < places[1]);
                    assert(entities[places[0]].name@ == name@);
                    assert(entities[places[1]].name@ == name@);
                }
                assert(false);
            }
            if places.len() == 0 {
                assert forall|i: int| 0 <= i < entities.len() implies (#[trigger] entities[i]).name@
                    != name@ by {
                    if entities[i].name@ == name@ {
                        assert(places.contains(i));
                    }
                }
            } else {
                assert(entities[places[0]].name@ == name@);
            }
            assert forall|i: int|
                0 <= i < entities.len() && (#[trigger] entities[i]).name@
                    == name@ implies found.contains(entities[i].bits) by {
                assert(places.contains(i));
                let k = choose|k: int| 0 <= k < places.len() && places[k] == i;
                assert(found[k] == entities[places[k]].bits);
            }
        },
    }
}

/// Whether an entity is the only one with a name.
pub open spec fn is_only_one(entities: Seq<NamedEntity>, name: Seq<char>, i: int) -> bool {
    &&& 0 <= i < entities.len()
    &&& entities[i].name@ == name
    &&& forall|j: int|
        0 <= j < entities.len() && j != i ==> (#[trigger] entities[j]).name@ != name
}

/// A request says which entity it is about by bits or by name, not by both and not by
/// neither. Bits are taken as they are, and a name means the only entity that has it.
pub proof fn requests_say_which_entity<H: RemoteHost>(
    host: &H,
    entity: Option<u64>,
    entity_name: Option<String>,
    result: Result<u64, Fault>,
)
    requires
        entity_resolved(host, entity, entity_name, result),
    ensures
        entity is Some && entity_name is None ==> result == Ok::<u64, Fault>(entity->0),
        entity is Some && entity_name is Some ==> result is Err,
        entity is None && entity_name is None ==> result is Err,
        entity is None && entity_name is Some && result is Ok ==> exists|
            entities: Vec<NamedEntity>,
            i: int,
        |
            are_named(host, entities) && #[trigger] is_only_one(entities@, entity_name->0@, i)
                && entities@[i].bits == result->Ok_0,
{
    if entity is None && entity_name is Some && result is Ok {
        let name = entity_name->0;
        let entities = choose|entities: Vec<NamedEntity>|
            {
                &&& #[trigger] are_named(host, entities)
                &&& named_among(entities@, name, result)
            };
        names_find_the_only_one(entities@, name, result);
        let i = choose|i: int|
            0 <= i < entities@.len() && #[trigger] is_only_one(entities@, name@, i)
                && entities@[i].bits == result->Ok_0;
        assert(is_only_one(entities@, entity_name->0@, i));
    }
}

/// An ease is known by its name and by no other, and a name that no ease has is refused.
pub proof fn eases_are_known_by_name(name: String, result: Result<Ease, Fault>, id: int)
    requires
        ease_resolves(EaseParam::Named(name), result),
        0 <= id < EASE_COUNT,
    ensures
        ease_table(id) == name@ ==> (result matches Ok(Ease::Fn(f)) && f.id == id),
        result is Err ==> ease_table(id) != name@ && result == Err::<Ease, Fault>(
            Fault::Op(OpFault::UnknownEase { name }),
        ),
{
    if ease_table(id) == name@ {
        match result {
            Ok(Ease::Fn(f)) => {
                ease_names_differ(id, f.id as int);
            },
            _ => {},
        }
    }
}

/// A curve is an ease exactly where both of its ends are from zero to one, and then as it
/// is. Of the bits of numbers that are not negative those are in order, so that what is
/// less than something in range is in range.
pub proof fn curves_stay_inside(curve: CubicBezier, result: Result<Ease, Fault>, a: u32, b: u32)
    requires
        ease_resolves(EaseParam::Curve(curve), result),
    ensures
        result is Ok ==> result == Ok::<Ease, Fault>(Ease::CubicBezier(curve)),
        result is Ok <==> in_unit_range(curve.x1) && in_unit_range(curve.x2),
        a <= b < 0x8000_0000 && in_unit_range(b) ==> in_unit_range(a),
        in_unit_range(0) && in_unit_range(0x3F80_0000) && !in_unit_range(0x3F80_0001),
        a > 0x8000_0000 ==> !in_unit_range(a),
{
}

} // verus!
