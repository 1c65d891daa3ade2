//! Finding entities by their names.
use crate::bevy_motiongfx::remote::fault::{Fault, SubjectFault};
use crate::bevy_motiongfx::remote::host::{NamedEntity, RemoteHost};
use crate::seqs::take_one_more;
use crate::text::same_text;
use vstd::prelude::*;

verus! {

/// The entities with the name.
pub open spec fn bits_named(entities: Seq<NamedEntity>, name: Seq<char>) -> Seq<u64>
    decreases entities.len(),
{
    if entities.len() == 0 {
        Seq::empty()
    } else {
        let earlier = bits_named(entities.drop_last(), name);
        if entities.last().name@ == name {
            earlier.push(entities.last().bits)
        } else {
            earlier
        }
    }
}

/// The entities with the name.
pub fn find_named(entities: &Vec<NamedEntity>, name: &str) -> (matches: Vec<u64>)
    ensures
        matches@ == bits_named(entities@, name@),
{
    let mut matches: Vec<u64> = Vec::new();
    let mut i: usize = 0;
    assert(entities@.take(0) =~= Seq::<NamedEntity>::empty());
    while i < entities.len()
        invariant
            i <= entities@.len(),
            matches@ == bits_named(entities@.take(i as int), name@),
        decreases entities@.len() - i,
    {
        proof {
            take_one_more(entities@, i as int);
        }
        if same_text(entities[i].name.as_str(), name) {
            matches.push(entities[i].bits);
        }
        i += 1;
    }
    assert(entities@.take(i as int) =~= entities@);
    matches
}

/// Whether these are the entities that have a name.
pub open spec fn are_named<H: RemoteHost>(host: &H, entities: Vec<NamedEntity>) -> bool {
    call_ensures(H::named_entities, (host,), entities)
}

/// Whether the only one of some entities with a name was found so.
pub open spec fn named_among(
    entities: Seq<NamedEntity>,
    name: String,
    result: Result<u64, Fault>,
) -> bool {
    let found = bits_named(entities, name@);
    if found.len() == 1 {
        result == Ok::<u64, Fault>(found[0])
    } else if found.len() == 0 {
        result == Err::<u64, Fault>(Fault::Subject(SubjectFault::NoneNamed { name }))
    } else {
        &&& result matches Err(Fault::Subject(SubjectFault::ManyNamed { name: told, matches }))
        &&& told == name
        &&& matches@ == found
    }
}

/// Whether the only entity with a name was found so.
pub open spec fn name_resolved<H: RemoteHost>(
    host: &H,
    name: String,
    result: Result<u64, Fault>,
) -> bool {
    exists|entities: Vec<NamedEntity>|
        {
            &&& #[trigger] are_named(host, entities)
            &&& named_among(entities@, name, result)
        }
}

/// The only entity with the name.
pub fn resolve_name<H: RemoteHost>(host: &H, name: &String) -> (result: Result<u64, Fault>)
    ensures
        name_resolved(host, *name, result),
{
    let entities = host.named_entities();
    assert(are_named(host, entities));
    let matches = find_named(&entities, name.as_str());
    if matches.len() == 1 {
        Ok(matches[0])
    } else if matches.len() == 0 {
        Err(Fault::Subject(SubjectFault::NoneNamed { name: name.clone() }))
    } else {
        Err(Fault::Subject(SubjectFault::ManyNamed { name: name.clone(), matches }))
    }
}

/// Whether the entity that a request names was found so.
pub open spec fn entity_resolved<H: RemoteHost>(
    host: &H,
    entity: Option<u64>,
    entity_name: Option<String>,
    result: Result<u64, Fault>,
) -> bool {
    match (entity, entity_name) {
        (Some(bits), None) => result == Ok::<u64, Fault>(bits),
        (Some(_), Some(_)) => result == Err::<u64, Fault>(Fault::Subject(SubjectFault::Exclusive)),
        (None, None) => result == Err::<u64, Fault>(Fault::Subject(SubjectFault::Missing)),
        (None, Some(name)) => name_resolved(host, name, result),
    }
}

/// The entity that a request names.
pub fn resolve_subject_entity<H: RemoteHost>(
    host: &H,
    entity: Option<u64>,
    entity_name: &Option<String>,
) -> (result: Result<u64, Fault>)
    ensures
        entity_resolved(host, entity, *entity_name, result),
{
    match (entity, entity_name) {
        (Some(bits), None) => Ok(bits),
        (Some(_), Some(_)) => Err(Fault::Subject(SubjectFault::Exclusive)),
        (None, None) => Err(Fault::Subject(SubjectFault::Missing)),
        (None, Some(name)) => resolve_name(host, name),
    }
}

} // verus!
