//! How animations outside of timelines run.
use crate::bevy_motiongfx::remote::dynamic::{
    animated, field_planned, first_spawn_fault, tells_all, tells_animations, AnimateParams,
    DynAnimId, DynAnimState, DynAnimation, DynModel, FieldKind, FieldParam, FieldWrite, SpawnFacts,
};
use crate::bevy_motiongfx::remote::fault::Fault;
use crate::bevy_motiongfx::remote::host::{LeafFacts, RemoteHost};
use crate::bevy_motiongfx::remote::json::Number;
use crate::time::Ticks;
use vstd::prelude::*;

verus! {

/// An animation that plays moves by the time that passes, up to its end, and plays on
/// until it is there. One that does not play stays where it is.
pub proof fn animations_run_to_their_end(anim: DynAnimation, delta: Ticks)
    requires
        i64::MIN <= anim.elapsed + delta <= i64::MAX,
    ensures
        !anim.playing ==> anim.after(delta) == anim,
        anim.playing && anim.elapsed + delta <= anim.duration ==> anim.after(delta).elapsed
            == anim.elapsed + delta,
        anim.playing && anim.elapsed + delta >= anim.duration ==> anim.after(delta).elapsed
            == anim.duration,
        anim.playing ==> (anim.after(delta).playing <==> anim.elapsed + delta < anim.duration),
        anim.after(delta).entity == anim.entity,
        anim.after(delta).component == anim.component,
        anim.after(delta).duration == anim.duration,
        anim.after(delta).fields == anim.fields,
{
}

/// Time that passes in two parts passes as a whole.
pub proof fn animations_run_step_by_step(anim: DynAnimation, a: Ticks, b: Ticks)
    requires
        a >= 0,
        b >= 0,
        anim.elapsed + a + b <= i64::MAX,
        a + b <= i64::MAX,
    ensures
        anim.after(a).after(b) == anim.after((a + b) as i64),
{
}

/// A number is written whenever its field is there, from where it was to where it goes, at
/// the part that has passed. Another value is written once, when the animation has
/// come to its end, and never before.
pub proof fn fields_are_written_in_time(anim: DynAnimation, i: int, reachable: bool)
    requires
        0 <= i < anim.fields@.len(),
    ensures
        !reachable ==> anim.field_step(i, reachable).0 is None,
        anim.fields@[i].kind matches FieldKind::Tween { from, to } ==> {
            &&& reachable ==> anim.field_step(i, reachable).0 == Some(
                FieldWrite::Number { from, to, elapsed: anim.elapsed, duration: anim.duration },
            )
            &&& anim.field_step(i, reachable).1 == anim.fields@[i].kind
        },
        anim.fields@[i].kind matches FieldKind::Discrete { applied, value } ==> {
            &&& anim.elapsed < anim.duration ==> anim.field_step(i, reachable).0 is None
            &&& applied ==> anim.field_step(i, reachable).0 is None
            &&& anim.field_step(i, reachable).0 is Some ==> anim.field_step(i, reachable).0
                == Some(FieldWrite::Value(value))
            &&& reachable && !applied && anim.elapsed >= anim.duration ==> anim.field_step(
                i,
                reachable,
            ).0 is Some
            &&& anim.field_step(i, reachable).1 == (FieldKind::Discrete {
                applied: applied || anim.field_step(i, reachable).0 is Some,
                value,
            })
        },
{
}

/// A number is led to from the number that the field has; anything else is set in the end.
/// What cannot be is refused: a path that leads nowhere, a number for what is none, and a
/// value that is not one of the type.
pub proof fn fields_are_planned_as_asked(field: FieldParam, facts: LeafFacts)
    ensures
        facts.path_fault is Some ==> field_planned(field, facts) is Err,
        facts.path_fault is None && field.to is Number && facts.number is Some ==> field_planned(
            field,
            facts,
        ) == Ok::<FieldKind, Fault>(
            FieldKind::Tween { from: facts.number->0, to: field.to->Number_0 },
        ),
        facts.path_fault is None && field.to is Number && facts.number is None ==> field_planned(
            field,
            facts,
        ) is Err,
        facts.path_fault is None && !(field.to is Number) ==> {
            &&& field_planned(field, facts) is Ok <==> facts.type_registered
                && facts.value_fault is None
            &&& field_planned(field, facts) is Ok ==> field_planned(field, facts) == Ok::<
                FieldKind,
                Fault,
            >(FieldKind::Discrete { applied: false, value: field.to })
        },
{
}

/// An animation that was added starts at its beginning, with as many fields as were asked
/// for, under an id of its own, and plays if that was asked for. No other one changes.
/// What takes no time or animates nothing is not added.
pub proof fn added_animations_are_as_asked<H: RemoteHost>(
    host: &H,
    p: AnimateParams,
    before: DynModel,
    after: DynModel,
    id: DynAnimId,
    count: usize,
    other: DynAnimId,
)
    requires
        animated(host, p, before, after, Ok((id, count))),
    ensures
        p.duration > 0,
        p.fields@.len() > 0,
        count == p.fields@.len(),
        after.anims.contains_key(id),
        ({
            let anim = after.anims[id];
            &&& anim.duration == p.duration
            &&& anim.elapsed == 0
            &&& anim.playing == p.playing
            &&& anim.component == p.component
            &&& anim.fields@.len() == p.fields@.len()
            &&& forall|i: int|
                0 <= i < p.fields@.len() ==> (#[trigger] anim.fields@[i]).path == p.fields@[i].path
            &&& p.entity matches Some(bits) ==> anim.entity == bits
        }),
        other != id ==> after.anims.contains_key(other) == before.anims.contains_key(other)
            && after.anims[other] == before.anims[other],
        before.next < u64::MAX ==> after.next == before.next + 1,
{
}

/// An entity can be spawned exactly where nothing is wrong with any of its components.
pub proof fn spawning_needs_every_component(components: Seq<(String, SpawnFacts)>)
    ensures
        first_spawn_fault(components) is None <==> forall|i: int|
            0 <= i < components.len() ==> {
                let facts = (#[trigger] components[i]).1;
                facts.is_registered && facts.is_component && facts.value_fault is None
            },
    decreases components.len(),
{
    if components.len() > 0 {
        let n = components.len() - 1;
        let front = components.drop_last();
        spawning_needs_every_component(front);
        assert(components[n] == components.last());
        if first_spawn_fault(front) is Some {
            let i = choose|i: int|
                0 <= i < front.len() && !({
                    let facts = (#[trigger] front[i]).1;
                    facts.is_registered && facts.is_component && facts.value_fault is None
                });
            assert(components[i] == front[i]);
        } else if first_spawn_fault(components) is None {
            assert forall|i: int| 0 <= i < components.len() implies ({
                let facts = (#[trigger] components[i]).1;
                facts.is_registered && facts.is_component && facts.value_fault is None
            }) by {
                if i < n {
                    assert(front[i] == components[i]);
                }
            }
        }
    }
}

/// Listing animations tells of each of them once, where it is and whether it plays.
pub proof fn every_animation_is_told(
    anims: Map<DynAnimId, DynAnimation>,
    states: Seq<DynAnimState>,
    id: DynAnimId,
)
    requires
        tells_all(anims, states),
        anims.contains_key(id),
        anims[id].fields@.len() <= usize::MAX,
    ensures
        exists|i: int|
            0 <= i < states.len() && tells_of(#[trigger] states[i], id, anims[id]),
{
    let ids = choose|ids: Seq<DynAnimId>| #[trigger] tells_animations(anims, ids, states);
    assert(ids.contains(id));
    let i = choose|i: int| 0 <= i < ids.len() && ids[i] == id;
    assert(tells_of(states[i], id, anims[id]));
}

/// Whether a state tells of an animation what it animates, how far it is, and whether it plays.
pub open spec fn tells_of(state: DynAnimState, id: DynAnimId, anim: DynAnimation) -> bool {
    &&& state.id == id.0
    &&& state.entity == anim.entity
    &&& state.component == anim.component
    &&& state.duration == anim.duration
    &&& state.elapsed == anim.elapsed
    &&& state.playing == anim.playing
    &&& state.fields == anim.fields@.len()
}

} // verus!
