//! What actions that are made and changed from outside come to.
use crate::action::world::ActionModel;
use crate::action::{
    clamped_keyframe, sorted_keyframes, Action, ActionId, ActionRecord, Ease, InterpFn, Keyframe,
    Value,
};
use crate::pipeline::PipelineKey;
use crate::remote::{
    keyframe_fault, keyframes_fault, keyframes_kept, rekeyframed, retargeted, typed_keyframes,
    update_result, RemoteActionError, RemoteKeyframe, RemoteTarget,
};
use crate::seqs::{ascending, stable_sort_is_sound};
use crate::subject::TypeTag;
use crate::track::edit_laws::is_held;
use vstd::prelude::*;

verus! {

/// A list of keyframes can be used exactly where it has one, each has a time, and each is of
/// the type. What is wrong with it is what is wrong with the first that cannot be used: its
/// time before its type.
pub proof fn keyframes_are_usable_if_each_is(keyframes: Seq<RemoteKeyframe>, target: TypeTag)
    ensures
        keyframes_fault(keyframes, target) is None <==> keyframes.len() > 0 && forall|i: int|
            0 <= i < keyframes.len() ==> is_usable(#[trigger] keyframes[i], target),
        keyframe_fault(keyframes, target) is None <==> forall|i: int|
            0 <= i < keyframes.len() ==> is_usable(#[trigger] keyframes[i], target),
        keyframe_fault(keyframes, target) is Some ==> exists|i: int|
            0 <= i < keyframes.len() && !is_usable(#[trigger] keyframes[i], target) && (
            keyframe_fault(keyframes, target) == Some(RemoteActionError::TypeMismatch)
                <==> keyframes[i].t is Some) && forall|j: int|
                0 <= j < i ==> is_usable(#[trigger] keyframes[j], target),
    decreases keyframes.len(),
{
    if keyframes.len() > 0 {
        let n = keyframes.len() - 1;
        let front = keyframes.drop_last();
        keyframes_are_usable_if_each_is(front, target);
        assert(keyframes[n] == keyframes.last());
        assert forall|i: int| 0 <= i < n implies #[trigger] front[i] == keyframes[i] by {}
        match keyframe_fault(front, target) {
            Some(fault) => {
                let i = choose|i: int|
                    0 <= i < front.len() && !is_usable(#[trigger] front[i], target) && (
                    keyframe_fault(front, target) == Some(RemoteActionError::TypeMismatch)
                        <==> front[i].t is Some) && forall|j: int|
                        0 <= j < i ==> is_usable(#[trigger] front[j], target);
                assert(!is_usable(keyframes[i], target));
                assert forall|j: int| 0 <= j < i implies is_usable(
                    #[trigger] keyframes[j],
                    target,
                ) by {
                    assert(is_usable(front[j], target));
                }
            },
            None => {
                assert forall|j: int| 0 <= j < n implies is_usable(
                    #[trigger] keyframes[j],
                    target,
                ) by {
                    assert(is_usable(front[j], target));
                }
                if !is_usable(keyframes.last(), target) {
                    assert(!is_usable(keyframes[n], target));
                }
            },
        }
    }
}

/// Whether a keyframe has a time and is of the type.
pub open spec fn is_usable(keyframe: RemoteKeyframe, target: TypeTag) -> bool {
    keyframe.t is Some && keyframe.value.end.type_id == target
}

/// Whether an action runs through keyframes: it keeps as many, no time comes before an
/// earlier one, each is one that was given, at its time or at the end of the clip that is
/// nearer, and it ends where the latest one is.
pub open spec fn runs_through_given(record: ActionRecord, keyframes: Seq<RemoteKeyframe>) -> bool {
    let kept = record.keyframes->0@;
    &&& record.keyframes is Some
    &&& kept.len() == keyframes.len()
    &&& record.action == Action::Constant(kept[kept.len() - 1].value)
    &&& forall|i: int| 0 <= i < kept.len() ==> (#[trigger] kept[i]).t <= kept[kept.len() - 1].t
    &&& forall|i: int, j: int|
        0 <= i < j < kept.len() ==> (#[trigger] kept[i]).t <= (#[trigger] kept[j]).t
    &&& all_kept(kept, keyframes)
}

/// Whether keyframes are those that were given: each is one of them, and each of them is
/// kept.
#[verifier::opaque]
pub open spec fn all_kept(kept: Seq<Keyframe<Value>>, keyframes: Seq<RemoteKeyframe>) -> bool {
    &&& forall|i: int|
        #![trigger kept[i]]
        0 <= i < kept.len() ==> exists|j: int|
            #![trigger keyframes[j]]
            0 <= j < keyframes.len() && is_kept(kept[i], keyframes[j])
    &&& forall|j: int|
        #![trigger keyframes[j]]
        0 <= j < keyframes.len() ==> exists|i: int|
            #![trigger kept[i]]
            0 <= i < kept.len() && is_kept(kept[i], keyframes[j])
}

/// Whether a keyframe is kept as it was given, inside of the clip.
pub open spec fn is_kept(kept: Keyframe<Value>, given: RemoteKeyframe) -> bool {
    is_held(
        kept,
        Keyframe { t: given.t->0, value: given.value.end, ease: given.ease, hold: given.hold },
    )
}

/// An action with sorted keyframes that ends at the last of them runs through what was given.
pub proof fn kept_are_given(record: ActionRecord, keyframes: Seq<RemoteKeyframe>)
    requires
        keyframes.len() > 0,
        record.keyframes is Some,
        record.keyframes->0@ == sorted_keyframes(typed_keyframes(keyframes)),
        record.action == Action::Constant(
            sorted_keyframes(typed_keyframes(keyframes)).last().value,
        ),
    ensures
        runs_through_given(record, keyframes),
{
    let given = typed_keyframes(keyframes);
    let kept = record.keyframes->0@;
    let key = |point: Keyframe<Value>| point.t as int;
    let held = given.map_values(|point: Keyframe<Value>| clamped_keyframe(point));
    stable_sort_is_sound(held, key);
    assert(ascending(kept, key));
    assert forall|i: int, j: int| 0 <= i < j < kept.len() implies (#[trigger] kept[i]).t <= (
    #[trigger] kept[j]).t by {
        assert(key(kept[i]) <= key(kept[j]));
    }
    all_are_kept(keyframes);
}

/// Each keyframe that is kept is one that was given.
proof fn each_kept_is_given(keyframes: Seq<RemoteKeyframe>, i: int)
    requires
        0 <= i < sorted_keyframes(typed_keyframes(keyframes)).len(),
    ensures
        exists|j: int|
            #![trigger keyframes[j]]
            0 <= j < keyframes.len() && is_kept(
                sorted_keyframes(typed_keyframes(keyframes))[i],
                keyframes[j],
            ),
{
    let given = typed_keyframes(keyframes);
    let kept = sorted_keyframes(given);
    let held = given.map_values(|point: Keyframe<Value>| clamped_keyframe(point));
    stable_sort_is_sound(held, |point: Keyframe<Value>| point.t as int);
    assert(kept.contains(kept[i]));
    assert(held.contains(kept[i]));
    let j = choose|j: int| 0 <= j < held.len() && held[j] == kept[i];
    assert(is_kept(kept[i], keyframes[j]));
}

/// Each keyframe that was given is kept.
proof fn each_given_is_kept(keyframes: Seq<RemoteKeyframe>, j: int)
    requires
        0 <= j < keyframes.len(),
    ensures
        exists|i: int|
            #![trigger sorted_keyframes(typed_keyframes(keyframes))[i]]
            0 <= i < sorted_keyframes(typed_keyframes(keyframes)).len() && is_kept(
                sorted_keyframes(typed_keyframes(keyframes))[i],
                keyframes[j],
            ),
{
    let given = typed_keyframes(keyframes);
    let kept = sorted_keyframes(given);
    let held = given.map_values(|point: Keyframe<Value>| clamped_keyframe(point));
    stable_sort_is_sound(held, |point: Keyframe<Value>| point.t as int);
    assert(held.contains(held[j]));
    assert(kept.contains(held[j]));
    let i = choose|i: int| 0 <= i < kept.len() && kept[i] == held[j];
    assert(is_kept(kept[i], keyframes[j]));
}

/// Sorted keyframes are those that were given.
proof fn all_are_kept(keyframes: Seq<RemoteKeyframe>)
    ensures
        all_kept(sorted_keyframes(typed_keyframes(keyframes)), keyframes),
{
    reveal(all_kept);
    let kept = sorted_keyframes(typed_keyframes(keyframes));
    assert forall|i: int| #![trigger kept[i]] 0 <= i < kept.len() implies exists|j: int|
        #![trigger keyframes[j]]
        0 <= j < keyframes.len() && is_kept(kept[i], keyframes[j]) by {
        each_kept_is_given(keyframes, i);
    }
    assert forall|j: int|
        #![trigger keyframes[j]]
        0 <= j < keyframes.len() implies exists|i: int|
        #![trigger kept[i]]
        0 <= i < kept.len() && is_kept(kept[i], keyframes[j]) by {
        each_given_is_kept(keyframes, j);
    }
}

/// An action that is made with keyframes runs through them and ends where the latest one is.
pub proof fn keyframed_actions_end_at_the_latest(
    record: ActionRecord,
    keyframes: Seq<RemoteKeyframe>,
    target: TypeTag,
    interp: InterpFn,
    ease: Option<Ease>,
)
    requires
        keyframes.len() > 0,
        keyframes_kept(record, keyframes, target, interp, ease),
    ensures
        runs_through_given(record, keyframes),
        record.ease == ease,
        record.interp == Some(interp),
        record.target_type == target,
        !record.disabled,
{
    kept_are_given(record, keyframes);
}

/// An action whose keyframes are replaced runs through the new ones and ends where the latest
/// one is. Nothing else about it changes, and no other action does.
pub proof fn replaced_keyframes_are_run_through(
    before: ActionModel,
    after: ActionModel,
    id: ActionId,
    keyframes: Seq<RemoteKeyframe>,
    other: ActionId,
)
    requires
        keyframes.len() > 0,
        before.has(id),
        rekeyframed(before, after, id, keyframes),
    ensures
        runs_through_given(after.actions[id], keyframes),
        after.actions[id].ease == before.actions[id].ease,
        after.actions[id].key == before.actions[id].key,
        after.actions[id].interp == before.actions[id].interp,
        after.actions[id].disabled == before.actions[id].disabled,
        other != id ==> after.has(other) == before.has(other) && after.actions[other]
            == before.actions[other],
{
    kept_are_given(after.actions[id], keyframes);
}

/// Another target changes where an action leads to, and nothing else of it or of others.
pub proof fn retargeting_changes_the_target_alone(
    model: ActionModel,
    id: ActionId,
    end: Value,
    other: ActionId,
)
    requires
        model.has(id),
    ensures
        ({
            let after = retargeted(model, id, end);
            let (x, y) = (model.actions[id], after.actions[id]);
            &&& after.has(id)
            &&& y.action == Action::Constant(end)
            &&& y.key == x.key && y.ease == x.ease && y.disabled == x.disabled && y.interp
                == x.interp && y.keyframes == x.keyframes
            &&& other != id ==> after.has(other) == model.has(other) && after.actions[other]
                == model.actions[other]
        }),
{
}

/// An action can be given another target exactly where its pipeline was declared, there is
/// such an action, and both it and the target are of the type of the pipeline.
pub proof fn targets_are_of_the_type(
    entries: Map<PipelineKey, InterpFn>,
    key: PipelineKey,
    model: ActionModel,
    id: ActionId,
    target: RemoteTarget,
)
    ensures
        update_result(entries, key, model, id, target) is Ok <==> entries.contains_key(key)
            && model.has(id) && model.actions[id].target_type == key.target_id
            && target.end.type_id == key.target_id,
        update_result(entries, key, model, id, target) == Err::<(), RemoteActionError>(
            RemoteActionError::Unregistered,
        ) <==> !entries.contains_key(key),
{
}

} // verus!
