//! Reading and writing the values of actions.
use crate::action::world::ActionModel;
use crate::action::{Action, ActionId, ActionWorld, Keyframe, Segment, Value};
use crate::bevy_motiongfx::remote::batch::op::{KeyframeDoc, KeyframeTime};
use crate::bevy_motiongfx::remote::ease::{
    ease_to_json, is_ease_param, op_ease_resolves, parse_op_ease, EaseParam,
};
use crate::bevy_motiongfx::remote::fault::{Fault, OpFault};
use crate::bevy_motiongfx::remote::host::{decodes, encodes, RemoteHost};
use crate::bevy_motiongfx::remote::json::{Json, Number};
use crate::remote::{RemoteKeyframe, RemoteTarget};
use crate::seqs::{insert_by, insert_by_at, stable_sort, take_one_more};
use crate::subject::TypeTag;
use crate::time::{Phase, PHASE_ONE};
use vstd::prelude::*;

verus! {

/// The baked segment of an action whose values are of the type.
pub open spec fn segment_of(actions: ActionModel, id: ActionId, target: TypeTag) -> Option<
    Segment<Value>,
> {
    if actions.has(id) && actions.actions[id].target_type == target {
        actions.actions[id].segment
    } else {
        None
    }
}

/// The baked segment of an action whose values are of the type, with the
/// target that the action has itself: a constant one leads to its constant,
/// though it is muted and its baked segment ends where it starts.
pub open spec fn own_segment(actions: ActionModel, id: ActionId, target: TypeTag) -> Option<
    Segment<Value>,
> {
    match segment_of(actions, id, target) {
        None => None,
        Some(segment) => Some(
            Segment {
                start: segment.start,
                end: match actions.actions[id].action {
                    Action::Constant(value) => value,
                    Action::Custom(_) => segment.end,
                },
            },
        ),
    }
}

/// Whether a segment is written that way: both of its ends, or not at all.
pub open spec fn ends_written<H: RemoteHost>(
    host: &H,
    segment: Option<Segment<Value>>,
    result: Option<(Json, Json)>,
) -> bool {
    match segment {
        None => result is None,
        Some(segment) => match result {
            Some((start, end)) => encodes(host, segment.start, Some(start)) && encodes(
                host,
                segment.end,
                Some(end),
            ),
            None => encodes(host, segment.start, None) || encodes(host, segment.end, None),
        },
    }
}

/// Whether the baked segment of an action is written that way.
pub open spec fn segment_written<H: RemoteHost>(
    host: &H,
    actions: ActionModel,
    id: ActionId,
    target: TypeTag,
    result: Option<(Json, Json)>,
) -> bool {
    ends_written(host, segment_of(actions, id, target), result)
}

/// Whether the segment of an action with its own target is written that way.
pub open spec fn own_segment_written<H: RemoteHost>(
    host: &H,
    actions: ActionModel,
    id: ActionId,
    target: TypeTag,
    result: Option<(Json, Json)>,
) -> bool {
    ends_written(host, own_segment(actions, id, target), result)
}

/// Writes both ends of a segment.
fn write_ends<H: RemoteHost>(host: &H, segment: Segment<Value>) -> (result: Option<(Json, Json)>)
    ensures
        ends_written(host, Some(segment), result),
{
    let start = match host.encode(segment.start) {
        Some(start) => start,
        None => {
            assert(encodes(host, segment.start, None));
            return None;
        },
    };
    assert(encodes(host, segment.start, Some(start)));
    match host.encode(segment.end) {
        Some(end) => {
            assert(encodes(host, segment.end, Some(end)));
            Some((start, end))
        },
        None => {
            assert(encodes(host, segment.end, None));
            None
        },
    }
}

/// Reads an action's baked segment back out.
pub fn write_segment<H: RemoteHost>(
    host: &H,
    world: &ActionWorld,
    id: ActionId,
    target: TypeTag,
) -> (result: Option<(Json, Json)>)
    ensures
        segment_written(host, world@, id, target, result),
{
    match world.get_segment(id, target) {
        Some(segment) => write_ends(host, segment),
        None => None,
    }
}

/// Reads an action's segment back out, with the target that the action has
/// itself.
pub fn write_own_segment<H: RemoteHost>(
    host: &H,
    world: &ActionWorld,
    id: ActionId,
    target: TypeTag,
) -> (result: Option<(Json, Json)>)
    ensures
        own_segment_written(host, world@, id, target, result),
{
    let segment = match world.get_segment(id, target) {
        Some(segment) => segment,
        None => {
            return None;
        },
    };
    let end = match world.get_action(id, target) {
        Some(Action::Constant(value)) => value,
        _ => segment.end,
    };
    write_ends(host, Segment { start: segment.start, end })
}

/// The keyframes of an action whose values are of the type.
pub open spec fn points_of(actions: ActionModel, id: ActionId, target: TypeTag) -> Option<
    Seq<Keyframe<Value>>,
> {
    if actions.has(id) && actions.actions[id].target_type == target {
        match actions.actions[id].keyframes {
            Some(keyframes) => Some(keyframes@),
            None => None,
        }
    } else {
        None
    }
}

/// Whether an optional ease is written that way.
pub open spec fn is_optional_ease_param(
    ease: Option<crate::action::Ease>,
    param: Option<EaseParam>,
) -> bool {
    match ease {
        Some(ease) => param matches Some(param) && is_ease_param(ease, param),
        None => param is None,
    }
}

/// An optional ease as it travels.
pub fn write_ease(ease: Option<crate::action::Ease>) -> (param: Option<EaseParam>)
    ensures
        is_optional_ease_param(ease, param),
{
    match ease {
        Some(ease) => Some(ease_to_json(ease)),
        None => None,
    }
}

/// Whether a keyframe is written that way.
pub open spec fn is_keyframe_doc<H: RemoteHost>(
    host: &H,
    point: Keyframe<Value>,
    doc: KeyframeDoc,
) -> bool {
    &&& doc.t == KeyframeTime::At(point.t)
    &&& encodes(host, point.value, Some(doc.value))
    &&& is_optional_ease_param(point.ease, doc.ease)
    &&& doc.hold == if point.hold {
        Some(true)
    } else {
        None
    }
}

/// Whether the first of the keyframes are written that way.
pub open spec fn are_keyframe_docs<H: RemoteHost>(
    host: &H,
    points: Seq<Keyframe<Value>>,
    docs: Seq<KeyframeDoc>,
) -> bool {
    &&& docs.len() <= points.len()
    &&& forall|i: int| 0 <= i < docs.len() ==> is_keyframe_doc(host, points[i], #[trigger] docs[i])
}

/// Whether the keyframes of an action are written that way: all of them, or
/// not at all where there are none or one cannot be written.
pub open spec fn keyframes_written<H: RemoteHost>(
    host: &H,
    actions: ActionModel,
    id: ActionId,
    target: TypeTag,
    result: Option<Seq<KeyframeDoc>>,
) -> bool {
    match points_of(actions, id, target) {
        None => result is None,
        Some(points) => match result {
            Some(docs) => docs.len() == points.len() && are_keyframe_docs(host, points, docs),
            None => exists|i: int|
                0 <= i < points.len() && encodes(host, (#[trigger] points[i]).value, None),
        },
    }
}

/// The documents of a list, if there is one.
pub open spec fn docs_view(docs: Option<Vec<KeyframeDoc>>) -> Option<Seq<KeyframeDoc>> {
    match docs {
        Some(docs) => Some(docs@),
        None => None,
    }
}

/// Snapshot a keyframed action's points, `None` for constant actions.
pub fn keyframe_docs<H: RemoteHost>(
    host: &H,
    world: &ActionWorld,
    id: ActionId,
    target: TypeTag,
) -> (docs: Option<Vec<KeyframeDoc>>)
    ensures
        keyframes_written(host, world@, id, target, docs_view(docs)),
{
    let storage = match world.get_keyframes(id, target) {
        Some(storage) => storage,
        None => {
            return None;
        },
    };
    let points = storage.points();
    let mut docs: Vec<KeyframeDoc> = Vec::new();
    let mut i: usize = 0;
    while i < points.len()
        invariant
            i <= points@.len(),
            points_of(world@, id, target) == Some(points@),
            docs@.len() == i,
            are_keyframe_docs(host, points@, docs@),
        decreases points@.len() - i,
    {
        let value = match host.encode(points[i].value) {
            Some(value) => value,
            None => {
                assert(encodes(host, points@[i as int].value, None));
                return None;
            },
        };
        assert(encodes(host, points@[i as int].value, Some(value)));
        docs.push(
            KeyframeDoc {
                t: KeyframeTime::At(points[i].t),
                shown: String::new(),
                value,
                ease: write_ease(points[i].ease),
                hold: if points[i].hold {
                    Some(true)
                } else {
                    None
                },
            },
        );
        i += 1;
    }
    Some(docs)
}

/// The time of a keyframe that lies inside of its clip.
pub open spec fn time_inside(t: KeyframeTime) -> Option<Phase> {
    match t {
        KeyframeTime::At(phase) => if 0 <= phase <= PHASE_ONE {
            Some(phase)
        } else {
            None
        },
        _ => None,
    }
}

/// Whether a keyframe is read that way.
pub open spec fn is_read<H: RemoteHost>(
    host: &H,
    doc: KeyframeDoc,
    target: TypeTag,
    point: RemoteKeyframe,
) -> bool {
    &&& time_inside(doc.t) is Some
    &&& point.t == time_inside(doc.t)
    &&& decodes(host, target, doc.value, Ok(point.value.end))
    &&& op_ease_resolves(doc.ease, Ok(point.ease))
    &&& point.hold == (doc.hold == Some(true))
}

/// Whether a keyframe is refused for the reason.
pub open spec fn is_refused<H: RemoteHost>(
    host: &H,
    doc: KeyframeDoc,
    index: int,
    target: TypeTag,
    fault: Fault,
) -> bool {
    if time_inside(doc.t) is None {
        fault == Fault::Op(OpFault::KeyframeTime { index: index as usize, shown: doc.shown })
    } else {
        ||| fault matches Fault::Catalog(error) && decodes(host, target, doc.value, Err(error))
        ||| op_ease_resolves(doc.ease, Err(fault)) && exists|value: Value| #[trigger]
            decodes(host, target, doc.value, Ok(value))
    }
}

/// Whether the first of the keyframes are read that way.
pub open spec fn are_read<H: RemoteHost>(
    host: &H,
    docs: Seq<KeyframeDoc>,
    target: TypeTag,
    points: Seq<RemoteKeyframe>,
) -> bool {
    &&& points.len() <= docs.len()
    &&& forall|i: int| 0 <= i < points.len() ==> is_read(host, docs[i], target, #[trigger] points[i])
}

/// Whether the keyframes are read that way: all of them, or refused for the
/// first that cannot be read.
pub open spec fn keyframes_read<H: RemoteHost>(
    host: &H,
    docs: Seq<KeyframeDoc>,
    target: TypeTag,
    result: Result<Seq<RemoteKeyframe>, Fault>,
) -> bool {
    if docs.len() == 0 {
        result == Err::<Seq<RemoteKeyframe>, Fault>(Fault::Op(OpFault::NoKeyframes))
    } else {
        match result {
            Ok(points) => points.len() == docs.len() && are_read(host, docs, target, points),
            Err(fault) => exists|done: Seq<RemoteKeyframe>|
                {
                    &&& #[trigger] are_read(host, docs, target, done)
                    &&& done.len() < docs.len()
                    &&& is_refused(host, docs[done.len() as int], done.len() as int, target, fault)
                },
        }
    }
}

/// The list of a result.
pub open spec fn points_view(result: Result<Vec<RemoteKeyframe>, Fault>) -> Result<
    Seq<RemoteKeyframe>,
    Fault,
> {
    match result {
        Ok(points) => Ok(points@),
        Err(fault) => Err(fault),
    }
}

/// Decode keyframes through the value type of their field.
pub fn decode_keyframes<H: RemoteHost>(
    host: &H,
    keyframes: &Vec<KeyframeDoc>,
    target: TypeTag,
) -> (result: Result<Vec<RemoteKeyframe>, Fault>)
    ensures
        keyframes_read(host, keyframes@, target, points_view(result)),
{
    if keyframes.len() == 0 {
        return Err(Fault::Op(OpFault::NoKeyframes));
    }
    let mut points: Vec<RemoteKeyframe> = Vec::new();
    let mut i: usize = 0;
    while i < keyframes.len()
        invariant
            i <= keyframes@.len(),
            points@.len() == i,
            keyframes@.len() > 0,
            are_read(host, keyframes@, target, points@),
        decreases keyframes@.len() - i,
    {
        let doc = &keyframes[i];
        let inside: Option<Phase> = match doc.t {
            KeyframeTime::At(phase) => if 0 <= phase && phase <= PHASE_ONE {
                Some(phase)
            } else {
                None
            },
            _ => None,
        };
        if inside.is_none() {
            let fault = Fault::Op(
                OpFault::KeyframeTime { index: i, shown: doc.shown.clone() },
            );
            assert(is_refused(host, keyframes@[i as int], i as int, target, fault));
            return Err(fault);
        }
        let value = match host.decode(target, &doc.value) {
            Ok(value) => value,
            Err(error) => {
                assert(decodes(host, target, doc.value, Err(error)));
                let fault = Fault::Catalog(error);
                assert(is_refused(host, keyframes@[i as int], i as int, target, fault));
                return Err(fault);
            },
        };
        assert(decodes(host, target, doc.value, Ok(value)));
        let ease = match parse_op_ease(&doc.ease) {
            Ok(ease) => ease,
            Err(fault) => {
                assert(is_refused(host, keyframes@[i as int], i as int, target, fault));
                return Err(fault);
            },
        };
        let point = RemoteKeyframe {
            t: inside,
            value: RemoteTarget::new(value),
            ease,
            hold: match doc.hold {
                Some(hold) => hold,
                None => false,
            },
        };
        assert(is_read(host, keyframes@[i as int], target, point));
        points.push(point);
        i += 1;
    }
    Ok(points)
}

/// The keyframes by their times, those at the same time in the given order.
pub open spec fn sorted_docs(docs: Seq<KeyframeDoc>) -> Seq<KeyframeDoc> {
    stable_sort(docs, |doc: KeyframeDoc| doc.t.spec_rank())
}

/// Puts a keyframe behind every keyframe whose time is not later.
fn insert_doc(docs: &mut Vec<KeyframeDoc>, doc: KeyframeDoc)
    ensures
        final(docs)@ == insert_by(old(docs)@, doc, |doc: KeyframeDoc| doc.t.spec_rank()),
{
    let ghost key = |doc: KeyframeDoc| doc.t.spec_rank();
    let mut at: usize = docs.len();
    let rank = doc.t.rank();
    while at > 0 && docs[at - 1].t.rank() > rank
        invariant
            at <= docs@.len(),
            docs@ == old(docs)@,
            rank == doc.t.spec_rank(),
            key == (|doc: KeyframeDoc| doc.t.spec_rank()),
            forall|j: int| at <= j < docs@.len() ==> key(#[trigger] docs@[j]) > key(doc),
        decreases at,
    {
        at -= 1;
    }
    proof {
        insert_by_at(docs@, doc, key, at as int);
    }
    docs.insert(at, doc);
}

/// Sorts the keyframes by their times.
fn sort_docs(docs: Vec<KeyframeDoc>) -> (sorted: Vec<KeyframeDoc>)
    ensures
        sorted@ == sorted_docs(docs@),
{
    let ghost key = |doc: KeyframeDoc| doc.t.spec_rank();
    let ghost all = docs@;
    let mut rest = docs;
    let mut sorted: Vec<KeyframeDoc> = Vec::new();
    let ghost mut n: int = 0;
    assert(rest@ =~= all.skip(0));
    assert(all.take(0) =~= Seq::empty());
    while rest.len() > 0
        invariant
            0 <= n <= all.len(),
            rest@ == all.skip(n),
            key == (|doc: KeyframeDoc| doc.t.spec_rank()),
            sorted@ == stable_sort(all.take(n), key),
        decreases rest@.len(),
    {
        let doc = rest.remove(0);
        assert(doc == all[n]);
        assert(rest@ =~= all.skip(n + 1));
        proof {
            take_one_more(all, n);
            n = n + 1;
        }
        insert_doc(&mut sorted, doc);
    }
    assert(all.take(n) =~= all);
    sorted
}

/// The times of keyframes.
pub open spec fn doc_times(docs: Seq<KeyframeDoc>) -> Seq<KeyframeTime> {
    docs.map_values(|doc: KeyframeDoc| doc.t)
}

/// Whether the values of the keyframes are these numbers.
pub open spec fn doc_numbers(docs: Seq<KeyframeDoc>, numbers: Seq<Number>) -> bool {
    &&& numbers.len() == docs.len()
    &&& forall|i: int|
        0 <= i < docs.len() ==> (#[trigger] docs[i]).value.number() == Some(numbers[i])
}

/// Whether a keyframe got the ease that lets values glide into it. A step
/// stays a step.
pub open spec fn is_glided<H: RemoteHost>(
    host: &H,
    times: &Vec<KeyframeTime>,
    values: &Vec<Number>,
    segment: int,
    before: KeyframeDoc,
    after: KeyframeDoc,
) -> bool {
    if before.hold == Some(true) {
        after == before
    } else {
        exists|curve: Option<crate::action::CubicBezier>|
            {
                &&& #[trigger] call_ensures(
                    H::glide,
                    (host, times, values, segment as usize),
                    curve,
                )
                &&& after == (KeyframeDoc {
                    ease: match curve {
                        Some(curve) => Some(EaseParam::Curve(curve)),
                        None => None,
                    },
                    ..before
                })
            }
    }
}

/// Whether the keyframes were smoothed: sorted, and each segment between two
/// of them got the ease that lets the values glide, or refused because a value
/// is not a number. There is nothing to smooth in less than two keyframes.
pub open spec fn is_smoothed<H: RemoteHost>(
    host: &H,
    docs: Seq<KeyframeDoc>,
    result: Result<Seq<KeyframeDoc>, Fault>,
) -> bool {
    let sorted = sorted_docs(docs);
    if docs.len() < 2 {
        result == Ok::<Seq<KeyframeDoc>, Fault>(docs)
    } else {
        match result {
            Err(fault) => fault == Fault::Op(OpFault::SmoothNeedsNumbers) && exists|i: int|
                0 <= i < sorted.len() && (#[trigger] sorted[i]).value.number() is None,
            Ok(smooth) => glides(host, sorted, smooth),
        }
    }
}

/// Whether the segments between sorted keyframes got the eases that let the
/// values glide.
pub open spec fn glides<H: RemoteHost>(
    host: &H,
    sorted: Seq<KeyframeDoc>,
    smooth: Seq<KeyframeDoc>,
) -> bool {
    exists|times: Vec<KeyframeTime>, values: Vec<Number>|
        {
            &&& times@ == doc_times(sorted)
            &&& doc_numbers(sorted, values@)
            &&& #[trigger] all_glided(host, &times, &values, sorted, smooth)
        }
}

/// Whether every keyframe but the first got the ease that lets values glide
/// into it.
pub open spec fn all_glided<H: RemoteHost>(
    host: &H,
    times: &Vec<KeyframeTime>,
    values: &Vec<Number>,
    sorted: Seq<KeyframeDoc>,
    smooth: Seq<KeyframeDoc>,
) -> bool {
    &&& smooth.len() == sorted.len()
    &&& smooth[0] == sorted[0]
    &&& forall|i: int|
        1 <= i < sorted.len() ==> is_glided(
            host,
            times,
            values,
            i - 1,
            sorted[i],
            #[trigger] smooth[i],
        )
}

/// The list of a result.
pub open spec fn smooth_view(result: Result<Vec<KeyframeDoc>, Fault>) -> Result<
    Seq<KeyframeDoc>,
    Fault,
> {
    match result {
        Ok(docs) => Ok(docs@),
        Err(fault) => Err(fault),
    }
}

/// A copy of a keyframe with another ease.
fn with_ease(doc: &KeyframeDoc, ease: Option<EaseParam>) -> (copy: KeyframeDoc)
    ensures
        copy == (KeyframeDoc { ease, ..*doc }),
{
    KeyframeDoc {
        t: doc.t,
        shown: doc.shown.clone(),
        value: doc.value.copy(),
        ease,
        hold: doc.hold,
    }
}

/// Give each non-hold segment a cubic-bezier ease whose tangents follow the
/// values, so the value glides through every keyframe. Pure authoring
/// transform. The clip stays per-point editable.
pub fn smooth_keyframes<H: RemoteHost>(host: &H, docs: Vec<KeyframeDoc>) -> (result: Result<
    Vec<KeyframeDoc>,
    Fault,
>)
    ensures
        is_smoothed(host, docs@, smooth_view(result)),
{
    if docs.len() < 2 {
        return Ok(docs);
    }
    proof {
        crate::seqs::stable_sort_is_sound(docs@, |doc: KeyframeDoc| doc.t.spec_rank());
    }
    let ghost given = docs@;
    let ghost sorted = sorted_docs(given);
    let mut docs = sort_docs(docs);
    let count = docs.len();
    let mut times: Vec<KeyframeTime> = Vec::new();
    let mut values: Vec<Number> = Vec::new();
    let mut i: usize = 0;
    while i < count
        invariant
            i <= count,
            count == docs@.len(),
            docs@ == sorted,
            times@ == doc_times(sorted).take(i as int),
            values@.len() == i,
            forall|j: int| 0 <= j < i ==> (#[trigger] sorted[j]).value.number() == Some(values@[j]),
        ensures
            i == count || sorted[i as int].value.number() is None,
        decreases count - i,
    {
        match docs[i].value.as_number() {
            Some(number) => {
                values.push(number);
            },
            None => {
                break;
            },
        }
        times.push(docs[i].t);
        assert(times@ =~= doc_times(sorted).take(i + 1));
        i += 1;
    }
    if i < count {
        return Err(Fault::Op(OpFault::SmoothNeedsNumbers));
    }
    assert(times@ =~= doc_times(sorted));
    let mut k: usize = 1;
    while k < count
        invariant
            1 <= k <= count,
            count == docs@.len(),
            count == sorted.len(),
            docs@[0] == sorted[0],
            forall|j: int|
                1 <= j < k ==> is_glided(
                    host,
                    &times,
                    &values,
                    j - 1,
                    sorted[j],
                    #[trigger] docs@[j],
                ),
            forall|j: int| k <= j < count ==> #[trigger] docs@[j] == sorted[j],
        decreases count - k,
    {
        let steps = match docs[k].hold {
            Some(hold) => hold,
            None => false,
        };
        if !steps {
            let ease = match host.glide(&times, &values, k - 1) {
                Some(curve) => Some(EaseParam::Curve(curve)),
                None => None,
            };
            let doc = with_ease(&docs[k], ease);
            assert(is_glided(host, &times, &values, k - 1, sorted[k as int], doc));
            docs.set(k, doc);
        } else {
            assert(is_glided(host, &times, &values, k - 1, sorted[k as int], docs@[k as int]));
        }
        k += 1;
    }
    assert(doc_numbers(sorted, values@));
    assert(all_glided(host, &times, &values, sorted, docs@));
    assert(glides(host, sorted, docs@));
    Ok(docs)
}

} // verus!
