//! Looking into timelines.
use crate::action::world::ActionModel;
use crate::action::{ActionClip, ActionId, ActionKey, ActionWorld, Ease, Keyframe, Value};
use crate::bevy_motiongfx::manager::TimelineId;
use crate::bevy_motiongfx::remote::batch::apply::{
    baking_is_content, content_stays_seekable, stays_seekable,
};
use crate::bevy_motiongfx::remote::batch::insert::{animates, entity_of, subject_entity, target_of};
use crate::bevy_motiongfx::remote::batch::op::{Color, KeyframeDoc};
use crate::bevy_motiongfx::remote::batch::value::{
    docs_view, is_optional_ease_param, keyframe_docs, keyframes_written,
    points_of, segment_written, write_ease, write_segment,
};
use crate::bevy_motiongfx::remote::catalog::CatalogModel;
use crate::bevy_motiongfx::remote::ease::EaseParam;
use crate::bevy_motiongfx::remote::edit::{entity_is, key_dangles};
use crate::bevy_motiongfx::remote::fault::Fault;
use crate::bevy_motiongfx::remote::host::{blends, is_called, RemoteHost};
use crate::bevy_motiongfx::remote::json::{Json, Number};
use crate::bevy_motiongfx::remote::names::{entity_resolved, resolve_subject_entity};
use crate::bevy_motiongfx::remote::studio::{baked, Studio, StudioModel};
use crate::bevy_motiongfx::world::BevyTimeline;
use crate::pipeline::{
    eased_to, has_reached, is_next_point, local_phase, local_phase_of, time_before,
};
use crate::text::same_text;
use crate::time::{
    clamp_phase, clamped_phase, phase_at, phase_of, saturated, ticks_sub, Phase, Ticks, PHASE_ONE,
    TICKS_EPSILON,
};
use crate::track::Track;
use vstd::prelude::*;

verus! {

/// Where a time lies among clips.
#[derive(Debug, Clone, Copy, PartialEq, Eq, Structural)]
pub enum Place {
    /// Before the first clip.
    Before,
    /// Inside a clip.
    Inside(usize),
    /// Behind a clip, and before the next one.
    Gap(usize),
    /// After the last clip.
    After,
}

/// Whether a time lies there among clips: inside the first clip that has not
/// ended, or in front of it.
pub open spec fn lies_at(clips: Seq<ActionClip>, time: Ticks, place: Place) -> bool {
    match place {
        Place::Before => time < clips[0].start,
        Place::Inside(i) => {
            &&& clips[0].start <= time
            &&& i < clips.len()
            &&& clips[i as int].start <= time <= clips[i as int].end()
            &&& ended_before(clips, time, i as int)
        },
        Place::Gap(i) => {
            &&& clips[0].start <= time
            &&& i + 1 < clips.len()
            &&& time < clips[i + 1].start
            &&& time <= clips[i + 1].end()
            &&& ended_before(clips, time, i + 1)
        },
        Place::After => clips[0].start <= time && ended_before(clips, time, clips.len() as int),
    }
}

/// Whether the first `n` clips have ended before a time.
pub open spec fn ended_before(clips: Seq<ActionClip>, time: Ticks, n: int) -> bool {
    forall|j: int| 0 <= j < n ==> (#[trigger] clips[j]).end() < time
}

/// A time lies at one place among clips only.
pub proof fn place_is_unique(clips: Seq<ActionClip>, time: Ticks, a: Place, b: Place)
    requires
        clips.len() >= 1,
        clips.len() <= usize::MAX,
        lies_at(clips, time, a),
        lies_at(clips, time, b),
    ensures
        a == b,
{
    let first = |place: Place| -> int {
        match place {
            Place::Before => -1int,
            Place::Inside(i) => i as int,
            Place::Gap(i) => i + 1,
            Place::After => clips.len() as int,
        }
    };
    let i = first(a);
    let j = first(b);
    if !(a is Before) && !(b is Before) {
        if i < j {
            assert(clips[i].end() < time);
        }
        if j < i {
            assert(clips[j].end() < time);
        }
    }
}

/// Where a time lies among clips.
pub fn find_place(clips: &[ActionClip], time: Ticks) -> (place: Place)
    requires
        clips@.len() >= 1,
    ensures
        lies_at(clips@, time, place),
{
    // Before the first clip: its (chained) start value.
    if time < clips[0].start {
        return Place::Before;
    }
    // Inside a clip, or in the gap after the previous one.
    let mut i: usize = 0;
    while i < clips.len()
        invariant
            i <= clips@.len(),
            clips@.len() >= 1,
            clips@[0].start <= time,
            ended_before(clips@, time, i as int),
        decreases clips@.len() - i,
    {
        if time <= clips[i].end() {
            if time < clips[i].start {
                // Gap: the previous clip's end holds.
                return Place::Gap(i - 1);
            }
            return Place::Inside(i);
        }
        i += 1;
    }
    Place::After
}

/// What a field is at a time.
#[derive(Debug, Clone, Copy, PartialEq, Eq, Structural)]
pub struct ValueAt {
    pub value: Number,
    pub place: Place,
    /// The clip that gives the value, if the time lies inside of one.
    pub action_id: Option<u64>,
}

/// Whether the first of the points have the numbers that their values are
/// written as.
pub open spec fn are_numbered(
    points: Seq<Keyframe<Value>>,
    docs: Seq<KeyframeDoc>,
    numbered: Seq<Keyframe<Option<Number>>>,
) -> bool {
    &&& docs.len() == points.len()
    &&& numbered.len() == points.len()
    &&& forall|i: int|
        0 <= i < points.len() ==> #[trigger] numbered[i] == (Keyframe {
            t: points[i].t,
            value: docs[i].value.number(),
            ease: points[i].ease,
            hold: points[i].hold,
        })
}

/// Whether these are the points of an action in numbers. None where it has no
/// keyframes, or one of them cannot be written.
pub open spec fn points_numbered<H: RemoteHost>(
    host: &H,
    actions: ActionModel,
    id: ActionId,
    target: u64,
    result: Option<Seq<Keyframe<Option<Number>>>>,
) -> bool {
    match result {
        None => keyframes_written(host, actions, id, target, None),
        Some(numbered) => exists|docs: Seq<KeyframeDoc>|
            {
                &&& #[trigger] keyframes_written(host, actions, id, target, Some(docs))
                &&& are_numbered(points_of(actions, id, target)->0, docs, numbered)
            },
    }
}

/// The list of an option.
pub open spec fn numbered_view(points: Option<Vec<Keyframe<Option<Number>>>>) -> Option<
    Seq<Keyframe<Option<Number>>>,
> {
    match points {
        Some(points) => Some(points@),
        None => None,
    }
}

/// The points of an action in numbers.
fn number_points<H: RemoteHost>(host: &H, world: &ActionWorld, id: ActionId, target: u64) -> (result:
    Option<Vec<Keyframe<Option<Number>>>>)
    ensures
        points_numbered(host, world@, id, target, numbered_view(result)),
        result is Some ==> result->0@.len() >= 1,
{
    let docs = match keyframe_docs(host, world, id, target) {
        Some(docs) => docs,
        None => {
            return None;
        },
    };
    let storage = match world.get_keyframes(id, target) {
        Some(storage) => storage,
        None => {
            assert(false);
            return None;
        },
    };
    let points = storage.points();
    let mut numbered: Vec<Keyframe<Option<Number>>> = Vec::new();
    let mut i: usize = 0;
    while i < points.len()
        invariant
            i <= points@.len(),
            docs@.len() == points@.len(),
            numbered@.len() == i,
            forall|j: int|
                0 <= j < i ==> #[trigger] numbered@[j] == (Keyframe {
                    t: points@[j].t,
                    value: docs@[j].value.number(),
                    ease: points@[j].ease,
                    hold: points@[j].hold,
                }),
        decreases points@.len() - i,
    {
        numbered.push(
            Keyframe {
                t: points[i].t,
                value: docs[i].value.as_number(),
                ease: points[i].ease,
                hold: points[i].hold,
            },
        );
        i += 1;
    }
    proof {
        assert(keyframes_written(host, world@, id, target, Some(docs@)));
        assert(are_numbered(points_of(world@, id, target)->0, docs@, numbered@));
    }
    Some(numbered)
}

/// The number that the way to the point at `next` starts from.
pub open spec fn number_before(
    points: Seq<Keyframe<Option<Number>>>,
    start: Number,
    next: int,
) -> Option<Number> {
    if next > 0 {
        points[next - 1].value
    } else {
        Some(start)
    }
}

/// Whether keyframes give the number: behind the last point that of it, on a
/// way that holds where it starts, and else what lies between the two, eased.
/// None where one that is needed is not a number.
pub open spec fn numbers_give<H: RemoteHost>(
    host: &H,
    points: Seq<Keyframe<Option<Number>>>,
    start: Number,
    t: Option<Phase>,
    next: int,
    result: Option<Number>,
) -> bool {
    if next >= points.len() {
        result == points.last().value
    } else {
        match number_before(points, start, next) {
            None => result is None,
            Some(from) => if points[next].hold {
                result == Some(from)
            } else {
                way_gives(
                    host,
                    from,
                    points[next].value,
                    points[next].ease,
                    local_phase(t, time_before(points, next), points[next].t),
                    result,
                )
            },
        }
    }
}

/// Whether a way from one number to another gives the number.
pub open spec fn way_gives<H: RemoteHost>(
    host: &H,
    from: Number,
    to: Option<Number>,
    ease: Option<Ease>,
    local: Option<Phase>,
    result: Option<Number>,
) -> bool {
    exists|eased: Option<Phase>|
        {
            &&& #[trigger] eased_to(host, ease, local, eased)
            &&& match to {
                None => result is None,
                Some(to) => result matches Some(number) && blends(host, from, to, eased, number),
            }
        }
}

/// Whether keyframes give the number at a part of their clip.
pub open spec fn keyframes_number<H: RemoteHost>(
    host: &H,
    points: Seq<Keyframe<Option<Number>>>,
    start: Number,
    t: Option<Phase>,
    result: Option<Number>,
) -> bool {
    exists|next: int| #[trigger]
        is_next_point(points, t, next) && numbers_give(host, points, start, t, next, result)
}

/// The number that keyframes give: implicit start anchor, the destination
/// point's ease shapes each segment, `hold` points step, holds past the last
/// point.
fn sample_keyframes_json<H: RemoteHost>(
    host: &H,
    points: &Vec<Keyframe<Option<Number>>>,
    start: Number,
    t: Option<Phase>,
) -> (result: Option<Number>)
    requires
        points@.len() >= 1,
    ensures
        keyframes_number(host, points@, start, t, result),
{
    let mut next: usize = 0;
    while next < points.len() && has_reached(points[next].t, t)
        invariant
            next <= points@.len(),
            forall|i: int| 0 <= i < next ==> crate::pipeline::reached((#[trigger] points@[i]).t, t),
        decreases points@.len() - next,
    {
        next += 1;
    }
    assert(is_next_point(points@, t, next as int));
    if next >= points.len() {
        return points[points.len() - 1].value;
    }
    let before: Option<Number> = if next > 0 {
        points[next - 1].value
    } else {
        Some(start)
    };
    let from = match before {
        Some(from) => from,
        None => {
            assert(numbers_give(host, points@, start, t, next as int, None));
            return None;
        },
    };
    if points[next].hold {
        // Step segment: previous value until exactly the point.
        assert(numbers_give(host, points@, start, t, next as int, Some(from)));
        return Some(from);
    }
    let from_t: Phase = if next > 0 {
        points[next - 1].t
    } else {
        0
    };
    let local = local_phase_of(t, from_t, points[next].t);
    let ghost to = points@[next as int].value;
    let ease = points[next].ease;
    let eased = match ease {
        Some(ease) => host.ease(ease, local),
        None => local,
    };
    assert(eased_to(host, ease, local, eased));
    let result = match points[next].value {
        Some(end) => {
            let number = host.blend(from, end, eased);
            assert(blends(host, from, end, eased, number));
            Some(number)
        },
        None => None,
    };
    assert(way_gives(host, from, to, ease, local, result));
    assert(numbers_give(host, points@, start, t, next as int, result));
    result
}

/// How much of a clip has passed. A clip without extent is at its end.
pub open spec fn clip_phase(clip: ActionClip, time: Ticks) -> Option<Phase> {
    if clip.duration <= TICKS_EPSILON {
        Some(PHASE_ONE)
    } else {
        Some(
            clamped_phase(
                phase_at(saturated(time - clip.start) as int, clip.duration as int)->0,
            ),
        )
    }
}

/// How much of a clip has passed.
fn clip_phase_of(clip: ActionClip, time: Ticks) -> (phase: Option<Phase>)
    ensures
        phase == clip_phase(clip, time),
{
    if clip.duration <= TICKS_EPSILON {
        return Some(PHASE_ONE);
    }
    match phase_of(ticks_sub(time, clip.start), clip.duration) {
        Some(phase) => Some(clamp_phase(phase)),
        None => None,
    }
}

/// Whether an end of a clip's segment was read as a number so.
pub open spec fn end_number<H: RemoteHost>(
    host: &H,
    actions: ActionModel,
    id: ActionId,
    target: u64,
    written: Option<(Json, Json)>,
    at_end: bool,
    result: Result<Number, Fault>,
) -> bool {
    &&& segment_written(host, actions, id, target, written)
    &&& match written {
        None => result == Err::<Number, Fault>(Fault::NoSegment),
        Some((start, end)) => {
            let value = if at_end {
                end
            } else {
                start
            };
            result == match value.number() {
                Some(number) => Ok(number),
                None => Err(Fault::NotNumeric),
            }
        },
    }
}

/// Whether an end of a clip's segment is that number.
pub open spec fn holds_number<H: RemoteHost>(
    host: &H,
    actions: ActionModel,
    id: ActionId,
    target: u64,
    at_end: bool,
    result: Result<Number, Fault>,
) -> bool {
    exists|written: Option<(Json, Json)>| #[trigger]
        end_number(host, actions, id, target, written, at_end, result)
}

/// An end of a clip's segment as a number.
fn read_number<H: RemoteHost>(
    host: &H,
    world: &ActionWorld,
    id: ActionId,
    target: u64,
    at_end: bool,
) -> (result: Result<Number, Fault>)
    ensures
        holds_number(host, world@, id, target, at_end, result),
{
    let written = write_segment(host, world, id, target);
    let ghost segment = written;
    let result = match written {
        None => Err(Fault::NoSegment),
        Some((start, end)) => {
            let value = if at_end {
                end
            } else {
                start
            };
            match value.as_number() {
                Some(number) => Ok(number),
                None => Err(Fault::NotNumeric),
            }
        },
    };
    assert(end_number(host, world@, id, target, segment, at_end, result));
    result
}

/// Whether the number inside a clip that starts and ends at those values is
/// that.
pub open spec fn clip_number<H: RemoteHost>(
    host: &H,
    actions: ActionModel,
    clip: ActionClip,
    target: u64,
    time: Ticks,
    start: Json,
    end: Json,
    eased: Option<Phase>,
    points: Option<Seq<Keyframe<Option<Number>>>>,
    result: Result<Number, Fault>,
) -> bool {
    let record = actions.actions[clip.id];
    match start.number() {
        None => result == Err::<Number, Fault>(Fault::NotNumeric),
        Some(from) => if actions.has(clip.id) && record.disabled {
            // Disabled clips hold their chained start.
            result == Ok::<Number, Fault>(from)
        } else {
            &&& eased_to(
                host,
                if actions.has(clip.id) {
                    record.ease
                } else {
                    None
                },
                clip_phase(clip, time),
                eased,
            )
            &&& points_numbered(host, actions, clip.id, target, points)
            &&& match points {
                Some(points) => match result {
                    Ok(number) => keyframes_number(host, points, from, eased, Some(number)),
                    Err(fault) => fault == Fault::NotNumeric && keyframes_number(
                        host,
                        points,
                        from,
                        eased,
                        None,
                    ),
                },
                None => match end.number() {
                    None => result == Err::<Number, Fault>(Fault::NotNumeric),
                    Some(to) => result matches Ok(number) && blends(host, from, to, eased, number),
                },
            }
        },
    }
}

/// Whether the number inside a clip was found so, by way of its written
/// segment, how much of it has passed, and its points.
pub open spec fn inside_stepped<H: RemoteHost>(
    host: &H,
    actions: ActionModel,
    clip: ActionClip,
    target: u64,
    time: Ticks,
    written: Option<(Json, Json)>,
    eased: Option<Phase>,
    points: Option<Seq<Keyframe<Option<Number>>>>,
    result: Result<Number, Fault>,
) -> bool {
    &&& segment_written(host, actions, clip.id, target, written)
    &&& match written {
        None => result == Err::<Number, Fault>(Fault::NoSegment),
        Some((start, end)) => clip_number(
            host,
            actions,
            clip,
            target,
            time,
            start,
            end,
            eased,
            points,
            result,
        ),
    }
}

/// Whether the number inside a clip is that.
pub open spec fn inside_number<H: RemoteHost>(
    host: &H,
    actions: ActionModel,
    clip: ActionClip,
    target: u64,
    time: Ticks,
    result: Result<Number, Fault>,
) -> bool {
    exists|
        written: Option<(Json, Json)>,
        eased: Option<Phase>,
        points: Option<Seq<Keyframe<Option<Number>>>>,
    | #[trigger]
        inside_stepped(host, actions, clip, target, time, written, eased, points, result)
}

/// The number inside a clip.
fn number_inside<H: RemoteHost>(
    host: &H,
    world: &ActionWorld,
    clip: ActionClip,
    target: u64,
    time: Ticks,
) -> (result: Result<Number, Fault>)
    ensures
        inside_number(host, world@, clip, target, time, result),
{
    let ghost no_phase: Option<Phase> = None;
    let ghost no_points: Option<Seq<Keyframe<Option<Number>>>> = None;
    let written = write_segment(host, world, clip.id, target);
    let ghost segment = written;
    let (start, end) = match written {
        Some(segment) => segment,
        None => {
            assert(inside_stepped(
                host,
                world@,
                clip,
                target,
                time,
                segment,
                no_phase,
                no_points,
                Err(Fault::NoSegment),
            ));
            return Err(Fault::NoSegment);
        },
    };
    let from = match start.as_number() {
        Some(from) => from,
        None => {
            assert(inside_stepped(
                host,
                world@,
                clip,
                target,
                time,
                segment,
                no_phase,
                no_points,
                Err(Fault::NotNumeric),
            ));
            return Err(Fault::NotNumeric);
        },
    };
    if world.is_disabled(clip.id) {
        assert(inside_stepped(
            host,
            world@,
            clip,
            target,
            time,
            segment,
            no_phase,
            no_points,
            Ok(from),
        ));
        return Ok(from);
    }
    let t = clip_phase_of(clip, time);
    let ease = world.get_ease(clip.id);
    let eased = match ease {
        Some(ease) => host.ease(ease, t),
        None => t,
    };
    assert(eased_to(host, ease, t, eased));
    let points = number_points(host, world, clip.id, target);
    let ghost numbered = numbered_view(points);
    let result = match points {
        Some(points) => match sample_keyframes_json(host, &points, from, eased) {
            Some(number) => Ok(number),
            None => Err(Fault::NotNumeric),
        },
        None => match end.as_number() {
            None => Err(Fault::NotNumeric),
            Some(to) => {
                let number = host.blend(from, to, eased);
                assert(blends(host, from, to, eased, number));
                Ok(number)
            },
        },
    };
    assert(inside_stepped(
        host,
        world@,
        clip,
        target,
        time,
        segment,
        eased,
        numbered,
        result,
    ));
    result
}

/// Whether the number that clips give at a place is that.
pub open spec fn place_number<H: RemoteHost>(
    host: &H,
    actions: ActionModel,
    clips: Seq<ActionClip>,
    target: u64,
    time: Ticks,
    place: Place,
    result: Result<Number, Fault>,
) -> bool {
    match place {
        Place::Before => holds_number(host, actions, clips[0].id, target, false, result),
        Place::Gap(i) => holds_number(host, actions, clips[i as int].id, target, true, result),
        Place::After => holds_number(host, actions, clips.last().id, target, true, result),
        Place::Inside(i) => inside_number(host, actions, clips[i as int], target, time, result),
    }
}

/// The clip that gives the value at a place.
pub open spec fn clip_at(clips: Seq<ActionClip>, place: Place) -> Option<u64> {
    match place {
        Place::Inside(i) => Some(clips[i as int].id.bits),
        _ => None,
    }
}

/// Whether what clips give at a time was found so.
pub open spec fn clips_value<H: RemoteHost>(
    host: &H,
    actions: ActionModel,
    clips: Seq<ActionClip>,
    target: u64,
    time: Ticks,
    place: Place,
    result: Result<ValueAt, Fault>,
) -> bool {
    &&& lies_at(clips, time, place)
    &&& match result {
        Ok(found) => {
            &&& found.place == place
            &&& found.action_id == clip_at(clips, place)
            &&& place_number(host, actions, clips, target, time, place, Ok(found.value))
        },
        Err(fault) => place_number(host, actions, clips, target, time, place, Err(fault)),
    }
}

/// Whether what clips give at a time is that.
pub open spec fn clips_give<H: RemoteHost>(
    host: &H,
    actions: ActionModel,
    clips: Seq<ActionClip>,
    target: u64,
    time: Ticks,
    result: Result<ValueAt, Fault>,
) -> bool {
    exists|place: Place| #[trigger]
        clips_value(host, actions, clips, target, time, place, result)
}

/// What clips give at a time.
fn value_of_clips<H: RemoteHost>(
    host: &H,
    world: &ActionWorld,
    clips: &[ActionClip],
    target: u64,
    time: Ticks,
) -> (result: Result<ValueAt, Fault>)
    requires
        clips@.len() >= 1,
    ensures
        clips_give(host, world@, clips@, target, time, result),
{
    let place = find_place(clips, time);
    let number = match place {
        Place::Before => read_number(host, world, clips[0].id, target, false),
        Place::Gap(i) => read_number(host, world, clips[i].id, target, true),
        Place::After => read_number(host, world, clips[clips.len() - 1].id, target, true),
        Place::Inside(i) => number_inside(host, world, clips[i], target, time),
    };
    let action_id = match place {
        Place::Inside(i) => Some(clips[i].id.to_bits()),
        _ => None,
    };
    let result = match number {
        Ok(value) => Ok(ValueAt { value, place, action_id }),
        Err(fault) => Err(fault),
    };
    assert(clips_value(host, world@, clips@, target, time, place, result));
    result
}

/// A request for the value of a field at a time.
#[derive(Debug)]
pub struct ValueAtParams {
    pub id: u64,
    /// Track-local time to evaluate at.
    pub time: Ticks,
    pub track: usize,
    pub entity: Option<u64>,
    pub entity_name: Option<String>,
    pub component: String,
    pub field: String,
}

/// Whether none of the first `n` keys of a track animates the field.
pub open spec fn none_animates(
    catalog: CatalogModel,
    actions: ActionModel,
    track: Track,
    entity: u64,
    component: Seq<char>,
    field: Seq<char>,
    n: int,
) -> bool {
    forall|i: int|
        0 <= i < n ==> !animates(
            catalog,
            actions,
            (#[trigger] track.spans()[i]).0,
            entity,
            component,
            field,
        )
}

/// Whether the value of a field of an entity on a track of a baked timeline
/// was found so.
pub open spec fn field_value<H: RemoteHost>(
    host: &H,
    studio: StudioModel,
    id: TimelineId,
    p: ValueAtParams,
    entity: u64,
    i: int,
    result: Result<ValueAt, Fault>,
) -> bool {
    let model = studio.timelines[id];
    let track = model.tracks[p.track as int];
    if !studio.timelines.contains_key(id) {
        result == Err::<ValueAt, Fault>(Fault::NoTimeline { id: id.raw })
    } else if p.track >= model.tracks.len() {
        result == Err::<ValueAt, Fault>(Fault::TrackOutOfRange)
    } else {
        &&& 0 <= i <= track.spans().len()
        &&& none_animates(
            studio.catalog,
            model.actions,
            track,
            entity,
            p.component@,
            p.field@,
            i,
        )
        &&& if i < track.spans().len() {
            &&& animates(
                studio.catalog,
                model.actions,
                track.spans()[i].0,
                entity,
                p.component@,
                p.field@,
            )
            &&& clips_give(
                host,
                model.actions,
                track.clips_in(track.spans()[i].1),
                target_of(studio.catalog, track.spans()[i].0),
                p.time,
                result,
            )
        } else {
            result == Err::<ValueAt, Fault>(
                Fault::NoClips { component: p.component, field: p.field, track: p.track },
            )
        }
    }
}

/// Whether the value of a field at a time was found so, by way of its entity
/// and the place of its key. The timeline is baked before.
pub open spec fn value_stepped<H: RemoteHost>(
    host: &H,
    p: ValueAtParams,
    before: StudioModel,
    entity: Result<u64, Fault>,
    i: int,
    after: StudioModel,
    result: Result<ValueAt, Fault>,
) -> bool {
    let id = TimelineId { raw: p.id };
    &&& entity_resolved(host, p.entity, p.entity_name, entity)
    &&& match entity {
        Err(fault) => result == Err::<ValueAt, Fault>(fault) && after == before,
        Ok(entity) => {
            &&& baked(host, id, before, after)
            &&& field_value(host, after, id, p, entity, i, result)
        },
    }
}

/// Whether the value of a field at a time was found so.
pub open spec fn value_answered<H: RemoteHost>(
    host: &H,
    p: ValueAtParams,
    before: StudioModel,
    after: StudioModel,
    result: Result<ValueAt, Fault>,
) -> bool {
    exists|entity: Result<u64, Fault>, i: int| #[trigger]
        value_stepped(host, p, before, entity, i, after, result)
}

/// Evaluate one field's baked curve at a time. Numeric fields only. Returns
/// the value plus where the time fell: before the first clip, inside one, in a
/// gap, or after the last.
pub fn value_at<H: RemoteHost>(host: &H, studio: &mut Studio, p: &ValueAtParams) -> (result: Result<
    ValueAt,
    Fault,
>)
    ensures
        value_answered(host, *p, old(studio)@, final(studio)@, result),
        stays_seekable(old(studio)@, final(studio)@),
{
    let ghost before = studio@;
    let id = TimelineId::from_raw(p.id);
    let resolved = resolve_subject_entity(host, p.entity, &p.entity_name);
    let ghost subject = resolved;
    let entity = match resolved {
        Ok(entity) => entity,
        Err(fault) => {
            assert(value_stepped(host, *p, before, subject, 0, studio@, Err(fault)));
            return Err(fault);
        },
    };
    // Segments must be fresh to read values out.
    studio.bake(host, &id);
    proof {
        baking_is_content(host, id, before, studio@);
        content_stays_seekable(id, before, studio@);
    }
    let timeline = match studio.manager.get_timeline(&id) {
        Some(timeline) => timeline,
        None => {
            let fault = Fault::NoTimeline { id: p.id };
            assert(value_stepped(host, *p, before, subject, 0, studio@, Err(fault)));
            return Err(fault);
        },
    };
    let tracks = timeline.tracks();
    if p.track >= tracks.len() {
        assert(value_stepped(
            host,
            *p,
            before,
            subject,
            0,
            studio@,
            Err(Fault::TrackOutOfRange),
        ));
        return Err(Fault::TrackOutOfRange);
    }
    let world = timeline.action_world();
    let track = &tracks[p.track];
    let spans = track.sequences_spans();
    // Find the (subject, field) sequence on this track.
    let mut i: usize = 0;
    while i < spans.len()
        invariant
            i <= spans@.len(),
            before == old(studio)@,
            baked(host, id, before, studio@),
            id == (TimelineId { raw: p.id }),
            entity_resolved(host, p.entity, p.entity_name, subject),
            subject == Ok::<u64, Fault>(entity),
            studio@.timelines.contains_key(id),
            p.track < studio@.timelines[id].tracks.len(),
            *track == studio@.timelines[id].tracks[p.track as int],
            world@ == studio@.timelines[id].actions,
            spans@ == track.spans(),
            track.laid_out(),
            none_animates(
                studio@.catalog,
                world@,
                *track,
                entity,
                p.component@,
                p.field@,
                i as int,
            ),
        decreases spans@.len() - i,
    {
        let (key, span) = spans[i];
        let entity_matches = match subject_entity(world, &key) {
            Some(bits) => bits == entity,
            None => false,
        };
        let entry = if entity_matches {
            studio.catalog.get_by_field(&key.field)
        } else {
            None
        };
        match entry {
            Some(entry) => if same_text(entry.component.as_str(), p.component.as_str())
                && same_text(entry.field_name.as_str(), p.field.as_str()) {
                let clips = track.clips(span);
                let target = entry.pipeline.target_id;
                let result = value_of_clips(host, world, clips, target, p.time);
                assert(value_stepped(host, *p, before, subject, i as int, studio@, result));
                return result;
            },
            None => {},
        }
        i += 1;
    }
    let fault = Fault::NoClips {
        component: p.component.clone(),
        field: p.field.clone(),
        track: p.track,
    };
    assert(value_stepped(host, *p, before, subject, i as int, studio@, Err(fault)));
    Err(fault)
}

/// A clip as it is shown.
#[derive(Debug)]
pub struct ClipInfo {
    pub action_id: u64,
    pub start: Ticks,
    pub duration: Ticks,
    /// Baked start value. `None` when unavailable (no catalog entry, not yet
    /// baked) or when values were not asked for.
    pub start_value: Option<Json>,
    /// Baked end value. Same availability as `start_value`.
    pub end_value: Option<Json>,
    /// `None` where the clip is not eased.
    pub ease: Option<EaseParam>,
    /// Present on keyframed clips.
    pub keyframes: Option<Vec<KeyframeDoc>>,
    pub label: Option<String>,
    pub color: Option<Color>,
    /// `Some(false)` when the clip is muted.
    pub enabled: Option<bool>,
}

/// One subject and field: the clips animating a single field of a single
/// subject, in start order.
#[derive(Debug)]
pub struct SequenceInfo {
    /// Raw entity bits. `None` for non-entity subjects.
    pub entity: Option<u64>,
    /// The entity's name, when it has one.
    pub entity_name: Option<String>,
    /// Component type path. `None` if the field is not in the catalog.
    pub component: Option<String>,
    /// Reflection field path. `None` if the field is not in the catalog.
    pub field: Option<String>,
    /// `Some(true)` when the subject entity no longer exists.
    pub dangling: Option<bool>,
    pub clips: Vec<ClipInfo>,
}

/// A track as it is shown.
#[derive(Debug)]
pub struct TrackInfo {
    pub index: usize,
    pub duration: Ticks,
    pub sequences: Vec<SequenceInfo>,
}

/// A timeline as it is shown.
#[derive(Debug)]
pub struct InspectResult {
    pub id: u64,
    pub version: u64,
    pub curr_track: usize,
    pub curr_time: Ticks,
    pub tracks: Vec<TrackInfo>,
}

/// The two values of a clip, if both are shown.
pub open spec fn shown_values(info: ClipInfo) -> Option<(Json, Json)> {
    match (info.start_value, info.end_value) {
        (Some(start), Some(end)) => Some((start, end)),
        _ => None,
    }
}

/// Whether a clip is shown so. `target` is the type of its values, if they
/// are to be shown and the catalog describes them.
pub open spec fn clip_shown<H: RemoteHost>(
    host: &H,
    studio: StudioModel,
    id: TimelineId,
    clip: ActionClip,
    target: Option<u64>,
    info: ClipInfo,
) -> bool {
    let actions = studio.timelines[id].actions;
    let meta = studio.edits_of(id).meta_of(clip.id.bits);
    &&& info.action_id == clip.id.bits
    &&& info.start == clip.start
    &&& info.duration == clip.duration
    &&& info.start_value is Some <==> info.end_value is Some
    &&& match target {
        Some(target) => {
            &&& segment_written(host, actions, clip.id, target, shown_values(info))
            &&& keyframes_written(host, actions, clip.id, target, docs_view(info.keyframes))
        },
        None => info.start_value is None && info.keyframes is None,
    }
    &&& is_optional_ease_param(
        if actions.has(clip.id) {
            actions.actions[clip.id].ease
        } else {
            None
        },
        info.ease,
    )
    &&& info.label == meta.label
    &&& info.color == meta.color
    &&& info.enabled == if actions.has(clip.id) && actions.actions[clip.id].disabled {
        Some(false)
    } else {
        None
    }
}

/// Shows a clip.
fn show_clip<H: RemoteHost>(
    host: &H,
    studio: &Studio,
    id: &TimelineId,
    world: &ActionWorld,
    clip: ActionClip,
    target: Option<u64>,
) -> (info: ClipInfo)
    requires
        world@ == studio@.timelines[*id].actions,
    ensures
        clip_shown(host, studio@, *id, clip, target, info),
{
    let (start_value, end_value) = match target {
        Some(target) => match write_segment(host, world, clip.id, target) {
            Some((start, end)) => (Some(start), Some(end)),
            None => (None, None),
        },
        None => (None, None),
    };
    let keyframes = match target {
        Some(target) => keyframe_docs(host, world, clip.id, target),
        None => None,
    };
    let meta = studio.state.meta_of(id, clip.id.to_bits());
    ClipInfo {
        action_id: clip.id.to_bits(),
        start: clip.start,
        duration: clip.duration,
        start_value,
        end_value,
        ease: write_ease(world.get_ease(clip.id)),
        keyframes,
        label: meta.label,
        color: meta.color,
        enabled: if world.is_disabled(clip.id) {
            Some(false)
        } else {
            None
        },
    }
}

/// The type of the values of a key, if they are to be shown and the catalog
/// describes them.
pub open spec fn shown_target(catalog: CatalogModel, key: ActionKey, values: bool) -> Option<u64> {
    match catalog.entry_of(key.field) {
        Some(entry) => if values {
            Some(entry.pipeline.target_id)
        } else {
            None
        },
        None => None,
    }
}

/// Whether the clips of a sequence are shown so.
pub open spec fn clips_shown<H: RemoteHost>(
    host: &H,
    studio: StudioModel,
    id: TimelineId,
    clips: Seq<ActionClip>,
    target: Option<u64>,
    infos: Seq<ClipInfo>,
) -> bool {
    &&& infos.len() == clips.len()
    &&& forall|i: int|
        0 <= i < infos.len() ==> clip_shown(host, studio, id, clips[i], target, #[trigger] infos[i])
}

/// Whether the clips of a key are shown so.
pub open spec fn sequence_shown<H: RemoteHost>(
    host: &H,
    studio: StudioModel,
    id: TimelineId,
    key: ActionKey,
    clips: Seq<ActionClip>,
    values: bool,
    info: SequenceInfo,
) -> bool {
    let model = studio.timelines[id];
    &&& info.entity == entity_of(model.actions, key)
    &&& match info.entity {
        Some(entity) => is_called(host, entity, info.entity_name),
        None => info.entity_name is None,
    }
    &&& match studio.catalog.entry_of(key.field) {
        Some(entry) => {
            &&& info.component == Some(entry.component)
            &&& info.field == Some(entry.field_name)
        },
        None => info.component is None && info.field is None,
    }
    &&& info.dangling is None || info.dangling == Some(true)
    &&& key_dangles(host, model, key, info.dangling is Some)
    &&& clips_shown(
        host,
        studio,
        id,
        clips,
        shown_target(studio.catalog, key, values),
        info.clips@,
    )
}

/// Shows the clips of a key.
fn show_sequence<H: RemoteHost>(
    host: &H,
    studio: &Studio,
    id: &TimelineId,
    world: &ActionWorld,
    key: &ActionKey,
    clips: &[ActionClip],
    values: bool,
) -> (info: SequenceInfo)
    requires
        world@ == studio@.timelines[*id].actions,
    ensures
        sequence_shown(host, studio@, *id, *key, clips@, values, info),
{
    let entity = subject_entity(world, key);
    let (entity_name, dangling) = match entity {
        Some(entity) => {
            let name = host.name_of(entity);
            assert(is_called(host, entity, name));
            let known = host.entity_exists(entity);
            assert(entity_is(host, entity, known));
            (
                name,
                if known {
                    None
                } else {
                    Some(true)
                },
            )
        },
        None => (None, None),
    };
    let entry = studio.catalog.get_by_field(&key.field);
    let (component, field, target) = match entry {
        Some(entry) => (
            Some(entry.component.clone()),
            Some(entry.field_name.clone()),
            if values {
                Some(entry.pipeline.target_id)
            } else {
                None
            },
        ),
        None => (None, None, None),
    };
    let mut infos: Vec<ClipInfo> = Vec::new();
    let mut i: usize = 0;
    while i < clips.len()
        invariant
            i <= clips@.len(),
            world@ == studio@.timelines[*id].actions,
            infos@.len() == i,
            forall|j: int|
                0 <= j < infos@.len() ==> clip_shown(
                    host,
                    studio@,
                    *id,
                    clips@[j],
                    target,
                    #[trigger] infos@[j],
                ),
        decreases clips@.len() - i,
    {
        let info = show_clip(host, studio, id, world, clips[i], target);
        infos.push(info);
        i += 1;
    }
    assert(clips_shown(host, studio@, *id, clips@, target, infos@));
    SequenceInfo { entity, entity_name, component, field, dangling, clips: infos }
}

/// Whether the first of the sequences of a track are shown so.
pub open spec fn sequences_shown<H: RemoteHost>(
    host: &H,
    studio: StudioModel,
    id: TimelineId,
    track: Track,
    values: bool,
    infos: Seq<SequenceInfo>,
) -> bool {
    &&& infos.len() <= track.spans().len()
    &&& forall|i: int|
        0 <= i < infos.len() ==> sequence_shown(
            host,
            studio,
            id,
            track.spans()[i].0,
            track.clips_in(track.spans()[i].1),
            values,
            #[trigger] infos[i],
        )
}

/// Whether a track is shown so.
pub open spec fn track_shown<H: RemoteHost>(
    host: &H,
    studio: StudioModel,
    id: TimelineId,
    index: int,
    values: bool,
    info: TrackInfo,
) -> bool {
    let track = studio.timelines[id].tracks[index];
    &&& info.index == index
    &&& info.duration == track.duration()
    &&& info.sequences@.len() == track.spans().len()
    &&& sequences_shown(host, studio, id, track, values, info.sequences@)
}

/// Shows a track.
fn show_track<H: RemoteHost>(
    host: &H,
    studio: &Studio,
    id: &TimelineId,
    timeline: &BevyTimeline,
    index: usize,
    values: bool,
) -> (info: TrackInfo)
    requires
        timeline@ == studio@.timelines[*id],
        index < timeline@.tracks.len(),
    ensures
        track_shown(host, studio@, *id, index as int, values, info),
{
    let world = timeline.action_world();
    let tracks = timeline.tracks();
    let track = &tracks[index];
    let spans = track.sequences_spans();
    let mut sequences: Vec<SequenceInfo> = Vec::new();
    let mut i: usize = 0;
    while i < spans.len()
        invariant
            i <= spans@.len(),
            timeline@ == studio@.timelines[*id],
            world@ == timeline@.actions,
            spans@ == track.spans(),
            track.laid_out(),
            sequences@.len() == i,
            sequences_shown(host, studio@, *id, *track, values, sequences@),
        decreases spans@.len() - i,
    {
        let (key, span) = spans[i];
        let clips = track.clips(span);
        let info = show_sequence(host, studio, id, world, &key, clips, values);
        sequences.push(info);
        i += 1;
    }
    TrackInfo { index, duration: track.duration(), sequences }
}

/// Whether the first of the tracks of a timeline are shown so.
pub open spec fn tracks_shown<H: RemoteHost>(
    host: &H,
    studio: StudioModel,
    id: TimelineId,
    values: bool,
    infos: Seq<TrackInfo>,
) -> bool {
    &&& infos.len() <= studio.timelines[id].tracks.len()
    &&& forall|i: int|
        0 <= i < infos.len() ==> track_shown(host, studio, id, i, values, #[trigger] infos[i])
}

/// Shows the tracks of a timeline.
pub fn collect_tracks<H: RemoteHost>(
    host: &H,
    studio: &Studio,
    id: &TimelineId,
    timeline: &BevyTimeline,
    values: bool,
) -> (infos: Vec<TrackInfo>)
    requires
        timeline@ == studio@.timelines[*id],
    ensures
        infos@.len() == timeline@.tracks.len(),
        tracks_shown(host, studio@, *id, values, infos@),
{
    let count = timeline.track_count();
    let mut infos: Vec<TrackInfo> = Vec::new();
    let mut i: usize = 0;
    while i < count
        invariant
            i <= count,
            count == timeline@.tracks.len(),
            timeline@ == studio@.timelines[*id],
            infos@.len() == i,
            tracks_shown(host, studio@, *id, values, infos@),
        decreases count - i,
    {
        let info = show_track(host, studio, id, timeline, i, values);
        infos.push(info);
        i += 1;
    }
    infos
}

/// The full clip graph of one timeline.
pub fn timeline_inspect<H: RemoteHost>(host: &H, studio: &Studio, id: u64, values: bool) -> (result:
    Result<InspectResult, Fault>)
    ensures
        inspected(host, studio@, TimelineId { raw: id }, values, result),
{
    let tid = TimelineId::from_raw(id);
    let timeline = match studio.manager.get_timeline(&tid) {
        Some(timeline) => timeline,
        None => {
            return Err(Fault::NoTimeline { id });
        },
    };
    let tracks = collect_tracks(host, studio, &tid, timeline, values);
    Ok(
        InspectResult {
            id,
            version: studio.state.version(&tid),
            curr_track: timeline.curr_index(),
            curr_time: timeline.curr_time(),
            tracks,
        },
    )
}

/// Whether a timeline is shown so.
pub open spec fn inspected<H: RemoteHost>(
    host: &H,
    studio: StudioModel,
    id: TimelineId,
    values: bool,
    result: Result<InspectResult, Fault>,
) -> bool {
    if !studio.timelines.contains_key(id) {
        result == Err::<InspectResult, Fault>(Fault::NoTimeline { id: id.raw })
    } else {
        let model = studio.timelines[id];
        &&& result matches Ok(shown)
        &&& shown.id == id.raw
        &&& shown.version == studio.edits_of(id).version
        &&& shown.curr_track == model.curr_index
        &&& shown.curr_time == model.curr_time
        &&& shown.tracks@.len() == model.tracks.len()
        &&& tracks_shown(host, studio, id, values, shown.tracks@)
    }
}

} // verus!
