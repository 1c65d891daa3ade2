//! That what is told of a field is what plays.
use crate::action::world::ActionModel;
use crate::action::{keyframes_valid, ActionClip, InterpFn, Keyframe, SampleMode, Value};
use crate::bevy_motiongfx::remote::batch::op::KeyframeDoc;
use crate::bevy_motiongfx::remote::batch::value::{is_keyframe_doc, keyframes_written, points_of};
use crate::bevy_motiongfx::remote::host::{blends, encodes, RemoteHost};
use crate::bevy_motiongfx::remote::inspect::{
    are_numbered, clip_phase, clips_value, end_number, holds_number, inside_number, inside_stepped,
    keyframes_number, numbers_give, Place, ValueAt,
};
use crate::bevy_motiongfx::remote::json::{Json, Number};
use crate::pipeline::sample_laws::{before_point, eases, is_local, local_phases_are_parts};
use crate::pipeline::{
    eased_to, is_next_point, keyframes_give, local_phase, reached, samples_to, time_before,
    value_before,
};
use crate::seqs::ascending;
use crate::sequence::{clips_are_in_order, forward_only, non_overlapping};
use crate::time::laws::{clamping_is_nearest, is_part, phases_are_parts};
use crate::time::{phase_at, Phase, Ticks, PHASE_ONE, TICKS_EPSILON};
use crate::timeline::pick_laws::shows_at;
use vstd::prelude::*;

verus! {

/// Whether a number lies on the way from a number at a time to a point: a point that
/// holds keeps what was there, and else it is blended from there to the number of the
/// point. There is none where one of the two is not a number.
pub open spec fn number_led<H: RemoteHost>(
    host: &H,
    from: Option<Number>,
    since: Phase,
    to: Keyframe<Option<Number>>,
    t: Option<Phase>,
    result: Option<Number>,
) -> bool {
    match from {
        None => result is None,
        Some(from) => if to.hold {
            result == Some(from)
        } else {
            exists|local: Option<Phase>, eased: Option<Phase>|
                {
                    &&& #[trigger] eases(host, to.ease, local, eased)
                    &&& is_local(local, t, since, to.t)
                    &&& match to.value {
                        None => result is None,
                        Some(end) => result is Some && call_ensures(
                            H::blend,
                            (host, from, end, eased),
                            result->0,
                        ),
                    }
                }
        },
    }
}

/// The number that is told of keyframes leads from point to point: before the first
/// point from where the clip starts, between two points from the one to the other, and
/// behind the last point it is that of that one.
pub proof fn told_keyframes_lead_from_point_to_point<H: RemoteHost>(
    host: &H,
    points: Seq<Keyframe<Option<Number>>>,
    start: Number,
    t: Option<Phase>,
    result: Option<Number>,
)
    requires
        keyframes_valid(points),
        keyframes_number(host, points, start, t, result),
    ensures
        before_point(t, points[0].t) ==> number_led(host, Some(start), 0, points[0], t, result),
        forall|i: int|
            0 < i < points.len() && t is Some && points[i - 1].t <= t->0 && before_point(
                t,
                (#[trigger] points[i]).t,
            ) ==> number_led(
                host,
                points[i - 1].value,
                points[i - 1].t,
                points[i],
                t,
                result,
            ),
        t is Some && points[points.len() - 1].t <= t->0 ==> result == points[points.len()
            - 1].value,
{
    let next = choose|next: int| #[trigger]
        is_next_point(points, t, next) && numbers_give(host, points, start, t, next, result);
    let key = |point: Keyframe<Option<Number>>| point.t as int;
    assert(ascending(points, key));
    assert forall|i: int| 0 <= i < points.len() implies (reached((#[trigger] points[i]).t, t)
        <==> i < next) by {
        if i > next {
            assert(key(points[next]) <= key(points[i]));
        }
    }
    if next < points.len() {
        let since = if next > 0 {
            points[next - 1].t
        } else {
            0
        };
        let from = if next > 0 {
            points[next - 1].value
        } else {
            Some(start)
        };
        assert(0 <= points[next].t <= PHASE_ONE);
        if next > 0 {
            assert(reached(points[next - 1].t, t));
            assert(key(points[next - 1]) <= key(points[next]));
        }
        assert(!reached(points[next].t, t));
        let local = local_phase(t, since, points[next].t);
        local_phases_are_parts(t, since, points[next].t);
        assert(number_led(host, from, since, points[next], t, result)) by {
            if from is Some && !points[next].hold {
                let eased = choose|eased: Option<Phase>|
                    {
                        &&& #[trigger] eased_to(host, points[next].ease, local, eased)
                        &&& match points[next].value {
                            None => result is None,
                            Some(to) => result matches Some(number) && blends(
                                host,
                                from->0,
                                to,
                                eased,
                                number,
                            ),
                        }
                    };
                assert(eases(host, points[next].ease, local, eased));
            }
        }
    }
    assert(before_point(t, points[0].t) ==> next == 0);
    assert forall|i: int|
        0 < i < points.len() && t is Some && points[i - 1].t <= t->0 && before_point(
            t,
            (#[trigger] points[i]).t,
        ) implies number_led(
        host,
        points[i - 1].value,
        points[i - 1].t,
        points[i],
        t,
        result,
    ) by {
        assert(reached(points[i - 1].t, t));
        assert(!reached(points[i].t, t));
        assert(next == i);
    }
    if t is Some && points[points.len() - 1].t <= t->0 {
        assert(reached(points[points.len() - 1].t, t));
        assert(next == points.len());
    }
}

/// Whether a value can be written as a number.
pub open spec fn is_number_of<H: RemoteHost>(host: &H, value: Value, number: Number) -> bool {
    exists|json: Json| #[trigger]
        encodes(host, value, Some(json)) && json == Json::Number(number)
}

/// Whether an application blends numbers as it interpolates the values that they are of.
pub open spec fn blends_as_it_plays<H: RemoteHost>(host: &H, interp: InterpFn) -> bool {
    forall|a: Value, b: Value, x: Number, y: Number, t: Option<Phase>, told: Number|
        #![trigger is_number_of(host, a, x), is_number_of(host, b, y), call_ensures(H::blend, (host, x, y, t), told)]
        is_number_of(host, a, x) && is_number_of(host, b, y) && call_ensures(
            H::blend,
            (host, x, y, t),
            told,
        ) ==> plays_number(host, interp, a, b, t, told)
}

/// Whether a value between two values can be played that is written as a number.
pub open spec fn plays_number<H: RemoteHost>(
    host: &H,
    interp: InterpFn,
    a: Value,
    b: Value,
    t: Option<Phase>,
    told: Number,
) -> bool {
    exists|value: Value| #[trigger]
        is_number_of(host, value, told) && call_ensures(H::interp, (host, interp, a, b, t), value)
}

/// Whether points are those of values in numbers.
pub open spec fn numbers_of_points<H: RemoteHost>(
    host: &H,
    points: Seq<Keyframe<Value>>,
    numbered: Seq<Keyframe<Option<Number>>>,
) -> bool {
    &&& numbered.len() == points.len()
    &&& forall|i: int|
        0 <= i < points.len() ==> {
            &&& (#[trigger] numbered[i]).t == points[i].t
            &&& numbered[i].ease == points[i].ease
            &&& numbered[i].hold == points[i].hold
            &&& numbered[i].value matches Some(number) ==> is_number_of(
                host,
                points[i].value,
                number,
            )
        }
}

/// The number that is told of keyframes at a part of a clip is that of a value that
/// playing gives at that part.
pub proof fn told_keyframes_play<H: RemoteHost>(
    host: &H,
    points: Seq<Keyframe<Value>>,
    numbered: Seq<Keyframe<Option<Number>>>,
    start: Value,
    from: Number,
    interp: InterpFn,
    t: Option<Phase>,
    told: Number,
) -> (played: (int, Value))
    requires
        points.len() > 0,
        blends_as_it_plays(host, interp),
        numbers_of_points(host, points, numbered),
        is_number_of(host, start, from),
        keyframes_number(host, numbered, from, t, Some(told)),
    ensures
        is_next_point(points, t, played.0),
        keyframes_give(host, points, start, interp, t, played.0, played.1),
        is_number_of(host, played.1, told),
{
    let next = choose|next: int| #[trigger]
        is_next_point(numbered, t, next) && numbers_give(
            host,
            numbered,
            from,
            t,
            next,
            Some(told),
        );
    assert forall|i: int| 0 <= i < next implies reached((#[trigger] points[i]).t, t) by {
        assert(reached(numbered[i].t, t));
    }
    if next >= points.len() {
        assert(numbered[points.len() - 1] == numbered.last());
        assert(points[points.len() - 1] == points.last());
        (next, points.last().value)
    } else {
        assert(numbered[next].t == points[next].t);
        if next > 0 {
            assert(numbered[next - 1].t == points[next - 1].t);
        }
        let since = time_before(points, next);
        assert(since == time_before(numbered, next));
        let first = value_before(points, start, next);
        let x = if next > 0 {
            numbered[next - 1].value->0
        } else {
            from
        };
        assert(is_number_of(host, first, x));
        if points[next].hold {
            (next, first)
        } else {
            let local = local_phase(t, since, points[next].t);
            let eased = choose|eased: Option<Phase>|
                {
                    &&& #[trigger] eased_to(host, points[next].ease, local, eased)
                    &&& numbered[next].value matches Some(to) && blends(host, x, to, eased, told)
                };
            let y = numbered[next].value->0;
            assert(is_number_of(host, points[next].value, y));
            assert(call_ensures(H::blend, (host, x, y, eased), told));
            assert(plays_number(host, interp, first, points[next].value, eased, told));
            let value = choose|value: Value| #[trigger]
                is_number_of(host, value, told) && call_ensures(
                    H::interp,
                    (host, interp, first, points[next].value, eased),
                    value,
                );
            (next, value)
        }
    }
}

/// Whether the clips of a lane can be told: each has an extent and ends inside the range
/// of times, and its action is baked with values of a type, a muted one at rest.
pub open spec fn tellable(actions: ActionModel, clips: Seq<ActionClip>, target: u64) -> bool {
    &&& non_overlapping(clips)
    &&& forall|i: int|
        0 <= i < clips.len() ==> clip_tellable(actions, #[trigger] clips[i], target)
}

/// Whether a clip can be told.
pub open spec fn clip_tellable(actions: ActionModel, clip: ActionClip, target: u64) -> bool {
    let record = actions.actions[clip.id];
    &&& clip.duration > TICKS_EPSILON
    &&& clip.start + clip.duration <= i64::MAX
    &&& actions.has(clip.id)
    &&& record.target_type == target
    &&& record.segment is Some
    &&& record.disabled ==> record.segment->0.start == record.segment->0.end
    &&& record.keyframes matches Some(keyframes) ==> keyframes_valid(keyframes@)
}

/// Whether the clip at `i` shows a lane at a time with a mark for which it can be
/// sampled to a value that is written as a number.
pub open spec fn plays_told<H: RemoteHost>(
    host: &H,
    actions: ActionModel,
    clips: Seq<ActionClip>,
    time: Ticks,
    interp: InterpFn,
    i: int,
    mode: SampleMode,
    value: Value,
    told: Number,
) -> bool {
    let record = actions.actions[clips[i].id];
    &&& shows_at(clips, time, i, mode)
    &&& samples_to(host, record, record.segment->0, mode, interp, value)
    &&& is_number_of(host, value, told)
}

/// How much of a clip has passed is what playing marks.
proof fn told_phase_is_part(clip: ActionClip, time: Ticks)
    requires
        clip.duration > TICKS_EPSILON,
        clip.start + clip.duration <= i64::MAX,
        clip.start <= time <= clip.end(),
    ensures
        is_part(clip_phase(clip, time), time - clip.start, clip.end() - clip.start),
{
    let elapsed = time - clip.start;
    phases_are_parts(elapsed, clip.duration as int, elapsed);
    clamping_is_nearest(phase_at(elapsed, clip.duration as int)->0);
}

/// The end of a clip that is told is that of its segment.
proof fn told_end_is_of_segment<H: RemoteHost>(
    host: &H,
    actions: ActionModel,
    clip: ActionClip,
    target: u64,
    at_end: bool,
    told: Number,
)
    requires
        clip_tellable(actions, clip, target),
        holds_number(host, actions, clip.id, target, at_end, Ok(told)),
    ensures
        is_number_of(
            host,
            if at_end {
                actions.actions[clip.id].segment->0.end
            } else {
                actions.actions[clip.id].segment->0.start
            },
            told,
        ),
{
    let written = choose|written: Option<(Json, Json)>| #[trigger]
        end_number(host, actions, clip.id, target, written, at_end, Ok(told));
    let (start, end) = written->0;
    let segment = actions.actions[clip.id].segment->0;
    assert(encodes(host, segment.start, Some(start)));
    assert(encodes(host, segment.end, Some(end)));
}

/// What is told inside of a clip is what playing it gives.
proof fn told_inside_plays<H: RemoteHost>(
    host: &H,
    actions: ActionModel,
    clip: ActionClip,
    target: u64,
    time: Ticks,
    interp: InterpFn,
    told: Number,
) -> (value: Value)
    requires
        blends_as_it_plays(host, interp),
        clip_tellable(actions, clip, target),
        forall|value: Value| !#[trigger] encodes(host, value, None),
        inside_number(host, actions, clip, target, time, Ok(told)),
    ensures
        samples_to(
            host,
            actions.actions[clip.id],
            actions.actions[clip.id].segment->0,
            SampleMode::Interp(clip_phase(clip, time)),
            interp,
            value,
        ),
        is_number_of(host, value, told),
{
    let record = actions.actions[clip.id];
    let segment = record.segment->0;
    let (written, eased, points) = choose|
        written: Option<(Json, Json)>,
        eased: Option<Phase>,
        points: Option<Seq<Keyframe<Option<Number>>>>,
    | #[trigger]
        inside_stepped(host, actions, clip, target, time, written, eased, points, Ok(told));
    let (start, end) = written->0;
    assert(encodes(host, segment.start, Some(start)));
    assert(encodes(host, segment.end, Some(end)));
    let from = start.number()->0;
    assert(is_number_of(host, segment.start, from));
    if record.disabled {
        segment.start
    } else {
        let t = clip_phase(clip, time);
        assert(eased_to(host, record.ease, t, eased));
        match record.keyframes {
            Some(storage) => {
                assert(points_of(actions, clip.id, target) == Some(storage@));
                let numbered = points->0;
                let docs = choose|docs: Seq<KeyframeDoc>|
                    {
                        &&& #[trigger] keyframes_written(host, actions, clip.id, target, Some(docs))
                        &&& are_numbered(storage@, docs, numbered)
                    };
                assert forall|i: int| 0 <= i < storage@.len() implies {
                    &&& (#[trigger] numbered[i]).t == storage@[i].t
                    &&& numbered[i].ease == storage@[i].ease
                    &&& numbered[i].hold == storage@[i].hold
                    &&& numbered[i].value matches Some(number) ==> is_number_of(
                        host,
                        storage@[i].value,
                        number,
                    )
                } by {
                    assert(is_keyframe_doc(host, storage@[i], docs[i]));
                    assert(encodes(host, storage@[i].value, Some(docs[i].value)));
                }
                let (next, value) = told_keyframes_play(
                    host,
                    storage@,
                    numbered,
                    segment.start,
                    from,
                    interp,
                    eased,
                    told,
                );
                assert(is_next_point(storage@, eased, next));
                value
            },
            None => {
                assert(points is None);
                let to = end.number()->0;
                assert(is_number_of(host, segment.end, to));
                assert(call_ensures(H::blend, (host, from, to, eased), told));
                assert(plays_number(host, interp, segment.start, segment.end, eased, told));
                choose|value: Value| #[trigger]
                    is_number_of(host, value, told) && call_ensures(
                        H::interp,
                        (host, interp, segment.start, segment.end, eased),
                        value,
                    )
            },
        }
    }
}

/// The value that is told of a field at a time agrees with playing: it is the number of
/// what a clip of the lane gives for the mark that shows the lane at that time. This is
/// for applications that write every value and blend numbers as they interpolate.
pub proof fn told_values_play<H: RemoteHost>(
    host: &H,
    actions: ActionModel,
    clips: Seq<ActionClip>,
    target: u64,
    time: Ticks,
    place: Place,
    interp: InterpFn,
    found: ValueAt,
)
    requires
        clips.len() > 0,
        clips.len() <= usize::MAX,
        tellable(actions, clips, target),
        blends_as_it_plays(host, interp),
        forall|value: Value| !#[trigger] encodes(host, value, None),
        clips_value(host, actions, clips, target, time, place, Ok(found)),
    ensures
        exists|i: int, mode: SampleMode, value: Value| #[trigger]
            plays_told(host, actions, clips, time, interp, i, mode, value, found.value),
        found.action_id matches Some(bits) ==> exists|i: int|
            0 <= i < clips.len() && (#[trigger] clips[i]).id.bits == bits && clips[i].start <= time
                <= clips[i].end(),
        found.action_id is None ==> forall|i: int|
            0 <= i < clips.len() ==> !((#[trigger] clips[i]).start <= time <= clips[i].end()),
{
    assert(forward_only(clips)) by {
        assert forall|i: int| 0 <= i < clips.len() implies (#[trigger] clips[i]).duration >= 0 by {
            assert(clip_tellable(actions, clips[i], target));
        }
    }
    assert forall|i: int, j: int| 0 <= i < j < clips.len() implies (#[trigger] clips[i]).end() <= (
    #[trigger] clips[j]).start by {
        clips_are_in_order(clips, i, j);
    }
    let n = clips.len() as int;
    assert(clip_tellable(actions, clips[0], target));
    match place {
        Place::Before => {
            told_end_is_of_segment(host, actions, clips[0], target, false, found.value);
            let record = actions.actions[clips[0].id];
            assert(plays_told(
                host,
                actions,
                clips,
                time,
                interp,
                0,
                SampleMode::Start,
                record.segment->0.start,
                found.value,
            ));
            assert forall|i: int| 0 <= i < n implies !((#[trigger] clips[i]).start <= time
                <= clips[i].end()) by {
                assert(clip_tellable(actions, clips[i], target));
                if i > 0 {
                    assert(clips[0].end() <= clips[i].start);
                }
            }
        },
        Place::Gap(k) => {
            let i = k as int;
            assert(clip_tellable(actions, clips[i], target));
            told_end_is_of_segment(host, actions, clips[i], target, true, found.value);
            let record = actions.actions[clips[i].id];
            assert(clips[i].end() < time);
            assert(plays_told(
                host,
                actions,
                clips,
                time,
                interp,
                i,
                SampleMode::End,
                record.segment->0.end,
                found.value,
            ));
            assert forall|j: int| 0 <= j < n implies !((#[trigger] clips[j]).start <= time
                <= clips[j].end()) by {
                assert(clip_tellable(actions, clips[j], target));
                assert(clip_tellable(actions, clips[i + 1], target));
                if j <= i {
                    assert(clips[j].end() < time);
                } else if j > i + 1 {
                    assert(clips[i + 1].end() <= clips[j].start);
                }
            }
        },
        Place::After => {
            let i = n - 1;
            assert(clips[i] == clips.last());
            assert(clip_tellable(actions, clips[i], target));
            told_end_is_of_segment(host, actions, clips[i], target, true, found.value);
            let record = actions.actions[clips[i].id];
            assert(clips[i].end() < time);
            assert(plays_told(
                host,
                actions,
                clips,
                time,
                interp,
                i,
                SampleMode::End,
                record.segment->0.end,
                found.value,
            ));
        },
        Place::Inside(k) => {
            let i = k as int;
            assert(clip_tellable(actions, clips[i], target));
            told_phase_is_part(clips[i], time);
            let value = told_inside_plays(
                host,
                actions,
                clips[i],
                target,
                time,
                interp,
                found.value,
            );
            assert(plays_told(
                host,
                actions,
                clips,
                time,
                interp,
                i,
                SampleMode::Interp(clip_phase(clips[i], time)),
                value,
                found.value,
            ));
        },
    }
}

} // verus!
