//! Timelines that differ in the id of one action.
use crate::action::world::ActionModel;
use crate::action::{ActionClip, ActionId, ActionKey, ActionRecord};
use crate::pipeline::bake_laws::{
    baselines_typed, clips_differ, deeds_alike, finds_all, ids_differ, settled_alike,
};
use crate::pipeline::laws::act_alike;
use crate::pipeline::{
    is_sample, pipeline_sampled, restored_by, restoring, sampled_by, writes_match, PipelineKey,
    Range, Write,
};
use crate::registry::Registry;
use crate::sequence::{forward_only, non_overlapping};
use crate::subject::UntypedField;
use crate::time::Ticks;
use crate::timeline::bake_laws::{baked_over, is_lane_key, lanes_differ, served, timelines_settle};
use crate::timeline::play::{pipeline_in_use, timeline_baked};
use crate::timeline::queue::{are_picks, arrived, is_pick, is_place, moved_range, pick};
use crate::timeline::queue_laws::{
    arrival, arrival_mark, arriving_marks, jumped, keyed, lane_keyed, passed, pick_is_of_clip,
    picked_of, track_keyed, Picked,
};
use crate::timeline::TimelineModel;
use crate::track::{Span, Track};
use crate::world::SubjectSource;
use vstd::prelude::*;

verus! {

/// An id, with one in place of another.
pub open spec fn relabel(id: ActionId, from: ActionId, to: ActionId) -> ActionId {
    if id == from {
        to
    } else {
        id
    }
}

/// Clips, with one id in place of another.
pub open spec fn relabel_clips(clips: Seq<ActionClip>, from: ActionId, to: ActionId) -> Seq<
    ActionClip,
> {
    clips.map_values(|clip: ActionClip| ActionClip { id: relabel(clip.id, from, to), ..clip })
}

/// A pick, with one id in place of another.
pub open spec fn relabel_pick(picked: Picked, from: ActionId, to: ActionId) -> Picked {
    match picked {
        Some((id, mode)) => Some((relabel(id, from, to), mode)),
        None => None,
    }
}

/// Whether two records describe the same action: all is equal but marks and baked
/// segments, and keyframes have equal points.
pub open spec fn record_alike(a: ActionRecord, b: ActionRecord) -> bool {
    &&& a == (ActionRecord { keyframes: a.keyframes, segment: a.segment, mark: a.mark, ..b })
    &&& match (a.keyframes, b.keyframes) {
        (Some(x), Some(y)) => x@ == y@,
        (None, None) => true,
        _ => false,
    }
}

/// Whether every clip is of an action of its lane, whose values are of the type of
/// the field, and lanes have clips.
pub open spec fn clips_owned(model: TimelineModel) -> bool {
    forall|t: int, key: ActionKey|
        0 <= t < model.tracks.len() && #[trigger] model.tracks[t].lanes().contains_key(key)
            ==> lane_owned(model.actions, key, model.tracks[t].lanes()[key])
}

/// Whether clips are of actions of a key.
pub open spec fn lane_owned(actions: ActionModel, key: ActionKey, clips: Seq<ActionClip>) -> bool {
    &&& clips.len() > 0
    &&& forall|i: int|
        0 <= i < clips.len() ==> {
            &&& actions.has((#[trigger] clips[i]).id)
            &&& actions.actions[clips[i].id].key == key
            &&& actions.actions[clips[i].id].target_type == key.field.target_id
        }
}

/// Whether the lanes of one timeline are those of another one, with one id in place
/// of another.
pub open spec fn lanes_relabelled(
    x: Seq<Track>,
    y: Seq<Track>,
    from: ActionId,
    to: ActionId,
) -> bool {
    &&& x.len() == y.len()
    &&& forall|t: int, key: ActionKey|
        #![trigger x[t].lanes().contains_key(key)]
        #![trigger y[t].lanes().contains_key(key)]
        0 <= t < x.len() ==> {
            &&& x[t].lanes().contains_key(key) <==> y[t].lanes().contains_key(key)
            &&& x[t].lanes().contains_key(key) ==> y[t].lanes()[key] == relabel_clips(
                x[t].lanes()[key],
                from,
                to,
            )
        }
}

/// Whether one timeline is another one with another id for an action: the same
/// lanes of the same clips, the same actions but for what is baked and marked, the
/// same subjects under the same ids, and the same baselines and counts.
pub open spec fn relabelled(x: TimelineModel, y: TimelineModel, from: ActionId, to: ActionId) -> bool {
    &&& lanes_relabelled(x.tracks, y.tracks, from, to)
    &&& x.actions.has(from)
    &&& to == from || !x.actions.has(to)
    &&& y.actions.actions.dom() == x.actions.actions.dom().remove(from).insert(to)
    &&& forall|id: ActionId| #[trigger]
        x.actions.has(id) ==> record_alike(
            x.actions.actions[id],
            y.actions.actions[relabel(id, from, to)],
        )
    &&& y.actions.subjects == x.actions.subjects
    &&& y.actions.known == x.actions.known
    &&& y.actions.baselines == x.actions.baselines
    &&& y.counts == x.counts
}

/// Whether the playheads of two timelines are at the same place on tracks that last
/// as long.
pub open spec fn same_playhead(x: TimelineModel, y: TimelineModel) -> bool {
    &&& y.curr_time == x.curr_time
    &&& y.target_time == x.target_time
    &&& y.curr_index == x.curr_index
    &&& y.target_index == x.target_index
    &&& forall|t: int|
        0 <= t < x.tracks.len() ==> (#[trigger] y.tracks[t]).duration() == x.tracks[t].duration()
}

/// A relabelled timeline has lanes that differ where the other one has.
proof fn relabelled_differ(x: TimelineModel, y: TimelineModel, from: ActionId, to: ActionId)
    requires
        relabelled(x, y, from, to),
        clips_owned(x),
        lanes_differ(x.tracks),
        forall|t: int| 0 <= t < y.tracks.len() ==> (#[trigger] y.tracks[t]).laid_out(),
    ensures
        lanes_differ(y.tracks),
{
    assert forall|t: int, key: ActionKey, u: int, other: ActionKey, i: int, j: int|
        {
            &&& 0 <= t < y.tracks.len()
            &&& 0 <= u < y.tracks.len()
            &&& #[trigger] y.tracks[t].lanes().contains_key(key)
            &&& #[trigger] y.tracks[u].lanes().contains_key(other)
            &&& 0 <= i < y.tracks[t].lanes()[key].len()
            &&& 0 <= j < y.tracks[u].lanes()[other].len()
            &&& (#[trigger] y.tracks[t].lanes()[key][i]).id == (
            #[trigger] y.tracks[u].lanes()[other][j]).id
        } implies x.tracks[t].lanes()[key][i].id == x.tracks[u].lanes()[other][j].id by {
        assert(x.tracks[t].lanes().contains_key(key));
        assert(x.tracks[u].lanes().contains_key(other));
        assert(lane_owned(x.actions, key, x.tracks[t].lanes()[key]));
        assert(lane_owned(x.actions, other, x.tracks[u].lanes()[other]));
        assert(x.actions.has(x.tracks[t].lanes()[key][i].id));
        assert(x.actions.has(x.tracks[u].lanes()[other][j].id));
    }
    assert forall|t: int, key: ActionKey|
        0 <= t < y.tracks.len() && #[trigger] y.tracks[t].lanes().contains_key(
            key,
        ) implies ids_differ(y.tracks[t].lanes()[key]) by {
        let clips = y.tracks[t].lanes()[key];
        let own = x.tracks[t].lanes()[key];
        assert(x.tracks[t].lanes().contains_key(key));
        assert forall|i: int, j: int| 0 <= i < j < clips.len() implies (#[trigger] clips[i]).id != (
        #[trigger] clips[j]).id by {
            assert(own[i].id != own[j].id);
            assert(y.tracks[t].lanes()[key][i] == clips[i]);
            assert(y.tracks[t].lanes()[key][j] == clips[j]);
        }
    }
    assert forall|t: int, key: ActionKey, u: int, other: ActionKey|
        {
            &&& 0 <= t < y.tracks.len()
            &&& 0 <= u < y.tracks.len()
            &&& #[trigger] y.tracks[t].lanes().contains_key(key)
            &&& #[trigger] y.tracks[u].lanes().contains_key(other)
            &&& (t, key) != (u, other)
        } implies clips_differ(
        y.tracks[t].lanes()[key],
        y.tracks[u].lanes()[other],
    ) by {
        let (a, b) = (y.tracks[t].lanes()[key], y.tracks[u].lanes()[other]);
        let (p, q) = (x.tracks[t].lanes()[key], x.tracks[u].lanes()[other]);
        assert(x.tracks[t].lanes().contains_key(key));
        assert(x.tracks[u].lanes().contains_key(other));
        assert(clips_differ(p, q));
        assert forall|i: int, j: int| 0 <= i < a.len() && 0 <= j < b.len() implies (
        #[trigger] a[i]).id != (#[trigger] b[j]).id by {
            assert(p[i].id != q[j].id);
            assert(y.tracks[t].lanes()[key][i] == a[i]);
            assert(y.tracks[u].lanes()[other][j] == b[j]);
        }
    }
}

/// Owned clips are keyed.
proof fn owned_is_keyed(model: TimelineModel)
    requires
        clips_owned(model),
        forall|t: int| 0 <= t < model.tracks.len() ==> (#[trigger] model.tracks[t]).laid_out(),
    ensures
        keyed(model),
{
    assert forall|t: int| 0 <= t < model.tracks.len() implies track_keyed(
        model.actions,
        #[trigger] model.tracks[t],
    ) by {
        let track = model.tracks[t];
        assert forall|key: ActionKey| #[trigger] track.lanes().contains_key(key) implies lane_keyed(
            model.actions,
            key,
            track.lanes()[key],
        ) by {
            assert(model.tracks[t].lanes().contains_key(key));
            assert(lane_owned(model.actions, key, track.lanes()[key]));
        }
    }
}

/// The clips of a relabelled timeline are owned.
proof fn relabelled_is_owned(x: TimelineModel, y: TimelineModel, from: ActionId, to: ActionId)
    requires
        relabelled(x, y, from, to),
        clips_owned(x),
    ensures
        clips_owned(y),
{
    assert forall|t: int, key: ActionKey|
        0 <= t < y.tracks.len() && #[trigger] y.tracks[t].lanes().contains_key(
            key,
        ) implies lane_owned(y.actions, key, y.tracks[t].lanes()[key]) by {
        assert(x.tracks[t].lanes().contains_key(key));
        let (own, clips) = (x.tracks[t].lanes()[key], y.tracks[t].lanes()[key]);
        assert(lane_owned(x.actions, key, own));
        assert forall|i: int| 0 <= i < clips.len() implies {
            &&& y.actions.has((#[trigger] clips[i]).id)
            &&& y.actions.actions[clips[i].id].key == key
            &&& y.actions.actions[clips[i].id].target_type == key.field.target_id
        } by {
            assert(x.actions.has(own[i].id));
            assert(y.actions.actions.dom().contains(clips[i].id));
        }
    }
}

/// What is passed on relabelled tracks.
proof fn passed_relabelled(
    x: Seq<Track>,
    y: Seq<Track>,
    from: ActionId,
    to: ActionId,
    t: int,
    forwards: bool,
    key: ActionKey,
)
    requires
        lanes_relabelled(x, y, from, to),
        0 <= t < x.len(),
        x[t].lanes().contains_key(key) ==> x[t].lanes()[key].len() > 0,
    ensures
        passed(y[t], forwards, key) == relabel_pick(passed(x[t], forwards, key), from, to),
{
    assert(x[t].lanes().contains_key(key) <==> y[t].lanes().contains_key(key));
}

/// What is passed on the way over relabelled tracks.
proof fn jumped_relabelled(
    x: TimelineModel,
    y: TimelineModel,
    from: ActionId,
    to: ActionId,
    first: int,
    last: int,
    forwards: bool,
    key: ActionKey,
)
    requires
        lanes_relabelled(x.tracks, y.tracks, from, to),
        clips_owned(x),
        0 <= first,
        last <= x.tracks.len(),
    ensures
        jumped(y.tracks, first, last, forwards, key) == relabel_pick(
            jumped(x.tracks, first, last, forwards, key),
            from,
            to,
        ),
        picks_clip(x, key, jumped(x.tracks, first, last, forwards, key)),
    decreases last - first,
{
    if first < last {
        let t = last - 1;
        if x.tracks[t].lanes().contains_key(key) {
            let clips = x.tracks[t].lanes()[key];
            assert(lane_owned(x.actions, key, clips));
            assert(clip_in(x, t, key, 0) && clip_in(x, t, key, clips.len() - 1));
        }
        passed_relabelled(x.tracks, y.tracks, from, to, t, forwards, key);
        jumped_relabelled(x, y, from, to, first, last - 1, forwards, key);
    }
}

/// Whether there is a clip at a place of a lane.
pub open spec fn clip_in(model: TimelineModel, t: int, key: ActionKey, i: int) -> bool {
    &&& 0 <= t < model.tracks.len()
    &&& model.tracks[t].lanes().contains_key(key)
    &&& 0 <= i < model.tracks[t].lanes()[key].len()
}

/// Whether an action has a clip in a lane of a key.
pub open spec fn is_clip_of(model: TimelineModel, key: ActionKey, id: ActionId) -> bool {
    exists|t: int, i: int| #[trigger]
        clip_in(model, t, key, i) && model.tracks[t].lanes()[key][i].id == id
}

/// Whether what is picked of a sequence is one of its clips.
spec fn picks_clip(model: TimelineModel, key: ActionKey, picked: Picked) -> bool {
    picked matches Some((id, _)) ==> is_clip_of(model, key, id)
}

/// Clips of other ids at the same times are picked alike.
proof fn picks_relabelled(
    clips: Seq<ActionClip>,
    from: ActionId,
    to: ActionId,
    range: Range,
    time: Ticks,
    picked: Picked,
)
    requires
        clips.len() > 0,
        is_pick(clips, range, time, picked),
    ensures
        is_pick(relabel_clips(clips, from, to), range, time, relabel_pick(picked, from, to)),
{
    let found = choose|found: Result<usize, usize>| #[trigger]
        is_place(clips, time, found) && picked == pick(clips, range, time, found);
    let others = relabel_clips(clips, from, to);
    assert forall|i: int| 0 <= i < clips.len() implies (#[trigger] others[i]).start
        == clips[i].start && others[i].end() == clips[i].end() && others[i].duration
        == clips[i].duration by {}
    assert(is_place(others, time, found)) by {
        match found {
            Ok(index) => {},
            Err(index) => {
                if non_overlapping(others) && forward_only(
                    others,
                ) {
                    assert forall|i: int| 0 < i < clips.len() implies clips[i - 1].end() <= (
                    #[trigger] clips[i]).start by {
                        assert(others[i - 1].end() <= others[i].start);
                    }
                    assert forall|i: int| 0 <= i < clips.len() implies (
                    #[trigger] clips[i]).duration >= 0 by {
                        assert(others[i].duration >= 0);
                    }
                }
            },
        }
    }
    assert(relabel_pick(picked, from, to) == pick(others, range, time, found));
}

/// What is picked of a sequence is what is picked at its place.
proof fn picked_at(spans: Seq<(ActionKey, Span)>, picks: Seq<Picked>, i: int)
    requires
        picks.len() <= spans.len(),
        0 <= i < picks.len(),
        forall|j: int| 0 <= j < picks.len() && j != i ==> (#[trigger] spans[j]).0 != spans[i].0,
    ensures
        picked_of(spans, picks, spans[i].0) == picks[i],
    decreases picks.len(),
{
    let n = picks.len() - 1;
    if i < n {
        assert(spans[n].0 != spans[i].0);
        picked_at(spans, picks.drop_last(), i);
    } else {
        none_picked(spans, picks.drop_last(), spans[i].0);
    }
}

/// Nothing is picked of a sequence that has no place.
proof fn none_picked(spans: Seq<(ActionKey, Span)>, picks: Seq<Picked>, key: ActionKey)
    requires
        picks.len() <= spans.len(),
        forall|j: int| 0 <= j < picks.len() ==> (#[trigger] spans[j]).0 != key,
    ensures
        picked_of(spans, picks, key) is None,
    decreases picks.len(),
{
    if picks.len() > 0 {
        assert(spans[picks.len() - 1].0 != key);
        none_picked(spans, picks.drop_last(), key);
    }
}

/// What is picked of a lane of a track, and nothing where there is none.
proof fn picked_of_lane(track: Track, picks: Seq<Picked>, key: ActionKey) -> (i: int)
    requires
        track.laid_out(),
        picks.len() == track.spans().len(),
    ensures
        track.lanes().contains_key(key) ==> {
            &&& 0 <= i < picks.len()
            &&& track.spans()[i].0 == key
            &&& track.lanes()[key] == track.clips_in(track.spans()[i].1)
            &&& picked_of(track.spans(), picks, key) == picks[i]
        },
        !track.lanes().contains_key(key) ==> picked_of(track.spans(), picks, key) is None,
{
    if track.lanes().contains_key(key) {
        let i = choose|i: int|
            0 <= i < track.spans().len() && (#[trigger] track.spans()[i]).0 == key;
        track.lane_at(i);
        assert forall|j: int| 0 <= j < picks.len() && j != i implies (
        #[trigger] track.spans()[j]).0 != track.spans()[i].0 by {
            if i < j {
                assert(track.spans()[i].0 != track.spans()[j].0);
            } else {
                assert(track.spans()[j].0 != track.spans()[i].0);
            }
        }
        picked_at(track.spans(), picks, i);
        i
    } else {
        assert forall|j: int| 0 <= j < picks.len() implies (#[trigger] track.spans()[j]).0
            != key by {}
        none_picked(track.spans(), picks, key);
        0
    }
}

/// The picks of a relabelled timeline for picks of the other one.
pub open spec fn other_picks(
    x: TimelineModel,
    y: TimelineModel,
    picks: Seq<Picked>,
    from: ActionId,
    to: ActionId,
) -> Seq<Picked> {
    let own = x.tracks[x.target_index as int].spans();
    let spans = y.tracks[y.target_index as int].spans();
    Seq::new(
        spans.len(),
        |j: int| relabel_pick(picked_of(own, picks, spans[j].0), from, to),
    )
}

/// Relabelled timelines at the same place have relabelled picks.
proof fn other_picks_are_picks(
    x: TimelineModel,
    y: TimelineModel,
    picks: Seq<Picked>,
    from: ActionId,
    to: ActionId,
)
    requires
        lanes_relabelled(x.tracks, y.tracks, from, to),
        clips_owned(x),
        same_playhead(x, y),
        x.playable(),
        forall|t: int| 0 <= t < x.tracks.len() ==> (#[trigger] x.tracks[t]).laid_out(),
        forall|t: int| 0 <= t < y.tracks.len() ==> (#[trigger] y.tracks[t]).laid_out(),
        are_picks(x, picks),
    ensures
        are_picks(y, other_picks(x, y, picks, from, to)),
        forall|key: ActionKey| #[trigger]
            picked_of(
                y.tracks[y.target_index as int].spans(),
                other_picks(x, y, picks, from, to),
                key,
            ) == relabel_pick(
                picked_of(x.tracks[x.target_index as int].spans(), picks, key),
                from,
                to,
            ),
        forall|key: ActionKey|
            picks_clip(
                x,
                key,
                #[trigger] picked_of(x.tracks[x.target_index as int].spans(), picks, key),
            ),
{
    let t = x.target_index as int;
    let (a, b) = (x.tracks[t], y.tracks[t]);
    let others = other_picks(x, y, picks, from, to);
    assert(moved_range(y) == moved_range(x));
    assert forall|j: int| 0 <= j < others.len() implies is_pick(
        b.clips_in(b.spans()[j].1),
        moved_range(y),
        y.target_time,
        #[trigger] others[j],
    ) by {
        let key = b.spans()[j].0;
        b.lane_at(j);
        assert(y.tracks[t].lanes().contains_key(key));
        assert(x.tracks[t].lanes().contains_key(key));
        let i = picked_of_lane(a, picks, key);
        let clips = a.lanes()[key];
        assert(lane_owned(x.actions, key, clips));
        assert(is_pick(clips, moved_range(x), x.target_time, picks[i]));
        picks_relabelled(clips, from, to, moved_range(x), x.target_time, picks[i]);
    }
    assert forall|key: ActionKey| #[trigger] picked_of(b.spans(), others, key) == relabel_pick(
        picked_of(a.spans(), picks, key),
        from,
        to,
    ) by {
        assert(x.tracks[t].lanes().contains_key(key) <==> y.tracks[t].lanes().contains_key(key));
        let i = picked_of_lane(a, picks, key);
        let j = picked_of_lane(b, others, key);
    }
    assert forall|key: ActionKey|
        picks_clip(x, key, #[trigger] picked_of(a.spans(), picks, key)) by {
        let i = picked_of_lane(a, picks, key);
        if x.tracks[t].lanes().contains_key(key) {
            let clips = a.lanes()[key];
            assert(lane_owned(x.actions, key, clips));
            assert(is_pick(clips, moved_range(x), x.target_time, picks[i]));
            let k = pick_is_of_clip(clips, moved_range(x), x.target_time, picks[i]);
            assert(clip_in(x, t, key, k));
        }
    }
}

/// What is visited last of a sequence of relabelled timelines.
proof fn arrivals_relabelled(
    x: TimelineModel,
    y: TimelineModel,
    picks: Seq<Picked>,
    from: ActionId,
    to: ActionId,
    key: ActionKey,
)
    requires
        lanes_relabelled(x.tracks, y.tracks, from, to),
        clips_owned(x),
        same_playhead(x, y),
        x.playable(),
        forall|t: int| 0 <= t < x.tracks.len() ==> (#[trigger] x.tracks[t]).laid_out(),
        forall|t: int| 0 <= t < y.tracks.len() ==> (#[trigger] y.tracks[t]).laid_out(),
        are_picks(x, picks),
    ensures
        arrival(y, other_picks(x, y, picks, from, to), key) == relabel_pick(
            arrival(x, picks, key),
            from,
            to,
        ),
        picks_clip(x, key, arrival(x, picks, key)),
{
    other_picks_are_picks(x, y, picks, from, to);
    let here = picked_of(x.tracks[x.target_index as int].spans(), picks, key);
    if x.target_index > x.curr_index {
        jumped_relabelled(
            x,
            y,
            from,
            to,
            x.curr_index as int,
            x.target_index as int,
            true,
            key,
        );
    } else {
        jumped_relabelled(
            x,
            y,
            from,
            to,
            x.target_index + 1,
            x.curr_index + 1,
            false,
            key,
        );
    }
}

/// Whether one world is another one with another id for an action, so that the
/// same is marked, and what is marked is baked the same.
pub open spec fn worlds_alike(a: ActionModel, b: ActionModel, from: ActionId, to: ActionId) -> bool {
    &&& a.has(from)
    &&& to == from || !a.has(to)
    &&& b.actions.dom() == a.actions.dom().remove(from).insert(to)
    &&& b.subjects == a.subjects
    &&& b.known == a.known
    &&& b.baselines == a.baselines
    &&& forall|id: ActionId| #[trigger]
        a.has(id) ==> marked_alike(a.actions[id], b.actions[relabel(id, from, to)])
}

/// Whether two records describe the same action, marked the same, and baked the
/// same if they are marked.
pub open spec fn marked_alike(a: ActionRecord, b: ActionRecord) -> bool {
    &&& record_alike(a, b)
    &&& a.mark == b.mark
    &&& a.mark is Some ==> a.segment == b.segment
}

/// A world with another id for an action has the same sequences in use.
proof fn in_use_alike(a: ActionModel, b: ActionModel, from: ActionId, to: ActionId, key: ActionKey)
    requires
        worlds_alike(a, b, from, to),
    ensures
        a.in_use(key) == b.in_use(key),
        a.emptied(key) == b.emptied(key),
{
    if a.in_use(key) {
        let id = choose|id: ActionId| #[trigger]
            a.actions.contains_key(id) && a.actions[id].key == key;
        assert(a.has(id));
        assert(b.actions.dom().contains(relabel(id, from, to)));
        assert(b.actions.contains_key(relabel(id, from, to)));
    }
    if b.in_use(key) {
        let id = choose|id: ActionId| #[trigger]
            b.actions.contains_key(id) && b.actions[id].key == key;
        assert(b.actions.dom().contains(id));
        let own = if id == to {
            from
        } else {
            id
        };
        assert(a.has(own));
        assert(relabel(own, from, to) == id);
        assert(a.actions.contains_key(own));
    }
}

/// What a pipeline can write of one world, it can write of the other one.
proof fn worlds_sample_alike<H: SubjectSource>(
    source: &H,
    pipeline: PipelineKey,
    fields: Set<UntypedField>,
    a: ActionModel,
    b: ActionModel,
    from: ActionId,
    to: ActionId,
    writes: Seq<Write>,
)
    requires
        worlds_alike(a, b, from, to),
        pipeline_sampled(source, pipeline, fields, a, writes),
    ensures
        pipeline_sampled(source, pipeline, fields, b, writes),
{
    let (order, emptied) = choose|order: Seq<ActionId>, emptied: Seq<ActionKey>|
        {
            &&& #[trigger] writes_match(source, pipeline, a, writes, order, emptied)
            &&& order.no_duplicates()
            &&& forall|id: ActionId| order.contains(id) <==> sampled_by(pipeline, fields, a, id)
            &&& emptied.no_duplicates()
            &&& forall|key: ActionKey|
                emptied.contains(key) <==> restored_by(pipeline, fields, a, key)
        };
    let r = |id: ActionId| relabel(id, from, to);
    let others = order.map_values(r);
    assert forall|i: int| 0 <= i < order.len() implies {
        &&& a.has(#[trigger] order[i])
        &&& sampled_by(pipeline, fields, b, others[i])
        &&& is_sample(source, pipeline, b, others[i], writes[i])
    } by {
        assert(order.contains(order[i]));
        assert(sampled_by(pipeline, fields, a, order[i]));
        assert(is_sample(source, pipeline, a, order[i], writes[i]));
        assert(marked_alike(a.actions[order[i]], b.actions[others[i]]));
        assert(b.actions.dom().contains(others[i]));
    }
    assert forall|i: int, j: int| 0 <= i < others.len() && 0 <= j < others.len() && i
        != j implies others[i] != others[j] by {
        assert(a.has(order[i]) && a.has(order[j]));
        assert(order[i] != order[j]);
    }
    assert forall|id: ActionId| others.contains(id) <==> sampled_by(pipeline, fields, b, id) by {
        if others.contains(id) {
            let i = choose|i: int| 0 <= i < others.len() && others[i] == id;
            assert(a.has(order[i]));
        }
        if sampled_by(pipeline, fields, b, id) {
            assert(b.actions.dom().contains(id));
            let own = if id == to {
                from
            } else {
                id
            };
            assert(a.has(own));
            assert(relabel(own, from, to) == id);
            assert(marked_alike(a.actions[own], b.actions[id]));
            assert(sampled_by(pipeline, fields, a, own));
            assert(order.contains(own));
            let i = choose|i: int| 0 <= i < order.len() && order[i] == own;
            assert(others[i] == id);
        }
    }
    assert forall|key: ActionKey| restored_by(pipeline, fields, a, key) == #[trigger] restored_by(
        pipeline,
        fields,
        b,
        key,
    ) by {
        in_use_alike(a, b, from, to, key);
    }
    assert forall|key: ActionKey| restoring(pipeline, a, key) == #[trigger] restoring(
        pipeline,
        b,
        key,
    ) by {}
    assert(writes_match(source, pipeline, b, writes, others, emptied)) by {
        assert forall|i: int| 0 <= i < others.len() implies is_sample(
            source,
            pipeline,
            b,
            #[trigger] others[i],
            writes[i],
        ) by {
            assert(a.has(order[i]));
        }
    }
}

/// Whether every lane is baked with the timeline and has a baseline.
pub open spec fn lanes_ready(registry: Registry, model: TimelineModel, world: u64) -> bool {
    &&& clips_owned(model)
    &&& lanes_differ(model.tracks)
    &&& baselines_typed(model.actions)
    &&& forall|t: int, key: ActionKey|
        0 <= t < model.tracks.len() && #[trigger] model.tracks[t].lanes().contains_key(key)
            ==> served(registry, model, world, key) && model.actions.baselines.contains_key(key)
}

/// Relabelled timelines that are baked are baked the same.
proof fn relabelled_bake_alike<H: SubjectSource>(
    first: &H,
    second: &H,
    registry: Registry,
    world: u64,
    x: TimelineModel,
    y: TimelineModel,
    from: ActionId,
    to: ActionId,
    x1: TimelineModel,
    y1: TimelineModel,
    t: int,
    key: ActionKey,
    i: int,
)
    requires
        act_alike(first, second),
        finds_all(first),
        finds_all(second),
        lanes_ready(registry, x, world),
        relabelled(x, y, from, to),
        lanes_differ(y.tracks),
        timeline_baked(first, registry, x, x1),
        timeline_baked(second, registry, y, y1),
        clip_in(x, t, key, i),
    ensures
        ({
            let id = x.tracks[t].lanes()[key][i].id;
            x1.actions.actions[id].segment == y1.actions.actions[relabel(id, from, to)].segment
        }),
        x1.actions.baselines == x.actions.baselines,
        y1.actions.baselines == x.actions.baselines,
        baked_over(x.actions, x1.actions),
        baked_over(y.actions, y1.actions),
{
    let (own, clips) = (x.tracks[t].lanes()[key], y.tracks[t].lanes()[key]);
    assert(x.tracks[t].lanes().contains_key(key));
    assert(y.tracks[t].lanes().contains_key(key));
    assert(served(registry, y, world, key));
    timelines_settle(first, registry, world, x, x1, t, key);
    timelines_settle(second, registry, world, y, y1, t, key);
    assert(x1.actions.baselines =~= x.actions.baselines) by {
        assert forall|k: ActionKey| x1.actions.baselines.contains_key(
            k,
        ) implies #[trigger] x.actions.baselines.contains_key(k) by {
            if is_lane_key(x.tracks, k) {
                let u = choose|u: int|
                    0 <= u < x.tracks.len() && (#[trigger] x.tracks[u]).lanes().contains_key(k);
                assert(x.tracks[u].lanes().contains_key(k));
            }
        }
    }
    assert(y1.actions.baselines =~= x.actions.baselines) by {
        assert forall|k: ActionKey| y1.actions.baselines.contains_key(
            k,
        ) implies #[trigger] x.actions.baselines.contains_key(k) by {
            if is_lane_key(y.tracks, k) {
                let u = choose|u: int|
                    0 <= u < y.tracks.len() && (#[trigger] y.tracks[u]).lanes().contains_key(k);
                assert(y.tracks[u].lanes().contains_key(k));
                assert(x.tracks[u].lanes().contains_key(k));
            }
        }
    }
    assert(lane_owned(x.actions, key, own));
    relabelled_is_owned(x, y, from, to);
    assert(lane_owned(y.actions, key, clips));
    let (a, b) = (x1.actions, y1.actions);
    assert(deeds_alike(own, a, clips, b)) by {
        assert forall|j: int| 0 <= j < own.len() implies {
            let (p, q) = ((#[trigger] own[j]).id, clips[j].id);
            &&& a.has(p) == b.has(q)
            &&& a.has(p) ==> {
                &&& a.actions[p].target_type == b.actions[q].target_type
                &&& a.actions[p].action == b.actions[q].action
                &&& a.actions[p].disabled == b.actions[q].disabled
            }
        } by {
            let (p, q) = (own[j].id, clips[j].id);
            assert(x.actions.has(p) && y.actions.has(q));
            assert(q == relabel(p, from, to));
            assert(record_alike(x.actions.actions[p], y.actions.actions[q]));
            assert(a.actions.dom().contains(p) && b.actions.dom().contains(q));
        }
    }
    settled_alike(first, second, key, own, a, clips, b);
    assert(x.actions.has(own[i].id));
    assert(a.actions.dom().contains(own[i].id));
    assert(a.has(own[i].id));
}

/// Timelines that differ in the id of one action play the same. Both are baked, and
/// their playheads move to the same time: whatever is picked of the one, the same
/// can be picked of the other, and then what sampling can write for the one, it can
/// write for the other.
pub proof fn relabelled_play_alike<H: SubjectSource>(
    first: &H,
    second: &H,
    registry: Registry,
    world: u64,
    x: TimelineModel,
    y: TimelineModel,
    from: ActionId,
    to: ActionId,
    x1: TimelineModel,
    y1: TimelineModel,
    picks: Seq<Picked>,
)
    requires
        act_alike(first, second),
        finds_all(first),
        finds_all(second),
        lanes_ready(registry, x, world),
        relabelled(x, y, from, to),
        is_clip_of(x, x.actions.actions[from].key, from),
        forall|t: int| 0 <= t < y.tracks.len() ==> (#[trigger] y.tracks[t]).laid_out(),
        same_playhead(x, y),
        x.playable(),
        timeline_baked(first, registry, x, x1),
        timeline_baked(second, registry, y, y1),
        are_picks(x1, picks),
    ensures
        are_picks(y1, other_picks(x1, y1, picks, from, to)),
        worlds_alike(
            arrived(x1, picks).actions,
            arrived(y1, other_picks(x1, y1, picks, from, to)).actions,
            from,
            to,
        ),
        forall|source: &H, pipeline: PipelineKey, fields: Set<UntypedField>, writes: Seq<Write>|
            #[trigger] pipeline_sampled(
                source,
                pipeline,
                fields,
                arrived(x1, picks).actions,
                writes,
            ) ==> pipeline_sampled(
                source,
                pipeline,
                fields,
                arrived(y1, other_picks(x1, y1, picks, from, to)).actions,
                writes,
            ),
        forall|key: PipelineKey| #[trigger]
            pipeline_in_use(arrived(x1, picks), world, key) ==> pipeline_in_use(
                arrived(y1, other_picks(x1, y1, picks, from, to)),
                world,
                key,
            ),
{
    let others = other_picks(x1, y1, picks, from, to);
    let own = x.actions.actions[from].key;
    let (t, i) = choose|t: int, i: int| #[trigger]
        clip_in(x, t, own, i) && x.tracks[t].lanes()[own][i].id == from;
    relabelled_differ(x, y, from, to);
    relabelled_bake_alike(first, second, registry, world, x, y, from, to, x1, y1, t, own, i);
    relabelled_is_owned(x, y, from, to);
    baking_keeps_owned(x, x1);
    baking_keeps_owned(y, y1);
    owned_is_keyed(x1);
    owned_is_keyed(y1);
    other_picks_are_picks(x1, y1, picks, from, to);
    arriving_marks(x1, picks);
    arriving_marks(y1, others);
    let (a, b) = (arrived(x1, picks).actions, arrived(y1, others).actions);
    assert(b.actions.dom() =~= a.actions.dom().remove(from).insert(to));
    assert forall|id: ActionId| #[trigger] a.has(id) implies marked_alike(
        a.actions[id],
        b.actions[relabel(id, from, to)],
    ) by {
        let other = relabel(id, from, to);
        assert(a.actions.dom().contains(id));
        assert(x1.actions.actions.dom().contains(id));
        assert(x.actions.actions.dom().contains(id));
        assert(x.actions.has(id) && x1.actions.has(id));
        assert(y.actions.actions.dom().contains(other));
        assert(y.actions.has(other) && y1.actions.has(other));
        assert(record_alike(x.actions.actions[id], y.actions.actions[other]));
        let key = x1.actions.actions[id].key;
        arrivals_relabelled(x1, y1, picks, from, to, key);
        match arrival(x1, picks, key) {
            Some((last, mode)) => {
                let (u, k) = choose|u: int, k: int| #[trigger]
                    clip_in(x1, u, key, k) && x1.tracks[u].lanes()[key][k].id == last;
                assert(lane_owned(x1.actions, key, x1.tracks[u].lanes()[key]));
                assert(x1.actions.has(x1.tracks[u].lanes()[key][k].id));
                assert(x.actions.actions.dom().contains(last));
                assert(x.actions.has(last));
                assert(clip_in(x, u, key, k));
                relabelled_bake_alike(
                    first,
                    second,
                    registry,
                    world,
                    x,
                    y,
                    from,
                    to,
                    x1,
                    y1,
                    u,
                    key,
                    k,
                );
            },
            None => {},
        }
        assert(a.actions[id] == (ActionRecord {
            mark: arrival_mark(x1, picks, id),
            ..x1.actions.actions[id]
        }));
        assert(b.actions[other] == (ActionRecord {
            mark: arrival_mark(y1, others, other),
            ..y1.actions.actions[other]
        }));
    }
    assert forall|
        source: &H,
        pipeline: PipelineKey,
        fields: Set<UntypedField>,
        writes: Seq<Write>,
    | #[trigger]
        pipeline_sampled(source, pipeline, fields, a, writes) implies pipeline_sampled(
        source,
        pipeline,
        fields,
        b,
        writes,
    ) by {
        worlds_sample_alike(source, pipeline, fields, a, b, from, to, writes);
    }
    assert forall|key: PipelineKey| #[trigger]
        pipeline_in_use(arrived(x1, picks), world, key) implies pipeline_in_use(
        arrived(y1, others),
        world,
        key,
    ) by {
        if !arrived(x1, picks).counts.contains_key(key) {
            let emptied = choose|emptied: ActionKey| #[trigger]
                a.emptied(emptied) && key == PipelineKey::of_action_key(world, emptied);
            in_use_alike(a, b, from, to, emptied);
            assert(b.emptied(emptied));
        }
    }
}

/// Baking leaves clips owned.
proof fn baking_keeps_owned(before: TimelineModel, after: TimelineModel)
    requires
        clips_owned(before),
        after.tracks == before.tracks,
        baked_over(before.actions, after.actions),
    ensures
        clips_owned(after),
{
    assert forall|t: int, key: ActionKey|
        0 <= t < after.tracks.len() && #[trigger] after.tracks[t].lanes().contains_key(
            key,
        ) implies lane_owned(after.actions, key, after.tracks[t].lanes()[key]) by {
        let clips = before.tracks[t].lanes()[key];
        assert(before.tracks[t].lanes().contains_key(key));
        assert(lane_owned(before.actions, key, clips));
        assert forall|i: int| 0 <= i < clips.len() implies {
            &&& after.actions.has((#[trigger] clips[i]).id)
            &&& after.actions.actions[clips[i].id].key == key
            &&& after.actions.actions[clips[i].id].target_type == key.field.target_id
        } by {
            assert(before.actions.has(clips[i].id));
            assert(after.actions.actions.dom().contains(clips[i].id));
        }
    }
}

} // verus!
