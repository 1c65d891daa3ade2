//! What baking leaves of a whole timeline.
use crate::action::subjects::slot_of;
use crate::action::world::ActionModel;
use crate::action::{ActionClip, ActionId, ActionKey, ActionRecord};
use crate::pipeline::bake_laws::{
    baselines_typed, clips_differ, deeds_alike, finds_all, ids_differ, sequences_settle, settled,
    settled_alike, settled_stays,
};
use crate::pipeline::laws::act_alike;
use crate::pipeline::{sequence_baked, sequences_baked, track_baked, PipelineKey, PipelineUntyped};
use crate::registry::{accessible, Registry};
use crate::subject::UntypedField;
use crate::timeline::play::{pipeline_baked, pipelines_baked, timeline_baked, tracks_baked};
use crate::timeline::TimelineModel;
use crate::track::Track;
use crate::world::SubjectSource;
use vstd::prelude::*;

verus! {

/// Whether every action has a clip in one lane at most, and only one there.
pub open spec fn lanes_differ(tracks: Seq<Track>) -> bool {
    &&& forall|t: int| 0 <= t < tracks.len() ==> (#[trigger] tracks[t]).laid_out()
    &&& forall|t: int, key: ActionKey|
        0 <= t < tracks.len() && #[trigger] tracks[t].lanes().contains_key(key) ==> ids_differ(
            tracks[t].lanes()[key],
        )
    &&& forall|t: int, key: ActionKey, u: int, other: ActionKey|
        {
            &&& 0 <= t < tracks.len()
            &&& 0 <= u < tracks.len()
            &&& #[trigger] tracks[t].lanes().contains_key(key)
            &&& #[trigger] tracks[u].lanes().contains_key(other)
            &&& (t, key) != (u, other)
        } ==> clips_differ(tracks[t].lanes()[key], tracks[u].lanes()[other])
}

/// Whether only segments changed from one world to another, and baselines only
/// came.
pub open spec fn baked_over(before: ActionModel, after: ActionModel) -> bool {
    &&& after.subjects == before.subjects
    &&& after.known == before.known
    &&& forall|key: ActionKey| #[trigger]
        before.baselines.contains_key(key) ==> after.baselines.contains_key(key)
            && after.baselines[key] == before.baselines[key]
    &&& after.actions.dom() == before.actions.dom()
    &&& forall|id: ActionId| #[trigger]
        before.actions.contains_key(id) ==> after.actions[id] == (ActionRecord {
            segment: after.actions[id].segment,
            ..before.actions[id]
        })
}

/// Whether a pipeline bakes the sequence of a key.
pub open spec fn bakes_key(
    pipeline: PipelineKey,
    fields: Set<UntypedField>,
    model: ActionModel,
    key: ActionKey,
) -> bool {
    &&& accessible(fields, key.field, pipeline.source_id, pipeline.target_id)
    &&& slot_of(key).0 == pipeline.subject_id
    &&& model.subjects.contains_key(slot_of(key))
}

/// Whether a key is that of a lane.
pub open spec fn is_lane_key(tracks: Seq<Track>, key: ActionKey) -> bool {
    exists|t: int| 0 <= t < tracks.len() && (#[trigger] tracks[t]).lanes().contains_key(key)
}

/// Whether only sequences of lanes got baselines.
pub open spec fn only_lanes_read(tracks: Seq<Track>, before: ActionModel, after: ActionModel) -> bool {
    forall|key: ActionKey| #[trigger]
        after.baselines.contains_key(key) ==> before.baselines.contains_key(key) || is_lane_key(
            tracks,
            key,
        )
}

/// What is kept of a sequence from one world to another.
spec fn lane_kept<H: SubjectSource>(
    source: &H,
    tracks: Seq<Track>,
    key: ActionKey,
    clips: Seq<ActionClip>,
    before: ActionModel,
    after: ActionModel,
) -> bool {
    &&& baked_over(before, after)
    &&& only_lanes_read(tracks, before, after)
    &&& baselines_typed(after)
    &&& settled(source, key, clips, before) ==> settled(source, key, clips, after)
}

/// What is kept twice is kept.
proof fn kept_twice<H: SubjectSource>(
    source: &H,
    tracks: Seq<Track>,
    key: ActionKey,
    clips: Seq<ActionClip>,
    a: ActionModel,
    b: ActionModel,
    c: ActionModel,
)
    requires
        lane_kept(source, tracks, key, clips, a, b),
        lane_kept(source, tracks, key, clips, b, c),
    ensures
        lane_kept(source, tracks, key, clips, a, c),
{
    assert forall|id: ActionId| #[trigger] a.actions.contains_key(id) implies c.actions[id] == (
    ActionRecord { segment: c.actions[id].segment, ..a.actions[id] }) by {
        assert(a.actions.dom().contains(id));
        assert(b.actions.dom().contains(id));
        assert(b.actions.contains_key(id));
    }
}

/// Baking the first sequences of a track keeps a lane, and settles it if it is one
/// of them.
proof fn sequences_keep<H: SubjectSource>(
    source: &H,
    pipeline: PipelineKey,
    fields: Set<UntypedField>,
    tracks: Seq<Track>,
    u: int,
    trace: Seq<ActionModel>,
    t: int,
    key: ActionKey,
    n: int,
)
    requires
        finds_all(source),
        lanes_differ(tracks),
        0 <= t < tracks.len(),
        tracks[t].lanes().contains_key(key),
        0 <= u < tracks.len(),
        sequences_baked(source, pipeline, fields, tracks[u], trace),
        baselines_typed(trace[0]),
        0 <= n <= tracks[u].spans().len(),
    ensures
        lane_kept(source, tracks, key, tracks[t].lanes()[key], trace[0], trace[n]),
        u == t && bakes_key(pipeline, fields, trace[0], key) && (exists|i: int|
            0 <= i < n && (#[trigger] tracks[u].spans()[i]).0 == key) ==> settled(
            source,
            key,
            tracks[t].lanes()[key],
            trace[n],
        ),
    decreases n,
{
    let clips = tracks[t].lanes()[key];
    let track = tracks[u];
    if n > 0 {
        let m = n - 1;
        sequences_keep(source, pipeline, fields, tracks, u, trace, t, key, m);
        track.lane_at(m);
        let own = track.spans()[m].0;
        let baked = track.clips_in(track.spans()[m].1);
        assert(sequence_baked(source, pipeline, fields, own, baked, trace[m], trace[n]));
        sequences_settle(source, pipeline, fields, own, baked, trace[m], trace[n]);
        assert(tracks[u].lanes().contains_key(own));
        assert(is_lane_key(tracks, own));
        if u != t || own != key {
            assert(clips_differ(clips, baked));
            if settled(source, key, clips, trace[m]) {
                settled_stays(source, key, clips, baked, trace[m], trace[n]);
            }
            if exists|i: int| 0 <= i < n && (#[trigger] track.spans()[i]).0 == key {
                let i = choose|i: int| 0 <= i < n && (#[trigger] track.spans()[i]).0 == key;
                assert(u == t ==> i < m);
            }
        } else {
            assert(ids_differ(clips));
        }
        kept_twice(source, tracks, key, clips, trace[0], trace[m], trace[n]);
    } else {
        assert(trace[0].actions.dom() =~= trace[0].actions.dom());
    }
}

/// Baking a track keeps a lane, and settles it if it is one of the track.
proof fn track_keeps<H: SubjectSource>(
    source: &H,
    pipeline: PipelineKey,
    fields: Set<UntypedField>,
    tracks: Seq<Track>,
    u: int,
    before: ActionModel,
    after: ActionModel,
    t: int,
    key: ActionKey,
)
    requires
        finds_all(source),
        lanes_differ(tracks),
        0 <= t < tracks.len(),
        tracks[t].lanes().contains_key(key),
        0 <= u < tracks.len(),
        track_baked(source, pipeline, fields, tracks[u], before, after),
        baselines_typed(before),
    ensures
        lane_kept(source, tracks, key, tracks[t].lanes()[key], before, after),
        u == t && bakes_key(pipeline, fields, before, key) ==> settled(
            source,
            key,
            tracks[t].lanes()[key],
            after,
        ),
{
    let trace = choose|trace: Seq<ActionModel>| #[trigger]
        sequences_baked(source, pipeline, fields, tracks[u], trace) && trace.first() == before
            && trace.last() == after;
    let n = tracks[u].spans().len() as int;
    sequences_keep(source, pipeline, fields, tracks, u, trace, t, key, n);
}

/// Baking the first tracks keeps a lane, and settles it if it is one of theirs.
proof fn tracks_keep<H: SubjectSource>(
    source: &H,
    pipeline: PipelineKey,
    fields: Set<UntypedField>,
    tracks: Seq<Track>,
    trace: Seq<ActionModel>,
    t: int,
    key: ActionKey,
    n: int,
)
    requires
        finds_all(source),
        lanes_differ(tracks),
        0 <= t < tracks.len(),
        tracks[t].lanes().contains_key(key),
        tracks_baked(source, pipeline, fields, tracks, trace),
        baselines_typed(trace[0]),
        0 <= n <= tracks.len(),
    ensures
        lane_kept(source, tracks, key, tracks[t].lanes()[key], trace[0], trace[n]),
        t < n && bakes_key(pipeline, fields, trace[0], key) ==> settled(
            source,
            key,
            tracks[t].lanes()[key],
            trace[n],
        ),
    decreases n,
{
    if n > 0 {
        let m = n - 1;
        tracks_keep(source, pipeline, fields, tracks, trace, t, key, m);
        assert(track_baked(source, pipeline, fields, tracks[m], trace[m], trace[n]));
        track_keeps(source, pipeline, fields, tracks, m, trace[m], trace[n], t, key);
        kept_twice(source, tracks, key, tracks[t].lanes()[key], trace[0], trace[m], trace[n]);
    }
}

/// Baking with the first pipelines keeps a lane, and settles it if one of them
/// bakes it.
proof fn pipelines_keep<H: SubjectSource>(
    source: &H,
    pipelines: Map<PipelineKey, PipelineUntyped>,
    fields: Set<UntypedField>,
    order: Seq<PipelineKey>,
    tracks: Seq<Track>,
    trace: Seq<ActionModel>,
    t: int,
    key: ActionKey,
    n: int,
)
    requires
        finds_all(source),
        lanes_differ(tracks),
        0 <= t < tracks.len(),
        tracks[t].lanes().contains_key(key),
        pipelines_baked(source, pipelines, fields, order, tracks, trace),
        baselines_typed(trace[0]),
        0 <= n <= order.len(),
    ensures
        lane_kept(source, tracks, key, tracks[t].lanes()[key], trace[0], trace[n]),
        (exists|i: int|
            0 <= i < n && pipelines.contains_key(#[trigger] order[i]) && bakes_key(
                pipelines[order[i]].key,
                fields,
                trace[0],
                key,
            )) ==> settled(source, key, tracks[t].lanes()[key], trace[n]),
    decreases n,
{
    let clips = tracks[t].lanes()[key];
    if n > 0 {
        let m = n - 1;
        pipelines_keep(source, pipelines, fields, order, tracks, trace, t, key, m);
        assert(pipeline_baked(
            source,
            pipelines,
            fields,
            order[m],
            tracks,
            trace[m],
            trace[n],
        ));
        if pipelines.contains_key(order[m]) {
            let pipeline = pipelines[order[m]].key;
            let steps = choose|steps: Seq<ActionModel>| #[trigger]
                tracks_baked(source, pipeline, fields, tracks, steps) && steps.first() == trace[m]
                    && steps.last() == trace[n];
            tracks_keep(source, pipeline, fields, tracks, steps, t, key, tracks.len() as int);
        }
        assert(lane_kept(source, tracks, key, clips, trace[m], trace[n]));
        kept_twice(source, tracks, key, clips, trace[0], trace[m], trace[n]);
        if exists|i: int|
            0 <= i < n && pipelines.contains_key(#[trigger] order[i]) && bakes_key(
                pipelines[order[i]].key,
                fields,
                trace[0],
                key,
            ) {
            let i = choose|i: int|
                0 <= i < n && pipelines.contains_key(#[trigger] order[i]) && bakes_key(
                    pipelines[order[i]].key,
                    fields,
                    trace[0],
                    key,
                );
            if i < m {
                assert(settled(source, key, clips, trace[m]));
            }
        }
    }
}

/// Whether a sequence is baked with its timeline: its pipeline is counted and
/// registered, its field declared, and its subject there.
pub open spec fn served(registry: Registry, model: TimelineModel, world: u64, key: ActionKey) -> bool {
    let pipeline = PipelineKey::of_action_key(world, key);
    &&& model.counts.contains_key(pipeline)
    &&& registry.pipeline@.contains_key(pipeline)
    &&& registry.pipeline@[pipeline].key == pipeline
    &&& registry.accessor@.contains(key.field)
    &&& model.actions.subjects.contains_key(slot_of(key))
}

/// Baking a timeline settles every sequence that is baked with it, where the source
/// finds the fields.
pub proof fn timelines_settle<H: SubjectSource>(
    source: &H,
    registry: Registry,
    world: u64,
    before: TimelineModel,
    after: TimelineModel,
    t: int,
    key: ActionKey,
)
    requires
        finds_all(source),
        baselines_typed(before.actions),
        lanes_differ(before.tracks),
        timeline_baked(source, registry, before, after),
        0 <= t < before.tracks.len(),
        before.tracks[t].lanes().contains_key(key),
        served(registry, before, world, key),
    ensures
        settled(source, key, before.tracks[t].lanes()[key], after.actions),
        baked_over(before.actions, after.actions),
        only_lanes_read(before.tracks, before.actions, after.actions),
        baselines_typed(after.actions),
{
    let (order, trace) = choose|order: Seq<PipelineKey>, trace: Seq<ActionModel>|
        {
            &&& #[trigger] pipelines_baked(
                source,
                registry.pipeline@,
                registry.accessor@,
                order,
                before.tracks,
                trace,
            )
            &&& order.no_duplicates()
            &&& forall|key: PipelineKey| order.contains(key) <==> before.counts.contains_key(key)
            &&& trace.first() == before.actions
            &&& trace.last() == after.actions
        };
    let n = order.len() as int;
    pipelines_keep(
        source,
        registry.pipeline@,
        registry.accessor@,
        order,
        before.tracks,
        trace,
        t,
        key,
        n,
    );
    let pipeline = PipelineKey::of_action_key(world, key);
    assert(order.contains(pipeline));
    let i = choose|i: int| 0 <= i < order.len() && order[i] == pipeline;
    assert(registry.pipeline@.contains_key(order[i]));
}

/// Whether a timeline has the tracks, counts and subjects that it had, its
/// baselines, and actions that do the same and are muted or not. The playhead, marks
/// and segments may be others.
pub open spec fn undisturbed(before: TimelineModel, after: TimelineModel) -> bool {
    let (a, b) = (before.actions, after.actions);
    &&& after.tracks == before.tracks
    &&& after.counts == before.counts
    &&& b.subjects == a.subjects
    &&& forall|key: ActionKey| #[trigger]
        a.baselines.contains_key(key) ==> b.baselines.contains_key(key) && b.baselines[key]
            == a.baselines[key]
    &&& b.actions.dom() == a.actions.dom()
    &&& forall|id: ActionId| #[trigger]
        a.actions.contains_key(id) ==> {
            &&& b.actions[id].target_type == a.actions[id].target_type
            &&& b.actions[id].action == a.actions[id].action
            &&& b.actions[id].disabled == a.actions[id].disabled
        }
}

/// Baking a timeline again gives every clip of a sequence that is baked with it the
/// segment that it has, whatever the world has become in between: baselines are not
/// read again, and actions do the same to the same values. Tracks, actions and
/// whether they are muted have to be left alone.
pub proof fn baking_timelines_again_keeps_segments<H: SubjectSource>(
    first: &H,
    second: &H,
    registry: Registry,
    world: u64,
    before: TimelineModel,
    baked: TimelineModel,
    later: TimelineModel,
    after: TimelineModel,
    t: int,
    key: ActionKey,
)
    requires
        act_alike(first, second),
        finds_all(first),
        finds_all(second),
        baselines_typed(before.actions),
        lanes_differ(before.tracks),
        timeline_baked(first, registry, before, baked),
        undisturbed(baked, later),
        baselines_typed(later.actions),
        timeline_baked(second, registry, later, after),
        0 <= t < before.tracks.len(),
        before.tracks[t].lanes().contains_key(key),
        served(registry, before, world, key),
    ensures
        forall|i: int|
            #![trigger before.tracks[t].lanes()[key][i]]
            {
                let id = before.tracks[t].lanes()[key][i].id;
                &&& 0 <= i < before.tracks[t].lanes()[key].len()
                &&& before.actions.has(id)
                &&& before.actions.actions[id].target_type == key.field.target_id
            } ==> {
                let id = before.tracks[t].lanes()[key][i].id;
                &&& baked.actions.actions[id].segment is Some
                &&& after.actions.actions[id].segment == baked.actions.actions[id].segment
            },
{
    let clips = before.tracks[t].lanes()[key];
    timelines_settle(first, registry, world, before, baked, t, key);
    timelines_settle(second, registry, world, later, after, t, key);
    let (a, b) = (baked.actions, after.actions);
    assert(deeds_alike(clips, a, clips, b)) by {
        assert forall|i: int| 0 <= i < clips.len() implies {
            let p = (#[trigger] clips[i]).id;
            &&& a.has(p) == b.has(p)
            &&& a.has(p) ==> {
                &&& a.actions[p].target_type == b.actions[p].target_type
                &&& a.actions[p].action == b.actions[p].action
                &&& a.actions[p].disabled == b.actions[p].disabled
            }
        } by {
            let p = clips[i].id;
            assert(a.actions.dom().contains(p) == later.actions.actions.dom().contains(p));
            assert(later.actions.actions.dom().contains(p) == b.actions.dom().contains(p));
            if a.has(p) {
                assert(later.actions.actions.contains_key(p));
            }
        }
    }
    settled_alike(first, second, key, clips, a, clips, b);
    assert forall|i: int|
        #![trigger before.tracks[t].lanes()[key][i]]
        {
            let id = before.tracks[t].lanes()[key][i].id;
            &&& 0 <= i < before.tracks[t].lanes()[key].len()
            &&& before.actions.has(id)
            &&& before.actions.actions[id].target_type == key.field.target_id
        } implies {
        let id = before.tracks[t].lanes()[key][i].id;
        &&& baked.actions.actions[id].segment is Some
        &&& after.actions.actions[id].segment == baked.actions.actions[id].segment
    } by {
        let id = clips[i].id;
        assert(before.actions.actions.dom().contains(id));
        assert(baked.actions.actions.dom().contains(id));
    }
}

} // verus!
