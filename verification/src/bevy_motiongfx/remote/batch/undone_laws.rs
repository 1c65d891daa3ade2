//! How a timeline plays after a removal was undone.
use crate::action::subjects::slot_of;
use crate::action::world::{claimed, released};
use crate::action::{ActionClip, ActionId, ActionKey};
use crate::bevy_motiongfx::manager::TimelineId;
use crate::bevy_motiongfx::remote::batch::apply::op_applied;
use crate::bevy_motiongfx::remote::batch::clear_laws::{
    action_restorable, lane_holds, restorable, snapshots_describe,
};
use crate::bevy_motiongfx::remote::batch::insert::Applied;
use crate::bevy_motiongfx::remote::batch::laws::{baking_keeps_clips, in_order, lane_in_order};
use crate::bevy_motiongfx::remote::batch::op::{EditOp, OpResult};
use crate::bevy_motiongfx::remote::batch::remove_laws::{
    ends_laid_out, ordered_lane_takes_back, placing_takes_back, removing_takes_out, taken_back,
    takes_back,
};
use crate::bevy_motiongfx::remote::batch::restore_laws::{
    described_is_planned, labels_owned, lanes_of, neat, owner_of,
};
use crate::bevy_motiongfx::remote::batch::show_laws::shown_at;
use crate::bevy_motiongfx::remote::batch::snapshot::{is_snapshot, remove_stepped};
use crate::bevy_motiongfx::remote::batch::update_laws::reads_back;
use crate::bevy_motiongfx::remote::batch::walk::{clip_on, clip_on_is_of_a_lane};
use crate::bevy_motiongfx::remote::host::RemoteHost;
use crate::bevy_motiongfx::remote::persist::export::placement_of;
use crate::bevy_motiongfx::remote::studio::{baked, StudioModel};
use crate::pipeline::bake_laws::{clips_differ, finds_all};
use crate::pipeline::laws::act_alike;
use crate::pipeline::{pipeline_sampled, PipelineKey, Write};
use crate::subject::{UntypedField, BEVY_WORLD_TAG};
use crate::timeline::bake_laws::lanes_differ;
use crate::timeline::edit::{bumped, decremented};
use crate::timeline::play::timeline_baked;
use crate::timeline::queue::{are_picks, arrived};
use crate::timeline::queue_laws::Picked;
use crate::timeline::relabel_laws::{
    clip_in, is_clip_of, lane_owned, lanes_ready, lanes_relabelled, other_picks, record_alike,
    relabel, relabel_clips, relabelled, relabelled_play_alike, same_playhead,
};
use crate::timeline::TimelineModel;
use crate::track::{furthest_end, without_clip, Track};
use vstd::prelude::*;

verus! {

/// A subject that was known comes back under the id that it had.
proof fn key_comes_back(
    before: TimelineModel,
    later: TimelineModel,
    after: TimelineModel,
    t: int,
    key: ActionKey,
    clips: Seq<ActionClip>,
    i: int,
    action: ActionId,
)
    requires
        neat(before),
        before.actions.subjects.contains_key(slot_of(key)),
        later.actions.known == before.actions.known,
        taken_back(later, after, t, key.field, owner_of(before, key), clips, i, action),
    ensures
        after.actions.actions[action].key == key,
        after.actions.known == before.actions.known,
{
    let own = after.actions.actions[action].key;
    let known = before.actions.known;
    assert(known.contains_key(slot_of(key)));
    assert(known[slot_of(key)] == owner_of(before, key).bits);
    if known.contains_key(slot_of(own)) {
        assert(slot_of(own) == slot_of(key));
    } else {
        assert(known.contains_key((key.subject_id.type_id, key.subject_id.uid)));
    }
    assert(own == key);
    assert(after.actions.known =~= known);
}

/// The clips of a lane, one of them back under another id, are relabelled.
proof fn back_is_relabelled(clips: Seq<ActionClip>, i: int, action: ActionId)
    requires
        takes_back(clips, i),
    ensures
        clips.update(i, ActionClip { id: action, ..clips[i] }) == relabel_clips(
            clips,
            clips[i].id,
            action,
        ),
{
    let from = clips[i].id;
    let whole = clips.update(i, ActionClip { id: action, ..clips[i] });
    assert forall|j: int| 0 <= j < clips.len() implies whole[j] == relabel_clips(
        clips,
        from,
        action,
    )[j] by {
        if j != i {
            assert(clips[j].id != from);
        }
    }
    assert(whole =~= relabel_clips(clips, from, action));
}

/// Clips that are not of an action stay what they are.
proof fn others_are_relabelled(clips: Seq<ActionClip>, from: ActionId, to: ActionId)
    requires
        forall|j: int| 0 <= j < clips.len() ==> (#[trigger] clips[j]).id != from,
    ensures
        relabel_clips(clips, from, to) == clips,
{
    assert(relabel_clips(clips, from, to) =~= clips);
}

/// The lanes of a timeline that took a clip back are those that it had.
proof fn lanes_come_back(
    before: TimelineModel,
    later: TimelineModel,
    after: TimelineModel,
    t: int,
    key: ActionKey,
    i: int,
    action: ActionId,
)
    requires
        0 <= t < before.tracks.len(),
        later.tracks.len() == before.tracks.len(),
        lanes_differ(before.tracks),
        lanes_of(before, t).contains_key(key),
        takes_back(lanes_of(before, t)[key], i),
        forall|j: int| j != t ==> #[trigger] lanes_of(later, j) == lanes_of(before, j),
        lanes_of(later, t) == without_clip(
            lanes_of(before, t),
            key,
            lanes_of(before, t)[key][i].id,
        ),
        after.tracks.len() == before.tracks.len(),
        forall|j: int| j != t ==> #[trigger] lanes_of(after, j) == lanes_of(later, j),
        lanes_of(after, t) == lanes_of(later, t).insert(
            key,
            lanes_of(before, t)[key].update(
                i,
                ActionClip { id: action, ..lanes_of(before, t)[key][i] },
            ),
        ),
    ensures
        lanes_relabelled(before.tracks, after.tracks, lanes_of(before, t)[key][i].id, action),
{
    let clips = lanes_of(before, t)[key];
    let from = clips[i].id;
    back_is_relabelled(clips, i, action);
    assert forall|u: int, k: ActionKey|
        #![trigger before.tracks[u].lanes().contains_key(k)]
        #![trigger after.tracks[u].lanes().contains_key(k)]
        0 <= u < before.tracks.len() implies {
        &&& before.tracks[u].lanes().contains_key(k) <==> after.tracks[u].lanes().contains_key(k)
        &&& before.tracks[u].lanes().contains_key(k) ==> after.tracks[u].lanes()[k]
            == relabel_clips(before.tracks[u].lanes()[k], from, action)
    } by {
        assert(u != t ==> lanes_of(later, u) == lanes_of(before, u));
        assert(u != t ==> lanes_of(after, u) == lanes_of(later, u));
        assert(lanes_of(after, u) == after.tracks[u].lanes());
        assert(lanes_of(before, u) == before.tracks[u].lanes());
        if before.tracks[u].lanes().contains_key(k) && (u, k) != (t, key) {
            let held = before.tracks[u].lanes()[k];
            assert(before.tracks[t].lanes().contains_key(key));
            assert(clips_differ(held, clips));
            assert forall|j: int| 0 <= j < held.len() implies (#[trigger] held[j]).id != from by {
                assert(held[j].id != clips[i].id);
            }
            others_are_relabelled(held, from, action);
        }
    }
}

/// Baking leaves a timeline alone, but for what is baked.
proof fn baking_bakes_only<H: RemoteHost>(
    host: &H,
    id: TimelineId,
    before: StudioModel,
    snapped: StudioModel,
)
    requires
        before.timelines.contains_key(id),
        baked(host, id, before, snapped),
    ensures
        snapped.timelines[id] == (TimelineModel {
            actions: snapped.timelines[id].actions,
            ..before.timelines[id]
        }),
        snapped.registry == before.registry,
        snapped.catalog == before.catalog,
        snapped.timelines[id].actions.subjects == before.timelines[id].actions.subjects,
        snapped.timelines[id].actions.known == before.timelines[id].actions.known,
        snapped.timelines[id].actions.actions.dom()
            == before.timelines[id].actions.actions.dom(),
        forall|action: ActionId| #[trigger]
            before.timelines[id].actions.has(action) ==> record_alike(
                before.timelines[id].actions.actions[action],
                snapped.timelines[id].actions.actions[action],
            ),
{
    baking_keeps_clips(host, id, before, snapped);
}

/// A subject and a count that lost an action and got it again are what they were.
proof fn counts_come_back(
    before: TimelineModel,
    key: ActionKey,
    pipeline: PipelineKey,
)
    requires
        in_order(before),
        before.actions.subjects.contains_key(slot_of(key)),
        before.counts.contains_key(pipeline),
    ensures
        claimed(
            released(before.actions.subjects, slot_of(key)),
            owner_of(before, key),
            key.subject_id.uid,
        ) == before.actions.subjects,
        bumped(decremented(before.counts, pipeline), pipeline) == before.counts,
{
    let slot = slot_of(key);
    assert(1 <= before.actions.subjects[slot].instances < u32::MAX);
    assert(1 <= before.counts[pipeline] < u32::MAX);
    assert(claimed(
        released(before.actions.subjects, slot),
        owner_of(before, key),
        key.subject_id.uid,
    ) =~= before.actions.subjects);
    assert(bumped(decremented(before.counts, pipeline), pipeline) =~= before.counts);
}

/// Whether an action interpolates as its pipeline says, and is counted there.
pub open spec fn interpolates(studio: StudioModel, id: TimelineId, action: ActionId) -> bool {
    let model = studio.timelines[id];
    let record = model.actions.actions[action];
    let pipeline = PipelineKey::of_action_key(BEVY_WORLD_TAG, record.key);
    &&& record.interp == Some(studio.registry.remote@[pipeline])
    &&& model.counts.contains_key(pipeline)
}

/// Whether a clip was removed and inserted again, with nothing but baking in
/// between that reads no more baselines. Removing bakes first.
pub open spec fn removed_and_back<H: RemoteHost>(
    host: &H,
    id: TimelineId,
    track: usize,
    action_id: u64,
    outcome: OpResult,
    inverse: EditOp,
    before: StudioModel,
    snapped: StudioModel,
    between: StudioModel,
    later: StudioModel,
    after: StudioModel,
    result: Applied,
) -> bool {
    &&& remove_stepped(
        host,
        id,
        track,
        action_id,
        before,
        snapped,
        Ok(inverse),
        between,
        Ok((outcome, inverse)),
    )
    &&& baked(host, id, between, later)
    &&& later.timelines[id].actions.baselines == between.timelines[id].actions.baselines
    &&& op_applied(host, id, inverse, later, after, result)
}

/// Inserting a clip again that was removed gives the timeline that was there, as it
/// was baked before the removal, but for the id of the action: the same subjects
/// under the same ids, the same baselines and counts, and the playhead where it
/// was.
pub proof fn undone_removals_relabel<H: RemoteHost>(
    host: &H,
    id: TimelineId,
    track: usize,
    action_id: u64,
    outcome: OpResult,
    inverse: EditOp,
    before: StudioModel,
    snapped: StudioModel,
    between: StudioModel,
    later: StudioModel,
    after: StudioModel,
    result: Applied,
) -> (action: ActionId)
    requires
        reads_back(host),
        restorable(before, id),
        in_order(before.timelines[id]),
        lanes_differ(before.timelines[id].tracks),
        labels_owned(before, id),
        interpolates(before, id, ActionId { bits: action_id }),
        removed_and_back(
            host,
            id,
            track,
            action_id,
            outcome,
            inverse,
            before,
            snapped,
            between,
            later,
            after,
            result,
        ),
        inverse is Insert || inverse is InsertKeyframes,
        neat(later.timelines[id]),
    ensures
        result is Ok,
        ({
            let (x, y) = (snapped.timelines[id], after.timelines[id]);
            let removed = ActionId { bits: action_id };
            &&& relabelled(x, y, removed, action)
            &&& is_clip_of(x, x.actions.actions[removed].key, removed)
            &&& y == (TimelineModel {
                actions: y.actions,
                counts: y.counts,
                tracks: x.tracks.update(track as int, y.tracks[track as int]),
                ..x
            })
            &&& track < x.tracks.len()
            &&& ends_laid_out(y, track as int)
        }),
{
    let removed = ActionId { bits: action_id };
    let t = track as int;
    assert(baked(host, id, before, snapped));
    baking_bakes_only(host, id, before, snapped);
    baking_keeps_clips(host, id, between, later);
    baking_bakes_only(host, id, between, later);
    removing_takes_out(
        host,
        id,
        track,
        action_id,
        before,
        snapped,
        between,
        outcome,
        inverse,
        later,
    );
    let (a, s, m, b, c) = (
        before.timelines[id],
        snapped.timelines[id],
        between.timelines[id],
        later.timelines[id],
        after.timelines[id],
    );
    assert(is_snapshot(host, snapped, id, track, removed, Ok(inverse)));
    clip_on_is_of_a_lane(s, track, removed);
    let clip = clip_on(s, track, removed)->0;
    let lanes = a.tracks[t].lanes();
    let own = choose|own: ActionKey| #[trigger]
        lanes.contains_key(own) && lanes[own].contains(clip);
    lane_holds(a, t, own, clip);
    snapshots_describe(host, id, before, snapped, (t, clip), inverse);
    let one = shown_at(before, id, t, clip);
    let (key, target) = described_is_planned(host, id, inverse, one, later, after, result);
    let at = placement_of(inverse)->0;
    let clips = lanes[own];
    let i = choose|i: int| 0 <= i < clips.len() && clips[i] == clip;
    assert(lane_in_order(a, own, clips));
    ordered_lane_takes_back(a, own, clips, i);
    let action = placing_takes_back(
        id,
        &at,
        key,
        target,
        before,
        later,
        after,
        result,
        t,
        own,
        i,
    );
    let pipeline = PipelineKey::of_action_key(BEVY_WORLD_TAG, own);
    assert(key.pipeline == pipeline);
    key_comes_back(a, b, c, t, own, clips, i, action);
    counts_come_back(a, own, pipeline);
    assert(m.tracks.len() == s.tracks.len());
    lanes_come_back(a, b, c, t, own, i, action);
    assert(m.tracks =~= s.tracks.update(t, m.tracks[t]));
    assert(c.tracks =~= s.tracks.update(t, c.tracks[t]));
    assert(b.actions.actions.dom() == s.actions.actions.dom().remove(removed));
    assert(c.actions.actions.dom() =~= s.actions.actions.dom().remove(removed).insert(action));
    assert forall|other: ActionId| #[trigger] s.actions.has(other) implies record_alike(
        s.actions.actions[other],
        c.actions.actions[relabel(other, removed, action)],
    ) by {
        assert(s.actions.actions.dom().contains(other));
        assert(a.actions.actions.dom().contains(other));
        assert(a.actions.has(other));
        assert(record_alike(a.actions.actions[other], s.actions.actions[other]));
        if other == removed {
            assert(action_restorable(before, id, removed));
        } else {
            assert(m.actions.actions.dom().contains(other));
            assert(m.actions.has(other));
            assert(b.actions.actions.dom().contains(other));
        }
    }
    assert(!b.actions.has(action));
    assert(action == removed || !s.actions.has(action)) by {
        if s.actions.has(action) && action != removed {
            assert(b.actions.actions.dom().contains(action));
        }
    }
    assert(clip_in(s, t, own, i));
    action
}

/// Tracks with relabelled lanes end at the same time.
proof fn relabelled_end_alike(x: Track, y: Track, from: ActionId, to: ActionId)
    requires
        furthest_end(x.lanes(), x.duration()),
        furthest_end(y.lanes(), y.duration()),
        forall|key: ActionKey|
            #![trigger x.lanes().contains_key(key)]
            #![trigger y.lanes().contains_key(key)]
            {
                &&& x.lanes().contains_key(key) <==> y.lanes().contains_key(key)
                &&& x.lanes().contains_key(key) ==> y.lanes()[key] == relabel_clips(
                    x.lanes()[key],
                    from,
                    to,
                ) && x.lanes()[key].len() > 0
            },
    ensures
        y.duration() == x.duration(),
{
    assert forall|key: ActionKey| #[trigger] x.lanes().contains_key(key) implies y.lanes()[key].last().end()
        == x.lanes()[key].last().end() by {
        let (p, q) = (x.lanes()[key], y.lanes()[key]);
        assert(q.len() == p.len());
        assert(q[q.len() - 1].start == p[p.len() - 1].start);
    }
    if x.duration() != 0 {
        let key = choose|key: ActionKey| #[trigger]
            x.lanes().contains_key(key) && x.lanes()[key].last().end() == x.duration();
        assert(y.lanes().contains_key(key));
    }
    if y.duration() != 0 {
        let key = choose|key: ActionKey| #[trigger]
            y.lanes().contains_key(key) && y.lanes()[key].last().end() == y.duration();
        assert(x.lanes().contains_key(key));
    }
}

/// What plays after a removal was undone is what played before it. Both timelines
/// are baked, and their playheads move to the same time: whatever is picked of the
/// one, the same can be picked of the other, and then what sampling can write for
/// the one, it can write for the other. This is for lanes that are baked with the
/// timeline, for a track that ends with its last clip, and for hosts that act alike.
pub proof fn undone_removals_play_alike<H: RemoteHost>(
    host: &H,
    other: &H,
    id: TimelineId,
    track: usize,
    action_id: u64,
    outcome: OpResult,
    inverse: EditOp,
    before: StudioModel,
    snapped: StudioModel,
    between: StudioModel,
    later: StudioModel,
    after: StudioModel,
    result: Applied,
    x1: TimelineModel,
    y1: TimelineModel,
    picks: Seq<Picked>,
) -> (action: ActionId)
    requires
        reads_back(host),
        restorable(before, id),
        in_order(before.timelines[id]),
        labels_owned(before, id),
        interpolates(before, id, ActionId { bits: action_id }),
        removed_and_back(
            host,
            id,
            track,
            action_id,
            outcome,
            inverse,
            before,
            snapped,
            between,
            later,
            after,
            result,
        ),
        inverse is Insert || inverse is InsertKeyframes,
        neat(later.timelines[id]),
        act_alike(host, other),
        finds_all(host),
        finds_all(other),
        lanes_ready(before.registry, snapped.timelines[id], BEVY_WORLD_TAG),
        snapped.timelines[id].playable(),
        track < before.timelines[id].tracks.len(),
        ends_laid_out(before.timelines[id], track as int),
        timeline_baked(host, before.registry, snapped.timelines[id], x1),
        timeline_baked(other, before.registry, after.timelines[id], y1),
        are_picks(x1, picks),
    ensures
        result is Ok,
        ({
            let others = other_picks(x1, y1, picks, ActionId { bits: action_id }, action);
            &&& are_picks(y1, others)
            &&& forall|
                source: &H,
                pipeline: PipelineKey,
                fields: Set<UntypedField>,
                writes: Seq<Write>,
            | #[trigger]
                pipeline_sampled(
                    source,
                    pipeline,
                    fields,
                    arrived(x1, picks).actions,
                    writes,
                ) ==> pipeline_sampled(
                    source,
                    pipeline,
                    fields,
                    arrived(y1, others).actions,
                    writes,
                )
        }),
{
    baking_bakes_only(host, id, before, snapped);
    let action = undone_removals_relabel(
        host,
        id,
        track,
        action_id,
        outcome,
        inverse,
        before,
        snapped,
        between,
        later,
        after,
        result,
    );
    let (x, y) = (snapped.timelines[id], after.timelines[id]);
    let t = track as int;
    assert forall|key: ActionKey|
        #![trigger x.tracks[t].lanes().contains_key(key)]
        #![trigger y.tracks[t].lanes().contains_key(key)]
        {
            &&& x.tracks[t].lanes().contains_key(key) <==> y.tracks[t].lanes().contains_key(key)
            &&& x.tracks[t].lanes().contains_key(key) ==> y.tracks[t].lanes()[key]
                == relabel_clips(
                x.tracks[t].lanes()[key],
                ActionId { bits: action_id },
                action,
            ) && x.tracks[t].lanes()[key].len() > 0
        } by {
        if x.tracks[t].lanes().contains_key(key) {
            assert(lane_owned(x.actions, key, x.tracks[t].lanes()[key]));
        }
    }
    relabelled_end_alike(x.tracks[t], y.tracks[t], ActionId { bits: action_id }, action);
    assert forall|u: int| 0 <= u < y.tracks.len() implies (#[trigger] y.tracks[u]).laid_out()
        && y.tracks[u].duration() == x.tracks[u].duration() by {
        assert(x.tracks[u].laid_out());
    }
    assert(same_playhead(x, y));
    relabelled_play_alike(
        host,
        other,
        before.registry,
        BEVY_WORLD_TAG,
        x,
        y,
        ActionId { bits: action_id },
        action,
        x1,
        y1,
        picks,
    );
    action
}

} // verus!
