//! What undoing a removal brings back where other clips got other ids.
use crate::action::subjects::slot_of;
use crate::action::world::is_uid_for;
use crate::action::{ActionClip, ActionId, ActionKey, Ease, InterpFn};
use crate::bevy_motiongfx::manager::TimelineId;
use crate::bevy_motiongfx::remote::batch::apply::op_applied;
use crate::bevy_motiongfx::remote::batch::clear_laws::{lane_holds, restorable, snapshots_describe};
use crate::bevy_motiongfx::remote::batch::insert::{
    insert_recorded, is_inserted, is_placed, made_room, room_taken, start_of, timeline_placed,
    Applied, InsertTarget,
};
use crate::bevy_motiongfx::remote::batch::laws::{
    baking_keeps_clips, clips_alike, in_order, lane_in_order, tidy, tracks_laid_out,
};
use crate::bevy_motiongfx::remote::batch::op::{EditOp, OpResult, Placement};
use crate::bevy_motiongfx::remote::batch::remove_laws::{
    holds_rest, inserted_is_back, ordered_lane_takes_back, others_without_one, removing_takes_out,
    taken_back, taken_out, takes_back,
};
use crate::bevy_motiongfx::remote::batch::restore_laws::{
    described_is_planned, has_lane, inserting_adds, is_planned, key_is_of_owner, labels_owned,
    labels_stay, lane_is_of_actions, lane_neat, lanes_of, listed, neat, neat_lane_stays, owner_of,
    owners_stay, record_is, room_is_empty, shown_clip, shown_lane, shows, Shown,
};
use crate::bevy_motiongfx::remote::batch::run::{op_tried, ops_run, ops_tried};
use crate::bevy_motiongfx::remote::batch::show_laws::{
    alike_shows, all_shown, lane_shown_in, lanes_shown_in, neat_clip, same_clips_show_alike,
    shown_at, shows_alike, timelines_show_all,
};
use crate::bevy_motiongfx::remote::batch::snapshot::{is_snapshot, remove_stepped};
use crate::bevy_motiongfx::remote::batch::undo_laws::{
    refused_edits_change_nothing, requested, revertible, taking_back,
};
use crate::bevy_motiongfx::remote::batch::update_laws::reads_back;
use crate::bevy_motiongfx::remote::batch::walk::{clip_on, clip_on_is_of_a_lane};
use crate::bevy_motiongfx::remote::fault::Fault;
use crate::bevy_motiongfx::remote::host::RemoteHost;
use crate::bevy_motiongfx::remote::persist::export::placement_of;
use crate::bevy_motiongfx::remote::studio::{baked, StudioModel};
use crate::pipeline::PipelineKey;
use crate::remote::{keyframes_fault, RemoteEditError, RemoteFieldKey};
use crate::sequence::non_overlapping;
use crate::subject::{Subject, UntypedField};
use crate::time::Ticks;
use crate::timeline::TimelineModel;
use crate::track::laws::starts_ascend;
use crate::track::{has_clip, lane, others};
use vstd::prelude::*;

verus! {

/// A lane with one more clip.
spec fn with_clip(
    held: Seq<ActionClip>,
    i: int,
    action: ActionId,
    start: Ticks,
    duration: Ticks,
) -> Seq<ActionClip> {
    held.insert(i, ActionClip { id: action, start, duration })
}

/// Whether there is room for a clip at a place of a lane.
#[verifier::opaque]
spec fn has_room(held: Seq<ActionClip>, i: int, start: Ticks, duration: Ticks) -> bool {
    let whole = with_clip(held, i, ActionId { bits: 0 }, start, duration);
    &&& 0 <= i <= held.len()
    &&& start >= 0
    &&& duration >= 0
    &&& starts_ascend(whole)
    &&& non_overlapping(whole)
}

/// A lane that has room for a clip takes it under any new id.
proof fn room_takes(
    held: Seq<ActionClip>,
    i: int,
    action: ActionId,
    start: Ticks,
    duration: Ticks,
)
    requires
        has_room(held, i, start, duration),
        !has_clip(held, action),
    ensures
        0 <= i <= held.len(),
        takes_back(with_clip(held, i, action, start, duration), i),
        others(with_clip(held, i, action, start, duration), action) == held,
{
    reveal(has_room);
    let whole = with_clip(held, i, action, start, duration);
    let model = with_clip(held, i, ActionId { bits: 0 }, start, duration);
    assert forall|j: int| 0 <= j < whole.len() implies (#[trigger] whole[j]).start
        == model[j].start && whole[j].end() == model[j].end() by {}
    assert(starts_ascend(whole)) by {
        assert forall|j: int, k: int| 0 <= j < k < whole.len() implies (#[trigger] whole[j]).start
            < (#[trigger] whole[k]).start by {
            assert(model[j].start < model[k].start);
        }
    }
    assert(non_overlapping(whole)) by {
        assert forall|j: int| 0 < j < whole.len() implies whole[j - 1].end() <= (
        #[trigger] whole[j]).start by {
            assert(model[j - 1].end() <= model[j].start);
            assert(whole[j - 1].end() == model[j - 1].end());
        }
    }
    assert forall|j: int| 0 <= j < whole.len() && j != i implies (#[trigger] whole[j]).id
        != whole[i].id by {
        let k = if j < i {
            j
        } else {
            j - 1
        };
        assert(whole[j] == held[k]);
        assert(held[k].id != action);
    }
    others_without_one(whole, i);
    assert(whole.remove(i) =~= held);
}

/// A timeline takes a clip where its lane has room for it.
proof fn timeline_takes_into(
    before: TimelineModel,
    after: TimelineModel,
    remote: Map<PipelineKey, InterpFn>,
    at: &Placement,
    key: RemoteFieldKey,
    subject: Subject,
    target: InsertTarget,
    ease: Option<Ease>,
    held: Seq<ActionClip>,
    i: int,
    result: Result<ActionId, RemoteEditError>,
)
    requires
        neat(before),
        timeline_placed(before, after, remote, *at, key, subject, target, ease, true, result),
        at.track < usize::MAX,
        key.pipeline.subject_id == subject.type_id,
        remote.contains_key(key.pipeline),
        match target {
            InsertTarget::Constant(value) => value.type_id == key.pipeline.target_id,
            InsertTarget::Keyframes(keyframes) => keyframes_fault(
                keyframes,
                key.pipeline.target_id,
            ) is None,
        },
        holds_rest(before, at.track as int, key.field, subject, held),
        has_room(held, i, start_of(*at), at.duration),
    ensures
        result is Ok,
        0 <= i <= held.len(),
        !has_clip(held, result->Ok_0),
        taken_back(
            before,
            after,
            at.track as int,
            key.field,
            subject,
            with_clip(held, i, result->Ok_0, start_of(*at), at.duration),
            i,
            result->Ok_0,
        ),
        record_is(after, result->Ok_0, target, ease, at.enabled == Some(false)),
{
    let ready = choose|ready: TimelineModel|
        {
            &&& #[trigger] made_room(before, ready, *at, true)
            &&& room_taken(ready, after, remote, *at, key, subject, target, ease, true, result)
        };
    room_is_empty(before, ready, *at);
    if at.track < before.tracks.len() {
        assert(ready.tracks.take(before.tracks.len() as int) =~= ready.tracks);
    }
    let (inserted, moved, action) = choose|
        inserted: TimelineModel,
        moved: TimelineModel,
        action: ActionId,
    |
        {
            &&& is_inserted(ready, inserted, remote, *at, key, subject, target, ease, action)
            &&& #[trigger] is_placed(inserted, moved, after, *at, true, action, result)
        };
    assert(is_inserted(ready, inserted, remote, *at, key, subject, target, ease, action));
    inserting_adds(ready, inserted, remote, at, key, subject, target, ease, action);
    let own = inserted.actions.actions[action].key;
    let t = at.track as int;
    assert(lane(lanes_of(before, t), own) == held);
    assert(!has_clip(held, action)) by {
        if lanes_of(before, t).contains_key(own) {
            assert(before.tracks[t].lanes().contains_key(own));
            assert(lane_neat(before, own, held));
            lane_is_of_actions(before, own, held, action);
        }
    }
    room_takes(held, i, action, start_of(*at), at.duration);
    inserted_is_back(
        before,
        ready,
        inserted,
        moved,
        after,
        remote,
        at,
        key,
        subject,
        target,
        ease,
        with_clip(held, i, action, start_of(*at), at.duration),
        i,
        action,
        result,
    );
}

/// A lane stays neat with one more clip where it has room.
proof fn neat_lane_takes(
    before: TimelineModel,
    after: TimelineModel,
    key: ActionKey,
    held: Seq<ActionClip>,
    i: int,
    action: ActionId,
    start: Ticks,
    duration: Ticks,
)
    requires
        held.len() > 0 ==> lane_neat(before, key, held),
        has_room(held, i, start, duration),
        !has_clip(held, action),
        !before.actions.has(action),
        after.actions.actions == before.actions.actions.insert(
            action,
            after.actions.actions[action],
        ),
        after.actions.actions[action].key == key,
        after.actions.subjects.contains_key(slot_of(key)),
    ensures
        lane_neat(after, key, with_clip(held, i, action, start, duration)),
{
    room_takes(held, i, action, start, duration);
    reveal(has_room);
    reveal(lane_neat);
    let whole = with_clip(held, i, action, start, duration);
    assert forall|j: int| 0 <= j < whole.len() && j != i implies {
        let k = if j < i {
            j
        } else {
            j - 1
        };
        &&& #[trigger] whole[j] == held[k]
        &&& 0 <= k < held.len()
        &&& before.actions.has(whole[j].id)
        &&& whole[j].start >= 0
        &&& whole[j].duration >= 0
        &&& before.actions.actions[whole[j].id].key == key
    } by {
        let k = if j < i {
            j
        } else {
            j - 1
        };
        assert(whole[j] == held[k]);
        assert(before.actions.has(held[k].id));
    }
    assert forall|j: int, k: int| 0 <= j < k < whole.len() implies (#[trigger] whole[j]).id != (
    #[trigger] whole[k]).id by {
        if j != i && k != i {
            let x = if j < i {
                j
            } else {
                j - 1
            };
            let y = if k < i {
                k
            } else {
                k - 1
            };
            assert(whole[j] == held[x] && whole[k] == held[y]);
            assert(held[x].id != held[y].id);
        }
    }
}

/// A timeline that took a clip is neat.
proof fn taking_stays_neat(
    before: TimelineModel,
    after: TimelineModel,
    t: int,
    field: UntypedField,
    subject: Subject,
    held: Seq<ActionClip>,
    i: int,
    action: ActionId,
    start: Ticks,
    duration: Ticks,
)
    requires
        neat(before),
        holds_rest(before, t, field, subject, held),
        has_room(held, i, start, duration),
        !has_clip(held, action),
        taken_back(
            before,
            after,
            t,
            field,
            subject,
            with_clip(held, i, action, start, duration),
            i,
            action,
        ),
    ensures
        neat(after),
{
    let own = after.actions.actions[action].key;
    let whole = with_clip(held, i, action, start, duration);
    room_takes(held, i, action, start, duration);
    owners_stay(before, after, subject, own.subject_id.uid);
    assert(lane(lanes_of(before, t), own) == held);
    assert(whole.update(i, ActionClip { id: action, ..whole[i] }) =~= whole);
    assert forall|n: int, k: ActionKey|
        0 <= n < after.tracks.len() && #[trigger] after.tracks[n].lanes().contains_key(
            k,
        ) implies lane_neat(after, k, after.tracks[n].lanes()[k]) by {
        assert(lanes_of(after, n).contains_key(k));
        if n == t && k == own {
            if lanes_of(before, t).contains_key(own) {
                assert(before.tracks[t].lanes().contains_key(own));
                assert(lane_neat(before, own, before.tracks[t].lanes()[own]));
            }
            neat_lane_takes(before, after, own, held, i, action, start, duration);
        } else {
            assert(n != t ==> lanes_of(after, n) == lanes_of(before, n));
            assert(lanes_of(before, n).contains_key(k));
            assert(before.tracks[n].lanes().contains_key(k));
            neat_lane_stays(
                before,
                after,
                k,
                before.tracks[n].lanes()[k],
                action,
                subject,
                own.subject_id.uid,
            );
        }
    }
}

/// The lane of another timeline that shows what is left of a lane.
proof fn rest_is_shown(
    before: StudioModel,
    between: StudioModel,
    later: StudioModel,
    id: TimelineId,
    t: int,
    key: ActionKey,
    action: ActionId,
) -> (held: Seq<ActionClip>)
    requires
        neat(before.timelines[id]),
        neat(between.timelines[id]),
        neat(later.timelines[id]),
        taken_out(before, between, id, t, key, action),
        lanes_of(before.timelines[id], t).contains_key(key),
        shows_alike(between, id, later, id),
    ensures
        holds_rest(
            later.timelines[id],
            t,
            key.field,
            owner_of(before.timelines[id], key),
            held,
        ),
        shown_lane(later, id, held) == shown_lane(
            between,
            id,
            others(lanes_of(before.timelines[id], t)[key], action),
        ),
{
    let (a, m, b) = (before.timelines[id], between.timelines[id], later.timelines[id]);
    let subject = owner_of(a, key);
    let rest = others(lanes_of(a, t)[key], action);
    assert(a.tracks[t].lanes().contains_key(key));
    neat_clip(a, key, a.tracks[t].lanes()[key], 0);
    let lanes = lanes_of(b, t);
    if rest.len() > 0 {
        assert(lanes_of(m, t).contains_key(key));
        assert(m.tracks[t].lanes().contains_key(key));
        neat_clip(m, key, m.tracks[t].lanes()[key], 0);
        assert(owner_of(m, key) == subject);
        assert(lane_shown_in(later, id, t, subject, key.field, shown_lane(between, id, rest)));
        let found = choose|found: ActionKey| #[trigger]
            b.tracks[t].lanes().contains_key(found) && owner_of(b, found) == subject && found.field
                == key.field && shown_lane(later, id, b.tracks[t].lanes()[found]) == shown_lane(
                between,
                id,
                rest,
            );
        neat_clip(b, found, b.tracks[t].lanes()[found], 0);
        let held = b.tracks[t].lanes()[found];
        assert forall|other: ActionKey|
            #![trigger lane(lanes, other)]
            other.field == key.field && other.subject_id.type_id == subject.type_id
                && is_uid_for(
                b.actions.known,
                subject,
                other.subject_id.uid,
            ) implies lane(lanes, other) == held by {
            key_is_of_owner(b, subject, other, found);
        }
        held
    } else {
        let held = Seq::<ActionClip>::empty();
        assert forall|other: ActionKey|
            #![trigger lane(lanes, other)]
            other.field == key.field && other.subject_id.type_id == subject.type_id
                && is_uid_for(
                b.actions.known,
                subject,
                other.subject_id.uid,
            ) implies lane(lanes, other) == held by {
            if lanes.contains_key(other) {
                assert(b.tracks[t].lanes().contains_key(other));
                let clips = b.tracks[t].lanes()[other];
                neat_clip(b, other, clips, 0);
                assert(owner_of(b, other) == subject);
                let shown = shown_lane(later, id, clips);
                assert(lane_shown_in(between, id, t, subject, key.field, shown));
                let found = choose|found: ActionKey| #[trigger]
                    m.tracks[t].lanes().contains_key(found) && owner_of(m, found) == subject
                        && found.field == key.field && shown_lane(
                        between,
                        id,
                        m.tracks[t].lanes()[found],
                    ) == shown;
                assert(lanes_of(m, t).contains_key(found));
                neat_clip(m, found, m.tracks[t].lanes()[found], 0);
                assert(owner_of(a, found) == subject);
                assert(slot_of(found) == slot_of(key));
                assert(found == key);
            }
        }
        assert(shown_lane(later, id, held) =~= shown_lane(between, id, rest));
        held
    }
}

/// A lane from which a clip was removed has room for it again, whatever the ids of
/// the others.
proof fn rest_has_room(clips: Seq<ActionClip>, i: int, held: Seq<ActionClip>)
    requires
        takes_back(clips, i),
        clips[i].duration >= 0,
        held.len() + 1 == clips.len(),
        forall|j: int|
            0 <= j < held.len() ==> (#[trigger] held[j]).start == clips.remove(i)[j].start
                && held[j].duration == clips.remove(i)[j].duration,
    ensures
        has_room(held, i, clips[i].start, clips[i].duration),
{
    reveal(has_room);
    let whole = with_clip(held, i, ActionId { bits: 0 }, clips[i].start, clips[i].duration);
    assert forall|j: int| 0 <= j < whole.len() implies (#[trigger] whole[j]).start
        == clips[j].start && whole[j].duration == clips[j].duration by {
        if j < i {
            assert(whole[j] == held[j]);
        } else if j > i {
            assert(whole[j] == held[j - 1]);
        }
    }
    assert forall|j: int, k: int| 0 <= j < k < whole.len() implies (#[trigger] whole[j]).start < (
    #[trigger] whole[k]).start by {
        assert(clips[j].start < clips[k].start);
    }
    assert forall|j: int| 0 < j < whole.len() implies whole[j - 1].end() <= (
    #[trigger] whole[j]).start by {
        assert(clips[j - 1].end() <= clips[j].start);
        assert(whole[j - 1].end() == clips[j - 1].end());
    }
}

/// A lane that shows what is left of another one has room for the clip that was
/// removed.
proof fn shown_rest_has_room(
    between: StudioModel,
    later: StudioModel,
    id: TimelineId,
    clips: Seq<ActionClip>,
    i: int,
    held: Seq<ActionClip>,
)
    requires
        takes_back(clips, i),
        clips[i].duration >= 0,
        shown_lane(later, id, held) == shown_lane(between, id, others(clips, clips[i].id)),
    ensures
        has_room(held, i, clips[i].start, clips[i].duration),
{
    let rest = others(clips, clips[i].id);
    others_without_one(clips, i);
    assert(shown_lane(later, id, held).len() == held.len());
    assert(shown_lane(between, id, rest).len() == rest.len());
    assert forall|j: int| 0 <= j < held.len() implies (#[trigger] held[j]).start == clips.remove(
        i,
    )[j].start && held[j].duration == clips.remove(i)[j].duration by {
        assert(shown_lane(later, id, held)[j] == shown_lane(between, id, rest)[j]);
    }
    rest_has_room(clips, i, held);
}

/// Whether a timeline took a clip in place of one that was removed, and shows it as
/// that one showed.
spec fn taken_for(
    before: StudioModel,
    later: StudioModel,
    after: StudioModel,
    id: TimelineId,
    t: int,
    key: ActionKey,
    i: int,
    held: Seq<ActionClip>,
    action: ActionId,
) -> bool {
    let clips = lanes_of(before.timelines[id], t)[key];
    let whole = with_clip(held, i, action, clips[i].start, clips[i].duration);
    &&& taken_back(
        later.timelines[id],
        after.timelines[id],
        t,
        key.field,
        owner_of(before.timelines[id], key),
        whole,
        i,
        action,
    )
    &&& shown_clip(after, id, whole[i]) == shown_clip(before, id, clips[i])
    &&& forall|old: ActionClip|
        later.timelines[id].actions.has(old.id) ==> #[trigger] shown_clip(after, id, old)
            == shown_clip(later, id, old)
}

/// The lane that took a clip shows what the lane showed from which it was removed.
proof fn lane_shows_again(
    before: StudioModel,
    between: StudioModel,
    later: StudioModel,
    after: StudioModel,
    id: TimelineId,
    t: int,
    key: ActionKey,
    i: int,
    held: Seq<ActionClip>,
    action: ActionId,
)
    requires
        neat(before.timelines[id]),
        neat(later.timelines[id]),
        lanes_of(before.timelines[id], t).contains_key(key),
        takes_back(lanes_of(before.timelines[id], t)[key], i),
        taken_out(
            before,
            between,
            id,
            t,
            key,
            lanes_of(before.timelines[id], t)[key][i].id,
        ),
        holds_rest(later.timelines[id], t, key.field, owner_of(before.timelines[id], key), held),
        shown_lane(later, id, held) == shown_lane(
            between,
            id,
            others(
                lanes_of(before.timelines[id], t)[key],
                lanes_of(before.timelines[id], t)[key][i].id,
            ),
        ),
        taken_for(before, later, after, id, t, key, i, held, action),
    ensures
        ({
            let clips = lanes_of(before.timelines[id], t)[key];
            let own = after.timelines[id].actions.actions[action].key;
            &&& lanes_of(after.timelines[id], t).contains_key(own)
            &&& shown_lane(after, id, lanes_of(after.timelines[id], t)[own]) == shown_lane(
                before,
                id,
                clips,
            )
        }),
{
    let (a, m, b, c) = (
        before.timelines[id],
        between.timelines[id],
        later.timelines[id],
        after.timelines[id],
    );
    let clips = lanes_of(a, t)[key];
    let removed = clips[i].id;
    let rest = others(clips, removed);
    let whole = with_clip(held, i, action, clips[i].start, clips[i].duration);
    let own = c.actions.actions[action].key;
    others_without_one(clips, i);
    assert(shown_lane(later, id, held).len() == shown_lane(between, id, rest).len());
    assert(whole.update(i, ActionClip { id: action, ..whole[i] }) =~= whole);
    assert(lanes_of(c, t)[own] == whole);
    assert(lane(lanes_of(b, t), own) == held);
    assert(a.tracks[t].lanes().contains_key(key));
    assert forall|j: int| 0 <= j < whole.len() implies shown_lane(after, id, whole)[j]
        == shown_lane(before, id, clips)[j] by {
        if j != i {
            let k = if j < i {
                j
            } else {
                j - 1
            };
            assert(whole[j] == held[k]);
            assert(rest[k] == clips[j]);
            assert(lanes_of(b, t).contains_key(own));
            assert(b.tracks[t].lanes().contains_key(own));
            neat_clip(b, own, held, k);
            assert(shown_clip(after, id, held[k]) == shown_clip(later, id, held[k]));
            assert(shown_lane(later, id, held)[k] == shown_lane(between, id, rest)[k]);
            neat_clip(a, key, clips, j);
            assert(clips[j].id != removed);
            assert(m.actions.has(clips[j].id));
            assert(shown_clip(between, id, clips[j]) == shown_clip(before, id, clips[j]));
        }
    }
    assert(shown_lane(after, id, whole) =~= shown_lane(before, id, clips));
}

/// A timeline that took a clip in place of one that was removed shows what there was.
proof fn timeline_shows_again(
    before: StudioModel,
    between: StudioModel,
    later: StudioModel,
    after: StudioModel,
    id: TimelineId,
    t: int,
    key: ActionKey,
    i: int,
    held: Seq<ActionClip>,
    action: ActionId,
)
    requires
        neat(before.timelines[id]),
        neat(between.timelines[id]),
        neat(later.timelines[id]),
        lanes_of(before.timelines[id], t).contains_key(key),
        takes_back(lanes_of(before.timelines[id], t)[key], i),
        taken_out(
            before,
            between,
            id,
            t,
            key,
            lanes_of(before.timelines[id], t)[key][i].id,
        ),
        shows_alike(between, id, later, id),
        holds_rest(later.timelines[id], t, key.field, owner_of(before.timelines[id], key), held),
        shown_lane(later, id, held) == shown_lane(
            between,
            id,
            others(
                lanes_of(before.timelines[id], t)[key],
                lanes_of(before.timelines[id], t)[key][i].id,
            ),
        ),
        taken_for(before, later, after, id, t, key, i, held, action),
    ensures
        shows_alike(before, id, after, id),
{
    let (a, m, b, c) = (
        before.timelines[id],
        between.timelines[id],
        later.timelines[id],
        after.timelines[id],
    );
    let clips = lanes_of(a, t)[key];
    let subject = owner_of(a, key);
    let own = c.actions.actions[action].key;
    lane_shows_again(before, between, later, after, id, t, key, i, held, action);
    owners_stay(b, c, subject, own.subject_id.uid);
    assert(owner_of(c, own) == subject);
    assert(a.tracks[t].lanes().contains_key(key));
    neat_clip(a, key, clips, 0);
    assert(lanes_shown_in(before, id, after, id)) by {
        assert forall|n: int, k: ActionKey|
            0 <= n < a.tracks.len() && #[trigger] a.tracks[n].lanes().contains_key(
                k,
            ) implies lane_shown_in(
            after,
            id,
            n,
            owner_of(a, k),
            k.field,
            shown_lane(before, id, a.tracks[n].lanes()[k]),
        ) by {
            if n == t && k == key {
                assert(c.tracks[t].lanes().contains_key(own));
            } else {
                let kept = a.tracks[n].lanes()[k];
                assert(n != t ==> lanes_of(m, n) == lanes_of(a, n));
                assert(lanes_of(m, n).contains_key(k));
                assert(m.tracks[n].lanes().contains_key(k));
                assert(m.tracks[n].lanes()[k] == kept);
                neat_clip(m, k, kept, 0);
                kept_lane_shows(before, between, id, t, key, clips[i].id, k, kept);
                assert(owner_of(m, k) == owner_of(a, k));
                assert(lane_shown_in(
                    later,
                    id,
                    n,
                    owner_of(a, k),
                    k.field,
                    shown_lane(before, id, kept),
                ));
                let found = choose|found: ActionKey| #[trigger]
                    b.tracks[n].lanes().contains_key(found) && owner_of(b, found) == owner_of(a, k)
                        && found.field == k.field && shown_lane(
                        later,
                        id,
                        b.tracks[n].lanes()[found],
                    ) == shown_lane(before, id, kept);
                neat_clip(b, found, b.tracks[n].lanes()[found], 0);
                if n == t && found == own {
                    assert(owner_of(a, k) == subject);
                    assert(slot_of(k) == slot_of(key));
                    assert(k == key);
                }
                assert(n != t ==> lanes_of(c, n) == lanes_of(b, n));
                assert(lanes_of(b, n).contains_key(found));
                assert(lanes_of(c, n).contains_key(found));
                assert(c.tracks[n].lanes().contains_key(found));
                old_lane_shows(later, after, id, found, b.tracks[n].lanes()[found]);
            }
        }
    }
    assert(lanes_shown_in(after, id, before, id)) by {
        assert forall|n: int, k: ActionKey|
            0 <= n < c.tracks.len() && #[trigger] c.tracks[n].lanes().contains_key(
                k,
            ) implies lane_shown_in(
            before,
            id,
            n,
            owner_of(c, k),
            k.field,
            shown_lane(after, id, c.tracks[n].lanes()[k]),
        ) by {
            assert(lanes_of(c, n).contains_key(k));
            if n == t && k == own {
                assert(a.tracks[t].lanes().contains_key(key));
            } else {
                assert(n != t ==> lanes_of(c, n) == lanes_of(b, n));
                assert(lanes_of(b, n).contains_key(k));
                assert(b.tracks[n].lanes().contains_key(k));
                let kept = b.tracks[n].lanes()[k];
                neat_clip(b, k, kept, 0);
                old_lane_shows(later, after, id, k, kept);
                assert(lane_shown_in(
                    between,
                    id,
                    n,
                    owner_of(b, k),
                    k.field,
                    shown_lane(later, id, kept),
                ));
                let found = choose|found: ActionKey| #[trigger]
                    m.tracks[n].lanes().contains_key(found) && owner_of(m, found) == owner_of(b, k)
                        && found.field == k.field && shown_lane(
                        between,
                        id,
                        m.tracks[n].lanes()[found],
                    ) == shown_lane(later, id, kept);
                neat_clip(m, found, m.tracks[n].lanes()[found], 0);
                assert(lanes_of(m, n).contains_key(found));
                if n == t && found == key {
                    assert(owner_of(m, key) == subject);
                    key_is_of_owner(b, subject, own, k);
                }
                assert(n != t ==> lanes_of(m, n) == lanes_of(a, n));
                assert(lanes_of(a, n).contains_key(found));
                assert(a.tracks[n].lanes().contains_key(found));
                assert(a.tracks[n].lanes()[found] == m.tracks[n].lanes()[found]);
                kept_lane_shows(
                    before,
                    between,
                    id,
                    t,
                    key,
                    clips[i].id,
                    found,
                    m.tracks[n].lanes()[found],
                );
                assert(owner_of(m, found) == owner_of(a, found));
            }
        }
    }
}

/// A lane that a removal left alone shows what it showed.
proof fn kept_lane_shows(
    before: StudioModel,
    between: StudioModel,
    id: TimelineId,
    t: int,
    key: ActionKey,
    action: ActionId,
    k: ActionKey,
    clips: Seq<ActionClip>,
)
    requires
        taken_out(before, between, id, t, key, action),
        lane_neat(between.timelines[id], k, clips),
    ensures
        shown_lane(between, id, clips) == shown_lane(before, id, clips),
{
    assert forall|j: int| 0 <= j < clips.len() implies shown_lane(between, id, clips)[j]
        == shown_lane(before, id, clips)[j] by {
        neat_clip(between.timelines[id], k, clips, j);
        assert(shown_clip(between, id, clips[j]) == shown_clip(before, id, clips[j]));
    }
    assert(shown_lane(between, id, clips) =~= shown_lane(before, id, clips));
}

/// A lane that an insert left alone shows what it showed.
proof fn old_lane_shows(
    later: StudioModel,
    after: StudioModel,
    id: TimelineId,
    k: ActionKey,
    clips: Seq<ActionClip>,
)
    requires
        lane_neat(later.timelines[id], k, clips),
        forall|old: ActionClip|
            later.timelines[id].actions.has(old.id) ==> #[trigger] shown_clip(after, id, old)
                == shown_clip(later, id, old),
    ensures
        shown_lane(after, id, clips) == shown_lane(later, id, clips),
{
    assert forall|j: int| 0 <= j < clips.len() implies shown_lane(after, id, clips)[j]
        == shown_lane(later, id, clips)[j] by {
        neat_clip(later.timelines[id], k, clips, j);
        assert(shown_clip(after, id, clips[j]) == shown_clip(later, id, clips[j]));
    }
    assert(shown_lane(after, id, clips) =~= shown_lane(later, id, clips));
}

/// A clip that is placed where a lane has room for it is taken.
proof fn planned_is_taken(
    id: TimelineId,
    at: &Placement,
    key: RemoteFieldKey,
    target: InsertTarget,
    before: StudioModel,
    later: StudioModel,
    after: StudioModel,
    result: Applied,
    t: int,
    own: ActionKey,
    i: int,
    held: Seq<ActionClip>,
) -> (action: ActionId)
    requires
        neat(later.timelines[id]),
        later.timelines.contains_key(id),
        labels_owned(later, id),
        before.timelines[id].actions.actions[lanes_of(
            before.timelines[id],
            t,
        )[own][i].id].key == own,
        holds_rest(later.timelines[id], t, own.field, owner_of(before.timelines[id], own), held),
        ({
            let clip = lanes_of(before.timelines[id], t)[own][i];
            has_room(held, i, clip.start, clip.duration)
        }),
        is_planned(
            id,
            *at,
            key,
            target,
            shown_at(before, id, t, lanes_of(before.timelines[id], t)[own][i]),
            later,
            after,
            result,
        ),
    ensures
        result is Ok,
        taken_for(before, later, after, id, t, own, i, held, action),
        !has_clip(held, action),
        after.timelines.contains_key(id),
        labels_owned(after, id),
        after.catalog == later.catalog,
        after.registry == later.registry,
{
    let b = later.timelines[id];
    let clip = lanes_of(before.timelines[id], t)[own][i];
    let one = shown_at(before, id, t, clip);
    let remote = later.registry.remote@;
    let (c, placed) = choose|c: TimelineModel, placed: Result<ActionId, RemoteEditError>|
        {
            &&& #[trigger] timeline_placed(
                b,
                c,
                remote,
                *at,
                key,
                one.subject,
                target,
                one.clip.ease,
                true,
                placed,
            )
            &&& match placed {
                Err(error) => {
                    &&& result == Err::<(OpResult, EditOp), Fault>(Fault::Edit(error))
                    &&& after == later.with_timeline(id, c)
                },
                Ok(action) => {
                    &&& result is Ok
                    &&& after == insert_recorded(
                        later.with_timeline(id, c),
                        id,
                        action.bits,
                        *at,
                    )
                },
            }
        };
    timeline_takes_into(
        b,
        c,
        remote,
        at,
        key,
        one.subject,
        target,
        one.clip.ease,
        held,
        i,
        placed,
    );
    let action = placed->Ok_0;
    labels_stay(later, c, after, id, action, at);
    assert forall|old: ActionClip| b.actions.has(old.id) implies #[trigger] shown_clip(
        after,
        id,
        old,
    ) == shown_clip(later, id, old) by {
        assert(old.id.bits == old.id.bits);
        assert(c.actions.actions[old.id] == b.actions.actions[old.id]);
    }
    assert(with_clip(held, i, action, clip.start, clip.duration)[i] == (ActionClip {
        id: action,
        ..clip
    }));
    action
}

/// A clip that is placed where one was removed shows as that one.
proof fn planned_shows_again(
    id: TimelineId,
    at: &Placement,
    key: RemoteFieldKey,
    target: InsertTarget,
    before: StudioModel,
    between: StudioModel,
    later: StudioModel,
    after: StudioModel,
    result: Applied,
    t: int,
    own: ActionKey,
    i: int,
)
    requires
        neat(before.timelines[id]),
        neat(between.timelines[id]),
        neat(later.timelines[id]),
        later.timelines.contains_key(id),
        labels_owned(later, id),
        lanes_of(before.timelines[id], t).contains_key(own),
        takes_back(lanes_of(before.timelines[id], t)[own], i),
        lanes_of(before.timelines[id], t)[own][i].duration >= 0,
        before.timelines[id].actions.actions[lanes_of(
            before.timelines[id],
            t,
        )[own][i].id].key == own,
        taken_out(
            before,
            between,
            id,
            t,
            own,
            lanes_of(before.timelines[id], t)[own][i].id,
        ),
        shows_alike(between, id, later, id),
        is_planned(
            id,
            *at,
            key,
            target,
            shown_at(before, id, t, lanes_of(before.timelines[id], t)[own][i]),
            later,
            after,
            result,
        ),
    ensures
        result is Ok,
        shows_alike(before, id, after, id),
        after.timelines.contains_key(id),
        neat(after.timelines[id]),
        labels_owned(after, id),
        after.catalog == later.catalog,
        after.registry == later.registry,
{
    let clips = lanes_of(before.timelines[id], t)[own];
    let clip = clips[i];
    let held = rest_is_shown(before, between, later, id, t, own, clip.id);
    shown_rest_has_room(between, later, id, clips, i, held);
    let action = planned_is_taken(
        id,
        at,
        key,
        target,
        before,
        later,
        after,
        result,
        t,
        own,
        i,
        held,
    );
    taking_stays_neat(
        later.timelines[id],
        after.timelines[id],
        t,
        own.field,
        owner_of(before.timelines[id], own),
        held,
        i,
        action,
        clip.start,
        clip.duration,
    );
    timeline_shows_again(before, between, later, after, id, t, own, i, held, action);
}

/// Inserting a clip again that was removed, into a timeline that shows what the
/// removal left: it is not refused, and then the timeline shows what there was before
/// the removal. Clips may have got other ids in between. This is for hosts that read
/// what they wrote, and for clips that can be restored.
pub proof fn removed_clips_show_again<H: RemoteHost>(
    host: &H,
    id: TimelineId,
    track: usize,
    action_id: u64,
    outcome: OpResult,
    inverse: EditOp,
    before: StudioModel,
    between: StudioModel,
    later: StudioModel,
    after: StudioModel,
    result: Applied,
)
    requires
        reads_back(host),
        restorable(before, id),
        in_order(before.timelines[id]),
        labels_owned(before, id),
        op_applied(
            host,
            id,
            EditOp::Remove { track, action_id },
            before,
            between,
            Ok((outcome, inverse)),
        ),
        inverse is Insert || inverse is InsertKeyframes,
        neat(between.timelines[id]),
        shows_alike(between, id, later, id),
        later.timelines.contains_key(id),
        neat(later.timelines[id]),
        labels_owned(later, id),
        later.catalog == between.catalog,
        later.registry == between.registry,
        op_applied(host, id, inverse, later, after, result),
    ensures
        result is Ok,
        shows_alike(before, id, after, id),
        after.timelines.contains_key(id),
        neat(after.timelines[id]),
        labels_owned(after, id),
        after.catalog == later.catalog,
        after.registry == later.registry,
        later.catalog == before.catalog,
        later.registry == before.registry,
{
    let removed = ActionId { bits: action_id };
    let t = track as int;
    let (snapped, snapshot) = choose|snapped: StudioModel, snapshot: Result<EditOp, Fault>|
        #[trigger]
        remove_stepped(
            host,
            id,
            track,
            action_id,
            before,
            snapped,
            snapshot,
            between,
            Ok((outcome, inverse)),
        );
    assert(snapshot == Ok::<EditOp, Fault>(inverse));
    assert(clips_alike(id, between, between));
    removing_takes_out(
        host,
        id,
        track,
        action_id,
        before,
        snapped,
        between,
        outcome,
        inverse,
        between,
    );
    let (a, s) = (before.timelines[id], snapped.timelines[id]);
    assert(is_snapshot(host, snapped, id, track, removed, Ok(inverse)));
    clip_on_is_of_a_lane(s, track, removed);
    let clip = clip_on(s, track, removed)->0;
    let lanes = a.tracks[t].lanes();
    let own = choose|own: ActionKey| #[trigger]
        lanes.contains_key(own) && lanes[own].contains(clip);
    lane_holds(a, t, own, clip);
    assert(clip == (ActionClip { id: removed, ..clip }));
    snapshots_describe(host, id, before, snapped, (t, clip), inverse);
    let one = shown_at(before, id, t, clip);
    let (key, target) = described_is_planned(host, id, inverse, one, later, after, result);
    let at = placement_of(inverse)->0;
    let clips = lanes[own];
    let i = choose|i: int| 0 <= i < clips.len() && clips[i] == clip;
    assert(lane_in_order(a, own, clips));
    ordered_lane_takes_back(a, own, clips, i);
    neat_clip(a, own, clips, i);
    planned_shows_again(
        id,
        &at,
        key,
        target,
        before,
        between,
        later,
        after,
        result,
        t,
        own,
        i,
    );
}

/// Whether a timeline shows the same in another studio, and is in order there.
#[verifier::opaque]
spec fn shown_back(id: TimelineId, a: StudioModel, b: StudioModel) -> bool {
    &&& shows_alike(a, id, b, id)
    &&& b.timelines.contains_key(id)
    &&& neat(b.timelines[id])
    &&& labels_owned(b, id)
    &&& b.catalog == a.catalog
    &&& b.registry == a.registry
}

/// Whether an edit removes a clip that can be restored.
pub open spec fn restores_removed(
    id: TimelineId,
    op: EditOp,
    inverse: EditOp,
    before: StudioModel,
) -> bool {
    &&& op is Remove
    &&& inverse is Insert || inverse is InsertKeyframes
    &&& restorable(before, id)
}

/// Taking a removal back brings back what was shown before it.
proof fn one_restored<H: RemoteHost>(
    host: &H,
    id: TimelineId,
    op: EditOp,
    outcome: OpResult,
    inverse: EditOp,
    before: StudioModel,
    between: StudioModel,
    later: StudioModel,
    after: StudioModel,
    failed: bool,
)
    requires
        reads_back(host),
        tidy(id, before),
        restores_removed(id, op, inverse, before),
        op_applied(host, id, op, before, between, Ok((outcome, inverse))),
        neat(between.timelines[id]),
        shown_back(id, between, later),
        op_tried(host, id, inverse, later, after, failed),
    ensures
        !failed,
        shown_back(id, before, after),
{
    reveal(shown_back);
    let result = choose|result: Applied|
        {
            &&& #[trigger] op_applied(host, id, inverse, later, after, result)
            &&& failed == (result is Err)
        };
    match op {
        EditOp::Remove { track, action_id } => {
            removed_clips_show_again(
                host,
                id,
                track,
                action_id,
                outcome,
                inverse,
                before,
                between,
                later,
                after,
                result,
            );
        },
        _ => {},
    }
}

/// Taking removals back, newest first, brings back what was shown before them.
proof fn restoring_back<H: RemoteHost>(
    host: &H,
    id: TimelineId,
    ops: Seq<EditOp>,
    trace: Seq<StudioModel>,
    results: Seq<OpResult>,
    inverses: Seq<EditOp>,
    back: Seq<StudioModel>,
    failures: Seq<bool>,
    count: int,
    n: int,
)
    requires
        reads_back(host),
        ops_run(host, id, ops, trace, results, inverses),
        0 <= count <= ops.len(),
        forall|i: int| 0 <= i < trace.len() ==> tidy(id, #[trigger] trace[i]),
        forall|i: int|
            0 <= i < count ==> restores_removed(id, #[trigger] ops[i], inverses[i], trace[i]),
        neat(trace[count].timelines[id]),
        ops_tried(host, id, inverses.reverse(), back, failures),
        failures.len() == ops.len(),
        shown_back(id, trace[count], back[ops.len() - count]),
        ops.len() - count <= n <= ops.len(),
    ensures
        shown_back(id, trace[ops.len() - n], back[n]),
        forall|i: int| ops.len() - count <= i < n ==> !#[trigger] failures[i],
    decreases n,
{
    if n > ops.len() - count {
        restoring_back(
            host,
            id,
            ops,
            trace,
            results,
            inverses,
            back,
            failures,
            count,
            n - 1,
        );
        let i = ops.len() - n;
        let inverse = inverses.reverse()[n - 1];
        assert(inverse == inverses[i]);
        assert(op_tried(host, id, inverse, back[n - 1], back[n], failures[n - 1]));
        assert(restores_removed(id, ops[i], inverses[i], trace[i]));
        assert(tidy(id, trace[i]));
        assert(neat(trace[i + 1].timelines[id])) by {
            if i + 1 < count {
                assert(restores_removed(id, ops[i + 1], inverses[i + 1], trace[i + 1]));
            }
        }
        one_restored(
            host,
            id,
            ops[i],
            results[i],
            inverse,
            trace[i],
            trace[i + 1],
            back[n - 1],
            back[n],
            failures[n - 1],
        );
    }
}

/// What a timeline shows in one studio, it shows in another one where it shows alike.
proof fn alike_shows_list(id: TimelineId, a: StudioModel, b: StudioModel, shown: Seq<Shown>)
    requires
        shows(a, id, shown),
        shows_alike(a, id, b, id),
    ensures
        shows(b, id, shown),
{
    let (x, y) = (a.timelines[id], b.timelines[id]);
    assert forall|t: int, key: ActionKey|
        0 <= t < y.tracks.len() && #[trigger] y.tracks[t].lanes().contains_key(
            key,
        ) implies shown_lane(b, id, y.tracks[t].lanes()[key]) == listed(
        shown,
        t,
        owner_of(y, key),
        key.field,
    ) by {
        let clips = shown_lane(b, id, y.tracks[t].lanes()[key]);
        assert(lane_shown_in(a, id, t, owner_of(y, key), key.field, clips));
        let found = choose|found: ActionKey| #[trigger]
            x.tracks[t].lanes().contains_key(found) && owner_of(x, found) == owner_of(y, key)
                && found.field == key.field && shown_lane(a, id, x.tracks[t].lanes()[found])
                == clips;
        assert(x.tracks[t].lanes().contains_key(found));
    }
    assert forall|t: int, subject: Subject, field: UntypedField|
        (#[trigger] listed(shown, t, subject, field)).len() > 0 implies has_lane(
        y,
        t,
        subject,
        field,
    ) by {
        assert(has_lane(x, t, subject, field));
        let key = choose|key: ActionKey| #[trigger]
            x.tracks[t].lanes().contains_key(key) && owner_of(x, key) == subject && key.field
                == field;
        let clips = shown_lane(a, id, x.tracks[t].lanes()[key]);
        assert(lane_shown_in(b, id, t, subject, field, clips));
    }
}

/// A batch that is refused and removes clips first leaves the timeline showing what it
/// showed: the edits before the one that failed are taken back newest first, and none
/// of that fails, so that the rollback is not reported incomplete. The clips that were
/// removed have other ids. This is for batches whose first edits remove clips that can
/// be restored, and whose others have inverses that bring everything back under the
/// same ids.
pub proof fn refused_removals_change_no_looks<H: RemoteHost>(
    host: &H,
    id: TimelineId,
    ops: Seq<EditOp>,
    trace: Seq<StudioModel>,
    results: Seq<OpResult>,
    inverses: Seq<EditOp>,
    count: int,
    failing: EditOp,
    failed: StudioModel,
    cause: Fault,
    back: Seq<StudioModel>,
    failures: Seq<bool>,
    after: StudioModel,
)
    requires
        reads_back(host),
        ops_run(host, id, ops, trace, results, inverses),
        0 <= count <= ops.len(),
        forall|i: int| 0 <= i < trace.len() ==> tidy(id, #[trigger] trace[i]),
        forall|i: int|
            0 <= i < count ==> restores_removed(id, #[trigger] ops[i], inverses[i], trace[i]),
        neat(trace[count].timelines[id]),
        forall|i: int| count <= i < ops.len() ==> revertible(id, #[trigger] ops[i], trace[i]),
        requested(failing),
        op_applied(host, id, failing, trace.last(), failed, Err(cause)),
        ops_tried(host, id, inverses.reverse(), back, failures),
        failures.len() == ops.len(),
        back.first() == failed,
        forall|i: int| 0 <= i < back.len() ==> tracks_laid_out((#[trigger] back[i]).timelines[id]),
        baked(host, id, back.last(), after),
    ensures
        !failures.contains(true),
        shows_alike(trace.first(), id, after, id),
{
    assert(tidy(id, trace[trace.len() - 1]));
    refused_edits_change_nothing(host, id, failing, trace.last(), failed, cause);
    let n = ops.len() as int;
    taking_back(host, id, ops, trace, results, inverses, back, failures, count, n - count);
    let (start, reached) = (trace[count], back[n - count]);
    assert(tidy(id, start));
    let shown = all_shown(start, id);
    timelines_show_all(start, id);
    alike_shows(id, start, reached, shown);
    same_clips_show_alike(start, id, reached, id, shown);
    assert(labels_owned(reached, id)) by {
        assert forall|x: u64| #[trigger] reached.edits_of(id).clip_meta.contains_key(
            x,
        ) implies reached.timelines[id].actions.has(ActionId { bits: x }) by {
            assert(start.edits_of(id).clip_meta.contains_key(x));
            assert(start.timelines[id].actions.has(ActionId { bits: x }));
            assert(reached.timelines[id].actions.actions.dom().contains(ActionId { bits: x }));
        }
    }
    reveal(shown_back);
    restoring_back(host, id, ops, trace, results, inverses, back, failures, count, n);
    let (first, last) = (trace[0], back[n]);
    assert(first == trace.first() && last == back.last());
    assert(tidy(id, first));
    assert(neat(first.timelines[id])) by {
        if count > 0 {
            assert(restores_removed(id, ops[0], inverses[0], trace[0]));
        }
    }
    let had = all_shown(first, id);
    timelines_show_all(first, id);
    alike_shows_list(id, first, last, had);
    baking_keeps_clips(host, id, last, after);
    alike_shows(id, last, after, had);
    same_clips_show_alike(first, id, after, id, had);
}

} // verus!
