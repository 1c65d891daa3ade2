//! What a refused import leaves.
use crate::action::subjects::slot_of;
use crate::action::{ActionClip, ActionId, ActionKey, Ease, InterpFn, Value};
use crate::bevy_motiongfx::manager::TimelineId;
use crate::bevy_motiongfx::remote::batch::apply::op_applied;
use crate::bevy_motiongfx::remote::batch::clear_laws::{
    all_insert, restorable, snapshots_describe_all,
};
use crate::bevy_motiongfx::remote::batch::insert::{
    clip_placed, insert_recorded, insert_stepped, is_inserted, is_placed, keyframes_stepped,
    made_room, room_taken, start_of, timeline_placed, Applied, InsertTarget,
};
use crate::bevy_motiongfx::remote::batch::laws::{
    baking_keeps_clips, rescheduling_keeps_ids, tracks_laid_out,
};
use crate::bevy_motiongfx::remote::batch::op::{EditOp, OpResult, Placement};
use crate::bevy_motiongfx::remote::batch::restore_laws::{
    all_leave_room, has_lane, inserting_adds, inserting_all_shows, labels_owned, lane_neat,
    lanes_of, listed, neat, op_describes, ops_follow, owner_of, owners_differ, owners_stay,
    shown_lane, shows, Shown,
};
use crate::bevy_motiongfx::remote::batch::run::{
    all_tried, op_tried, ops_run, ops_tried, run_failed, stopped_at, stops_in,
};
use crate::bevy_motiongfx::remote::batch::show_laws::{
    all_shown, all_shown_leave_room, neat_clip, none_listed, same_clips_show_alike, shows_alike,
    timelines_show_all,
};
use crate::bevy_motiongfx::remote::batch::snapshot::{all_snapshotted, is_snapshot, remove_stepped};
use crate::bevy_motiongfx::remote::batch::update_laws::reads_back;
use crate::bevy_motiongfx::remote::batch::walk::{clip_on, clip_on_is_of_a_lane};
use crate::bevy_motiongfx::remote::fault::Fault;
use crate::bevy_motiongfx::remote::host::{NamedEntity, RemoteHost};
use crate::bevy_motiongfx::remote::json::Json;
use crate::bevy_motiongfx::remote::persist::import::{
    import_stepped, imported, load_stepped, loaded, made_ready, opened, replaces, tracks_ensured,
    tracks_of, ImportParams,
};
use crate::bevy_motiongfx::remote::persist::round_trip::{cleared_shows_none, snapshots_are_taken};
use crate::bevy_motiongfx::remote::state::markers::Marker;
use crate::bevy_motiongfx::remote::studio::{baked, StudioModel};
use crate::pipeline::PipelineKey;
use crate::remote::{RemoteEditError, RemoteFieldKey, RemoteKeyframe};
use crate::seqs::stable_sort_is_sound;
use crate::sequence::non_overlapping;
use crate::subject::{Subject, UntypedField, BEVY_WORLD_TAG};
use crate::time::Ticks;
use crate::timeline::edit::{action_removed, is_empty_track, removable};
use crate::timeline::TimelineModel;
use crate::track::{
    has_clip, lane, others, reschedule_outcome, rescheduled, retimed, without_clip, Lanes,
};
use std::sync::Arc;
use vstd::prelude::*;

verus! {

/// Whether a lane has clips, all of actions of its key.
spec fn lane_owned(model: TimelineModel, key: ActionKey, clips: Seq<ActionClip>) -> bool {
    &&& clips.len() > 0
    &&& forall|i: int|
        0 <= i < clips.len() ==> model.actions.has((#[trigger] clips[i]).id)
            && model.actions.actions[clips[i].id].key == key
}

/// Whether lanes are of actions.
spec fn lanes_owned(model: TimelineModel, lanes: Lanes) -> bool {
    forall|key: ActionKey| #[trigger] lanes.contains_key(key) ==> lane_owned(model, key, lanes[key])
}

/// Whether lanes hold a clip of an action.
spec fn holds(lanes: Lanes, action: ActionId) -> bool {
    exists|key: ActionKey| #[trigger] lanes.contains_key(key) && has_clip(lanes[key], action)
}

/// Whether no action has clips on two tracks.
spec fn apart(model: TimelineModel) -> bool {
    forall|i: int, j: int, action: ActionId|
        #![trigger holds(lanes_of(model, i), action), holds(lanes_of(model, j), action)]
        holds(lanes_of(model, i), action) && holds(lanes_of(model, j), action) ==> i == j
}

/// Whether the tracks are laid out, all lanes are of actions, each on one track,
/// and no subject has two ids.
spec fn tended(model: TimelineModel) -> bool {
    &&& tracks_laid_out(model)
    &&& forall|t: int| lanes_owned(model, #[trigger] lanes_of(model, t))
    &&& apart(model)
    &&& owners_differ(model)
}

/// Whether the clips that a timeline holds are on the same tracks of another one,
/// but maybe for those of one action.
spec fn holds_on(before: TimelineModel, after: TimelineModel, but: Option<ActionId>) -> bool {
    forall|t: int, x: ActionId|
        holds(lanes_of(before, t), x) && but != Some(x) ==> #[trigger] holds(lanes_of(after, t), x)
}

/// Lanes that are of actions hold no others.
proof fn held_is_action(model: TimelineModel, lanes: Lanes, action: ActionId)
    requires
        lanes_owned(model, lanes),
        holds(lanes, action),
    ensures
        model.actions.has(action),
{
    let key = choose|key: ActionKey| #[trigger]
        lanes.contains_key(key) && has_clip(lanes[key], action);
    assert(lane_owned(model, key, lanes[key]));
}

/// Lanes stay owned when actions keep their keys.
proof fn lanes_stay_owned(before: TimelineModel, after: TimelineModel, lanes: Lanes)
    requires
        lanes_owned(before, lanes),
        forall|action: ActionId| #[trigger]
            before.actions.has(action) ==> after.actions.has(action)
                && after.actions.actions[action].key == before.actions.actions[action].key,
    ensures
        lanes_owned(after, lanes),
{
    assert forall|key: ActionKey| #[trigger] lanes.contains_key(key) implies lane_owned(
        after,
        key,
        lanes[key],
    ) by {
        let clips = lanes[key];
        assert(lane_owned(before, key, clips));
        assert forall|i: int| 0 <= i < clips.len() implies after.actions.has(
            (#[trigger] clips[i]).id,
        ) && after.actions.actions[clips[i].id].key == key by {
            assert(before.actions.has(clips[i].id));
        }
    }
}

/// A lane stays owned when a clip of it is rescheduled, and holds no more.
proof fn sorted_stays_owned(
    model: TimelineModel,
    key: ActionKey,
    clips: Seq<ActionClip>,
    action: ActionId,
    start: Ticks,
    duration: Option<Ticks>,
)
    requires
        lane_owned(model, key, clips),
    ensures
        lane_owned(model, key, rescheduled(clips, action, start, duration)),
        forall|x: ActionId| #[trigger]
            has_clip(rescheduled(clips, action, start, duration), x) ==> has_clip(clips, x),
{
    let change = |clip: ActionClip|
        if clip.id == action {
            retimed(clip, start, duration)
        } else {
            clip
        };
    let changed = clips.map_values(change);
    let sorted = rescheduled(clips, action, start, duration);
    stable_sort_is_sound(changed, |clip: ActionClip| clip.start as int);
    assert forall|i: int| 0 <= i < sorted.len() implies {
        &&& model.actions.has((#[trigger] sorted[i]).id)
        &&& model.actions.actions[sorted[i].id].key == key
        &&& has_clip(clips, sorted[i].id)
    } by {
        assert(sorted.contains(sorted[i]));
        assert(changed.contains(sorted[i]));
        let j = choose|j: int| 0 <= j < changed.len() && changed[j] == sorted[i];
        assert(clips[j].id == sorted[i].id);
    }
    assert forall|x: ActionId| #[trigger] has_clip(sorted, x) implies has_clip(clips, x) by {
        let i = choose|i: int| 0 <= i < sorted.len() && (#[trigger] sorted[i]).id == x;
        assert(has_clip(clips, sorted[i].id));
    }
}

/// Lanes stay owned when a clip is rescheduled.
proof fn rescheduled_stays_owned(
    model: TimelineModel,
    before: Lanes,
    after: Lanes,
    action: ActionId,
    start: Ticks,
    duration: Option<Ticks>,
)
    requires
        lanes_owned(model, before),
        reschedule_outcome(before, after, action, start, duration, Ok(())),
    ensures
        lanes_owned(model, after),
        forall|x: ActionId| #[trigger] holds(after, x) ==> holds(before, x),
{
    let moved = choose|moved: ActionKey| #[trigger]
        before.contains_key(moved) && has_clip(before[moved], action) && non_overlapping(
            rescheduled(before[moved], action, start, duration),
        ) && after == before.insert(moved, rescheduled(before[moved], action, start, duration));
    replacing_stays_owned(model, before, after, moved, action, start, duration);
}

/// Lanes stay owned when one of them is rescheduled.
proof fn replacing_stays_owned(
    model: TimelineModel,
    before: Lanes,
    after: Lanes,
    moved: ActionKey,
    action: ActionId,
    start: Ticks,
    duration: Option<Ticks>,
)
    requires
        lanes_owned(model, before),
        before.contains_key(moved),
        after == before.insert(moved, rescheduled(before[moved], action, start, duration)),
    ensures
        lanes_owned(model, after),
        forall|x: ActionId| #[trigger] holds(after, x) ==> holds(before, x),
{
    assert(lane_owned(model, moved, before[moved]));
    sorted_stays_owned(model, moved, before[moved], action, start, duration);
    assert forall|key: ActionKey| #[trigger] after.contains_key(key) implies lane_owned(
        model,
        key,
        after[key],
    ) by {
        if key != moved {
            assert(before.contains_key(key));
        }
    }
    assert forall|x: ActionId| #[trigger] holds(after, x) implies holds(before, x) by {
        let key = choose|key: ActionKey| #[trigger]
            after.contains_key(key) && has_clip(after[key], x);
        assert(before.contains_key(key));
    }
}

/// One of the others is one of a lane.
proof fn other_is_one(clips: Seq<ActionClip>, action: ActionId, i: int) -> (j: int)
    requires
        0 <= i < others(clips, action).len(),
    ensures
        0 <= j < clips.len(),
        clips[j] == others(clips, action)[i],
        clips[j].id != action,
    decreases clips.len(),
{
    reveal(Seq::filter);
    let front = clips.drop_last();
    if i < others(front, action).len() {
        other_is_one(front, action, i)
    } else {
        clips.len() - 1
    }
}

/// A timeline stays tended when an action is removed.
proof fn removing_stays_tended(
    before: TimelineModel,
    after: TimelineModel,
    world: u64,
    t: int,
    action: ActionId,
)
    requires
        tended(before),
        0 <= t < before.tracks.len(),
        before.actions.has(action),
        holds(lanes_of(before, t), action),
        action_removed(before, after, world, t, action),
    ensures
        tended(after),
        after.actions.actions.dom() == before.actions.actions.dom().remove(action),
        holds_on(before, after, Some(action)),
{
    let key = before.actions.actions[action].key;
    let lanes = lanes_of(before, t);
    assert(lanes.contains_key(key)) by {
        let held = choose|held: ActionKey| #[trigger]
            lanes.contains_key(held) && has_clip(lanes[held], action);
        assert(lanes_owned(before, lanes));
        assert(lane_owned(before, held, lanes[held]));
    }
    assert(after.actions.actions.dom() =~= before.actions.actions.dom().remove(action));
    assert forall|j: int, x: ActionId|
        holds(lanes_of(before, j), x) && Some(action) != Some(x) implies #[trigger] holds(
        lanes_of(after, j),
        x,
    ) by {
        if j == t {
            rest_holds(lanes, key, action, x);
        } else if 0 <= j < before.tracks.len() {
            assert(after.tracks[j] == before.tracks[j]);
        }
    }
    assert(tracks_laid_out(after)) by {
        assert forall|j: int| 0 <= j < after.tracks.len() implies (
        #[trigger] after.tracks[j]).laid_out() by {
            if j != t {
                assert(after.tracks[j] == before.tracks[j]);
            }
        }
    }
    assert forall|j: int| lanes_owned(after, #[trigger] lanes_of(after, j)) by {
        if j != t {
            if 0 <= j < before.tracks.len() {
                assert(after.tracks[j] == before.tracks[j]);
            }
            assert(lanes_of(after, j) == lanes_of(before, j));
            assert(lanes_owned(before, lanes_of(before, j)));
            assert forall|k: ActionKey| #[trigger] lanes_of(after, j).contains_key(
                k,
            ) implies lane_owned(after, k, lanes_of(after, j)[k]) by {
                let clips = lanes_of(before, j)[k];
                assert(lanes_of(before, j).contains_key(k));
                assert(lane_owned(before, k, clips));
                assert forall|i: int| 0 <= i < clips.len() implies after.actions.has(
                    (#[trigger] clips[i]).id,
                ) && after.actions.actions[clips[i].id].key == k by {
                    if clips[i].id == action {
                        assert(has_clip(clips, action));
                        assert(holds(lanes_of(before, j), action));
                    }
                }
            }
        } else {
            assert(lanes_owned(before, lanes));
            let left = without_clip(lanes, key, action);
            assert(lanes_of(after, t) == left);
            assert forall|k: ActionKey| #[trigger] left.contains_key(k) implies lane_owned(
                after,
                k,
                left[k],
            ) by {
                if k == key && lanes.contains_key(key) {
                    rest_is_owned(before, after, key, lanes[key], action);
                } else if k != key {
                    let clips = lanes[k];
                    assert(lanes.contains_key(k));
                    assert(lane_owned(before, k, clips));
                    assert forall|i: int| 0 <= i < clips.len() implies after.actions.has(
                        (#[trigger] clips[i]).id,
                    ) && after.actions.actions[clips[i].id].key == k by {
                        assert(before.actions.actions[clips[i].id].key == k);
                        assert(clips[i].id != action);
                    }
                }
            }
        }
    }
    assert forall|j: int, x: ActionId| #[trigger] holds(lanes_of(after, j), x) implies holds(
        lanes_of(before, j),
        x,
    ) by {
        let k = choose|k: ActionKey| #[trigger]
            lanes_of(after, j).contains_key(k) && has_clip(lanes_of(after, j)[k], x);
        if j != t {
            if 0 <= j < before.tracks.len() {
                assert(after.tracks[j] == before.tracks[j]);
            }
            assert(lanes_of(before, j).contains_key(k));
        } else {
            assert(lanes_of(after, t) == without_clip(lanes, key, action));
            if k == key && lanes.contains_key(key) {
                let rest = others(lanes[key], action);
                let i = choose|i: int| 0 <= i < rest.len() && (#[trigger] rest[i]).id == x;
                let n = other_is_one(lanes[key], action, i);
                assert(lanes[key][n].id == x);
                assert(has_clip(lanes[key], x));
            } else if k != key {
                assert(lanes.contains_key(k));
            }
        }
    }
    assert forall|p: ActionKey, q: ActionKey|
        {
            &&& #[trigger] after.actions.subjects.contains_key(slot_of(p))
            &&& #[trigger] after.actions.subjects.contains_key(slot_of(q))
            &&& owner_of(after, p) == owner_of(after, q)
        } implies slot_of(p) == slot_of(q) by {
        assert(before.actions.subjects.contains_key(slot_of(p)));
        assert(before.actions.subjects.contains_key(slot_of(q)));
        assert(owner_of(before, p) == owner_of(before, q));
    }
}

/// A clip of another action is one of the others.
proof fn other_stays(clips: Seq<ActionClip>, action: ActionId, x: ActionId)
    requires
        has_clip(clips, x),
        x != action,
    ensures
        has_clip(others(clips, action), x),
    decreases clips.len(),
{
    reveal(Seq::filter);
    let i = choose|i: int| 0 <= i < clips.len() && (#[trigger] clips[i]).id == x;
    let front = clips.drop_last();
    let rest = others(clips, action);
    if i == clips.len() - 1 {
        assert(rest[rest.len() - 1].id == x);
    } else {
        assert(front[i].id == x);
        other_stays(front, action, x);
        let kept = others(front, action);
        let j = choose|j: int| 0 <= j < kept.len() && (#[trigger] kept[j]).id == x;
        assert(rest[j] == kept[j]);
    }
}

/// What is left of lanes holds the clips of other actions.
proof fn rest_holds(lanes: Lanes, key: ActionKey, action: ActionId, x: ActionId)
    requires
        lanes.contains_key(key),
        holds(lanes, x),
        x != action,
    ensures
        holds(without_clip(lanes, key, action), x),
{
    let left = without_clip(lanes, key, action);
    let k = choose|k: ActionKey| #[trigger] lanes.contains_key(k) && has_clip(lanes[k], x);
    if k == key {
        other_stays(lanes[key], action, x);
        assert(others(lanes[key], action).len() > 0);
    }
    assert(left.contains_key(k));
    assert(has_clip(left[k], x));
}

/// What is left of a lane is of actions still.
proof fn rest_is_owned(
    before: TimelineModel,
    after: TimelineModel,
    key: ActionKey,
    clips: Seq<ActionClip>,
    action: ActionId,
)
    requires
        lane_owned(before, key, clips),
        after.actions.actions == before.actions.actions.remove(action),
    ensures
        others(clips, action).len() > 0 ==> lane_owned(after, key, others(clips, action)),
{
    let rest = others(clips, action);
    assert forall|i: int| 0 <= i < rest.len() implies after.actions.has((#[trigger] rest[i]).id)
        && after.actions.actions[rest[i].id].key == key by {
        let j = other_is_one(clips, action, i);
        assert(before.actions.has(clips[j].id));
    }
}

/// An action that was added keeps a timeline tended, with its clip behind its
/// lane.
proof fn adding_stays_tended(
    before: TimelineModel,
    after: TimelineModel,
    remote: Map<PipelineKey, InterpFn>,
    at: &Placement,
    key: RemoteFieldKey,
    subject: Subject,
    target: InsertTarget,
    ease: Option<Ease>,
    action: ActionId,
)
    requires
        tended(before),
        at.track < before.tracks.len(),
        is_inserted(before, after, remote, *at, key, subject, target, ease, action),
    ensures
        tended(after),
        !before.actions.has(action),
        after.actions.actions.dom() == before.actions.actions.dom().insert(action),
        holds(lanes_of(after, at.track as int), action),
        holds_on(before, after, None),
{
    let t = at.track as int;
    inserting_adds(before, after, remote, at, key, subject, target, ease, action);
    let own = after.actions.actions[action].key;
    let lanes = lanes_of(before, t);
    owners_stay(before, after, subject, own.subject_id.uid);
    assert(after.actions.actions.dom() =~= before.actions.actions.dom().insert(action));
    let there = lanes_of(after, t);
    let grown = there[own];
    assert(grown[grown.len() - 1].id == action);
    assert(has_clip(grown, action));
    assert(there.contains_key(own));
    assert forall|j: int, x: ActionId|
        holds(lanes_of(before, j), x) && None::<ActionId> != Some(x) implies #[trigger] holds(
        lanes_of(after, j),
        x,
    ) by {
        let held = lanes_of(before, j);
        let k = choose|k: ActionKey| #[trigger] held.contains_key(k) && has_clip(held[k], x);
        let i = choose|i: int| 0 <= i < held[k].len() && (#[trigger] held[k][i]).id == x;
        assert(lanes_of(after, j).contains_key(k));
        assert(lanes_of(after, j)[k][i].id == x);
    }
    assert(tracks_laid_out(after)) by {
        assert forall|j: int| 0 <= j < after.tracks.len() implies (
        #[trigger] after.tracks[j]).laid_out() by {
            if j != t {
                assert(after.tracks[j] == before.tracks[j]);
            }
        }
    }
    assert forall|j: int| lanes_owned(after, #[trigger] lanes_of(after, j)) by {
        assert(lanes_owned(before, lanes_of(before, j)));
        lanes_stay_owned(before, after, lanes_of(before, j));
        if j == t {
            assert forall|k: ActionKey| #[trigger] there.contains_key(k) implies lane_owned(
                after,
                k,
                there[k],
            ) by {
                if k == own {
                    let clips = lane(lanes, own);
                    assert forall|i: int| 0 <= i < grown.len() implies after.actions.has(
                        (#[trigger] grown[i]).id,
                    ) && after.actions.actions[grown[i].id].key == own by {
                        if i < clips.len() {
                            assert(lanes.contains_key(own));
                            assert(lane_owned(after, own, clips));
                            assert(grown[i] == clips[i]);
                        }
                    }
                } else {
                    assert(lanes.contains_key(k));
                }
            }
        }
    }
    assert forall|j: int, x: ActionId| #[trigger] holds(lanes_of(after, j), x) implies (x == action
        && j == t) || (x != action && holds(lanes_of(before, j), x)) by {
        let k = choose|k: ActionKey| #[trigger]
            lanes_of(after, j).contains_key(k) && has_clip(lanes_of(after, j)[k], x);
        assert(lanes_owned(before, lanes_of(before, j)));
        if j != t || k != own {
            assert(lanes_of(before, j).contains_key(k));
            assert(holds(lanes_of(before, j), x));
            held_is_action(before, lanes_of(before, j), x);
        } else if x != action {
            let clips = lane(lanes, own);
            let i = choose|i: int| 0 <= i < grown.len() && (#[trigger] grown[i]).id == x;
            assert(grown[i] == clips[i]);
            assert(has_clip(clips, x));
            assert(lanes.contains_key(own));
        }
    }
}

/// Placing a clip keeps a timeline tended, and either adds its action or leaves
/// the actions as they were.
proof fn placing_stays_tended(
    before: TimelineModel,
    after: TimelineModel,
    remote: Map<PipelineKey, InterpFn>,
    at: &Placement,
    key: RemoteFieldKey,
    subject: Subject,
    target: InsertTarget,
    ease: Option<Ease>,
    result: Result<ActionId, RemoteEditError>,
)
    requires
        tended(before),
        timeline_placed(before, after, remote, *at, key, subject, target, ease, true, result),
    ensures
        tended(after),
        match result {
            Ok(action) => {
                &&& !before.actions.has(action)
                &&& after.actions.actions.dom() == before.actions.actions.dom().insert(action)
                &&& holds(lanes_of(after, at.track as int), action)
                &&& at.track < after.tracks.len()
            },
            Err(_) => after.actions.actions.dom() == before.actions.actions.dom(),
        },
        holds_on(before, after, None),
{
    let ready = choose|ready: TimelineModel|
        {
            &&& #[trigger] made_room(before, ready, *at, true)
            &&& room_taken(ready, after, remote, *at, key, subject, target, ease, true, result)
        };
    growing_stays_tended(before, ready);
    if !(result is Err && after == ready) {
        let (inserted, moved, action) = choose|
            inserted: TimelineModel,
            moved: TimelineModel,
            action: ActionId,
        |
            {
                &&& is_inserted(ready, inserted, remote, *at, key, subject, target, ease, action)
                &&& #[trigger] is_placed(inserted, moved, after, *at, true, action, result)
            };
        assert(is_inserted(ready, inserted, remote, *at, key, subject, target, ease, action));
        adding_stays_tended(ready, inserted, remote, at, key, subject, target, ease, action);
        finding_place_stays_tended(ready, inserted, moved, after, at, action, result);
        assert forall|j: int, x: ActionId|
            holds(lanes_of(before, j), x) && None::<ActionId> != Some(x) implies #[trigger] holds(
            lanes_of(after, j),
            x,
        ) by {
            assert(lanes_of(ready, j) == lanes_of(before, j));
            assert(holds(lanes_of(inserted, j), x));
            assert(lanes_owned(ready, lanes_of(ready, j)));
            held_is_action(ready, lanes_of(ready, j), x);
        }
    }
}

/// More tracks keep a timeline tended.
proof fn growing_stays_tended(before: TimelineModel, after: TimelineModel)
    requires
        tended(before),
        after.actions == before.actions,
        after.tracks.len() >= before.tracks.len(),
        after.tracks.take(before.tracks.len() as int) == before.tracks,
        forall|i: int|
            before.tracks.len() <= i < after.tracks.len() ==> is_empty_track(
                #[trigger] after.tracks[i],
            ),
    ensures
        tended(after),
        forall|j: int| #[trigger] lanes_of(after, j) == lanes_of(before, j),
{
    assert forall|j: int| #[trigger] lanes_of(after, j) == lanes_of(before, j) by {
        if 0 <= j < before.tracks.len() {
            assert(after.tracks.take(before.tracks.len() as int)[j] == before.tracks[j]);
        } else if 0 <= j < after.tracks.len() {
            assert(is_empty_track(after.tracks[j]));
        }
    }
    assert(tracks_laid_out(after)) by {
        assert forall|j: int| 0 <= j < after.tracks.len() implies (
        #[trigger] after.tracks[j]).laid_out() by {
            if j < before.tracks.len() {
                assert(after.tracks.take(before.tracks.len() as int)[j] == before.tracks[j]);
                assert(before.tracks[j].laid_out());
            } else {
                assert(is_empty_track(after.tracks[j]));
            }
        }
    }
    assert forall|j: int| lanes_owned(after, #[trigger] lanes_of(after, j)) by {
        assert(lanes_owned(before, lanes_of(before, j)));
        lanes_stay_owned(before, after, lanes_of(before, j));
    }
    assert forall|i: int, j: int, action: ActionId|
        #![trigger holds(lanes_of(after, i), action), holds(lanes_of(after, j), action)]
        holds(lanes_of(after, i), action) && holds(lanes_of(after, j), action) implies i == j by {
        assert(lanes_of(after, i) == lanes_of(before, i));
        assert(lanes_of(after, j) == lanes_of(before, j));
        assert(holds(lanes_of(before, i), action) && holds(lanes_of(before, j), action));
    }
    assert(owners_differ(after)) by {
        assert forall|p: ActionKey, q: ActionKey|
            {
                &&& #[trigger] after.actions.subjects.contains_key(slot_of(p))
                &&& #[trigger] after.actions.subjects.contains_key(slot_of(q))
                &&& owner_of(after, p) == owner_of(after, q)
            } implies slot_of(p) == slot_of(q) by {
            assert(owner_of(before, p) == owner_of(before, q));
        }
    }
}

/// Giving an added clip its place keeps a timeline tended, and so does removing
/// it again where it has none.
proof fn finding_place_stays_tended(
    before: TimelineModel,
    inserted: TimelineModel,
    moved: TimelineModel,
    after: TimelineModel,
    at: &Placement,
    action: ActionId,
    result: Result<ActionId, RemoteEditError>,
)
    requires
        tended(inserted),
        at.track < inserted.tracks.len(),
        !before.actions.has(action),
        inserted.actions.actions.dom() == before.actions.actions.dom().insert(action),
        holds(lanes_of(inserted, at.track as int), action),
        is_placed(inserted, moved, after, *at, true, action, result),
    ensures
        tended(after),
        match result {
            Ok(placed) => {
                &&& placed == action
                &&& after.actions.actions.dom() == inserted.actions.actions.dom()
                &&& holds(lanes_of(after, at.track as int), action)
                &&& at.track < after.tracks.len()
            },
            Err(_) => after.actions.actions.dom() == before.actions.actions.dom(),
        },
        holds_on(inserted, after, Some(action)),
{
    let t = at.track as int;
    match result {
        Ok(_) => {
            let there = lanes_of(inserted, t);
            assert(lanes_owned(inserted, there));
            rescheduled_stays_owned(
                inserted,
                there,
                moved.tracks[t].lanes(),
                action,
                start_of(*at),
                None,
            );
            assert(after.actions.actions.dom() =~= inserted.actions.actions.dom());
            assert forall|j: int| #[trigger] lanes_of(after, j) == if j == t {
                moved.tracks[t].lanes()
            } else {
                lanes_of(inserted, j)
            } by {
                if 0 <= j < inserted.tracks.len() && j != t {
                    assert(moved.tracks[j] == inserted.tracks[j]);
                }
            }
            assert forall|j: int| lanes_owned(after, #[trigger] lanes_of(after, j)) by {
                assert(lanes_owned(inserted, lanes_of(inserted, j)));
                lanes_stay_owned(inserted, after, lanes_of(after, j));
            }
            assert forall|i: int, j: int, x: ActionId|
                #![trigger holds(lanes_of(after, i), x), holds(lanes_of(after, j), x)]
                holds(lanes_of(after, i), x) && holds(lanes_of(after, j), x) implies i == j by {
                assert(holds(lanes_of(inserted, i), x));
                assert(holds(lanes_of(inserted, j), x));
            }
            assert(owners_differ(after)) by {
                assert(after.actions.subjects == inserted.actions.subjects);
                assert forall|p: ActionKey, q: ActionKey|
                    {
                        &&& #[trigger] after.actions.subjects.contains_key(slot_of(p))
                        &&& #[trigger] after.actions.subjects.contains_key(slot_of(q))
                        &&& owner_of(after, p) == owner_of(after, q)
                    } implies slot_of(p) == slot_of(q) by {
                    assert(owner_of(inserted, p) == owner_of(inserted, q));
                }
            }
            rescheduling_holds(
                there,
                moved.tracks[t].lanes(),
                action,
                start_of(*at),
            );
            assert(tracks_laid_out(after)) by {
                assert forall|j: int| 0 <= j < after.tracks.len() implies (
                #[trigger] after.tracks[j]).laid_out() by {
                    if j != t {
                        assert(after.tracks[j] == inserted.tracks[j]);
                    }
                }
            }
        },
        Err(_) => {
            removing_stays_tended(
                inserted,
                after,
                BEVY_WORLD_TAG,
                t,
                action,
            );
            assert(before.actions.actions.dom().insert(action).remove(action)
                =~= before.actions.actions.dom());
        },
    }
}

/// A clip that is rescheduled is there still.
proof fn rescheduling_holds(before: Lanes, after: Lanes, action: ActionId, start: Ticks)
    requires
        reschedule_outcome(before, after, action, start, None, Ok(())),
    ensures
        holds(after, action),
        forall|x: ActionId| holds(before, x) ==> #[trigger] holds(after, x),
{
    let moved = choose|moved: ActionKey| #[trigger]
        before.contains_key(moved) && has_clip(before[moved], action)
            && non_overlapping(rescheduled(before[moved], action, start, None))
            && after == before.insert(moved, rescheduled(before[moved], action, start, None));
    rescheduling_keeps_ids(before[moved], action, start, None);
    assert(after.contains_key(moved));
    assert(has_clip(after[moved], action));
    assert forall|x: ActionId| holds(before, x) implies #[trigger] holds(after, x) by {
        let k = choose|k: ActionKey| #[trigger] before.contains_key(k) && has_clip(before[k], x);
        assert(after.contains_key(k));
        if k == moved {
            assert(has_clip(after[k], x));
        }
    }
}

/// Whether a timeline of a studio is tended, and labels and colours are those of
/// its actions.
spec fn studio_tended(studio: StudioModel, id: TimelineId) -> bool {
    &&& studio.timelines.contains_key(id)
    &&& tended(studio.timelines[id])
    &&& labels_owned(studio, id)
}

/// The actions of a timeline.
spec fn actions_in(studio: StudioModel, id: TimelineId) -> Set<ActionId> {
    studio.timelines[id].actions.actions.dom()
}

/// Whether a studio has the same catalog and registry as another one.
spec fn same_setting(a: StudioModel, b: StudioModel) -> bool {
    a.catalog == b.catalog && a.registry == b.registry
}

/// Whether an edit inserts a clip as a document does.
spec fn loads(op: EditOp) -> bool {
    match op {
        EditOp::Insert { to_relative, exact, .. } => to_relative is None && exact,
        EditOp::InsertKeyframes { exact, .. } => exact,
        _ => false,
    }
}

/// Whether an edit removes a clip from the track that holds it.
spec fn takes_out(studio: StudioModel, id: TimelineId, op: EditOp) -> bool {
    op matches EditOp::Remove { track, action_id } && holds(
        lanes_of(studio.timelines[id], track as int),
        ActionId { bits: action_id },
    )
}

/// What an insert leaves: one more action, which its inverse removes, or the
/// actions that there were.
spec fn insert_leaves(
    id: TimelineId,
    before: StudioModel,
    after: StudioModel,
    result: Applied,
) -> bool {
    &&& studio_tended(after, id)
    &&& same_setting(before, after)
    &&& holds_on(before.timelines[id], after.timelines[id], None)
    &&& match result {
        Ok((_, inverse)) => inverse matches EditOp::Remove { action_id, .. } && {
            let action = ActionId { bits: action_id };
            &&& takes_out(after, id, inverse)
            &&& !before.timelines[id].actions.has(action)
            &&& actions_in(after, id) == actions_in(before, id).insert(action)
        },
        Err(_) => actions_in(after, id) == actions_in(before, id),
    }
}

/// Placing a clip keeps a studio tended.
#[verifier::rlimit(40)]
proof fn clip_placing_stays_tended(
    id: TimelineId,
    at: &Placement,
    key: RemoteFieldKey,
    subject: Subject,
    target: InsertTarget,
    ease: Option<Ease>,
    before: StudioModel,
    after: StudioModel,
    result: Applied,
)
    requires
        studio_tended(before, id),
        clip_placed(id, *at, key, subject, target, ease, true, None, before, after, result),
    ensures
        insert_leaves(id, before, after, result),
{
    let a = before.timelines[id];
    let remote = before.registry.remote@;
    let (model, placed) = choose|model: TimelineModel, placed: Result<ActionId, RemoteEditError>|
        {
            &&& #[trigger] timeline_placed(
                a,
                model,
                remote,
                *at,
                key,
                subject,
                target,
                ease,
                true,
                placed,
            )
            &&& match placed {
                Err(error) => {
                    &&& result == Err::<(OpResult, EditOp), Fault>(Fault::Edit(error))
                    &&& after == before.with_timeline(id, model)
                },
                Ok(action) => {
                    &&& result matches Ok((_, inverse))
                    &&& inverse == (EditOp::Remove { track: at.track, action_id: action.bits })
                    &&& after == insert_recorded(
                        before.with_timeline(id, model),
                        id,
                        action.bits,
                        *at,
                    )
                },
            }
        };
    placing_stays_tended(a, model, remote, at, key, subject, target, ease, placed);
    assert(after.timelines[id] == model);
    assert(before.with_timeline(id, model).edits_of(id) == before.edits_of(id));
    assert forall|x: u64| #[trigger] after.edits_of(id).clip_meta.contains_key(
        x,
    ) implies model.actions.has(ActionId { bits: x }) by {
        if before.edits_of(id).clip_meta.contains_key(x) {
            assert(a.actions.has(ActionId { bits: x }));
            assert(a.actions.actions.dom().contains(ActionId { bits: x }));
            assert(model.actions.actions.dom().contains(ActionId { bits: x }));
        } else {
            assert(placed is Ok && x == placed->Ok_0.bits);
            assert(placed->Ok_0 == ActionId { bits: x });
            assert(model.actions.actions.dom().contains(ActionId { bits: x }));
        }
    }
    match placed {
        Ok(action) => {
            assert(action == ActionId { bits: action.bits });
        },
        Err(_) => {},
    }
}

/// An insert as a document does it keeps a studio tended.
proof fn inserting_stays_tended<H: RemoteHost>(
    host: &H,
    id: TimelineId,
    op: EditOp,
    before: StudioModel,
    after: StudioModel,
    result: Applied,
)
    requires
        studio_tended(before, id),
        loads(op),
        op_applied(host, id, op, before, after, result),
    ensures
        insert_leaves(id, before, after, result),
{
    match op {
        EditOp::Insert { at, to, to_relative, exact, .. } => {
            let (eased, settled, between, planned) = choose|
                eased: Result<Option<Ease>, Fault>,
                settled: Result<Option<Arc<Json>>, Fault>,
                between: StudioModel,
                planned: Result<(RemoteFieldKey, Subject, Value), Fault>,
            | #[trigger]
                insert_stepped(
                    host,
                    id,
                    *at,
                    *to,
                    to_relative,
                    exact,
                    before,
                    eased,
                    settled,
                    between,
                    planned,
                    after,
                    result,
                );
            if eased is Ok && planned is Ok {
                let (key, subject, value) = planned->Ok_0;
                clip_placing_stays_tended(
                    id,
                    &*at,
                    key,
                    subject,
                    InsertTarget::Constant(value),
                    eased->Ok_0,
                    before,
                    after,
                    result,
                );
            }
        },
        EditOp::InsertKeyframes { at, keyframes, exact, .. } => {
            let (eased, planned) = choose|
                eased: Result<Option<Ease>, Fault>,
                planned: Result<(RemoteFieldKey, Subject, Seq<RemoteKeyframe>), Fault>,
            | #[trigger]
                keyframes_stepped(
                    host,
                    id,
                    *at,
                    keyframes@,
                    exact,
                    before,
                    eased,
                    planned,
                    after,
                    result,
                );
            if eased is Ok && planned is Ok {
                let (key, subject, points) = planned->Ok_0;
                clip_placing_stays_tended(
                    id,
                    &*at,
                    key,
                    subject,
                    InsertTarget::Keyframes(points),
                    eased->Ok_0,
                    before,
                    after,
                    result,
                );
            }
        },
        _ => {},
    }
}

/// Baking keeps a timeline tended.
proof fn baking_stays_tended<H: RemoteHost>(
    host: &H,
    id: TimelineId,
    before: StudioModel,
    after: StudioModel,
)
    requires
        studio_tended(before, id),
        baked(host, id, before, after),
    ensures
        studio_tended(after, id),
        actions_in(after, id) == actions_in(before, id),
        same_setting(before, after),
        forall|t: int| #[trigger]
            lanes_of(after.timelines[id], t) == lanes_of(before.timelines[id], t),
{
    baking_keeps_clips(host, id, before, after);
    let (a, b) = (before.timelines[id], after.timelines[id]);
    assert forall|j: int| #[trigger] lanes_of(b, j) == lanes_of(a, j) by {
        if 0 <= j < a.tracks.len() {
            assert(a.tracks[j].lanes() == b.tracks[j].lanes());
        }
    }
    assert forall|action: ActionId| #[trigger] a.actions.has(action) implies b.actions.has(action)
        && b.actions.actions[action].key == a.actions.actions[action].key by {
        assert(a.actions.actions.dom().contains(action));
        assert(b.actions.actions.dom().contains(action));
    }
    assert forall|j: int| lanes_owned(b, #[trigger] lanes_of(b, j)) by {
        assert(lanes_owned(a, lanes_of(a, j)));
        lanes_stay_owned(a, b, lanes_of(a, j));
    }
    assert forall|i: int, j: int, action: ActionId|
        #![trigger holds(lanes_of(b, i), action), holds(lanes_of(b, j), action)]
        holds(lanes_of(b, i), action) && holds(lanes_of(b, j), action) implies i == j by {
        assert(lanes_of(b, i) == lanes_of(a, i));
        assert(lanes_of(b, j) == lanes_of(a, j));
        assert(holds(lanes_of(a, i), action) && holds(lanes_of(a, j), action));
    }
    assert forall|p: ActionKey, q: ActionKey|
        {
            &&& #[trigger] b.actions.subjects.contains_key(slot_of(p))
            &&& #[trigger] b.actions.subjects.contains_key(slot_of(q))
            &&& owner_of(b, p) == owner_of(b, q)
        } implies slot_of(p) == slot_of(q) by {
        assert(a.actions.subjects.contains_key(slot_of(p)));
        assert(a.actions.subjects.contains_key(slot_of(q)));
        assert(owner_of(a, p) == owner_of(a, q));
    }
    assert forall|x: u64| #[trigger] after.edits_of(id).clip_meta.contains_key(
        x,
    ) implies b.actions.has(ActionId { bits: x }) by {
        assert(before.edits_of(id).clip_meta.contains_key(x));
        assert(a.actions.has(ActionId { bits: x }));
    }
}

/// A clip of an action that a track holds can be removed.
proof fn held_is_removable(model: TimelineModel, track: usize, action: ActionId)
    requires
        tended(model),
        holds(lanes_of(model, track as int), action),
    ensures
        model.actions.has(action),
        clip_on(model, track, action) is Some,
        removable(model, track, action),
{
    let lanes = lanes_of(model, track as int);
    let key = choose|key: ActionKey| #[trigger]
        lanes.contains_key(key) && has_clip(lanes[key], action);
    assert(lanes_owned(model, lanes));
    assert(lane_owned(model, key, lanes[key]));
    held_is_action(model, lanes, action);
    clip_on_is_of_a_lane(model, track, action);
}

/// Removing a clip from the track that holds it succeeds and keeps a studio tended.
proof fn remove_stays_tended<H: RemoteHost>(
    host: &H,
    id: TimelineId,
    track: usize,
    action_id: u64,
    before: StudioModel,
    after: StudioModel,
    result: Applied,
)
    requires
        studio_tended(before, id),
        op_applied(host, id, EditOp::Remove { track, action_id }, before, after, result),
        holds(lanes_of(before.timelines[id], track as int), ActionId { bits: action_id }),
    ensures
        result is Ok,
        studio_tended(after, id),
        same_setting(before, after),
        actions_in(after, id) == actions_in(before, id).remove(ActionId { bits: action_id }),
        holds_on(
            before.timelines[id],
            after.timelines[id],
            Some(ActionId { bits: action_id }),
        ),
{
    let action = ActionId { bits: action_id };
    let t = track as int;
    let (between, snapshot) = choose|between: StudioModel, snapshot: Result<EditOp, Fault>|
        #[trigger]
        remove_stepped(host, id, track, action_id, before, between, snapshot, after, result);
    assert(baked(host, id, before, between));
    baking_stays_tended(host, id, before, between);
    let (a, b) = (between.timelines[id], after.timelines[id]);
    assert(lanes_of(a, t) == lanes_of(before.timelines[id], t));
    held_is_removable(a, track, action);
    assert(is_snapshot(host, between, id, track, action, snapshot));
    removing_stays_tended(a, b, BEVY_WORLD_TAG, t, action);
    assert forall|j: int, x: ActionId|
        holds(lanes_of(before.timelines[id], j), x) && Some(action) != Some(
            x,
        ) implies #[trigger] holds(lanes_of(b, j), x) by {
        assert(lanes_of(a, j) == lanes_of(before.timelines[id], j));
    }
    assert forall|x: u64| #[trigger] after.edits_of(id).clip_meta.contains_key(
        x,
    ) implies b.actions.has(ActionId { bits: x }) by {
        assert(between.edits_of(id).clip_meta.contains_key(x));
        assert(x != action_id);
        assert(a.actions.has(ActionId { bits: x }));
        assert(b.actions.actions.dom().contains(ActionId { bits: x }));
    }
}

/// Inserts one after another keep a studio tended.
proof fn inserts_stay_tended<H: RemoteHost>(
    host: &H,
    id: TimelineId,
    ops: Seq<EditOp>,
    trace: Seq<StudioModel>,
    results: Seq<OpResult>,
    inverses: Seq<EditOp>,
    n: int,
)
    requires
        ops_run(host, id, ops, trace, results, inverses),
        studio_tended(trace[0], id),
        forall|i: int| 0 <= i < ops.len() ==> loads(#[trigger] ops[i]),
        0 <= n <= ops.len(),
    ensures
        studio_tended(trace[n], id),
        same_setting(trace[0], trace[n]),
        forall|i: int|
            0 <= i < n ==> insert_leaves(
                id,
                trace[i],
                trace[i + 1],
                Ok((results[i], #[trigger] inverses[i])),
            ),
        forall|i: int| 0 <= i < n ==> takes_out(trace[n], id, #[trigger] inverses[i]),
    decreases n,
{
    if n > 0 {
        inserts_stay_tended(host, id, ops, trace, results, inverses, n - 1);
        let m = n - 1;
        assert(loads(ops[m]));
        inserting_stays_tended(
            host,
            id,
            ops[m],
            trace[m],
            trace[n],
            Ok((results[m], inverses[m])),
        );
        assert forall|i: int| 0 <= i < n implies takes_out(trace[n], id, #[trigger] inverses[i]) by {
            if i < m {
                assert(takes_out(trace[m], id, inverses[i]));
            }
        }
    }
}

/// An action that was inserted is in what later inserts left.
proof fn inserted_stays(
    id: TimelineId,
    trace: Seq<StudioModel>,
    results: Seq<OpResult>,
    inverses: Seq<EditOp>,
    j: int,
    n: int,
)
    requires
        trace.len() == inverses.len() + 1,
        forall|i: int|
            0 <= i < inverses.len() ==> insert_leaves(
                id,
                trace[i],
                trace[i + 1],
                Ok((results[i], #[trigger] inverses[i])),
            ),
        0 <= j < n <= inverses.len(),
    ensures
        inverses[j] is Remove,
        actions_in(trace[n], id).contains(ActionId { bits: inverses[j]->Remove_action_id }),
    decreases n,
{
    let m = n - 1;
    assert(insert_leaves(id, trace[m], trace[m + 1], Ok((results[m], inverses[m]))));
    if j < m {
        inserted_stays(id, trace, results, inverses, j, m);
    }
}

/// Inserts do not add the same action twice.
proof fn later_differ(
    id: TimelineId,
    trace: Seq<StudioModel>,
    results: Seq<OpResult>,
    inverses: Seq<EditOp>,
    j: int,
    i: int,
)
    requires
        trace.len() == inverses.len() + 1,
        forall|i: int|
            0 <= i < inverses.len() ==> insert_leaves(
                id,
                trace[i],
                trace[i + 1],
                Ok((results[i], #[trigger] inverses[i])),
            ),
        0 <= j < i < inverses.len(),
    ensures
        inverses[j] is Remove,
        inverses[i] is Remove,
        inverses[j]->Remove_action_id != inverses[i]->Remove_action_id,
{
    inserted_stays(id, trace, results, inverses, j, i);
    assert(insert_leaves(id, trace[i], trace[i + 1], Ok((results[i], inverses[i]))));
    let action = ActionId { bits: inverses[i]->Remove_action_id };
    assert(!trace[i].timelines[id].actions.has(action));
    assert(!actions_in(trace[i], id).contains(action));
}

/// Removing inserted clips, the last one first, succeeds and leaves the actions
/// that were there before them.
proof fn removes_take_back<H: RemoteHost>(
    host: &H,
    id: TimelineId,
    trace: Seq<StudioModel>,
    results: Seq<OpResult>,
    inverses: Seq<EditOp>,
    ops: Seq<EditOp>,
    back: Seq<StudioModel>,
    failed: Seq<bool>,
    n: int,
)
    requires
        trace.len() == inverses.len() + 1,
        forall|i: int|
            0 <= i < inverses.len() ==> insert_leaves(
                id,
                trace[i],
                trace[i + 1],
                Ok((results[i], #[trigger] inverses[i])),
            ),
        ops.len() >= inverses.len(),
        forall|i: int|
            0 <= i < inverses.len() ==> #[trigger] ops[i] == inverses[inverses.len() - 1 - i],
        ops_tried(host, id, ops, back, failed),
        failed.len() == ops.len(),
        studio_tended(back[0], id),
        actions_in(back[0], id) == actions_in(trace.last(), id),
        forall|i: int|
            0 <= i < inverses.len() ==> takes_out(back[0], id, #[trigger] inverses[i]),
        0 <= n <= inverses.len(),
    ensures
        forall|i: int| 0 <= i < n ==> !#[trigger] failed[i],
        forall|i: int|
            0 <= i < inverses.len() - n ==> takes_out(back[n], id, #[trigger] inverses[i]),
        studio_tended(back[n], id),
        same_setting(back[0], back[n]),
        actions_in(back[n], id) == actions_in(trace[inverses.len() - n], id),
    decreases n,
{
    if n > 0 {
        let m = n - 1;
        removes_take_back(host, id, trace, results, inverses, ops, back, failed, m);
        let i = inverses.len() - 1 - m;
        assert(ops[m] == inverses[i]);
        assert(insert_leaves(id, trace[i], trace[i + 1], Ok((results[i], inverses[i]))));
        assert(takes_out(back[m], id, inverses[i]));
        assert(op_tried(host, id, ops[m], back[m], back[n], failed[m]));
        let result = choose|result: Applied|
            {
                &&& #[trigger] op_applied(host, id, ops[m], back[m], back[n], result)
                &&& failed[m] == (result is Err)
            };
        match inverses[i] {
            EditOp::Remove { track, action_id } => {
                remove_stays_tended(host, id, track, action_id, back[m], back[n], result);
                let action = ActionId { bits: action_id };
                assert(!actions_in(trace[i], id).contains(action));
                assert(actions_in(trace[i], id).insert(action).remove(action) =~= actions_in(
                    trace[i],
                    id,
                ));
                assert forall|j: int| 0 <= j < i implies takes_out(
                    back[n],
                    id,
                    #[trigger] inverses[j],
                ) by {
                    assert(takes_out(back[m], id, inverses[j]));
                    later_differ(id, trace, results, inverses, j, i);
                }
            },
            _ => {},
        }
    }
}

/// A tended timeline without actions shows nothing.
proof fn without_actions_shows_none(id: TimelineId, studio: StudioModel)
    requires
        studio_tended(studio, id),
        actions_in(studio, id) == Set::<ActionId>::empty(),
    ensures
        neat(studio.timelines[id]),
        shows(studio, id, Seq::empty()),
{
    let model = studio.timelines[id];
    assert forall|t: int, key: ActionKey|
        0 <= t < model.tracks.len() && #[trigger] model.tracks[t].lanes().contains_key(
            key,
        ) implies false by {
        assert(lanes_owned(model, lanes_of(model, t)));
        assert(lanes_of(model, t).contains_key(key));
        let clips = lanes_of(model, t)[key];
        assert(lane_owned(model, key, clips));
        assert(model.actions.has(clips[0].id));
        assert(actions_in(studio, id).contains(clips[0].id));
    }
    assert forall|t: int, subject: Subject, field: UntypedField|
        (#[trigger] listed(Seq::<Shown>::empty(), t, subject, field)).len() <= 0 by {
        none_listed(Seq::<Shown>::empty(), t, subject, field);
    }
}

/// More tracks show no more.
proof fn growing_shows(
    id: TimelineId,
    count: usize,
    before: StudioModel,
    after: StudioModel,
    shown: Seq<Shown>,
)
    requires
        before.timelines.contains_key(id),
        neat(before.timelines[id]),
        shows(before, id, shown),
        tracks_ensured(id, count, before, after),
    ensures
        after.timelines.contains_key(id),
        neat(after.timelines[id]),
        shows(after, id, shown),
{
    let (a, b) = (before.timelines[id], after.timelines[id]);
    assert(after.edits_of(id) == before.edits_of(id));
    assert(b.actions == a.actions);
    assert forall|t: int, key: ActionKey|
        0 <= t < b.tracks.len() && #[trigger] b.tracks[t].lanes().contains_key(key) implies {
        &&& t < a.tracks.len()
        &&& a.tracks[t] == b.tracks[t]
        &&& a.tracks[t].lanes().contains_key(key)
        &&& owner_of(b, key) == owner_of(a, key)
        &&& shown_lane(after, id, b.tracks[t].lanes()[key]) == shown_lane(
            before,
            id,
            b.tracks[t].lanes()[key],
        )
    } by {
        if t >= a.tracks.len() {
            assert(is_empty_track(b.tracks[t]));
        } else {
            assert(b.tracks.take(a.tracks.len() as int)[t] == a.tracks[t]);
        }
        assert(shown_lane(after, id, b.tracks[t].lanes()[key]) =~= shown_lane(
            before,
            id,
            b.tracks[t].lanes()[key],
        ));
    }
    assert(neat(b)) by {
        assert forall|t: int, key: ActionKey|
            0 <= t < b.tracks.len() && #[trigger] b.tracks[t].lanes().contains_key(
                key,
            ) implies lane_neat(b, key, b.tracks[t].lanes()[key]) by {
            assert(lane_neat(a, key, a.tracks[t].lanes()[key]));
            neat_lane_is_of_actions(a, b, key, a.tracks[t].lanes()[key]);
        }
        assert forall|p: ActionKey, q: ActionKey|
            {
                &&& #[trigger] b.actions.subjects.contains_key(slot_of(p))
                &&& #[trigger] b.actions.subjects.contains_key(slot_of(q))
                &&& owner_of(b, p) == owner_of(b, q)
            } implies slot_of(p) == slot_of(q) by {
            assert(owner_of(a, p) == owner_of(a, q));
        }
    }
    assert forall|t: int, subject: Subject, field: UntypedField|
        (#[trigger] listed(shown, t, subject, field)).len() > 0 implies has_lane(
        b,
        t,
        subject,
        field,
    ) by {
        assert(has_lane(a, t, subject, field));
        let key = choose|key: ActionKey| #[trigger]
            a.tracks[t].lanes().contains_key(key) && owner_of(a, key) == subject && key.field
                == field;
        assert(b.tracks.take(a.tracks.len() as int)[t] == a.tracks[t]);
        assert(b.tracks[t].lanes().contains_key(key));
    }
}

/// A lane is neat by the actions alone.
proof fn neat_lane_is_of_actions(
    a: TimelineModel,
    b: TimelineModel,
    key: ActionKey,
    clips: Seq<ActionClip>,
)
    requires
        lane_neat(a, key, clips),
        b.actions == a.actions,
    ensures
        lane_neat(b, key, clips),
{
    reveal(lane_neat);
}

/// A timeline that shows nothing is tended.
proof fn empty_is_tended(id: TimelineId, studio: StudioModel)
    requires
        studio.timelines.contains_key(id),
        neat(studio.timelines[id]),
        labels_owned(studio, id),
        shows(studio, id, Seq::empty()),
        tracks_laid_out(studio.timelines[id]),
    ensures
        studio_tended(studio, id),
{
    let model = studio.timelines[id];
    assert forall|t: int, key: ActionKey| #[trigger] lanes_of(model, t).contains_key(
        key,
    ) implies false by {
        assert(model.tracks[t].lanes().contains_key(key));
        let clips = model.tracks[t].lanes()[key];
        neat_clip(model, key, clips, 0);
        none_listed(Seq::<Shown>::empty(), t, owner_of(model, key), key.field);
        assert(shown_lane(studio, id, clips).len() == clips.len());
    }
}

/// Taking back what an import loaded and restoring what was there succeeds, and the
/// timeline shows what was snapshotted.
#[verifier::spinoff_prover]
#[verifier::rlimit(60)]
proof fn taking_back_shows<H: RemoteHost>(
    host: &H,
    id: TimelineId,
    ops: Seq<EditOp>,
    snapshot: Seq<EditOp>,
    shown: Seq<Shown>,
    ready: StudioModel,
    applied: StudioModel,
    results: Seq<OpResult>,
    forward: Seq<EditOp>,
    inverses: Seq<EditOp>,
    fault: Fault,
    after: StudioModel,
    incomplete: bool,
)
    requires
        reads_back(host),
        studio_tended(ready, id),
        actions_in(ready, id) == Set::<ActionId>::empty(),
        forall|i: int| 0 <= i < ops.len() ==> loads(#[trigger] ops[i]),
        stops_in(host, id, ops, ready, applied, results, forward, inverses, fault),
        all_tried(host, id, inverses.reverse() + snapshot, applied, after, incomplete),
        shown.len() == snapshot.len(),
        all_leave_room(shown),
        forall|i: int|
            0 <= i < snapshot.len() ==> op_describes(
                host,
                ready.catalog,
                ready.registry.remote@,
                #[trigger] snapshot[i],
                shown[i],
            ),
    ensures
        !incomplete,
        after.timelines.contains_key(id),
        neat(after.timelines[id]),
        shows(after, id, shown),
{
    let between = choose|between: StudioModel| #[trigger]
        stopped_at(
            host,
            id,
            ops,
            ready,
            between,
            applied,
            results,
            forward,
            inverses,
            fault,
        );
    let k = results.len() as int;
    let front = ops.take(k);
    let trace = choose|trace: Seq<StudioModel>|
        {
            &&& #[trigger] ops_run(host, id, front, trace, results, inverses)
            &&& trace.first() == ready
            &&& trace.last() == between
        };
    assert(trace[0] == ready);
    assert forall|i: int| 0 <= i < front.len() implies loads(#[trigger] front[i]) by {
        assert(front[i] == ops[i]);
    }
    inserts_stay_tended(host, id, front, trace, results, inverses, k);
    assert(run_failed(host, id, ops[k], between, applied, fault));
    assert(loads(ops[k]));
    inserting_stays_tended(host, id, ops[k], between, applied, Err(fault));
    let tried = inverses.reverse() + snapshot;
    let (back, failed) = choose|back: Seq<StudioModel>, failed: Seq<bool>|
        {
            &&& #[trigger] ops_tried(host, id, tried, back, failed)
            &&& failed.len() == tried.len()
            &&& back.first() == applied
            &&& back.last() == after
            &&& incomplete == failed.contains(true)
        };
    assert(back[0] == applied);
    assert forall|i: int| 0 <= i < inverses.len() implies takes_out(
        applied,
        id,
        #[trigger] inverses[i],
    ) by {
        assert(takes_out(between, id, inverses[i]));
    }
    removes_take_back(host, id, trace, results, inverses, tried, back, failed, k);
    without_actions_shows_none(id, back[k]);
    let rest = back.skip(k);
    let outcomes = Seq::new(
        snapshot.len(),
        |i: int|
            choose|result: Applied|
                #[trigger] op_applied(host, id, snapshot[i], rest[i], rest[i + 1], result)
                    && failed[k + i] == (result is Err),
    );
    assert forall|i: int| 0 <= i < snapshot.len() implies op_applied(
        host,
        id,
        #[trigger] snapshot[i],
        rest[i],
        rest[i + 1],
        outcomes[i],
    ) by {
        assert(tried[k + i] == snapshot[i]);
        assert(op_tried(host, id, tried[k + i], back[k + i], back[k + i + 1], failed[k + i]));
    }
    assert(ops_follow(host, id, snapshot, rest, outcomes));
    let n = snapshot.len() as int;
    inserting_all_shows(host, id, snapshot, shown, rest, outcomes, n);
    assert(shown.take(n) =~= shown);
    assert(rest[n] == after);
    assert forall|i: int| 0 <= i < failed.len() implies !#[trigger] failed[i] by {
        if i >= k {
            assert(tried[i] == snapshot[i - k]);
            assert(op_tried(host, id, tried[i], back[i], back[i + 1], failed[i]));
            assert(outcomes[i - k] is Ok);
        }
    }
}

/// Loading that was refused is taken back completely, and leaves the timeline
/// showing what it showed.
proof fn refused_loading_restores<H: RemoteHost>(
    host: &H,
    id: TimelineId,
    track_count: usize,
    ops: Seq<EditOp>,
    markers: Seq<(String, Marker)>,
    before: StudioModel,
    after: StudioModel,
    fault: Fault,
)
    requires
        reads_back(host),
        restorable(before, id),
        forall|taken: StudioModel, snapshot: Seq<EditOp>|
            #[trigger] all_snapshotted(host, id, before, taken, Ok(snapshot)) ==> all_insert(
                snapshot,
            ),
        forall|i: int| 0 <= i < ops.len() ==> loads(#[trigger] ops[i]),
        loaded(host, id, true, track_count, ops, markers, before, after, Err(fault)),
    ensures
        fault matches Fault::At { rollback_incomplete, .. } ==> !rollback_incomplete,
        shows_alike(before, id, after, id),
{
    let (snapshot, cleared, ready, results, forward, inverses, failure, applied, marked) = choose|
        snapshot: Result<Seq<EditOp>, Fault>,
        cleared: StudioModel,
        ready: StudioModel,
        results: Seq<OpResult>,
        forward: Seq<EditOp>,
        inverses: Seq<EditOp>,
        failure: Option<Fault>,
        applied: StudioModel,
        marked: StudioModel,
    | #[trigger]
        load_stepped(
            host,
            id,
            true,
            track_count,
            ops,
            markers,
            before,
            snapshot,
            cleared,
            ready,
            results,
            forward,
            inverses,
            failure,
            applied,
            marked,
            after,
            Err(fault),
        );
    let (taken, outcome, inverse) = choose|taken: StudioModel, outcome: OpResult, inverse: EditOp|
        #[trigger]
        made_ready(host, id, true, before, taken, snapshot, cleared, outcome, inverse);
    snapshots_are_taken(host, id, before, taken, snapshot);
    let restored = snapshot->Ok_0;
    let shown = all_shown(before, id);
    assert(all_snapshotted(host, id, before, taken, Ok(restored)));
    snapshots_describe_all(host, id, before, taken, restored);
    all_shown_leave_room(before, id);
    timelines_show_all(before, id);
    cleared_shows_none(id, track_count, taken, cleared, ready, outcome, inverse);
    empty_is_tended(id, ready);
    assert(actions_in(ready, id) =~= Set::<ActionId>::empty());
    taking_back_shows(
        host,
        id,
        ops,
        restored,
        shown,
        ready,
        applied,
        results,
        forward,
        inverses,
        failure->0,
        marked,
        fault->rollback_incomplete,
    );
    growing_shows(id, tracks_of(before, id), marked, after, shown);
    same_clips_show_alike(before, id, after, id, shown);
}

/// An import in place of what is there that is refused is taken back completely,
/// and leaves the timeline showing what it showed. This is for hosts that read what
/// they wrote, and for timelines of which every clip can be restored.
pub proof fn refused_imports_restore<H: RemoteHost>(
    host: &H,
    p: &ImportParams,
    before: StudioModel,
    after: StudioModel,
    fault: Fault,
)
    requires
        reads_back(host),
        restorable(before, TimelineId { raw: p.id }),
        forall|taken: StudioModel, snapshot: Seq<EditOp>|
            #[trigger] all_snapshotted(
                host,
                TimelineId { raw: p.id },
                before,
                taken,
                Ok(snapshot),
            ) ==> all_insert(snapshot),
        replaces(p.mode) == Ok::<bool, Fault>(true),
        imported(host, *p, before, after, Err(fault)),
    ensures
        fault matches Fault::At { rollback_incomplete, .. } ==> !rollback_incomplete,
        shows_alike(before, TimelineId { raw: p.id }, after, TimelineId { raw: p.id }),
{
    let id = TimelineId { raw: p.id };
    if after == before {
        timelines_show_all(before, id);
        same_clips_show_alike(before, id, before, id, all_shown(before, id));
    }
    if opened(*p) is Ok {
        let (entities, plan, checked) = choose|
            entities: Vec<NamedEntity>,
            plan: Result<Seq<EditOp>, Fault>,
            checked: Result<(), Fault>,
        | #[trigger]
            import_stepped(host, *p, true, entities, plan, checked, before, after, Err(fault));
        if plan is Ok && checked is Ok {
            let ops = plan->Ok_0;
            assert forall|i: int| 0 <= i < ops.len() implies loads(#[trigger] ops[i]) by {}
            refused_loading_restores(
                host,
                id,
                p.document.tracks@.len() as usize,
                ops,
                p.document.markers@,
                before,
                after,
                fault,
            );
        }
    }
}

} // verus!
