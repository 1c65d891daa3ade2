//! Which actions a move of the playhead marks.
use crate::action::world::{marked, unmarked, ActionModel};
use crate::action::{ActionClip, ActionId, ActionKey, ActionRecord, SampleMode};
use crate::pipeline::marked_apart;
use crate::timeline::queue::{
    are_picks, arrived, is_pick, is_place, jump_visits, leaving_visits, moved_range, pass_visits,
    pick, pick_visits, queued, queued_all, Queued, Visit,
};
use crate::timeline::TimelineModel;
use crate::track::{Span, Track};
use vstd::prelude::*;

verus! {

/// What a move picks of a sequence.
pub type Picked = Option<(ActionId, SampleMode)>;

/// The last of the visits of a sequence.
pub open spec fn last_visit(visits: Seq<Visit>, key: ActionKey) -> Picked
    decreases visits.len(),
{
    if visits.len() == 0 {
        None
    } else if visits.last().key == key {
        Some((visits.last().id, visits.last().mode))
    } else {
        last_visit(visits.drop_last(), key)
    }
}

/// Whether the visited actions are those of their sequences.
pub open spec fn visits_keyed(model: ActionModel, visits: Seq<Visit>) -> bool {
    forall|i: int|
        0 <= i < visits.len() && model.actions.contains_key((#[trigger] visits[i]).id)
            ==> model.actions[visits[i].id].key == visits[i].key
}

/// The mark of an action after visits.
pub open spec fn mark_after(model: ActionModel, visits: Seq<Visit>, id: ActionId) -> Option<
    SampleMode,
> {
    match last_visit(visits, model.actions[id].key) {
        Some((last, mode)) => if last == id {
            Some(mode)
        } else {
            None
        },
        None => None,
    }
}

/// The world with the marks that visits leave.
pub open spec fn marked_after(model: ActionModel, visits: Seq<Visit>) -> ActionModel {
    ActionModel {
        actions: Map::new(
            |id: ActionId| model.actions.contains_key(id),
            |id: ActionId| ActionRecord {
                mark: mark_after(model, visits, id),
                ..model.actions[id]
            },
        ),
        ..model
    }
}

/// The last visited action of a sequence is one of it.
proof fn last_is_keyed(model: ActionModel, visits: Seq<Visit>, key: ActionKey)
    requires
        visits_keyed(model, visits),
    ensures
        last_visit(visits, key) matches Some((id, _)) ==> (model.actions.contains_key(id)
            ==> model.actions[id].key == key),
    decreases visits.len(),
{
    if visits.len() > 0 {
        let front = visits.drop_last();
        assert forall|i: int|
            0 <= i < front.len() && model.actions.contains_key(
                (#[trigger] front[i]).id,
            ) implies model.actions[front[i].id].key == front[i].key by {
            assert(front[i] == visits[i]);
        }
        last_is_keyed(model, front, key);
        assert(visits[visits.len() - 1] == visits.last());
    }
}

/// Visits leave the last one of each sequence in the queue, and only those
/// marked.
pub proof fn visits_mark_the_last(model: ActionModel, visits: Seq<Visit>)
    requires
        visits_keyed(model, visits),
    ensures
        ({
            let state = queued_all((Map::empty(), unmarked(model)), visits);
            &&& state.1 == marked_after(model, visits)
            &&& forall|key: ActionKey| #[trigger]
                state.0.contains_key(key) <==> last_visit(visits, key) is Some
            &&& forall|key: ActionKey| #[trigger]
                state.0.contains_key(key) ==> (last_visit(visits, key) matches Some((id, _))
                    && state.0[key] == id)
        }),
    decreases visits.len(),
{
    let start: Queued = (Map::empty(), unmarked(model));
    let state = queued_all(start, visits);
    if visits.len() == 0 {
        assert(state.1 =~= marked_after(model, visits));
    } else {
        let front = visits.drop_last();
        let visit = visits.last();
        assert forall|i: int|
            0 <= i < front.len() && model.actions.contains_key(
                (#[trigger] front[i]).id,
            ) implies model.actions[front[i].id].key == front[i].key by {
            assert(front[i] == visits[i]);
        }
        visits_mark_the_last(model, front);
        assert(visits[visits.len() - 1] == visit);
        last_is_keyed(model, front, visit.key);
        let before = queued_all(start, front);
        assert(state == queued(before, visit));
        assert forall|id: ActionId| #[trigger] state.1.actions.contains_key(
            id,
        ) implies state.1.actions[id] == marked_after(model, visits).actions[id] by {
            let key = model.actions[id].key;
            last_is_keyed(model, front, key);
            if key != visit.key {
                assert(last_visit(visits, key) == last_visit(front, key));
            }
        }
        assert(state.1.actions =~= marked_after(model, visits).actions);
    }
}

/// Visits leave no two actions of one sequence marked.
pub proof fn visits_mark_apart(model: ActionModel, visits: Seq<Visit>)
    requires
        visits_keyed(model, visits),
    ensures
        marked_apart(queued_all((Map::empty(), unmarked(model)), visits).1),
{
    visits_mark_the_last(model, visits);
}

/// The last visit of two parts is the last of the later one, if it has one.
pub proof fn last_of_parts(a: Seq<Visit>, b: Seq<Visit>, key: ActionKey)
    ensures
        last_visit(a + b, key) == if last_visit(b, key) is Some {
            last_visit(b, key)
        } else {
            last_visit(a, key)
        },
    decreases b.len(),
{
    if b.len() == 0 {
        assert(a + b =~= a);
    } else {
        assert((a + b).drop_last() =~= a + b.drop_last());
        last_of_parts(a, b.drop_last(), key);
    }
}

/// A visit of a sequence that no other one visits is the last one.
proof fn only_visit_is_last(visits: Seq<Visit>, i: int)
    requires
        0 <= i < visits.len(),
        forall|j: int| 0 <= j < visits.len() && j != i ==> (#[trigger] visits[j]).key
            != visits[i].key,
    ensures
        last_visit(visits, visits[i].key) == Some((visits[i].id, visits[i].mode)),
    decreases visits.len(),
{
    if i < visits.len() - 1 {
        let front = visits.drop_last();
        assert(visits[visits.len() - 1].key != visits[i].key);
        assert forall|j: int| 0 <= j < front.len() && j != i implies (#[trigger] front[j]).key
            != front[i].key by {
            assert(front[j] == visits[j]);
        }
        only_visit_is_last(front, i);
    }
}

/// A sequence that is not visited has no last visit.
proof fn unvisited_has_no_last(visits: Seq<Visit>, key: ActionKey)
    requires
        forall|j: int| 0 <= j < visits.len() ==> (#[trigger] visits[j]).key != key,
    ensures
        last_visit(visits, key) is None,
    decreases visits.len(),
{
    if visits.len() > 0 {
        let front = visits.drop_last();
        assert(visits[visits.len() - 1].key != key);
        assert forall|j: int| 0 <= j < front.len() implies (#[trigger] front[j]).key != key by {
            assert(front[j] == visits[j]);
        }
        unvisited_has_no_last(front, key);
    }
}

/// What is visited last of a sequence on a track that the playhead passes.
pub open spec fn passed(track: Track, forwards: bool, key: ActionKey) -> Picked {
    if track.lanes().contains_key(key) {
        let clips = track.lanes()[key];
        Some(
            if forwards {
                (clips.last().id, SampleMode::End)
            } else {
                (clips.first().id, SampleMode::Start)
            },
        )
    } else {
        None
    }
}

/// Passing a track visits the sequences of its lanes.
proof fn passing_visits_lanes(track: Track, forwards: bool, key: ActionKey)
    requires
        track.laid_out(),
    ensures
        last_visit(pass_visits(track, forwards), key) == passed(track, forwards, key),
{
    let visits = pass_visits(track, forwards);
    if track.lanes().contains_key(key) {
        let i = choose|i: int|
            0 <= i < track.spans().len() && (#[trigger] track.spans()[i]).0 == key;
        track.lane_at(i);
        assert(visits[i].key == key);
        assert forall|j: int| 0 <= j < visits.len() && j != i implies (#[trigger] visits[j]).key
            != visits[i].key by {
            if i < j {
                assert(track.spans()[i].0 != track.spans()[j].0);
            } else {
                assert(track.spans()[j].0 != track.spans()[i].0);
            }
        }
        only_visit_is_last(visits, i);
    } else {
        assert forall|j: int| 0 <= j < visits.len() implies (#[trigger] visits[j]).key != key by {
            assert(track.spans()[j].0 == visits[j].key);
        }
        unvisited_has_no_last(visits, key);
    }
}

/// What is visited last of a sequence on the tracks from `from` up to `to`.
pub open spec fn jumped(
    tracks: Seq<Track>,
    from: int,
    to: int,
    forwards: bool,
    key: ActionKey,
) -> Picked
    decreases to - from,
{
    if from >= to {
        None
    } else if passed(tracks[to - 1], forwards, key) is Some {
        passed(tracks[to - 1], forwards, key)
    } else {
        jumped(tracks, from, to - 1, forwards, key)
    }
}

/// Whether the tracks are laid out, and their clips are of actions of their lanes.
pub open spec fn keyed(model: TimelineModel) -> bool {
    forall|t: int| 0 <= t < model.tracks.len() ==> track_keyed(model.actions, #[trigger] model.tracks[t])
}

/// Whether a track is laid out, and its clips are of actions of their lanes.
pub open spec fn track_keyed(actions: ActionModel, track: Track) -> bool {
    &&& track.laid_out()
    &&& forall|key: ActionKey| #[trigger]
        track.lanes().contains_key(key) ==> lane_keyed(actions, key, track.lanes()[key])
}

/// Whether clips are of actions of a key, and there is one.
pub open spec fn lane_keyed(actions: ActionModel, key: ActionKey, clips: Seq<ActionClip>) -> bool {
    &&& clips.len() > 0
    &&& forall|i: int|
        0 <= i < clips.len() && actions.actions.contains_key((#[trigger] clips[i]).id)
            ==> actions.actions[clips[i].id].key == key
}

/// Passing tracks visits the sequences of their lanes.
proof fn jumping_visits_lanes(
    model: TimelineModel,
    from: int,
    to: int,
    forwards: bool,
    key: ActionKey,
)
    requires
        keyed(model),
        0 <= from,
        to <= model.tracks.len(),
    ensures
        last_visit(jump_visits(model.tracks, from, to, forwards), key) == jumped(
            model.tracks,
            from,
            to,
            forwards,
            key,
        ),
        visits_keyed(model.actions, jump_visits(model.tracks, from, to, forwards)),
    decreases to - from,
{
    if from < to {
        let track = model.tracks[to - 1];
        let front = jump_visits(model.tracks, from, to - 1, forwards);
        let last = pass_visits(track, forwards);
        assert(track_keyed(model.actions, track));
        jumping_visits_lanes(model, from, to - 1, forwards, key);
        passing_visits_lanes(track, forwards, key);
        last_of_parts(front, last, key);
        let all = front + last;
        assert forall|i: int|
            0 <= i < all.len() && model.actions.actions.contains_key(
                (#[trigger] all[i]).id,
            ) implies model.actions.actions[all[i].id].key == all[i].key by {
            if i < front.len() {
                assert(all[i] == front[i]);
            } else {
                let j = i - front.len();
                assert(all[i] == last[j]);
                track.lane_at(j);
                let clips = track.clips_in(track.spans()[j].1);
                assert(lane_keyed(model.actions, track.spans()[j].0, clips));
                assert(clips[0] == clips.first());
                assert(clips[clips.len() - 1] == clips.last());
            }
        }
    }
}

/// What is picked of a sequence.
pub open spec fn picked_of(
    spans: Seq<(ActionKey, Span)>,
    picks: Seq<Picked>,
    key: ActionKey,
) -> Picked
    decreases picks.len(),
{
    if picks.len() == 0 {
        None
    } else if spans[picks.len() - 1].0 == key && picks.last() is Some {
        picks.last()
    } else {
        picked_of(spans, picks.drop_last(), key)
    }
}

/// Picks are visits of their sequences.
proof fn picking_visits(spans: Seq<(ActionKey, Span)>, picks: Seq<Picked>, key: ActionKey)
    ensures
        last_visit(pick_visits(spans, picks), key) == picked_of(spans, picks, key),
    decreases picks.len(),
{
    if picks.len() > 0 {
        let front = picks.drop_last();
        picking_visits(spans, front, key);
        let before = pick_visits(spans, front);
        match picks.last() {
            Some((id, mode)) => {
                let visit = Visit { key: spans[picks.len() - 1].0, id, mode };
                assert(before.push(visit).drop_last() =~= before);
            },
            None => {},
        }
    }
}

/// A pick is of one of the clips.
pub proof fn pick_is_of_clip(
    clips: Seq<ActionClip>,
    range: crate::pipeline::Range,
    time: crate::time::Ticks,
    picked: Picked,
) -> (i: int)
    requires
        clips.len() > 0,
        is_pick(clips, range, time, picked),
    ensures
        0 <= i < clips.len(),
        picked matches Some((id, _)) ==> clips[i].id == id,
{
    let found = choose|found: Result<usize, usize>| #[trigger]
        is_place(clips, time, found) && picked == pick(clips, range, time, found);
    match found {
        Ok(index) => index as int,
        Err(index) => if index > 0 {
            index - 1
        } else {
            0
        },
    }
}

/// Visits of the picks of a keyed track are keyed.
proof fn picks_are_keyed(
    model: TimelineModel,
    picks: Seq<Picked>,
    n: int,
)
    requires
        keyed(model),
        model.target_index < model.tracks.len(),
        are_picks(model, picks),
        0 <= n <= picks.len(),
    ensures
        visits_keyed(
            model.actions,
            pick_visits(model.tracks[model.target_index as int].spans(), picks.take(n)),
        ),
    decreases n,
{
    if n > 0 {
        let track = model.tracks[model.target_index as int];
        let spans = track.spans();
        picks_are_keyed(model, picks, n - 1);
        let some = picks.take(n);
        assert(some.drop_last() =~= picks.take(n - 1));
        assert(some.last() == picks[n - 1]);
        assert(track_keyed(model.actions, track));
        track.lane_at(n - 1);
        let clips = track.clips_in(spans[n - 1].1);
        assert(lane_keyed(model.actions, spans[n - 1].0, clips));
        let i = pick_is_of_clip(clips, moved_range(model), model.target_time, picks[n - 1]);
        let before = pick_visits(spans, picks.take(n - 1));
        match picks[n - 1] {
            Some((id, mode)) => {
                assert(clips[i].id == id);
                let all = before.push(Visit { key: spans[n - 1].0, id, mode });
                assert(pick_visits(spans, some) == all);
                assert forall|j: int|
                    0 <= j < all.len() && model.actions.actions.contains_key(
                        (#[trigger] all[j]).id,
                    ) implies model.actions.actions[all[j].id].key == all[j].key by {
                    if j < before.len() {
                        assert(all[j] == before[j]);
                    }
                }
            },
            None => {},
        }
    }
}

/// What is visited last of a sequence when the playhead arrives: what is picked of
/// it on the target track, or else what the playhead passed on its way.
pub open spec fn arrival(model: TimelineModel, picks: Seq<Picked>, key: ActionKey) -> Picked {
    let here = picked_of(model.tracks[model.target_index as int].spans(), picks, key);
    if here is Some {
        here
    } else if model.target_index > model.curr_index {
        jumped(model.tracks, model.curr_index as int, model.target_index as int, true, key)
    } else {
        jumped(model.tracks, model.target_index + 1, model.curr_index + 1, false, key)
    }
}

/// The mark of an action when the playhead arrived.
pub open spec fn arrival_mark(model: TimelineModel, picks: Seq<Picked>, id: ActionId) -> Option<
    SampleMode,
> {
    match arrival(model, picks, model.actions.actions[id].key) {
        Some((last, mode)) => if last == id {
            Some(mode)
        } else {
            None
        },
        None => None,
    }
}

/// Where the clips of tracks are of actions of their lanes, the playhead leaves
/// exactly the last visited action of each sequence marked.
pub proof fn arriving_marks(model: TimelineModel, picks: Seq<Picked>)
    requires
        model.playable(),
        keyed(model),
        are_picks(model, picks),
    ensures
        marked_apart(arrived(model, picks).actions),
        arrived(model, picks).actions.subjects == model.actions.subjects,
        arrived(model, picks).actions.known == model.actions.known,
        arrived(model, picks).actions.baselines == model.actions.baselines,
        arrived(model, picks).actions.actions.dom() == model.actions.actions.dom(),
        forall|id: ActionId|
            model.actions.has(id) ==> #[trigger] arrived(model, picks).actions.actions[id] == (
            ActionRecord { mark: arrival_mark(model, picks, id), ..model.actions.actions[id] }),
{
    let spans = model.tracks[model.target_index as int].spans();
    let leaving = leaving_visits(model);
    let picking = pick_visits(spans, picks);
    let visits = leaving + picking;
    let (from, to, forwards) = if model.target_index > model.curr_index {
        (model.curr_index as int, model.target_index as int, true)
    } else {
        (model.target_index + 1, model.curr_index + 1, false)
    };
    picks_are_keyed(model, picks, picks.len() as int);
    assert(picks.take(picks.len() as int) =~= picks);
    assert(visits_keyed(model.actions, leaving)) by {
        let key = model.queue.dom().choose();
        jumping_visits_lanes(model, from, to, forwards, key);
    }
    assert forall|i: int|
        0 <= i < visits.len() && model.actions.actions.contains_key(
            (#[trigger] visits[i]).id,
        ) implies model.actions.actions[visits[i].id].key == visits[i].key by {
        if i < leaving.len() {
            assert(visits[i] == leaving[i]);
        } else {
            assert(visits[i] == picking[i - leaving.len()]);
        }
    }
    visits_mark_the_last(model.actions, visits);
    visits_mark_apart(model.actions, visits);
    let after = arrived(model, picks).actions;
    assert(after == marked_after(model.actions, visits));
    assert(after.actions.dom() =~= model.actions.actions.dom());
    assert forall|id: ActionId| model.actions.has(id) implies #[trigger] after.actions[id] == (
    ActionRecord { mark: arrival_mark(model, picks, id), ..model.actions.actions[id] }) by {
        let key = model.actions.actions[id].key;
        jumping_visits_lanes(model, from, to, forwards, key);
        picking_visits(spans, picks, key);
        last_of_parts(leaving, picking, key);
    }
}

} // verus!
