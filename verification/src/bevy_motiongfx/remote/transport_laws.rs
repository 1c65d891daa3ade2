//! What requests to timelines and their players do.
use crate::bevy_motiongfx::manager::TimelineId;
use crate::bevy_motiongfx::remote::fault::Fault;
use crate::bevy_motiongfx::remote::studio::StudioModel;
use crate::bevy_motiongfx::remote::transport::{
    all_states, created, first_slot, lists_states, player_changed, player_of, renamed, seek_applied,
    slot_dropped, state_of, CreateParams, PlayerSlot, SeekParams, TimelineState,
};
use crate::time::Ticks;
use crate::timeline::TimelineModel;
use crate::action::{ActionId, ActionKey};
use vstd::prelude::*;

verus! {

/// Whether a playhead was sent to a track: that one, or the last one where there are
/// fewer.
pub open spec fn sent_to_track(model: TimelineModel, track: usize) -> bool {
    &&& track < model.tracks.len() ==> model.target_index == track
    &&& track >= model.tracks.len() ==> model.target_index == model.tracks.len() - 1
}

/// Whether a playhead was sent to a time of its target track: that one, or the end of
/// the track that is nearer.
pub open spec fn sent_to_time(model: TimelineModel, time: Ticks) -> bool {
    let duration = model.tracks[model.target_index as int].duration();
    &&& 0 <= time <= duration ==> model.target_time == time
    &&& time <= 0 ==> model.target_time == 0
    &&& time >= duration ==> model.target_time == duration
}

/// Seeking sends the playhead to the track and the time that are asked for, or to those
/// of the marker, and to nothing that is not. Nothing else changes, and what is told is
/// where it was sent.
pub proof fn seeks_go_where_asked(
    p: SeekParams,
    slots: Seq<PlayerSlot>,
    before: StudioModel,
    after: StudioModel,
    state: TimelineState,
)
    requires
        seek_applied(p, slots, before, after, Ok(state)),
        before.timelines.contains_key(TimelineId { raw: p.id }) ==> before.timelines[TimelineId {
            raw: p.id,
        }].playable() && before.timelines[TimelineId { raw: p.id }].forward() && before.timelines[TimelineId {
            raw: p.id,
        }].tracks.len() <= usize::MAX,
    ensures
        ({
            let id = TimelineId { raw: p.id };
            let (a, b) = (before.timelines[id], after.timelines[id]);
            let markers = before.edits_of(id).markers;
            &&& before.timelines.contains_key(id)
            &&& p.marker is None ==> {
                &&& p.track matches Some(track) ==> sent_to_track(b, track)
                &&& p.time matches Some(time) ==> sent_to_time(b, time)
                &&& p.track is None ==> b.target_index == a.target_index
                &&& p.time is None ==> b.target_time == a.target_time
            }
            &&& p.marker matches Some(name) ==> {
                &&& markers.contains_key(name@)
                &&& sent_to_track(b, markers[name@].track)
                &&& sent_to_time(b, markers[name@].time)
            }
            &&& b == (TimelineModel {
                target_time: b.target_time,
                target_index: b.target_index,
                ..a
            })
            &&& after.timelines == before.timelines.insert(id, b)
            &&& after.edits == before.edits
            &&& state.id == p.id
            &&& state.target_time == b.target_time
            &&& state.target_track == b.target_index
            &&& state.curr_time == a.curr_time
            &&& state.curr_track == a.curr_index
        }),
{
    let id = TimelineId { raw: p.id };
    let a = before.timelines[id];
    assert forall|i: int| 0 <= i < a.tracks.len() implies (#[trigger] a.tracks[i]).duration()
        >= 0 by {}
}

/// Seeking is refused for three reasons only: there is no such timeline, there is no such
/// marker, or a marker is asked for beside a time or a track. Then nothing changes.
pub proof fn refused_seeks_have_a_reason(
    p: SeekParams,
    slots: Seq<PlayerSlot>,
    before: StudioModel,
    after: StudioModel,
    result: Result<TimelineState, Fault>,
)
    requires
        seek_applied(p, slots, before, after, result),
    ensures
        ({
            let id = TimelineId { raw: p.id };
            let beside = p.marker is Some && (p.time is Some || p.track is Some);
            let unknown = p.marker matches Some(name) && !before.edits_of(id).markers.contains_key(
                name@,
            );
            &&& result is Err <==> beside || unknown || !before.timelines.contains_key(id)
            &&& result is Err ==> after == before
            &&& beside ==> result == Err::<TimelineState, Fault>(Fault::MarkerExclusive)
            &&& !beside && unknown ==> result == Err::<TimelineState, Fault>(
                Fault::NoMarker { name: p.marker->0, id: p.id },
            )
            &&& !beside && !unknown && result is Err ==> result == Err::<TimelineState, Fault>(
                Fault::NoTimeline { id: p.id },
            )
        }),
{
}

/// The entity that stands for a timeline is the first one with its id.
pub proof fn slots_are_found_first(slots: Seq<PlayerSlot>, id: u64)
    ensures
        match first_slot(slots, id) {
            Some(i) => {
                &&& 0 <= i < slots.len()
                &&& slots[i].id == id
                &&& forall|j: int| 0 <= j < i ==> (#[trigger] slots[j]).id != id
            },
            None => forall|j: int| 0 <= j < slots.len() ==> (#[trigger] slots[j]).id != id,
        },
    decreases slots.len(),
{
    if slots.len() > 0 {
        let front = slots.drop_last();
        slots_are_found_first(front, id);
        assert(slots[slots.len() - 1] == slots.last());
        assert forall|j: int| 0 <= j < front.len() implies #[trigger] slots[j] == front[j] by {}
    }
}

/// The first entity of a timeline stays the first one where ids stay.
proof fn first_stays(a: Seq<PlayerSlot>, b: Seq<PlayerSlot>, id: u64)
    requires
        a.len() == b.len(),
        forall|j: int| 0 <= j < a.len() ==> (#[trigger] b[j]).id == a[j].id,
    ensures
        first_slot(a, id) == first_slot(b, id),
{
    slots_are_found_first(a, id);
    slots_are_found_first(b, id);
    match (first_slot(a, id), first_slot(b, id)) {
        (Some(i), Some(j)) => {
            if i < j {
                assert(b[i].id != id);
            } else if j < i {
                assert(a[j].id != id);
                assert(b[j].id == a[j].id);
            }
        },
        (Some(i), None) => {
            assert(b[i].id != id);
        },
        (None, Some(j)) => {
            assert(a[j].id != id);
            assert(b[j].id == a[j].id);
        },
        (None, None) => {},
    }
}

/// Starting, stopping and scaling a player do that to the player of the timeline, leave
/// what is not asked for, and leave every other player alone. What is told is how it
/// then plays.
pub proof fn players_do_as_asked(
    studio: StudioModel,
    before: Seq<PlayerSlot>,
    after: Seq<PlayerSlot>,
    id: u64,
    playing: Option<bool>,
    time_scale: Option<u32>,
    state: TimelineState,
    other: u64,
)
    requires
        player_changed(studio, before, after, id, playing, time_scale, Ok(state)),
    ensures
        player_of(before, id) is Some,
        player_of(after, id) is Some,
        ({
            let (a, b) = (player_of(before, id)->0, player_of(after, id)->0);
            &&& playing matches Some(asked) ==> b.is_playing == asked
            &&& playing is None ==> b.is_playing == a.is_playing
            &&& time_scale matches Some(asked) ==> b.time_scale == asked
            &&& time_scale is None ==> b.time_scale == a.time_scale
            &&& state.is_playing == Some(b.is_playing)
            &&& state.time_scale == Some(b.time_scale)
        }),
        state.id == id,
        after.len() == before.len(),
        forall|j: int| 0 <= j < before.len() ==> (#[trigger] after[j]).id == before[j].id,
        other != id ==> player_of(after, other) == player_of(before, other),
{
    slots_are_found_first(before, id);
    slots_are_found_first(before, other);
    first_stays(before, after, id);
    first_stays(before, after, other);
}

/// The entities that are left when a timeline is dropped are all but the first one that
/// stands for it, in their order.
pub proof fn dropping_drops_one(slots: Seq<PlayerSlot>, id: u64, other: u64)
    ensures
        first_slot(slots, id) is None ==> slot_dropped(slots, id) == slots,
        first_slot(slots, id) is Some ==> slot_dropped(slots, id).len() == slots.len() - 1,
        other != id ==> player_of(slot_dropped(slots, id), other) == player_of(slots, other),
{
    slots_are_found_first(slots, id);
    slots_are_found_first(slots, other);
    let left = slot_dropped(slots, id);
    slots_are_found_first(left, other);
    if first_slot(slots, id) is Some && other != id {
        let i = first_slot(slots, id)->0;
        match (first_slot(slots, other), first_slot(left, other)) {
            (Some(j), Some(k)) => {
                let moved = if j < i {
                    j
                } else {
                    j - 1
                };
                assert(left[moved] == slots[j]);
                let back = if k < i {
                    k
                } else {
                    k + 1
                };
                assert(slots[back] == left[k]);
                if moved < k {
                    assert(left[moved].id != other);
                }
                if back < j {
                    assert(slots[back].id != other);
                }
            },
            (Some(j), None) => {
                let moved = if j < i {
                    j
                } else {
                    j - 1
                };
                assert(left[moved] == slots[j]);
                assert(left[moved].id != other);
            },
            (None, Some(k)) => {
                let back = if k < i {
                    k
                } else {
                    k + 1
                };
                assert(slots[back] == left[k]);
                assert(slots[back].id != other);
            },
            (None, None) => {},
        }
    }
}

/// A timeline that was created has the tracks that were asked for, one if none were, all
/// of them empty, and stands at their start with a player that does not play, unless
/// none was asked for. It has the name that was asked for, unless that is empty. No
/// other timeline changes.
pub proof fn created_timelines_are_as_asked(
    p: CreateParams,
    before: StudioModel,
    after: StudioModel,
    slots: Seq<PlayerSlot>,
    new_slots: Seq<PlayerSlot>,
    state: TimelineState,
    other: TimelineId,
)
    requires
        created(p, before, after, slots, new_slots, Ok(state)),
        first_slot(slots, before.next.raw) is None,
    ensures
        ({
            let model = after.timelines[before.next];
            &&& after.timelines.contains_key(before.next)
            &&& p.tracks matches Some(count) ==> model.tracks.len() == count && 1 <= count <= 1024
            &&& p.tracks is None ==> model.tracks.len() == 1
            &&& forall|t: int|
                0 <= t < model.tracks.len() ==> (#[trigger] model.tracks[t]).lanes().dom()
                    == Set::<ActionKey>::empty() && model.tracks[t].duration() == 0
            &&& model.actions.actions.dom() == Set::<ActionId>::empty()
            &&& model.curr_time == 0 && model.target_time == 0
            &&& model.curr_index == 0 && model.target_index == 0
            &&& p.player != Some(false) ==> player_of(new_slots, before.next.raw) is Some
                && !player_of(new_slots, before.next.raw)->0.is_playing
            &&& p.player == Some(false) ==> new_slots == slots
            &&& p.name is Some && p.name->0@.len() > 0 ==> after.edits_of(before.next).name
                == p.name
            &&& state.id == before.next.raw
            &&& state.track_count == model.tracks.len()
            &&& state.name == after.edits_of(before.next).name
        }),
        other != before.next ==> after.timelines.contains_key(other)
            == before.timelines.contains_key(other) && after.timelines[other]
            == before.timelines[other],
{
    let id = before.next.raw;
    assert(before.next == TimelineId { raw: id });
    slots_are_found_first(slots, id);
    slots_are_found_first(new_slots, id);
    if p.player != Some(false) {
        let last = new_slots.len() - 1;
        assert(new_slots[last].id == id);
        match first_slot(new_slots, id) {
            Some(i) => {
                if i < last {
                    assert(slots[i] == new_slots[i]);
                    assert(slots[i].id != id);
                }
            },
            None => {},
        }
    }
}

/// A timeline that is renamed has the name that was asked for, or none where that is empty.
/// Its clips, its markers and other timelines stay as they are, and it is a new version.
pub proof fn renaming_names_one(
    id: u64,
    name: Option<String>,
    slots: Seq<PlayerSlot>,
    before: StudioModel,
    after: StudioModel,
    state: TimelineState,
    other: TimelineId,
)
    requires
        renamed(id, name, slots, before, after, Ok(state)),
    ensures
        ({
            let tid = TimelineId { raw: id };
            let (had, has) = (before.edits_of(tid), after.edits_of(tid));
            &&& before.timelines.contains_key(tid)
            &&& name is Some && name->0@.len() > 0 ==> has.name == name
            &&& name is None || name->0@.len() == 0 ==> has.name is None
            &&& has.clip_meta == had.clip_meta && has.markers == had.markers
            &&& had.version < u64::MAX ==> has.version == had.version + 1
            &&& after.timelines == before.timelines
            &&& other != tid ==> after.edits_of(other) == before.edits_of(other)
            &&& state.id == id && state.name == has.name && state.version == has.version
        }),
{
}

/// Listing timelines tells of each of them once, where its playhead is and whether a player
/// plays it.
pub proof fn every_timeline_is_listed(
    studio: StudioModel,
    slots: Seq<PlayerSlot>,
    states: Seq<TimelineState>,
)
    requires
        all_states(studio, slots, states),
    ensures
        forall|id: TimelineId| #[trigger]
            studio.timelines.contains_key(id) ==> exists|i: int|
                0 <= i < states.len() && (#[trigger] states[i]).id == id.raw,
        forall|i: int|
            0 <= i < states.len() ==> is_state_of(studio, slots, #[trigger] states[i]),
        forall|i: int, j: int|
            0 <= i < j < states.len() ==> (#[trigger] states[i]).id != (#[trigger] states[j]).id,
{
    let ids = choose|ids: Seq<TimelineId>| #[trigger] lists_states(studio, slots, ids, states);
    assert forall|id: TimelineId| #[trigger] studio.timelines.contains_key(id) implies exists|
        i: int,
    |
        0 <= i < states.len() && (#[trigger] states[i]).id == id.raw by {
        assert(ids.contains(id));
        let i = choose|i: int| 0 <= i < ids.len() && ids[i] == id;
        assert(Some(states[i]) == state_of(studio, slots, ids[i].raw));
    }
    assert forall|i: int| 0 <= i < states.len() implies is_state_of(
        studio,
        slots,
        #[trigger] states[i],
    ) by {
        assert(ids.contains(ids[i]));
        assert(ids[i] == TimelineId { raw: ids[i].raw });
    }
    assert forall|i: int, j: int| 0 <= i < j < states.len() implies (#[trigger] states[i]).id != (
    #[trigger] states[j]).id by {
        assert(ids[i] != ids[j]);
        assert(Some(states[i]) == state_of(studio, slots, ids[i].raw));
        assert(Some(states[j]) == state_of(studio, slots, ids[j].raw));
    }
}

/// Whether a state tells of a timeline where its playhead is and is sent to, on which of how
/// many tracks, and what its player does, if it has one.
pub open spec fn is_state_of(
    studio: StudioModel,
    slots: Seq<PlayerSlot>,
    state: TimelineState,
) -> bool {
    let id = TimelineId { raw: state.id };
    let model = studio.timelines[id];
    &&& studio.timelines.contains_key(id)
    &&& state.name == studio.edits_of(id).name
    &&& state.version == studio.edits_of(id).version
    &&& state.curr_time == model.curr_time
    &&& state.target_time == model.target_time
    &&& state.curr_track == model.curr_index
    &&& state.target_track == model.target_index
    &&& state.is_playing is Some <==> player_of(slots, state.id) is Some
    &&& player_of(slots, state.id) matches Some(player) ==> state.is_playing == Some(
        player.is_playing,
    ) && state.time_scale == Some(player.time_scale)
}

} // verus!
